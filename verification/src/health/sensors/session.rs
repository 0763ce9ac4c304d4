//! A sensor of any layer, so that one registry holds all sensors of a session.
use vstd::prelude::*;
use crate::health::sensors::egfx::EgfxSensor;
use crate::health::sensors::encoder::EncoderSensor;
use crate::health::sensors::mutter::MutterSensor;
use crate::health::sensors::pipewire::PipeWireSensor;
use crate::health::sensors::portal::PortalSensor;
use crate::health::sensors::{
    HealthSensor, ProtocolLayer, SensorModel, SensorSnapshot, SignalDescriptor,
};

verus! {

/// A sensor of a session.
pub enum SessionSensor {
    Egfx(EgfxSensor),
    Encoder(EncoderSensor),
    PipeWire(PipeWireSensor),
    Portal(PortalSensor),
    Mutter(MutterSensor),
}

impl HealthSensor for SessionSensor {
    open spec fn model(&self) -> SensorModel {
        match self {
            SessionSensor::Egfx(sensor) => sensor.model(),
            SessionSensor::Encoder(sensor) => sensor.model(),
            SessionSensor::PipeWire(sensor) => sensor.model(),
            SessionSensor::Portal(sensor) => sensor.model(),
            SessionSensor::Mutter(sensor) => sensor.model(),
        }
    }

    fn layer(&self) -> (layer: ProtocolLayer) {
        match self {
            SessionSensor::Egfx(sensor) => sensor.layer(),
            SessionSensor::Encoder(sensor) => sensor.layer(),
            SessionSensor::PipeWire(sensor) => sensor.layer(),
            SessionSensor::Portal(sensor) => sensor.layer(),
            SessionSensor::Mutter(sensor) => sensor.layer(),
        }
    }

    fn version(&self) -> (version: &str) {
        match self {
            SessionSensor::Egfx(sensor) => sensor.version(),
            SessionSensor::Encoder(sensor) => sensor.version(),
            SessionSensor::PipeWire(sensor) => sensor.version(),
            SessionSensor::Portal(sensor) => sensor.version(),
            SessionSensor::Mutter(sensor) => sensor.version(),
        }
    }

    fn available_signals(&self) -> (signals: &[SignalDescriptor]) {
        match self {
            SessionSensor::Egfx(sensor) => sensor.available_signals(),
            SessionSensor::Encoder(sensor) => sensor.available_signals(),
            SessionSensor::PipeWire(sensor) => sensor.available_signals(),
            SessionSensor::Portal(sensor) => sensor.available_signals(),
            SessionSensor::Mutter(sensor) => sensor.available_signals(),
        }
    }

    fn snapshot(&self) -> (snapshot: SensorSnapshot) {
        match self {
            SessionSensor::Egfx(sensor) => sensor.snapshot(),
            SessionSensor::Encoder(sensor) => sensor.snapshot(),
            SessionSensor::PipeWire(sensor) => sensor.snapshot(),
            SessionSensor::Portal(sensor) => sensor.snapshot(),
            SessionSensor::Mutter(sensor) => sensor.snapshot(),
        }
    }
}

} // verus!
