//! The encoder's sensor.
use vstd::prelude::*;
use crate::health::performance::EncoderSnapshot;
use crate::health::sensors::{
    names_of, plain_signal, signal, signal_models, signal_names, HealthSensor, MetricType,
    ProtocolLayer, SensorModel, SensorSnapshot, SignalDescriptor, SignalModel, SignalValue,
};
use crate::text_map::TextMap;

verus! {

/// The encoder's signals, whatever the backend.
pub open spec fn encoder_signals() -> Seq<SignalModel> {
    seq![
        plain_signal("encoder_fps"@, MetricType::Gauge, "Current encoder FPS"@),
        plain_signal(
            "encoder_bitrate_kbps"@,
            MetricType::Gauge,
            "Current encoder bitrate (kbps)"@,
        ),
        plain_signal(
            "encoder_encode_time_ms"@,
            MetricType::Gauge,
            "Average encode time per frame (ms)"@,
        ),
        plain_signal("encoder_frames_encoded"@, MetricType::Counter, "Total frames encoded"@),
        plain_signal(
            "encoder_frames_skipped"@,
            MetricType::Counter,
            "Frames skipped by rate control"@,
        ),
    ]
}

/// The values of a state; none while there is no encoder.
pub open spec fn encoder_values(state: Option<EncoderSnapshot>) -> Map<Seq<char>, SignalValue> {
    match state {
        None => Map::empty(),
        Some(encoder) => Map::<Seq<char>, SignalValue>::empty().insert(
            "encoder_fps"@,
            SignalValue::DoubleBits(encoder.fps_bits),
        ).insert(
            "encoder_bitrate_kbps"@,
            SignalValue::Unsigned(encoder.bitrate_kbps as u64),
        ).insert(
            "encoder_encode_time_ms"@,
            SignalValue::DoubleBits(encoder.avg_encode_time_ms_bits),
        ).insert(
            "encoder_frames_encoded"@,
            SignalValue::Unsigned(encoder.frames_encoded),
        ).insert("encoder_frames_skipped"@, SignalValue::Unsigned(encoder.frames_skipped)),
    }
}

/// The encoder's sensor.
pub struct EncoderSensor {
    backend: String,
    signals: Vec<SignalDescriptor>,
    state: Option<EncoderSnapshot>,
}

impl EncoderSensor {
    pub closed spec fn own_signals(&self) -> Seq<SignalModel> {
        signal_models(self.signals@)
    }

    pub closed spec fn state(&self) -> Option<EncoderSnapshot> {
        self.state
    }

    pub closed spec fn backend(&self) -> Seq<char> {
        self.backend@
    }

    #[verifier::type_invariant]
    spec fn well_formed(&self) -> bool {
        signal_models(self.signals@) == encoder_signals()
    }

    /// A sensor for an encoder backend.
    pub fn new(backend: &str, state: Option<EncoderSnapshot>) -> (sensor: Self)
        ensures
            sensor.backend() == backend@,
            sensor.state() == state,
            sensor.model().version == backend@,
            sensor.model().signals == encoder_signals(),
            sensor.model().values == encoder_values(state),
    {
        let mut signals: Vec<SignalDescriptor> = Vec::new();
        signals.push(signal("encoder_fps", MetricType::Gauge, "Current encoder FPS"));
        signals.push(
            signal("encoder_bitrate_kbps", MetricType::Gauge, "Current encoder bitrate (kbps)"),
        );
        signals.push(
            signal(
                "encoder_encode_time_ms",
                MetricType::Gauge,
                "Average encode time per frame (ms)",
            ),
        );
        signals.push(
            signal("encoder_frames_encoded", MetricType::Counter, "Total frames encoded"),
        );
        signals.push(
            signal(
                "encoder_frames_skipped",
                MetricType::Counter,
                "Frames skipped by rate control",
            ),
        );
        assert(signal_models(signals@) =~= encoder_signals());
        EncoderSensor { backend: backend.to_owned(), signals, state }
    }

    /// Takes over the encoder's state.
    pub fn update(&mut self, state: Option<EncoderSnapshot>)
        ensures
            final(self).state() == state,
            final(self).backend() == old(self).backend(),
            final(self).model().signals == old(self).model().signals,
            final(self).model().values == encoder_values(state),
    {
        proof {
            use_type_invariant(&*self);
        }
        self.state = state;
    }
}

impl HealthSensor for EncoderSensor {
    open spec fn model(&self) -> SensorModel {
        SensorModel {
            layer: ProtocolLayer::Encoder,
            version: self.backend(),
            signals: self.own_signals(),
            values: encoder_values(self.state()),
        }
    }

    fn layer(&self) -> (layer: ProtocolLayer) {
        ProtocolLayer::Encoder
    }

    fn version(&self) -> (version: &str) {
        self.backend.as_str()
    }

    fn available_signals(&self) -> (signals: &[SignalDescriptor]) {
        self.signals.as_slice()
    }

    fn snapshot(&self) -> (snapshot: SensorSnapshot) {
        proof {
            use_type_invariant(self);
            let names = signal_names(encoder_signals());
            assert(names[0] == "encoder_fps"@);
            assert(names[1] == "encoder_bitrate_kbps"@);
            assert(names[2] == "encoder_encode_time_ms"@);
            assert(names[3] == "encoder_frames_encoded"@);
            assert(names[4] == "encoder_frames_skipped"@);
        }
        let mut values: TextMap<SignalValue> = TextMap::new();
        if let Some(encoder) = &self.state {
            values.insert("encoder_fps".to_owned(), SignalValue::DoubleBits(encoder.fps_bits));
            values.insert(
                "encoder_bitrate_kbps".to_owned(),
                SignalValue::Unsigned(encoder.bitrate_kbps as u64),
            );
            values.insert(
                "encoder_encode_time_ms".to_owned(),
                SignalValue::DoubleBits(encoder.avg_encode_time_ms_bits),
            );
            values.insert(
                "encoder_frames_encoded".to_owned(),
                SignalValue::Unsigned(encoder.frames_encoded),
            );
            values.insert(
                "encoder_frames_skipped".to_owned(),
                SignalValue::Unsigned(encoder.frames_skipped),
            );
        }
        SensorSnapshot {
            layer: ProtocolLayer::Encoder,
            version: self.backend.clone(),
            values,
            available_signals: names_of(&self.signals),
        }
    }
}

/// The sensor shows the state of the encoder, each value under its own name, and nothing
/// while there is none.
pub proof fn lemma_the_encoder_is_shown(encoder: EncoderSnapshot)
    ensures
        encoder_values(None) == Map::<Seq<char>, SignalValue>::empty(),
        ({
            let values = encoder_values(Some(encoder));
            &&& values.contains_key("encoder_fps"@) && values["encoder_fps"@]
                == SignalValue::DoubleBits(encoder.fps_bits)
            &&& values.contains_key("encoder_bitrate_kbps"@) && values["encoder_bitrate_kbps"@]
                == SignalValue::Unsigned(encoder.bitrate_kbps as u64)
            &&& values.contains_key("encoder_encode_time_ms"@) && values["encoder_encode_time_ms"@]
                == SignalValue::DoubleBits(encoder.avg_encode_time_ms_bits)
            &&& values.contains_key("encoder_frames_encoded"@) && values["encoder_frames_encoded"@]
                == SignalValue::Unsigned(encoder.frames_encoded)
            &&& values.contains_key("encoder_frames_skipped"@) && values["encoder_frames_skipped"@]
                == SignalValue::Unsigned(encoder.frames_skipped)
        }),
{
    reveal_strlit("encoder_fps");
    reveal_strlit("encoder_bitrate_kbps");
    reveal_strlit("encoder_encode_time_ms");
    reveal_strlit("encoder_frames_encoded");
    reveal_strlit("encoder_frames_skipped");
    assert("encoder_fps"@.len() == 11 && "encoder_bitrate_kbps"@.len() == 20);
    assert("encoder_encode_time_ms"@.len() == 22 && "encoder_encode_time_ms"@[8] == 'e');
    assert("encoder_frames_encoded"@.len() == 22 && "encoder_frames_encoded"@[8] == 'f');
    assert("encoder_frames_skipped"@.len() == 22 && "encoder_frames_skipped"@[8] == 'f');
    assert("encoder_frames_encoded"@[15] == 'e' && "encoder_frames_skipped"@[15] == 's');
}

/// There is a signal for each value; frames are counted, everything else goes up and down.
pub proof fn lemma_signals_of_the_encoder(encoder: EncoderSnapshot, name: Seq<char>)
    ensures
        encoder_signals().len() == 5,
        forall|i: int|
            0 <= i < 5 ==> (#[trigger] encoder_signals()[i]).min_version is None && (
            encoder_signals()[i].metric_type == MetricType::Counter
                || encoder_signals()[i].metric_type == MetricType::Gauge),
        encoder_values(Some(encoder)).contains_key(name) <==> signal_names(
            encoder_signals(),
        ).contains(name),
        forall|i: int|
            0 <= i < 5 ==> ((#[trigger] encoder_signals()[i]).metric_type == MetricType::Counter
                <==> encoder_signals()[i].name == "encoder_frames_encoded"@
                || encoder_signals()[i].name == "encoder_frames_skipped"@),
{
    reveal_strlit("encoder_fps");
    reveal_strlit("encoder_bitrate_kbps");
    reveal_strlit("encoder_encode_time_ms");
    reveal_strlit("encoder_frames_encoded");
    reveal_strlit("encoder_frames_skipped");
    let names = signal_names(encoder_signals());
    assert(names[0] == "encoder_fps"@ && names[1] == "encoder_bitrate_kbps"@);
    assert(names[2] == "encoder_encode_time_ms"@);
    assert(names[3] == "encoder_frames_encoded"@ && names[4] == "encoder_frames_skipped"@);
    assert("encoder_encode_time_ms"@[8] == 'e');
    assert("encoder_frames_encoded"@[8] == 'f' && "encoder_frames_skipped"@[8] == 'f');
    assert("encoder_fps"@.len() == 11 && "encoder_bitrate_kbps"@.len() == 20);
    assert("encoder_frames_encoded"@.len() == 22 && "encoder_frames_skipped"@.len() == 22);
}

} // verus!
