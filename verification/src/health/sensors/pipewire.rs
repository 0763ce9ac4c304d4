//! The sensor for the PipeWire stream. Newer versions say more about its buffers.
use vstd::prelude::*;
use vstd::string::StringExecFns;
use crate::health::sensors::{
    gated_signal, names_of, plain_signal, signal, signal_models, signal_names, versioned_signal,
    HealthSensor, MetricType, ProtocolLayer, SensorModel, SensorSnapshot, SignalDescriptor,
    SignalModel, SignalValue,
};
use crate::numbers::{decimal, is_digit, lemma_decimal_round_trip, to_decimal};
use crate::text_map::TextMap;
use crate::words::{fields, lemma_fields_are_separated};

verus! {

/// Whether a version is at least another one: major, then minor, then patch number.
pub open spec fn at_least(version: (u32, u32, u32), least: (u32, u32, u32)) -> bool {
    version.0 > least.0 || (version.0 == least.0 && (version.1 > least.1 || (version.1 == least.1
        && version.2 >= least.2)))
}

fn is_at_least(version: (u32, u32, u32), least: (u32, u32, u32)) -> (yes: bool)
    ensures
        yes == at_least(version, least),
{
    version.0 > least.0 || (version.0 == least.0 && (version.1 > least.1 || (version.1 == least.1
        && version.2 >= least.2)))
}

/// The signals that every version has.
pub open spec fn stream_signals() -> Seq<SignalModel> {
    seq![
        plain_signal(
            "pipewire_stream_state"@,
            MetricType::Gauge,
            "PipeWire stream state (0=error, 1=paused, 2=streaming)"@,
        ),
        plain_signal(
            "pipewire_frames_processed"@,
            MetricType::Counter,
            "Total frames from PipeWire"@,
        ),
    ]
}

/// The signals of a version.
pub open spec fn pipewire_signals(version: (u32, u32, u32)) -> Seq<SignalModel> {
    let basic = stream_signals();
    let with_pressure = if at_least(version, (0, 3, 50)) {
        basic.push(
            gated_signal(
                "pipewire_buffer_pressure"@,
                MetricType::Gauge,
                "Buffer pressure (queued / (queued + available))"@,
                "0.3.50"@,
            ),
        )
    } else {
        basic
    };
    if at_least(version, (1, 1, 0)) {
        with_pressure.push(
            gated_signal(
                "pipewire_quantum_size"@,
                MetricType::Gauge,
                "Frames per cycle"@,
                "1.1.0"@,
            ),
        )
    } else {
        with_pressure
    }
}

/// A version with dots.
pub open spec fn version_text(version: (u32, u32, u32)) -> Seq<char> {
    decimal(version.0 as nat) + "."@ + decimal(version.1 as nat) + "."@ + decimal(version.2 as nat)
}

/// The sensor for the PipeWire stream.
pub struct PipeWireSensor {
    version: (u32, u32, u32),
    version_str: String,
    signals: Vec<SignalDescriptor>,
    /// 0 error, 1 paused, 2 streaming.
    stream_state: u32,
    frames_processed: u64,
}

impl PipeWireSensor {
    pub closed spec fn own_version(&self) -> Seq<char> {
        self.version_str@
    }

    pub closed spec fn own_signals(&self) -> Seq<SignalModel> {
        signal_models(self.signals@)
    }

    pub open spec fn current_values(&self) -> Map<Seq<char>, SignalValue> {
        Map::<Seq<char>, SignalValue>::empty().insert(
            "pipewire_stream_state"@,
            SignalValue::Unsigned(self.stream() as u64),
        ).insert("pipewire_frames_processed"@, SignalValue::Unsigned(self.frames()))
    }

    pub closed spec fn library_version(&self) -> (u32, u32, u32) {
        self.version
    }

    pub closed spec fn stream(&self) -> u32 {
        self.stream_state
    }

    pub closed spec fn frames(&self) -> u64 {
        self.frames_processed
    }

    #[verifier::type_invariant]
    spec fn well_formed(&self) -> bool {
        &&& self.version_str@ == version_text(self.version)
        &&& signal_models(self.signals@) == pipewire_signals(self.version)
    }

    /// A sensor for a version, before the stream runs.
    pub fn new(pw_version: (u32, u32, u32)) -> (sensor: Self)
        ensures
            sensor.library_version() == pw_version,
            sensor.stream() == 0,
            sensor.frames() == 0,
            sensor.model().version == version_text(pw_version),
            sensor.model().signals == pipewire_signals(pw_version),
    {
        let mut version_str: String = to_decimal(pw_version.0 as u64);
        version_str.append(".");
        let minor: String = to_decimal(pw_version.1 as u64);
        version_str.append(minor.as_str());
        version_str.append(".");
        let patch: String = to_decimal(pw_version.2 as u64);
        version_str.append(patch.as_str());

        let mut signals: Vec<SignalDescriptor> = Vec::new();
        signals.push(
            signal(
                "pipewire_stream_state",
                MetricType::Gauge,
                "PipeWire stream state (0=error, 1=paused, 2=streaming)",
            ),
        );
        signals.push(
            signal(
                "pipewire_frames_processed",
                MetricType::Counter,
                "Total frames from PipeWire",
            ),
        );
        assert(signal_models(signals@) =~= stream_signals());
        if is_at_least(pw_version, (0, 3, 50)) {
            let ghost before = signals@;
            let pressure = versioned_signal(
                "pipewire_buffer_pressure",
                MetricType::Gauge,
                "Buffer pressure (queued / (queued + available))",
                "0.3.50",
            );
            let ghost added = pressure@;
            signals.push(pressure);
            assert(signal_models(signals@) =~= signal_models(before).push(added));
        }
        if is_at_least(pw_version, (1, 1, 0)) {
            let ghost before = signals@;
            let quantum = versioned_signal(
                "pipewire_quantum_size",
                MetricType::Gauge,
                "Frames per cycle",
                "1.1.0",
            );
            let ghost added = quantum@;
            signals.push(quantum);
            assert(signal_models(signals@) =~= signal_models(before).push(added));
        }
        PipeWireSensor {
            version: pw_version,
            version_str,
            signals,
            stream_state: 0,
            frames_processed: 0,
        }
    }

    /// The stream changed its state.
    pub fn set_stream_state(&mut self, state: u32)
        ensures
            final(self).stream() == state,
            final(self).frames() == old(self).frames(),
            final(self).library_version() == old(self).library_version(),
            final(self).model().version == old(self).model().version,
            final(self).model().signals == old(self).model().signals,
    {
        proof {
            use_type_invariant(&*self);
        }
        self.stream_state = state;
    }

    /// Another frame came. After the largest count comes 0.
    pub fn increment_frames(&mut self)
        ensures
            final(self).frames() == (old(self).frames() + 1) % 0x1_0000_0000_0000_0000,
            final(self).stream() == old(self).stream(),
            final(self).library_version() == old(self).library_version(),
            final(self).model().version == old(self).model().version,
            final(self).model().signals == old(self).model().signals,
    {
        proof {
            use_type_invariant(&*self);
        }
        self.frames_processed = self.frames_processed.wrapping_add(1);
    }
}

impl HealthSensor for PipeWireSensor {
    open spec fn model(&self) -> SensorModel {
        SensorModel {
            layer: ProtocolLayer::PipeWire,
            version: self.own_version(),
            signals: self.own_signals(),
            values: self.current_values(),
        }
    }

    fn layer(&self) -> (layer: ProtocolLayer) {
        ProtocolLayer::PipeWire
    }

    fn version(&self) -> (version: &str) {
        self.version_str.as_str()
    }

    fn available_signals(&self) -> (signals: &[SignalDescriptor]) {
        self.signals.as_slice()
    }

    fn snapshot(&self) -> (snapshot: SensorSnapshot) {
        proof {
            use_type_invariant(self);
            let names = signal_names(pipewire_signals(self.version));
            assert(names[0] == "pipewire_stream_state"@);
            assert(names[1] == "pipewire_frames_processed"@);
        }
        let mut values: TextMap<SignalValue> = TextMap::new();
        values.insert(
            "pipewire_stream_state".to_owned(),
            SignalValue::Unsigned(self.stream_state as u64),
        );
        values.insert(
            "pipewire_frames_processed".to_owned(),
            SignalValue::Unsigned(self.frames_processed),
        );
        SensorSnapshot {
            layer: ProtocolLayer::PipeWire,
            version: self.version_str.clone(),
            values,
            available_signals: names_of(&self.signals),
        }
    }
}

/// A newer version never has fewer signals.
pub proof fn lemma_newer_versions_keep_signals(older: (u32, u32, u32), newer: (u32, u32, u32))
    requires
        at_least(newer, older),
    ensures
        pipewire_signals(older).is_prefix_of(pipewire_signals(newer)),
{
    let kept = pipewire_signals(older);
    assert(pipewire_signals(newer).subrange(0, kept.len() as int) =~= kept);
}

/// Versions are ordered by their numbers, the first before the second before the third.
pub proof fn lemma_versions_are_ordered(a: (u32, u32, u32), b: (u32, u32, u32))
    ensures
        at_least(a, b) <==> a.0 * 0x1_0000_0000_0000_0000 + a.1 * 0x1_0000_0000 + a.2 >= b.0
            * 0x1_0000_0000_0000_0000 + b.1 * 0x1_0000_0000 + b.2,
{
}

/// The signals of a version: two in any case, the buffer pressure from 0.3.50 on, and the
/// quantum from 1.1.0 on.
pub proof fn lemma_signals_of_a_version(version: (u32, u32, u32))
    ensures
        ({
            let names = signal_names(pipewire_signals(version));
            &&& names.contains("pipewire_stream_state"@)
            &&& names.contains("pipewire_frames_processed"@)
            &&& names.contains("pipewire_buffer_pressure"@) <==> version.0 > 0 || version.1 > 3 || (
            version.1 == 3 && version.2 >= 50)
            &&& names.contains("pipewire_quantum_size"@) <==> version.0 > 1 || (version.0 == 1
                && version.1 >= 1)
            &&& names.len() <= 4
            &&& forall|i: int|
                0 <= i < names.len() ==> ((#[trigger] pipewire_signals(version)[i]).metric_type
                    == if names[i] == "pipewire_frames_processed"@ {
                    MetricType::Counter
                } else {
                    MetricType::Gauge
                })
            &&& forall|i: int|
                0 <= i < names.len() ==> pipewire_signals(version)[i].min_version == if names[i]
                    == "pipewire_buffer_pressure"@ {
                    Some("0.3.50"@)
                } else if names[i] == "pipewire_quantum_size"@ {
                    Some("1.1.0"@)
                } else {
                    None
                }
        }),
{
    reveal_strlit("pipewire_stream_state");
    reveal_strlit("pipewire_frames_processed");
    reveal_strlit("pipewire_buffer_pressure");
    reveal_strlit("pipewire_quantum_size");
    assert("pipewire_stream_state"@[9] == 's' && "pipewire_frames_processed"@[9] == 'f');
    assert("pipewire_buffer_pressure"@[9] == 'b' && "pipewire_quantum_size"@[9] == 'q');
    let names = signal_names(pipewire_signals(version));
    assert(names[0] == "pipewire_stream_state"@ && names[1] == "pipewire_frames_processed"@);
    if at_least(version, (0, 3, 50)) {
        assert(names[2] == "pipewire_buffer_pressure"@);
    }
    if at_least(version, (1, 1, 0)) {
        assert(names[3] == "pipewire_quantum_size"@);
    }
}

/// The sensor shows the stream and how many frames came.
pub proof fn lemma_the_stream_is_shown(sensor: PipeWireSensor)
    ensures
        ({
            let values = sensor.current_values();
            &&& values.contains_key("pipewire_stream_state"@) && values["pipewire_stream_state"@]
                == SignalValue::Unsigned(sensor.stream() as u64)
            &&& values.contains_key("pipewire_frames_processed"@)
                && values["pipewire_frames_processed"@] == SignalValue::Unsigned(sensor.frames())
        }),
{
    reveal_strlit("pipewire_stream_state");
    reveal_strlit("pipewire_frames_processed");
    assert("pipewire_stream_state"@.len() != "pipewire_frames_processed"@.len());
}

proof fn lemma_digits_hold_no_dot(n: nat)
    ensures
        !decimal(n).contains('.'),
{
    lemma_decimal_round_trip(n);
    if decimal(n).contains('.') {
        let i = choose|i: int| 0 <= i < decimal(n).len() && decimal(n)[i] == '.';
        assert(is_digit(decimal(n)[i]));
    }
}

/// A version can be read off its text: three numbers with dots between them.
pub proof fn lemma_version_texts_have_three_fields(version: (u32, u32, u32))
    ensures
        fields(version_text(version), '.') == seq![
            decimal(version.0 as nat),
            decimal(version.1 as nat),
            decimal(version.2 as nat),
        ],
{
    reveal_strlit(".");
    let a = decimal(version.0 as nat);
    let b = decimal(version.1 as nat);
    let c = decimal(version.2 as nat);
    lemma_digits_hold_no_dot(version.0 as nat);
    lemma_digits_hold_no_dot(version.1 as nat);
    lemma_digits_hold_no_dot(version.2 as nat);
    assert(version_text(version) =~= a.push('.') + (b.push('.') + c));
    lemma_fields_are_separated(a, '.', b.push('.') + c);
    lemma_fields_are_separated(b, '.', c);
    lemma_fields_are_separated(c, '.', seq![]);
    assert(seq![a] + (seq![b] + seq![c]) =~= seq![a, b, c]);
}

} // verus!
