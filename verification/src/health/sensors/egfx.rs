//! The graphics channel's sensor. How long a client needs for a frame is known from
//! version 10.4 on.
use vstd::prelude::*;
use crate::health::performance::EgfxSnapshot;
use crate::health::sensors::{
    flag, gated_signal, names_of, plain_signal, signal, signal_models, signal_names, text_views,
    to_flag, versioned_signal, HealthSensor, MetricType, ProtocolLayer, SensorModel, SensorSnapshot,
    SignalDescriptor, SignalModel, SignalValue,
};
use crate::strings::same_text;
use crate::text_map::TextMap;

verus! {

/// Versions whose clients report how long a frame takes them.
pub open spec fn supports_qoe(version: Seq<char>) -> bool {
    version == "V10.4"@ || version == "V10.5"@ || version == "V10.6"@ || version == "V10.7"@
}

fn reports_client_time(version: &str) -> (yes: bool)
    ensures
        yes == supports_qoe(version@),
{
    same_text(version, "V10.4") || same_text(version, "V10.5") || same_text(version, "V10.6")
        || same_text(version, "V10.7")
}

/// The signals of a version.
pub open spec fn egfx_signals(version: Seq<char>) -> Seq<SignalModel> {
    let basic = seq![
        plain_signal("egfx_queue_depth"@, MetricType::Gauge, "Frame ack queue depth"@),
        plain_signal(
            "egfx_frame_acks_total"@,
            MetricType::Counter,
            "Total frame acknowledgements"@,
        ),
        plain_signal(
            "egfx_channel_ready"@,
            MetricType::Gauge,
            "Whether EGFX channel is ready (1=yes, 0=no)"@,
        ),
    ];
    if supports_qoe(version) {
        basic.push(
            gated_signal(
                "egfx_client_decode_render_us"@,
                MetricType::Histogram,
                "Client decode+render time (microseconds)"@,
                "V10.4"@,
            ),
        )
    } else {
        basic
    }
}

/// The values of a version and a state. The client's time is there where the version
/// has it and the client reports it.
pub open spec fn egfx_values(version: Seq<char>, state: EgfxSnapshot) -> Map<
    Seq<char>,
    SignalValue,
> {
    let basic = Map::<Seq<char>, SignalValue>::empty().insert(
        "egfx_queue_depth"@,
        SignalValue::Unsigned(state.queue_depth as u64),
    ).insert("egfx_frame_acks_total"@, SignalValue::Unsigned(state.frame_acks)).insert(
        "egfx_channel_ready"@,
        flag(state.channel_ready),
    );
    match state.client_decode_render_us {
        Some(us) if supports_qoe(version) => basic.insert(
            "egfx_client_decode_render_us"@,
            SignalValue::Unsigned(us),
        ),
        _ => basic,
    }
}

/// The graphics channel's sensor.
pub struct EgfxSensor {
    version: String,
    signals: Vec<SignalDescriptor>,
    state: EgfxSnapshot,
}

impl EgfxSensor {
    pub closed spec fn own_signals(&self) -> Seq<SignalModel> {
        signal_models(self.signals@)
    }

    pub closed spec fn state(&self) -> EgfxSnapshot {
        self.state
    }

    pub closed spec fn negotiated(&self) -> Seq<char> {
        self.version@
    }

    #[verifier::type_invariant]
    spec fn well_formed(&self) -> bool {
        signal_models(self.signals@) == egfx_signals(self.version@)
    }

    /// A sensor for a negotiated version.
    pub fn new(version: &str, state: EgfxSnapshot) -> (sensor: Self)
        ensures
            sensor.negotiated() == version@,
            sensor.state() == state,
            sensor.model().layer == ProtocolLayer::Egfx,
            sensor.model().version == version@,
            sensor.model().signals == egfx_signals(version@),
            sensor.model().values == egfx_values(version@, state),
    {
        let mut signals: Vec<SignalDescriptor> = Vec::new();
        signals.push(signal("egfx_queue_depth", MetricType::Gauge, "Frame ack queue depth"));
        signals.push(
            signal(
                "egfx_frame_acks_total",
                MetricType::Counter,
                "Total frame acknowledgements",
            ),
        );
        signals.push(
            signal(
                "egfx_channel_ready",
                MetricType::Gauge,
                "Whether EGFX channel is ready (1=yes, 0=no)",
            ),
        );
        if reports_client_time(version) {
            signals.push(
                versioned_signal(
                    "egfx_client_decode_render_us",
                    MetricType::Histogram,
                    "Client decode+render time (microseconds)",
                    "V10.4",
                ),
            );
        }
        assert(signal_models(signals@) =~= egfx_signals(version@));
        EgfxSensor { version: version.to_owned(), signals, state }
    }

    /// Takes over the channel's state.
    pub fn update(&mut self, state: EgfxSnapshot)
        ensures
            final(self).state() == state,
            final(self).negotiated() == old(self).negotiated(),
            final(self).model().signals == old(self).model().signals,
            final(self).model().values == egfx_values(old(self).negotiated(), state),
    {
        proof {
            use_type_invariant(&*self);
        }
        self.state = state;
    }
}

impl HealthSensor for EgfxSensor {
    open spec fn model(&self) -> SensorModel {
        SensorModel {
            layer: ProtocolLayer::Egfx,
            version: self.negotiated(),
            signals: self.own_signals(),
            values: egfx_values(self.negotiated(), self.state()),
        }
    }

    fn layer(&self) -> (layer: ProtocolLayer) {
        ProtocolLayer::Egfx
    }

    fn version(&self) -> (version: &str) {
        self.version.as_str()
    }

    fn available_signals(&self) -> (signals: &[SignalDescriptor]) {
        self.signals.as_slice()
    }

    fn snapshot(&self) -> (snapshot: SensorSnapshot) {
        proof {
            use_type_invariant(self);
            let names = signal_names(egfx_signals(self.version@));
            assert(names[0] == "egfx_queue_depth"@);
            assert(names[1] == "egfx_frame_acks_total"@);
            assert(names[2] == "egfx_channel_ready"@);
            if supports_qoe(self.version@) {
                assert(names[3] == "egfx_client_decode_render_us"@);
            }
        }
        let mut values: TextMap<SignalValue> = TextMap::new();
        values.insert(
            "egfx_queue_depth".to_owned(),
            SignalValue::Unsigned(self.state.queue_depth as u64),
        );
        values.insert(
            "egfx_frame_acks_total".to_owned(),
            SignalValue::Unsigned(self.state.frame_acks),
        );
        values.insert("egfx_channel_ready".to_owned(), to_flag(self.state.channel_ready));
        if let Some(us) = self.state.client_decode_render_us {
            if reports_client_time(self.version.as_str()) {
                values.insert("egfx_client_decode_render_us".to_owned(), SignalValue::Unsigned(us));
            }
        }
        SensorSnapshot {
            layer: ProtocolLayer::Egfx,
            version: self.version.clone(),
            values,
            available_signals: names_of(&self.signals),
        }
    }
}

/// Clients tell how long a frame takes them from version 10.4 to 10.7, and not before.
pub proof fn lemma_versions_with_client_times(version: Seq<char>, last: char)
    ensures
        supports_qoe("V10."@.push(last)) <==> '4' <= last && last <= '7',
        supports_qoe(version) ==> version.len() == 5 && version.take(4) == "V10."@,
{
    reveal_strlit("V10.");
    reveal_strlit("V10.4");
    reveal_strlit("V10.5");
    reveal_strlit("V10.6");
    reveal_strlit("V10.7");
    assert("V10.4"@ =~= "V10."@.push('4'));
    assert("V10.5"@ =~= "V10."@.push('5'));
    assert("V10.6"@ =~= "V10."@.push('6'));
    assert("V10.7"@ =~= "V10."@.push('7'));
    let made = "V10."@.push(last);
    assert(made[4] == last);
    assert("V10."@.push('4')[4] == '4' && "V10."@.push('5')[4] == '5');
    assert("V10."@.push('6')[4] == '6' && "V10."@.push('7')[4] == '7');
    if '4' <= last && last <= '7' {
        assert(last == '4' || last == '5' || last == '6' || last == '7');
    }
    if supports_qoe(version) {
        assert(version.take(4) =~= "V10."@);
    }
}

/// The sensor shows the state of the channel, each value under its own name, and the
/// client's time where the version has it and the client tells it.
pub proof fn lemma_the_channel_is_shown(version: Seq<char>, state: EgfxSnapshot)
    ensures
        ({
            let values = egfx_values(version, state);
            &&& values.contains_key("egfx_queue_depth"@)
            &&& values["egfx_queue_depth"@] == SignalValue::Unsigned(state.queue_depth as u64)
            &&& values.contains_key("egfx_frame_acks_total"@)
            &&& values["egfx_frame_acks_total"@] == SignalValue::Unsigned(state.frame_acks)
            &&& values.contains_key("egfx_channel_ready"@)
            &&& values["egfx_channel_ready"@] == SignalValue::Unsigned(
                if state.channel_ready { 1 } else { 0 },
            )
            &&& values.contains_key("egfx_client_decode_render_us"@) <==> supports_qoe(version)
                && state.client_decode_render_us is Some
            &&& values.contains_key("egfx_client_decode_render_us"@)
                ==> values["egfx_client_decode_render_us"@] == SignalValue::Unsigned(
                state.client_decode_render_us->Some_0,
            )
        }),
{
    reveal_strlit("egfx_queue_depth");
    reveal_strlit("egfx_frame_acks_total");
    reveal_strlit("egfx_channel_ready");
    reveal_strlit("egfx_client_decode_render_us");
    assert("egfx_queue_depth"@.len() == 16 && "egfx_frame_acks_total"@.len() == 21);
    assert("egfx_channel_ready"@.len() == 18 && "egfx_client_decode_render_us"@.len() == 28);
}

/// Every version has three signals, and those with client times one more.
pub proof fn lemma_signals_of_the_channel(version: Seq<char>)
    ensures
        signal_names(egfx_signals(version)).take(3) == seq![
            "egfx_queue_depth"@,
            "egfx_frame_acks_total"@,
            "egfx_channel_ready"@,
        ],
        supports_qoe(version) ==> signal_names(egfx_signals(version)).skip(3) == seq![
            "egfx_client_decode_render_us"@,
        ],
        supports_qoe(version) ==> egfx_signals(version)[3].min_version == Some("V10.4"@)
            && egfx_signals(version)[3].metric_type == MetricType::Histogram,
        egfx_signals(version)[0].metric_type == MetricType::Gauge,
        egfx_signals(version)[1].metric_type == MetricType::Counter,
        egfx_signals(version)[2].metric_type == MetricType::Gauge,
        !supports_qoe(version) ==> egfx_signals(version).len() == 3,
        forall|i: int| 0 <= i < 3 ==> (#[trigger] egfx_signals(version)[i]).min_version is None,
{
    assert(signal_names(egfx_signals(version)).take(3) =~= seq![
        "egfx_queue_depth"@,
        "egfx_frame_acks_total"@,
        "egfx_channel_ready"@,
    ]);
    if supports_qoe(version) {
        assert(signal_names(egfx_signals(version)).skip(3) =~= seq![
            "egfx_client_decode_render_us"@,
        ]);
    }
}

} // verus!
