//! Sensors that adapt to the negotiated version: each registers the signals that
//! its protocol layer has at that version, and no others.
use vstd::prelude::*;
use crate::text_map::TextMap;

pub mod egfx;
pub mod encoder;
pub mod mutter;
pub mod pipewire;
pub mod portal;
pub mod registry;
pub mod session;

verus! {

/// A protocol layer.
#[derive(Clone, Copy, Debug, PartialEq, Eq, Hash, Structural)]
pub enum ProtocolLayer {
    Egfx,
    Encoder,
    PipeWire,
    Portal,
}

impl ProtocolLayer {
    /// The layer's name for people.
    pub fn name(&self) -> (name: &'static str)
        ensures
            name@ == match *self {
                ProtocolLayer::Egfx => "EGFX"@,
                ProtocolLayer::Encoder => "Encoder"@,
                ProtocolLayer::PipeWire => "PipeWire"@,
                ProtocolLayer::Portal => "Portal"@,
            },
    {
        match self {
            ProtocolLayer::Egfx => "EGFX",
            ProtocolLayer::Encoder => "Encoder",
            ProtocolLayer::PipeWire => "PipeWire",
            ProtocolLayer::Portal => "Portal",
        }
    }
}

/// What kind of number a signal is.
#[derive(Clone, Copy, Debug, PartialEq, Eq, Structural)]
pub enum MetricType {
    /// Only grows.
    Counter,
    /// A value at a moment.
    Gauge,
    /// A distribution of values.
    Histogram,
}

/// A signal that a sensor can give.
#[derive(Debug)]
pub struct SignalDescriptor {
    pub name: String,
    pub metric_type: MetricType,
    pub description: String,
    /// The protocol version that the signal needs.
    pub min_version: Option<String>,
}

/// A signal over sequences.
pub ghost struct SignalModel {
    pub name: Seq<char>,
    pub metric_type: MetricType,
    pub description: Seq<char>,
    pub min_version: Option<Seq<char>>,
}

impl View for SignalDescriptor {
    type V = SignalModel;

    open spec fn view(&self) -> SignalModel {
        SignalModel {
            name: self.name@,
            metric_type: self.metric_type,
            description: self.description@,
            min_version: match self.min_version {
                Some(version) => Some(version@),
                None => None,
            },
        }
    }
}

/// A signal of every version.
pub open spec fn plain_signal(
    name: Seq<char>,
    metric_type: MetricType,
    description: Seq<char>,
) -> SignalModel {
    SignalModel { name, metric_type, description, min_version: None }
}

/// A signal from a version on.
pub open spec fn gated_signal(
    name: Seq<char>,
    metric_type: MetricType,
    description: Seq<char>,
    min_version: Seq<char>,
) -> SignalModel {
    SignalModel { name, metric_type, description, min_version: Some(min_version) }
}

pub open spec fn signal_models(signals: Seq<SignalDescriptor>) -> Seq<SignalModel> {
    signals.map_values(|signal: SignalDescriptor| signal@)
}

pub open spec fn signal_names(signals: Seq<SignalModel>) -> Seq<Seq<char>> {
    signals.map_values(|signal: SignalModel| signal.name)
}

pub open spec fn text_views(texts: Seq<String>) -> Seq<Seq<char>> {
    texts.map_values(|text: String| text@)
}

/// The value of a signal. Rates that are not whole numbers are the bits of a
/// double.
#[derive(Clone, Copy, Debug, PartialEq, Eq)]
pub enum SignalValue {
    Unsigned(u64),
    Signed(i64),
    DoubleBits(u64),
}

/// 1 for yes, 0 for no.
pub open spec fn flag(yes: bool) -> SignalValue {
    SignalValue::Unsigned(
        if yes {
            1
        } else {
            0
        },
    )
}

pub(crate) fn to_flag(yes: bool) -> (value: SignalValue)
    ensures
        value == flag(yes),
{
    if yes {
        SignalValue::Unsigned(1)
    } else {
        SignalValue::Unsigned(0)
    }
}

/// What a sensor reports at a moment.
pub struct SensorSnapshot {
    pub layer: ProtocolLayer,
    pub version: String,
    pub values: TextMap<SignalValue>,
    pub available_signals: Vec<String>,
}

/// A sensor over sequences and maps.
pub ghost struct SensorModel {
    pub layer: ProtocolLayer,
    pub version: Seq<char>,
    pub signals: Seq<SignalModel>,
    pub values: Map<Seq<char>, SignalValue>,
}

/// Every value belongs to one of the signals.
pub open spec fn values_are_signals(
    values: Map<Seq<char>, SignalValue>,
    names: Seq<Seq<char>>,
) -> bool {
    forall|name: Seq<char>| #[trigger] values.contains_key(name) ==> names.contains(name)
}

/// A sensor of a protocol layer.
pub trait HealthSensor: Send + Sync {
    /// What the sensor is, in mathematical terms.
    spec fn model(&self) -> SensorModel;

    /// The layer that the sensor watches.
    fn layer(&self) -> (layer: ProtocolLayer)
        ensures
            layer == self.model().layer,
    ;

    /// The negotiated version.
    fn version(&self) -> (version: &str)
        ensures
            version@ == self.model().version,
    ;

    /// The signals of that version.
    fn available_signals(&self) -> (signals: &[SignalDescriptor])
        ensures
            signal_models(signals@) == self.model().signals,
    ;

    /// The current values. A sensor has values only for the signals of its version.
    fn snapshot(&self) -> (snapshot: SensorSnapshot)
        ensures
            snapshot.layer == self.model().layer,
            snapshot.version@ == self.model().version,
            snapshot.values.well_formed(),
            snapshot.values@ == self.model().values,
            text_views(snapshot.available_signals@) == signal_names(self.model().signals),
            values_are_signals(snapshot.values@, text_views(snapshot.available_signals@)),
    ;
}

/// Describes a signal of every version.
pub fn signal(name: &str, metric_type: MetricType, description: &str) -> (descriptor:
    SignalDescriptor)
    ensures
        descriptor@ == plain_signal(name@, metric_type, description@),
{
    SignalDescriptor {
        name: name.to_owned(),
        metric_type,
        description: description.to_owned(),
        min_version: None,
    }
}

/// Describes a signal that needs a version.
pub fn versioned_signal(
    name: &str,
    metric_type: MetricType,
    description: &str,
    min_version: &str,
) -> (descriptor: SignalDescriptor)
    ensures
        descriptor@ == gated_signal(name@, metric_type, description@, min_version@),
{
    SignalDescriptor {
        name: name.to_owned(),
        metric_type,
        description: description.to_owned(),
        min_version: Some(min_version.to_owned()),
    }
}

/// A copy of a description.
pub fn duplicate_signal(signal: &SignalDescriptor) -> (copy: SignalDescriptor)
    ensures
        copy == *signal,
{
    SignalDescriptor {
        name: signal.name.clone(),
        metric_type: signal.metric_type,
        description: signal.description.clone(),
        min_version: match &signal.min_version {
            Some(version) => Some(version.clone()),
            None => None,
        },
    }
}

/// The names of signals.
pub(crate) fn names_of(signals: &Vec<SignalDescriptor>) -> (names: Vec<String>)
    ensures
        text_views(names@) == signal_names(signal_models(signals@)),
{
    let ghost wanted = signal_names(signal_models(signals@));
    let mut names: Vec<String> = Vec::new();
    let mut i: usize = 0;
    assert(text_views(names@) =~= wanted.take(0));
    while i < signals.len()
        invariant
            i <= signals@.len(),
            wanted == signal_names(signal_models(signals@)),
            text_views(names@) == wanted.take(i as int),
        decreases signals@.len() - i,
    {
        let ghost before = names@;
        names.push(signals[i].name.clone());
        assert(text_views(names@) =~= text_views(before).push(signals@[i as int].name@));
        i += 1;
        assert(text_views(names@) =~= wanted.take(i as int));
    }
    assert(wanted.take(wanted.len() as int) =~= wanted);
    names
}

/// Flags are told apart, and stand for one and zero.
pub proof fn lemma_flags_are_one_and_zero()
    ensures
        flag(true) == SignalValue::Unsigned(1),
        flag(false) == SignalValue::Unsigned(0),
{
}

/// What is said of a signal is kept as it is: its name, its kind and its description, in
/// the order of the signals.
pub proof fn lemma_signals_keep_their_names(signals: Seq<SignalDescriptor>, i: int)
    requires
        0 <= i < signals.len(),
    ensures
        signal_models(signals).len() == signals.len(),
        signal_models(signals)[i].name == signals[i].name@,
        signal_models(signals)[i].metric_type == signals[i].metric_type,
        signal_models(signals)[i].description == signals[i].description@,
        signal_names(signal_models(signals))[i] == signals[i].name@,
        signals[i].min_version is None <==> signal_models(signals)[i].min_version is None,
        signals[i].min_version matches Some(version) ==> signal_models(signals)[i].min_version
            == Some(version@),
{
}

/// A signal is for every version, or for those from one on.
pub proof fn lemma_signals_say_their_version(
    name: Seq<char>,
    metric_type: MetricType,
    description: Seq<char>,
    least: Seq<char>,
)
    ensures
        plain_signal(name, metric_type, description).min_version is None,
        gated_signal(name, metric_type, description, least).min_version == Some(least),
        plain_signal(name, metric_type, description).name == name,
        gated_signal(name, metric_type, description, least).name == name,
        plain_signal(name, metric_type, description).metric_type == metric_type,
        gated_signal(name, metric_type, description, least).metric_type == metric_type,
{
}

} // verus!
