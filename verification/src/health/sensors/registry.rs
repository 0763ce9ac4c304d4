//! The sensors of a session, registered when a protocol is negotiated and removed
//! when it is torn down.
use vstd::prelude::*;
use crate::health::sensors::{
    duplicate_signal, signal_models, signal_names, text_views, HealthSensor, ProtocolLayer,
    SensorSnapshot, SignalDescriptor, SignalModel,
};

verus! {

/// The registered sensors, in the order of registration.
pub struct SensorRegistry<S: HealthSensor> {
    pub sensors: Vec<S>,
}

/// Sensors of other layers.
pub open spec fn of_other_layer<S: HealthSensor>(layer: ProtocolLayer) -> spec_fn(S) -> bool {
    |sensor: S| sensor.model().layer != layer
}

/// The signals of one sensor with its layer.
pub open spec fn signals_of<S: HealthSensor>(sensor: S) -> Seq<(ProtocolLayer, SignalModel)> {
    sensor.model().signals.map_values(|signal: SignalModel| (sensor.model().layer, signal))
}

/// The signals of the first `count` sensors.
pub open spec fn all_signals<S: HealthSensor>(sensors: Seq<S>, count: int) -> Seq<(ProtocolLayer, SignalModel)>
    decreases count,
{
    if count <= 0 {
        seq![]
    } else {
        all_signals(sensors, count - 1) + signals_of(sensors[count - 1])
    }
}

pub open spec fn labelled_models(
    signals: Seq<(ProtocolLayer, SignalDescriptor)>,
) -> Seq<(ProtocolLayer, SignalModel)> {
    signals.map_values(|entry: (ProtocolLayer, SignalDescriptor)| (entry.0, entry.1@))
}

/// A snapshot reports what its sensor has.
pub open spec fn reports<S: HealthSensor>(snapshot: SensorSnapshot, sensor: S) -> bool {
    &&& snapshot.layer == sensor.model().layer
    &&& snapshot.version@ == sensor.model().version
    &&& snapshot.values@ == sensor.model().values
    &&& text_views(snapshot.available_signals@) == signal_names(sensor.model().signals)
}

impl<S: HealthSensor> SensorRegistry<S> {
    /// No sensors yet.
    pub fn new() -> (registry: Self)
        ensures
            registry.sensors@.len() == 0,
    {
        SensorRegistry { sensors: Vec::new() }
    }

    /// Registers a sensor.
    pub fn register(&mut self, sensor: S)
        ensures
            final(self).sensors@ == old(self).sensors@.push(sensor),
    {
        self.sensors.push(sensor);
    }

    /// Removes all sensors of a layer. The others stay in order.
    pub fn unregister(&mut self, layer: ProtocolLayer)
        ensures
            final(self).sensors@ == old(self).sensors@.filter(of_other_layer(layer)),
    {
        let ghost all = self.sensors@;
        let ghost other = of_other_layer::<S>(layer);
        let ghost mut seen: int = 0;
        let mut i: usize = 0;
        proof {
            reveal(Seq::filter);
            assert(all.take(0).filter(other) =~= seq![]);
            assert(seq![] + all.skip(0) =~= all);
        }
        while i < self.sensors.len()
            invariant
                0 <= seen <= all.len(),
                other == of_other_layer::<S>(layer),
                i == all.take(seen).filter(other).len(),
                self.sensors@ == all.take(seen).filter(other) + all.skip(seen),
            decreases all.len() - seen,
        {
            let ghost before = all.take(seen).filter(other);
            assert(self.sensors@[i as int] == all[seen]);
            proof {
                reveal(Seq::filter);
                assert(all.take(seen + 1).drop_last() =~= all.take(seen));
                assert(all.take(seen + 1).last() == all[seen]);
            }
            if self.sensors[i].layer() == layer {
                self.sensors.remove(i);
                assert(self.sensors@ =~= before + all.skip(seen + 1));
            } else {
                assert(self.sensors@ =~= before.push(all[seen]) + all.skip(seen + 1));
                i += 1;
            }
            proof {
                seen = seen + 1;
            }
        }
        proof {
            assert(all.take(seen) =~= all);
            assert(self.sensors@ =~= all.filter(other));
        }
    }

    /// What all sensors report now.
    pub fn snapshot_all(&self) -> (snapshots: Vec<SensorSnapshot>)
        ensures
            snapshots@.len() == self.sensors@.len(),
            forall|i: int|
                0 <= i < snapshots@.len() ==> reports(#[trigger] snapshots@[i], self.sensors@[i]),
    {
        let mut snapshots: Vec<SensorSnapshot> = Vec::new();
        let mut i: usize = 0;
        while i < self.sensors.len()
            invariant
                i <= self.sensors@.len(),
                snapshots@.len() == i,
                forall|k: int|
                    0 <= k < i ==> reports(#[trigger] snapshots@[k], self.sensors@[k]),
            decreases self.sensors@.len() - i,
        {
            snapshots.push(self.sensors[i].snapshot());
            i += 1;
        }
        snapshots
    }

    /// The signals of all sensors, each with its layer.
    pub fn available_signals(&self) -> (signals: Vec<(ProtocolLayer, SignalDescriptor)>)
        ensures
            labelled_models(signals@) == all_signals(self.sensors@, self.sensors@.len() as int),
    {
        let mut signals: Vec<(ProtocolLayer, SignalDescriptor)> = Vec::new();
        let mut i: usize = 0;
        assert(labelled_models(signals@) =~= seq![]);
        while i < self.sensors.len()
            invariant
                i <= self.sensors@.len(),
                labelled_models(signals@) == all_signals(self.sensors@, i as int),
            decreases self.sensors@.len() - i,
        {
            let sensor = &self.sensors[i];
            let layer: ProtocolLayer = sensor.layer();
            let own: &[SignalDescriptor] = sensor.available_signals();
            let ghost before = labelled_models(signals@);
            let ghost added = signals_of(self.sensors@[i as int]);
            assert(signal_models(own@) == self.sensors@[i as int].model().signals);
            assert(before + added.take(0) =~= before);
            let mut j: usize = 0;
            while j < own.len()
                invariant
                    j <= own@.len() == added.len(),
                    forall|k: int| 0 <= k < added.len() ==> #[trigger] added[k] == (layer, own@[k]@),
                    labelled_models(signals@) == before + added.take(j as int),
                decreases own@.len() - j,
            {
                let ghost earlier = signals@;
                signals.push((layer, duplicate_signal(&own[j])));
                assert(labelled_models(signals@) =~= labelled_models(earlier).push(
                    (layer, own@[j as int]@),
                ));
                assert(added[j as int] == (layer, own@[j as int]@));
                j += 1;
                assert(labelled_models(signals@) =~= before + added.take(j as int));
            }
            assert(added.take(added.len() as int) =~= added);
            i += 1;
        }
        signals
    }

    /// How many sensors are registered.
    pub fn sensor_count(&self) -> (count: usize)
        ensures
            count == self.sensors@.len(),
    {
        self.sensors.len()
    }
}

/// After a layer is removed no sensor of it is left, and all others are.
pub proof fn lemma_unregister_removes_exactly_the_layer<S: HealthSensor>(
    sensors: Seq<S>,
    layer: ProtocolLayer,
)
    ensures
        forall|sensor: S| #[trigger]
            sensors.filter(of_other_layer(layer)).contains(sensor) <==> sensors.contains(sensor)
                && sensor.model().layer != layer,
    decreases sensors.len(),
{
    reveal(Seq::filter);
    let kept = sensors.filter(of_other_layer(layer));
    if sensors.len() > 0 {
        let front = sensors.drop_last();
        lemma_unregister_removes_exactly_the_layer(front, layer);
        let less = front.filter(of_other_layer(layer));
        assert forall|sensor: S| #[trigger]
            kept.contains(sensor) <==> sensors.contains(sensor) && sensor.model().layer != layer by {
            if kept.contains(sensor) {
                let i = choose|i: int| 0 <= i < kept.len() && kept[i] == sensor;
                if i < less.len() {
                    assert(less[i] == sensor);
                    assert(less.contains(sensor));
                    let k = choose|k: int| 0 <= k < front.len() && front[k] == sensor;
                    assert(sensors[k] == sensor);
                } else {
                    assert(sensors[sensors.len() - 1] == sensor);
                }
            }
            if sensors.contains(sensor) && sensor.model().layer != layer {
                let k = choose|k: int| 0 <= k < sensors.len() && sensors[k] == sensor;
                if k < front.len() {
                    assert(front[k] == sensor);
                    assert(less.contains(sensor));
                    let i = choose|i: int| 0 <= i < less.len() && less[i] == sensor;
                    assert(kept[i] == sensor);
                } else {
                    assert(kept[kept.len() - 1] == sensor);
                }
            }
        }
    }
}

/// The signals of all sensors are those of each, with its layer and in its order, one
/// sensor behind the other.
pub proof fn lemma_every_signal_is_listed<S: HealthSensor>(
    sensors: Seq<S>,
    count: int,
    i: int,
    k: int,
)
    requires
        0 <= i < count <= sensors.len(),
        0 <= k < sensors[i].model().signals.len(),
    ensures
        all_signals(sensors, count).contains(
            (sensors[i].model().layer, sensors[i].model().signals[k]),
        ),
        all_signals(sensors, count).len() == all_signals(sensors, count - 1).len()
            + sensors[count - 1].model().signals.len(),
        i == count - 1 ==> all_signals(sensors, count)[all_signals(sensors, count - 1).len() + k]
            == (sensors[i].model().layer, sensors[i].model().signals[k]),
    decreases count,
{
    let earlier = all_signals(sensors, count - 1);
    let own = signals_of(sensors[count - 1]);
    let all = all_signals(sensors, count);
    let wanted = (sensors[i].model().layer, sensors[i].model().signals[k]);
    if i < count - 1 {
        lemma_every_signal_is_listed(sensors, count - 1, i, k);
        let at = choose|at: int| 0 <= at < earlier.len() && earlier[at] == wanted;
        assert(all[at] == wanted);
    } else {
        assert(own[k] == wanted);
        assert(all[earlier.len() + k] == wanted);
    }
}

/// A report is the sensor's own: its layer, its version, its values and its signals.
pub proof fn lemma_reports_are_of_their_sensor<S: HealthSensor>(
    snapshot: SensorSnapshot,
    sensor: S,
    i: int,
)
    requires
        reports(snapshot, sensor),
        0 <= i < sensor.model().signals.len(),
    ensures
        snapshot.layer == sensor.model().layer,
        snapshot.version@ == sensor.model().version,
        snapshot.values@ == sensor.model().values,
        snapshot.available_signals@.len() == sensor.model().signals.len(),
        snapshot.available_signals@[i]@ == sensor.model().signals[i].name,
{
    assert(text_views(snapshot.available_signals@)[i] == signal_names(sensor.model().signals)[i]);
    assert(text_views(snapshot.available_signals@).len() == snapshot.available_signals@.len());
}

} // verus!
