//! One picture of a session's performance, put together from what its parts
//! publish.
use vstd::prelude::*;
use crate::health::performance::{EgfxSnapshot, EncoderSnapshot, FpsSnapshot};
use crate::health::sensors::registry::{reports, SensorRegistry};
use crate::health::sensors::{HealthSensor, SensorSnapshot};
use crate::runtime::metric_names::{
    BYTES_RECEIVED, BYTES_SENT, CONNECTIONS_ACTIVE, FRAMES_DROPPED, FRAMES_RECEIVED,
};
use crate::runtime::metrics::{counter_value, MetricsCollector};

verus! {

/// The totals of a session.
#[derive(Clone, Copy, Debug, PartialEq, Eq)]
pub struct MetricsSummary {
    pub active_connections: u64,
    pub bytes_sent: u64,
    pub bytes_received: u64,
    pub frames_received: u64,
    pub frames_dropped: u64,
}

/// A picture of a session's performance.
pub struct PerformanceSnapshot<L> {
    /// When the picture was taken, in nanoseconds of the calendar.
    pub timestamp: u128,
    /// Nanoseconds since the collector was made.
    pub uptime: u128,
    pub fps: FpsSnapshot,
    pub latency: L,
    pub egfx: EgfxSnapshot,
    pub encoder: Option<EncoderSnapshot>,
    pub metrics: MetricsSummary,
    pub sensor_snapshots: Vec<SensorSnapshot>,
}

/// The totals: connections as a counter, else as a gauge, else none; everything
/// else as counters.
pub open spec fn summary_of(
    counters: Map<Seq<char>, u64>,
    connections_gauge: Option<u64>,
) -> MetricsSummary {
    MetricsSummary {
        active_connections: if counters.contains_key(CONNECTIONS_ACTIVE@) {
            counters[CONNECTIONS_ACTIVE@]
        } else {
            match connections_gauge {
                Some(count) => count,
                None => 0,
            }
        },
        bytes_sent: counter_value(counters, BYTES_SENT@),
        bytes_received: counter_value(counters, BYTES_RECEIVED@),
        frames_received: counter_value(counters, FRAMES_RECEIVED@),
        frames_dropped: counter_value(counters, FRAMES_DROPPED@),
    }
}

fn counter_or_zero(metrics: &MetricsCollector, name: &str) -> (value: u64)
    requires
        metrics.well_formed(),
    ensures
        value == counter_value(metrics.counters(), name@),
{
    match metrics.get_counter(name) {
        Some(value) => value,
        None => 0,
    }
}

/// The totals of a session. `connections_gauge` is the gauge of that name.
pub fn summarize_metrics(metrics: &MetricsCollector, connections_gauge: Option<u64>) -> (summary:
    MetricsSummary)
    requires
        metrics.well_formed(),
    ensures
        summary == summary_of(metrics.counters(), connections_gauge),
{
    let active_connections: u64 = match metrics.get_counter(CONNECTIONS_ACTIVE) {
        Some(value) => value,
        None => match connections_gauge {
            Some(count) => count,
            None => 0,
        },
    };
    MetricsSummary {
        active_connections,
        bytes_sent: counter_or_zero(metrics, BYTES_SENT),
        bytes_received: counter_or_zero(metrics, BYTES_RECEIVED),
        frames_received: counter_or_zero(metrics, FRAMES_RECEIVED),
        frames_dropped: counter_or_zero(metrics, FRAMES_DROPPED),
    }
}

/// What the parts of a session published last. Parts that are not negotiated yet
/// stand at their initial state. What the latency governor publishes is handed
/// through as it is.
pub struct SnapshotCollector<S: HealthSensor, L: Copy> {
    pub metrics: MetricsCollector,
    pub egfx_state: EgfxSnapshot,
    pub encoder_state: Option<EncoderSnapshot>,
    pub fps_state: FpsSnapshot,
    pub latency_state: L,
    pub sensor_registry: SensorRegistry<S>,
    /// When the collector was made, in nanoseconds of the caller's steady clock.
    pub start_time: u128,
}

impl<S: HealthSensor, L: Copy> SnapshotCollector<S, L> {
    pub open spec fn well_formed(&self) -> bool {
        self.metrics.well_formed()
    }

    /// A collector to which no part has published anything.
    pub fn new(
        metrics: MetricsCollector,
        sensor_registry: SensorRegistry<S>,
        initial_latency: L,
        now: u128,
    ) -> (collector: Self)
        requires
            metrics.well_formed(),
        ensures
            collector.well_formed(),
            collector.metrics == metrics,
            collector.sensor_registry == sensor_registry,
            collector.egfx_state.is_initial(),
            collector.encoder_state is None,
            collector.fps_state.current_fps == 30,
            collector.latency_state == initial_latency,
            collector.start_time == now,
    {
        SnapshotCollector {
            metrics,
            egfx_state: EgfxSnapshot::default(),
            encoder_state: None,
            fps_state: FpsSnapshot::default(),
            latency_state: initial_latency,
            sensor_registry,
            start_time: now,
        }
    }

    /// Time since the collector was made.
    pub fn uptime(&self, now: u128) -> (elapsed: u128)
        ensures
            elapsed == if now > self.start_time {
                now - self.start_time
            } else {
                0
            },
    {
        if now > self.start_time {
            now - self.start_time
        } else {
            0
        }
    }

    /// Puts together what the parts published, with the totals and what every
    /// sensor reports now.
    pub fn snapshot(
        &self,
        connections_gauge: Option<u64>,
        now: u128,
        timestamp: u128,
    ) -> (snapshot: PerformanceSnapshot<L>)
        requires
            self.well_formed(),
        ensures
            snapshot.timestamp == timestamp,
            snapshot.uptime == if now > self.start_time {
                now - self.start_time
            } else {
                0
            },
            snapshot.fps == self.fps_state,
            snapshot.latency == self.latency_state,
            snapshot.egfx == self.egfx_state,
            snapshot.encoder == self.encoder_state,
            snapshot.metrics == summary_of(self.metrics.counters(), connections_gauge),
            snapshot.sensor_snapshots@.len() == self.sensor_registry.sensors@.len(),
            forall|i: int|
                0 <= i < snapshot.sensor_snapshots@.len() ==> reports(
                    #[trigger] snapshot.sensor_snapshots@[i],
                    self.sensor_registry.sensors@[i],
                ),
    {
        PerformanceSnapshot {
            timestamp,
            uptime: self.uptime(now),
            fps: self.fps_state,
            latency: self.latency_state,
            egfx: self.egfx_state.duplicate(),
            encoder: match &self.encoder_state {
                Some(encoder) => Some(encoder.duplicate()),
                None => None,
            },
            metrics: summarize_metrics(&self.metrics, connections_gauge),
            sensor_snapshots: self.sensor_registry.snapshot_all(),
        }
    }
}

/// Each total is the counter of its own name, and none where nothing was counted.
/// Connections fall back on the gauge.
pub proof fn lemma_totals_have_their_own_counters(
    counters: Map<Seq<char>, u64>,
    connections_gauge: Option<u64>,
)
    ensures
        ({
            let total = |name: Seq<char>|
                if counters.contains_key(name) {
                    counters[name]
                } else {
                    0
                };
            let summary = summary_of(counters, connections_gauge);
            &&& summary.bytes_sent == total("bytes_sent_total"@)
            &&& summary.bytes_received == total("bytes_received_total"@)
            &&& summary.frames_received == total("frames_received_total"@)
            &&& summary.frames_dropped == total("frames_dropped_total"@)
            &&& counters.contains_key("connections_active"@) ==> summary.active_connections
                == counters["connections_active"@]
            &&& !counters.contains_key("connections_active"@) && connections_gauge is Some
                ==> Some(summary.active_connections) == connections_gauge
            &&& !counters.contains_key("connections_active"@) && connections_gauge is None
                ==> summary.active_connections == 0
        }),
{
}

} // verus!
