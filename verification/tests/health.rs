use lamco_rdp_server::health::performance::{EgfxSnapshot, EncoderSnapshot};
use lamco_rdp_server::health::sensors::egfx::EgfxSensor;
use lamco_rdp_server::health::sensors::encoder::EncoderSensor;
use lamco_rdp_server::health::sensors::mutter::MutterSensor;
use lamco_rdp_server::health::sensors::pipewire::PipeWireSensor;
use lamco_rdp_server::health::sensors::portal::PortalSensor;
use lamco_rdp_server::health::sensors::registry::SensorRegistry;
use lamco_rdp_server::health::sensors::session::SessionSensor;
use lamco_rdp_server::health::sensors::{
    signal, versioned_signal, HealthSensor, MetricType, ProtocolLayer, SensorModel, SensorSnapshot,
    SignalDescriptor, SignalValue,
};
use lamco_rdp_server::health::snapshot_collector::SnapshotCollector;
use lamco_rdp_server::runtime::metric_names::{
    BYTES_SENT, CONNECTIONS_ACTIVE, FRAMES_DROPPED, FRAMES_RECEIVED,
};
use lamco_rdp_server::runtime::metrics::MetricsCollector;
use lamco_rdp_server::text_map::TextMap;

/// A value as a double.
fn value(snapshot: &SensorSnapshot, name: &str) -> f64 {
    match snapshot.values.get(name) {
        Some(SignalValue::Unsigned(v)) => *v as f64,
        Some(SignalValue::Signed(v)) => *v as f64,
        Some(SignalValue::DoubleBits(bits)) => f64::from_bits(*bits),
        None => panic!("no value for {name}"),
    }
}

#[test]
fn v81_has_no_qoe_signal() {
    let sensor = EgfxSensor::new("V8.1", EgfxSnapshot::default());
    assert_eq!(sensor.available_signals().len(), 3);
    assert!(!sensor.available_signals().iter().any(|s| s.name.contains("decode_render")));
}

#[test]
fn v81_reports_no_client_time() {
    let state = EgfxSnapshot { client_decode_render_us: Some(4500), ..EgfxSnapshot::default() };
    let mut sensor = EgfxSensor::new("V8.1", state);
    let snap = sensor.snapshot();
    assert!(snap.values.get("egfx_client_decode_render_us").is_none());
    assert_eq!(snap.values.len(), 3);
    for i in 0..snap.values.len() {
        assert!(snap.available_signals.contains(snap.values.entry(i).0));
    }
    sensor.update(EgfxSnapshot { client_decode_render_us: Some(1), ..EgfxSnapshot::default() });
    assert!(sensor.snapshot().values.get("egfx_client_decode_render_us").is_none());
}

#[test]
fn v105_has_qoe_signal() {
    let sensor = EgfxSensor::new("V10.5", EgfxSnapshot::default());
    assert_eq!(sensor.available_signals().len(), 4);
    assert!(sensor.available_signals().iter().any(|s| s.name.contains("decode_render")));
}

#[test]
fn snapshot_reflects_state() {
    let state = EgfxSnapshot {
        channel_ready: true,
        queue_depth: 3,
        frame_acks: 100,
        client_decode_render_us: Some(4500),
        ..EgfxSnapshot::default()
    };
    let sensor = EgfxSensor::new("V10.5", state);
    let snap = sensor.snapshot();

    assert_eq!(value(&snap, "egfx_channel_ready"), 1.0);
    assert_eq!(value(&snap, "egfx_queue_depth"), 3.0);
    assert_eq!(value(&snap, "egfx_frame_acks_total"), 100.0);
    assert_eq!(value(&snap, "egfx_client_decode_render_us"), 4500.0);
}

#[test]
fn channel_updates_are_reported() {
    let mut sensor = EgfxSensor::new("V10.4", EgfxSnapshot::default());
    assert_eq!(sensor.layer(), ProtocolLayer::Egfx);
    assert_eq!(sensor.version(), "V10.4");
    assert_eq!(value(&sensor.snapshot(), "egfx_queue_depth"), 0.0);
    assert!(sensor.snapshot().values.get("egfx_client_decode_render_us").is_none());
    sensor.update(EgfxSnapshot { queue_depth: 8, ..EgfxSnapshot::default() });
    assert_eq!(value(&sensor.snapshot(), "egfx_queue_depth"), 8.0);
}

fn encoder_state() -> EncoderSnapshot {
    EncoderSnapshot {
        backend: "vaapi".to_string(),
        fps_bits: 29.5f64.to_bits(),
        bitrate_kbps: 4800,
        avg_encode_time_ms_bits: 2.3f64.to_bits(),
        frames_encoded: 500,
        frames_skipped: 10,
    }
}

#[test]
fn snapshot_with_no_encoder() {
    let sensor = EncoderSensor::new("openh264", None);
    let snap = sensor.snapshot();
    assert_eq!(snap.values.len(), 0);
    assert_eq!(snap.available_signals.len(), 5);
}

#[test]
fn snapshot_with_active_encoder() {
    let mut sensor = EncoderSensor::new("vaapi", Some(encoder_state()));
    let snap = sensor.snapshot();

    assert!((value(&snap, "encoder_fps") - 29.5).abs() < 0.1);
    assert_eq!(value(&snap, "encoder_bitrate_kbps"), 4800.0);
    assert_eq!(value(&snap, "encoder_frames_encoded"), 500.0);
    assert_eq!(value(&snap, "encoder_frames_skipped"), 10.0);
    assert_eq!(value(&snap, "encoder_encode_time_ms"), 2.3);
    sensor.update(None);
    assert_eq!(sensor.snapshot().values.len(), 0);
}

#[test]
fn mutter_sensor_basic() {
    let sensor = MutterSensor::new(4, 2, 7);
    assert_eq!(sensor.available_signals().len(), 4);
    assert_eq!(sensor.version(), "mutter-rd-2");

    let snap = sensor.snapshot();
    assert_eq!(value(&snap, "mutter_session_valid"), 1.0);
    assert_eq!(value(&snap, "mutter_screencast_version"), 4.0);
    assert_eq!(value(&snap, "mutter_remote_desktop_version"), 2.0);
}

#[test]
fn mutter_sensor_invalidation() {
    let mut sensor = MutterSensor::new(4, 2, 7);
    sensor.set_session_invalid();
    let snap = sensor.snapshot();
    assert_eq!(value(&snap, "mutter_session_valid"), 0.0);
}

#[test]
fn mutter_versions_have_names() {
    assert_eq!(MutterSensor::new(0, 1, 0).version(), "mutter-rd-1");
    assert_eq!(MutterSensor::new(0, 3, 0).version(), "mutter-rd-3");
    assert_eq!(MutterSensor::new(0, -1, 0).version(), "mutter-rd-unknown");
    let snap = MutterSensor::new(0, -1, 9).snapshot();
    assert_eq!(value(&snap, "mutter_remote_desktop_version"), -1.0);
    assert_eq!(value(&snap, "mutter_supported_device_types"), 9.0);
}

#[test]
fn old_pipewire_fewer_signals() {
    let sensor = PipeWireSensor::new((0, 3, 49));
    assert_eq!(sensor.available_signals().len(), 2);
}

#[test]
fn pw_0350_adds_buffer_pressure() {
    let sensor = PipeWireSensor::new((0, 3, 50));
    assert_eq!(sensor.available_signals().len(), 3);
    assert!(sensor
        .available_signals()
        .iter()
        .any(|s| s.name == "pipewire_buffer_pressure"));
}

#[test]
fn pw_110_adds_quantum() {
    let sensor = PipeWireSensor::new((1, 1, 0));
    assert_eq!(sensor.available_signals().len(), 4);
    assert!(sensor.available_signals().iter().any(|s| s.name == "pipewire_quantum_size"));
}

#[test]
fn snapshot_reflects_updates() {
    let mut sensor = PipeWireSensor::new((0, 3, 77));
    sensor.set_stream_state(2);
    sensor.increment_frames();
    sensor.increment_frames();

    let snap = sensor.snapshot();
    assert_eq!(value(&snap, "pipewire_stream_state"), 2.0);
    assert_eq!(value(&snap, "pipewire_frames_processed"), 2.0);
    assert_eq!(snap.version, "0.3.77");
}

#[test]
fn versions_are_compared_part_by_part() {
    assert_eq!(PipeWireSensor::new((0, 4, 0)).available_signals().len(), 3);
    assert_eq!(PipeWireSensor::new((1, 0, 99)).available_signals().len(), 3);
    assert_eq!(PipeWireSensor::new((2, 0, 0)).available_signals().len(), 4);
}

#[test]
fn portal_v1_minimal_signals() {
    let sensor = PortalSensor::new(1);
    assert_eq!(sensor.available_signals().len(), 2);
}

#[test]
fn portal_v4_full_signals() {
    let sensor = PortalSensor::new(4);
    assert_eq!(sensor.available_signals().len(), 4);
    assert!(sensor
        .available_signals()
        .iter()
        .any(|s| s.name == "portal_clipboard_available"));
    assert!(sensor
        .available_signals()
        .iter()
        .any(|s| s.name == "portal_restore_available"));
}

#[test]
fn session_invalidation_reflected() {
    let mut sensor = PortalSensor::new(4);
    let snap1 = sensor.snapshot();
    assert_eq!(value(&snap1, "portal_session_valid"), 1.0);

    sensor.set_session_invalid();
    let snap2 = sensor.snapshot();
    assert_eq!(value(&snap2, "portal_session_valid"), 0.0);
}

#[test]
fn portal_features_come_with_versions() {
    let snap = PortalSensor::new(2).snapshot();
    assert_eq!(value(&snap, "portal_clipboard_available"), 1.0);
    assert!(snap.values.get("portal_restore_available").is_none());
    assert_eq!(PortalSensor::new(6).version(), "unknown");
    assert_eq!(PortalSensor::new(5).version(), "5");
}

struct MockSensor {
    layer: ProtocolLayer,
    version: String,
    signals: Vec<SignalDescriptor>,
}

impl HealthSensor for MockSensor {
    // Only proofs speak of the model.
    fn model(&self) -> SensorModel {
        unreachable!()
    }
    fn layer(&self) -> ProtocolLayer {
        self.layer
    }
    fn version(&self) -> &str {
        &self.version
    }
    fn available_signals(&self) -> &[SignalDescriptor] {
        &self.signals
    }
    fn snapshot(&self) -> SensorSnapshot {
        SensorSnapshot {
            layer: self.layer,
            version: self.version.clone(),
            values: TextMap::new(),
            available_signals: self.signals.iter().map(|s| s.name.clone()).collect(),
        }
    }
}

#[test]
fn register_and_snapshot() {
    let mut registry = SensorRegistry::new();
    let sensor = MockSensor {
        layer: ProtocolLayer::Egfx,
        version: "V10.5".into(),
        signals: vec![signal("queue_depth", MetricType::Gauge, "Queue depth")],
    };

    registry.register(sensor);
    assert_eq!(registry.sensor_count(), 1);

    let snapshots = registry.snapshot_all();
    assert_eq!(snapshots.len(), 1);
    assert_eq!(snapshots[0].layer, ProtocolLayer::Egfx);
}

#[test]
fn unregister_by_layer() {
    let mut registry = SensorRegistry::new();
    registry.register(MockSensor {
        layer: ProtocolLayer::Egfx,
        version: "V10.5".into(),
        signals: vec![],
    });
    registry.register(MockSensor {
        layer: ProtocolLayer::Encoder,
        version: "openh264".into(),
        signals: vec![],
    });

    assert_eq!(registry.sensor_count(), 2);
    registry.unregister(ProtocolLayer::Egfx);
    assert_eq!(registry.sensor_count(), 1);

    let snapshots = registry.snapshot_all();
    assert_eq!(snapshots[0].layer, ProtocolLayer::Encoder);
}

#[test]
fn all_sensors_of_a_layer_are_removed_and_the_rest_keeps_its_order() {
    let mut registry = SensorRegistry::new();
    let layers = [
        ProtocolLayer::Portal,
        ProtocolLayer::Egfx,
        ProtocolLayer::Egfx,
        ProtocolLayer::Encoder,
        ProtocolLayer::Egfx,
    ];
    for (i, layer) in layers.into_iter().enumerate() {
        registry.register(MockSensor {
            layer,
            version: format!("{i}"),
            signals: vec![versioned_signal("s", MetricType::Counter, "d", "2")],
        });
    }
    assert_eq!(registry.available_signals().len(), 5);
    registry.unregister(ProtocolLayer::Egfx);
    let versions: Vec<String> = registry.snapshot_all().into_iter().map(|s| s.version).collect();
    assert_eq!(versions, vec!["0", "3"]);
    let signals = registry.available_signals();
    assert_eq!(signals[1].0, ProtocolLayer::Encoder);
    assert_eq!(signals[1].1.name, "s");
    assert_eq!(signals[1].1.min_version.as_deref(), Some("2"));
}

#[test]
fn layers_have_names() {
    assert_eq!(ProtocolLayer::Egfx.name(), "EGFX");
    assert_eq!(ProtocolLayer::Encoder.name(), "Encoder");
    assert_eq!(ProtocolLayer::PipeWire.name(), "PipeWire");
    assert_eq!(ProtocolLayer::Portal.name(), "Portal");
}

fn collector(metrics: MetricsCollector) -> SnapshotCollector<MockSensor, u64> {
    SnapshotCollector::new(metrics, SensorRegistry::new(), 77, 1_000)
}

#[test]
fn snapshot_returns_defaults_when_no_sources_set() {
    let collector = collector(MetricsCollector::new());
    let snap = collector.snapshot(None, 1_050, 5);
    assert_eq!(snap.uptime, 50);
    assert_eq!(snap.timestamp, 5);
    assert_eq!(snap.latency, 77);
    assert_eq!(snap.fps.current_fps, 30);
    assert!(!snap.egfx.channel_ready);
    assert!(snap.encoder.is_none());
}

#[test]
fn snapshot_reflects_updated_egfx_state() {
    let mut collector = collector(MetricsCollector::new());
    collector.egfx_state.channel_ready = true;
    collector.egfx_state.avc420_enabled = true;
    collector.egfx_state.negotiated_version = Some("V10.5".into());
    collector.egfx_state.queue_depth = 2;

    let snap = collector.snapshot(None, 1_000, 5);
    assert!(snap.egfx.channel_ready);
    assert!(snap.egfx.avc420_enabled);
    assert_eq!(snap.egfx.negotiated_version.as_deref(), Some("V10.5"));
    assert_eq!(snap.egfx.queue_depth, 2);
}

#[test]
fn snapshot_reflects_encoder_stats() {
    let mut collector = collector(MetricsCollector::new());
    collector.encoder_state = Some(EncoderSnapshot {
        backend: "vaapi".into(),
        fps_bits: 29.7f64.to_bits(),
        bitrate_kbps: 4500,
        avg_encode_time_ms_bits: 0,
        frames_encoded: 0,
        frames_skipped: 0,
    });

    let snap = collector.snapshot(None, 1_000, 5);
    let enc = snap.encoder.unwrap();
    assert_eq!(enc.backend, "vaapi");
    assert!((f64::from_bits(enc.fps_bits) - 29.7).abs() < 0.1);
}

#[test]
fn snapshot_reflects_metrics_counters() {
    let mut metrics = MetricsCollector::new();
    metrics.increment_counter(FRAMES_RECEIVED, 100);
    metrics.increment_counter(FRAMES_DROPPED, 3);
    metrics.increment_counter(BYTES_SENT, 1_000_000);

    let collector = collector(metrics);
    let snap = collector.snapshot(None, 1_000, 5);

    assert_eq!(snap.metrics.frames_received, 100);
    assert_eq!(snap.metrics.frames_dropped, 3);
    assert_eq!(snap.metrics.bytes_sent, 1_000_000);
    assert_eq!(snap.metrics.bytes_received, 0);
}

#[test]
fn connections_are_a_counter_before_they_are_a_gauge() {
    let plain = collector(MetricsCollector::new());
    assert_eq!(plain.snapshot(None, 0, 5).metrics.active_connections, 0);
    assert_eq!(plain.snapshot(Some(4), 0, 5).metrics.active_connections, 4);
    assert_eq!(plain.snapshot(None, 0, 5).uptime, 0);
    let mut metrics = MetricsCollector::new();
    metrics.increment_counter(CONNECTIONS_ACTIVE, 2);
    assert_eq!(collector(metrics).snapshot(Some(4), 0, 5).metrics.active_connections, 2);
}

#[test]
fn sensors_are_part_of_the_snapshot() {
    let mut registry = SensorRegistry::new();
    registry.register(SessionSensor::Portal(PortalSensor::new(4)));
    registry.register(SessionSensor::Encoder(EncoderSensor::new("vaapi", None)));
    let collector = SnapshotCollector::new(MetricsCollector::new(), registry, 77, 0);
    let snap = collector.snapshot(None, 7, 5);
    assert_eq!(snap.uptime, 7);
    assert_eq!(snap.sensor_snapshots.len(), 2);
    assert_eq!(value(&snap.sensor_snapshots[0], "portal_version"), 4.0);
    assert_eq!(snap.sensor_snapshots[1].version, "vaapi");
}
