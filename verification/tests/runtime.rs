use std::path::PathBuf;

use lamco_rdp_server::egfx::video_handler::{
    EgfxVideoConfig, EgfxVideoHandler, EgfxVideoHandlerFactory, EncoderOutput, EncodingStats,
    OutputClosed, SendOutcome,
};
use lamco_rdp_server::mutter::clipboard::{
    MutterClipboard, PipeEvent, PipeStep, SelectionReader, CLIPBOARD_MIME_TYPES,
};
use lamco_rdp_server::numbers::{
    parse_number_chars, parse_signed32, parse_unsigned, to_decimal, ParseFailure,
};
use lamco_rdp_server::paths::join_path;
use lamco_rdp_server::runtime::metrics::{
    metric_help, namespace_metric, Histogram, HistogramWindow, MetricsCollector, SummaryMetric, TextMetric, Timer,
    MAX_HISTOGRAM_SAMPLES,
};
use lamco_rdp_server::runtime::pidfile::{content, path_with_base};
use lamco_rdp_server::strings::{contains_text, has_prefix, text_of};
use lamco_rdp_server::text_map::TextMap;
use lamco_rdp_server::third_party::{notices, OPENH264_ATTRIBUTION, OPENH264_RELEASES_URL};
use lamco_rdp_server::words::{split_fields, split_words, suffix_after, text_contains, trim};

#[test]
fn path_uses_xdg_runtime_dir_when_set() {
    assert_eq!(
        PathBuf::from(path_with_base(Some("/tmp/test-runtime-pidfile-1"))),
        PathBuf::from("/tmp/test-runtime-pidfile-1/lamco-rdp-server.pid"),
    );
}

#[test]
fn path_falls_back_to_tmp_when_xdg_empty() {
    assert_eq!(
        PathBuf::from(path_with_base(Some(""))),
        PathBuf::from("/tmp/lamco-rdp-server.pid"),
    );
}

#[test]
fn path_falls_back_to_tmp_when_xdg_unset() {
    assert_eq!(
        PathBuf::from(path_with_base(None)),
        PathBuf::from("/tmp/lamco-rdp-server.pid")
    );
}

#[test]
fn the_pid_file_holds_the_number() {
    assert_eq!(content(0), "0");
    assert_eq!(content(4294967295), "4294967295");
    let written: Vec<char> = content(123).chars().collect();
    assert_eq!(parse_number_chars(&written, u32::MAX as u64), Some(123));
}

#[test]
fn test_egfx_video_config_default() {
    let config = EgfxVideoConfig::default();
    assert_eq!(config.bitrate_kbps, 5000);
    assert_eq!(config.max_fps, 30);
    assert!(config.enable_frame_skip);
}

#[test]
fn test_factory_availability() {
    let factory = EgfxVideoHandlerFactory::new(EgfxVideoConfig::default());
    assert!(!factory.is_available());
    assert!(factory.build_handler(10, 10, true).is_none());
}

#[test]
fn handlers_are_built_where_an_encoder_started() {
    let config = EgfxVideoConfig { bitrate_kbps: 800, ..EgfxVideoConfig::default() };
    let factory = EgfxVideoHandlerFactory { config, h264: true };
    assert!(factory.is_available());
    assert!(factory.build_handler(640, 480, false).is_none());
    let handler = factory.build_handler(640, 480, true).expect("a handler");
    assert_eq!(handler.config, config);
    assert_eq!(handler.surface_size(), (640, 480));
    assert_eq!(handler.get_stats(), EncodingStats::default());
    assert_eq!(handler.frame_counter, 0);
}

#[test]
fn test_handler_creation() {
    let handler = EgfxVideoHandler::new(EgfxVideoConfig::default(), 1920, 1080);
    assert_eq!(handler.surface_size(), (1920, 1080));
}

#[test]
fn test_stats_tracking() {
    let stats = EncodingStats::default();
    assert_eq!(stats.frames_encoded, 0);
    assert_eq!(stats.frames_dropped, 0);
}

#[test]
fn frames_are_counted() {
    let mut handler = EgfxVideoHandler::new(EgfxVideoConfig::default(), 10, 10);
    let frame = handler.begin_frame(10, 10, 5);
    assert_eq!(frame.number, 0);
    assert!(!frame.resized);
    let output = EncoderOutput { data: vec![1, 2, 3], is_keyframe: true };
    let sent = handler.frame_encoded(frame, 40, 40, Some(output)).expect("a frame to send");
    assert_eq!(sent.h264_data, vec![1, 2, 3]);
    assert_eq!(sent.timestamp_ms, 5);
    assert!(sent.is_keyframe);
    assert_eq!(sent.encode_time_us, 40);
    assert_eq!(handler.frame_sent(SendOutcome::Sent), Ok(true));

    let frame = handler.begin_frame(20, 10, 6);
    assert_eq!(frame.number, 1);
    assert!(frame.resized);
    assert_eq!(handler.surface_size(), (20, 10));
    // The encoder skips this one.
    assert!(handler.frame_encoded(frame, 20, 30, None).is_none());
    assert_eq!(
        handler.get_stats(),
        EncodingStats {
            frames_encoded: 2,
            frames_dropped: 0,
            keyframes: 1,
            total_bytes: 3,
            avg_encode_time_us: 30,
            peak_encode_time_us: 40,
        }
    );
    assert_eq!(handler.frame_sent(SendOutcome::Full), Ok(false));
    assert_eq!(handler.get_stats().frames_dropped, 1);
    assert_eq!(handler.frame_sent(SendOutcome::Closed), Err(OutputClosed));
    assert_eq!(OutputClosed.message(), "Output channel closed");
    handler.reset_stats();
    assert_eq!(handler.get_stats(), EncodingStats::default());
}

#[test]
fn test_clipboard_mime_types() {
    // Verify we have the essential MIME types
    assert!(CLIPBOARD_MIME_TYPES.contains(&"text/plain;charset=utf-8"));
    assert!(CLIPBOARD_MIME_TYPES.contains(&"text/plain"));
    assert!(CLIPBOARD_MIME_TYPES.contains(&"image/png"));
    assert_eq!(CLIPBOARD_MIME_TYPES.len(), 8);
}

#[test]
fn clipboards_move_to_new_sessions() {
    let mut clipboard = MutterClipboard::new("/s/1".to_string());
    assert!(!clipboard.is_enabled());
    clipboard.set_enabled(true);
    clipboard.set_enabled(false);
    clipboard.begin_rebind("/s/2".to_string());
    assert_eq!(clipboard.rd_session_path, "/s/2");
    assert_eq!(clipboard.session_generation(), 0);
    assert_eq!(
        clipboard.finish_rebind(Err("no such session".to_string())),
        Err("no such session".to_string())
    );
    assert!(!clipboard.is_enabled());
    assert_eq!(
        clipboard.finish_rebind(Err("call failed: Already enabled".to_string())),
        Ok(1)
    );
    assert!(clipboard.is_enabled());
    assert_eq!(clipboard.finish_rebind(Ok(())), Ok(2));
}

#[test]
fn selections_are_read_to_their_end() {
    let mut reader = SelectionReader::new();
    assert_eq!(reader.step(PipeEvent::Data(vec![1, 2])), PipeStep::Continue);
    assert_eq!(reader.step(PipeEvent::WouldBlock), PipeStep::Continue);
    assert_eq!(reader.step(PipeEvent::Data(vec![3])), PipeStep::Continue);
    assert_eq!(reader.step(PipeEvent::EndOfFile), PipeStep::Done);
    assert_eq!(reader.data, vec![1, 2, 3]);
    assert_eq!(reader.step(PipeEvent::TimedOut), PipeStep::Done);
    assert_eq!(reader.step(PipeEvent::PollFailed), PipeStep::Fail);
    assert_eq!(reader.step(PipeEvent::ReadFailed), PipeStep::Fail);
}

#[test]
fn test_counter() {
    let mut metrics = MetricsCollector::new();

    metrics.increment_counter("test_counter", 1);
    assert_eq!(metrics.get_counter("test_counter"), Some(1));

    metrics.increment_counter("test_counter", 5);
    assert_eq!(metrics.get_counter("test_counter"), Some(6));
}

#[test]
fn test_gauge() {
    let mut metrics = MetricsCollector::new();

    metrics.set_gauge("test_gauge", 42.5f64.to_bits());
    assert_eq!(metrics.get_gauge("test_gauge").map(f64::from_bits), Some(42.5));

    metrics.set_gauge("test_gauge", 100.0f64.to_bits());
    assert_eq!(metrics.get_gauge("test_gauge").map(f64::from_bits), Some(100.0));
}

#[test]
fn histograms_keep_their_samples() {
    let mut metrics = MetricsCollector::new();
    for sample in [10, 20, 30] {
        assert_eq!(metrics.record_histogram("test_histogram", sample), None);
    }
    let histogram = metrics.get_histogram("test_histogram").unwrap();
    assert_eq!(histogram.total_count(), 3);
    assert_eq!(histogram.to_vec(), vec![10, 20, 30]);
}

#[test]
fn test_snapshot() {
    let mut metrics = MetricsCollector::new();

    metrics.increment_counter("counter1", 10);
    metrics.set_gauge("gauge1", 42.0f64.to_bits());
    metrics.record_histogram("hist1", 5.0f64.to_bits());

    let snapshot = metrics.snapshot(3, 4);
    assert_eq!(snapshot.counters.get("counter1"), Some(&10));
    assert_eq!(snapshot.gauges.get("gauge1"), Some(&42.0f64.to_bits()));
    assert!(snapshot.histograms.get("hist1").is_some());
    assert_eq!(
        snapshot.histograms.get("hist1"),
        Some(&HistogramWindow { total_count: 1, samples: vec![5.0f64.to_bits()] })
    );
    assert_eq!(snapshot.timestamp, 3);
    assert_eq!(snapshot.uptime, 4);
    assert_eq!(snapshot.histograms.len(), 1);
}

#[test]
fn test_reset() {
    let mut metrics = MetricsCollector::new();

    metrics.increment_counter("test", 1);
    metrics.set_gauge("test", 1.0f64.to_bits());
    metrics.record_histogram("test", 1.0f64.to_bits());

    metrics.reset();

    assert_eq!(metrics.get_counter("test"), None);
    assert_eq!(metrics.get_gauge("test"), None);
    assert!(metrics.get_histogram("test").is_none());
}

#[test]
fn test_prometheus_export() {
    let mut metrics = MetricsCollector::new();

    metrics.increment_counter("test_counter", 42);
    let gauges = [TextMetric { name: "test_gauge".to_string(), value: 3.14.to_string() }];

    let output = metrics.export_prometheus(0, &gauges, &[]);
    assert!(output.contains("lamco_rdp_test_counter 42"));
    assert!(output.contains("lamco_rdp_test_gauge 3.14"));
    // HELP and TYPE metadata must be present
    assert!(output.contains("# HELP lamco_rdp_test_counter"));
    assert!(output.contains("# TYPE lamco_rdp_test_counter counter"));
    assert!(output.contains("# TYPE lamco_rdp_test_gauge gauge"));
    // Uptime gauge is always present
    assert!(output.contains("lamco_rdp_uptime_seconds"));
}

#[test]
fn the_export_has_exactly_this_text() {
    let mut metrics = MetricsCollector::new();
    metrics.increment_counter("frames_dropped_total", 2);
    let summaries = [SummaryMetric {
        name: "encode_duration_ms".to_string(),
        count: 3,
        sum: "6".to_string(),
        p50: "2".to_string(),
        p95: "2.5".to_string(),
        p99: "3".to_string(),
    }];
    let expected = "# HELP lamco_rdp_uptime_seconds Time since server started.\n\
                    # TYPE lamco_rdp_uptime_seconds gauge\n\
                    lamco_rdp_uptime_seconds 61\n\n\
                    # HELP lamco_rdp_frames_dropped_total Total video frames dropped.\n\
                    # TYPE lamco_rdp_frames_dropped_total counter\n\
                    lamco_rdp_frames_dropped_total 2\n\n\
                    # HELP lamco_rdp_encode_duration_ms Encoding duration per frame in milliseconds.\n\
                    # TYPE lamco_rdp_encode_duration_ms summary\n\
                    lamco_rdp_encode_duration_ms_count 3\n\
                    lamco_rdp_encode_duration_ms_sum 6\n\
                    lamco_rdp_encode_duration_ms{quantile=\"0.5\"} 2\n\
                    lamco_rdp_encode_duration_ms{quantile=\"0.95\"} 2.5\n\
                    lamco_rdp_encode_duration_ms{quantile=\"0.99\"} 3\n\n";
    assert_eq!(metrics.export_prometheus(61, &[], &summaries), expected);
}

#[test]
fn names_are_put_into_the_namespace_once() {
    assert_eq!(namespace_metric("x"), "lamco_rdp_x");
    assert_eq!(namespace_metric("lamco_rdp_x"), "lamco_rdp_x");
    assert_eq!(metric_help("frames_received_total"), "Total video frames received from PipeWire.");
    assert_eq!(metric_help("encoder_bitrate_kbps"), "Current encoder bitrate in kbps.");
    assert_eq!(metric_help("test_counter"), "test counter.");
    assert_eq!(metric_help("test_gauge"), "test gauge.");
    assert_eq!(metric_help(""), ".");
}

#[test]
fn test_histogram_rolling_window() {
    let mut hist = Histogram::new();

    // Fill beyond MAX_HISTOGRAM_SAMPLES
    for i in 0..MAX_HISTOGRAM_SAMPLES + 500 {
        hist.record((i as f64).to_bits());
    }

    // Window should be capped
    assert_eq!(hist.len(), MAX_HISTOGRAM_SAMPLES);
    // total_count tracks all recordings, not just window
    assert_eq!(hist.total_count(), (MAX_HISTOGRAM_SAMPLES + 500) as u64);
    // Window mean should reflect the most recent 10k samples (500..10500)
    let samples: Vec<f64> = hist.to_vec().into_iter().map(f64::from_bits).collect();
    let mean = samples.iter().sum::<f64>() / samples.len() as f64;
    let expected_window_mean = (500.0 + (MAX_HISTOGRAM_SAMPLES + 499) as f64) / 2.0;
    assert!((mean - expected_window_mean).abs() < 1.0);
    assert_eq!(hist.record(0), Some(500.0f64.to_bits()));
}

#[test]
fn timers_measure_from_their_start() {
    let timer = Timer::new(1_000);
    assert_eq!(timer.elapsed_ns(1_500), 500);
    assert_eq!(timer.elapsed_ns(500), 0);
    assert_eq!(timer.elapsed_ns(1_003 + (1u128 << 64)), 3);
}

#[test]
fn notices_end_with_the_license() {
    let text = notices("THE LICENSE");
    assert!(text.starts_with("lamco-rdp-server third-party license notices\n====="));
    assert!(text.contains(OPENH264_ATTRIBUTION));
    assert!(text.contains(OPENH264_RELEASES_URL));
    assert!(text.ends_with("----\nTHE LICENSE"));
}

#[test]
fn numbers_are_read_as_the_standard_library_reads_them() {
    let chars = |text: &str| text.chars().collect::<Vec<char>>();
    for text in ["0", "7", "+7", "-7", "", "+", "-", "x", "1x", "00012", "255", "256", "99999999999"]
    {
        assert_eq!(
            parse_number_chars(&chars(text), 255),
            text.parse::<u8>().ok().map(u64::from),
            "{text:?}"
        );
        assert_eq!(parse_signed32(&chars(text)).ok(), text.parse::<i32>().ok(), "{text:?}");
    }
    assert_eq!(parse_signed32(&chars("-2147483648")), Ok(i32::MIN));
    assert_eq!(parse_signed32(&chars("-2147483649")), Err(ParseFailure::TooSmall));
    assert_eq!(parse_signed32(&chars("2147483648")), Err(ParseFailure::TooLarge));
    assert_eq!(parse_unsigned(&chars(""), 9), Err(ParseFailure::Empty));
    assert_eq!(parse_unsigned(&chars("12x"), 9), Err(ParseFailure::TooLarge));
    assert_eq!(parse_unsigned(&chars("1x2"), 9), Err(ParseFailure::InvalidDigit));
    for text in ["", "x", "256"] {
        let ours = parse_unsigned(&chars(text), 255).unwrap_err();
        assert_eq!(ours.message(), text.parse::<u8>().unwrap_err().to_string());
    }
    assert_eq!(to_decimal(0), "0");
    assert_eq!(to_decimal(u64::MAX), u64::MAX.to_string());
}

#[test]
fn paths_are_joined_as_the_standard_library_joins_them() {
    for dir in ["", "/", "/a", "/a/", "b"] {
        for name in ["x", "/x", ""] {
            assert_eq!(
                join_path(dir, name),
                PathBuf::from(dir).join(name).to_string_lossy(),
                "{dir:?} {name:?}"
            );
        }
    }
}

#[test]
fn texts_are_taken_apart() {
    let chars = |text: &str| text.chars().collect::<Vec<char>>();
    let texts = |list: Vec<Vec<char>>| list.into_iter().map(String::from_iter).collect::<Vec<_>>();
    for text in ["", " ", "a", " a  b\tc\u{3000}d\n"] {
        let expected: Vec<String> = text.split_whitespace().map(str::to_string).collect();
        assert_eq!(texts(split_words(&chars(text))), expected);
        assert_eq!(String::from_iter(trim(text)), text.trim());
    }
    for text in ["", "a", "a:b", ":a::"] {
        let expected: Vec<String> = text.split(':').map(str::to_string).collect();
        assert_eq!(texts(split_fields(&chars(text), ':')), expected);
    }
    assert_eq!(suffix_after(&chars("a-b-c"), '-'), vec!['c']);
    assert_eq!(suffix_after(&chars("abc"), '-'), vec!['a', 'b', 'c']);
    assert!(text_contains("abc", "bc"));
    assert!(!text_contains("abc", "cb"));
    assert!(text_contains("abc", ""));
    assert!(has_prefix("abc", "ab"));
    assert!(!has_prefix("a", "ab"));
    assert!(contains_text(&["x".to_string()], "x"));
    assert_eq!(text_of(&['a', '\u{1F600}']), "a\u{1F600}");
}

#[test]
fn maps_keep_the_order_of_first_insertion() {
    let mut map = TextMap::new();
    map.insert("b".to_string(), 1);
    map.insert("a".to_string(), 2);
    map.insert("b".to_string(), 3);
    assert_eq!(map.len(), 2);
    assert_eq!(map.entry(0), (&"b".to_string(), &3));
    assert_eq!(map.entry(1), (&"a".to_string(), &2));
    *map.get_mut("a").unwrap() += 5;
    assert_eq!(map.get("a"), Some(&7));
    assert!(map.get_mut("c").is_none());
    map.clear();
    assert_eq!(map.get("a"), None);
}
