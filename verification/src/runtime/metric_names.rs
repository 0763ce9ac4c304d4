//! Names of metrics, shared by all components.
use vstd::prelude::*;

verus! {

/// Total video frames received from PipeWire
pub const FRAMES_RECEIVED: &'static str = "frames_received_total";
/// Total video frames successfully processed
pub const FRAMES_PROCESSED: &'static str = "frames_processed_total";
/// Total video frames dropped (queue full, timeout, etc.)
pub const FRAMES_DROPPED: &'static str = "frames_dropped_total";
/// Frame processing time histogram (milliseconds)
pub const FRAME_PROCESSING_TIME_MS: &'static str = "frame_processing_time_ms";

/// Total format conversions performed
pub const CONVERSIONS_TOTAL: &'static str = "conversions_total";
/// Conversion time histogram (milliseconds)
pub const CONVERSION_TIME_MS: &'static str = "conversion_time_ms";
/// Total bytes converted
pub const CONVERSION_BYTES: &'static str = "conversion_bytes_total";

/// Total frames dispatched to RDP clients
pub const FRAMES_DISPATCHED: &'static str = "frames_dispatched_total";
/// Current frames waiting in dispatch queue
pub const FRAMES_QUEUED: &'static str = "frames_queued";
/// Dispatch time histogram (microseconds)
pub const DISPATCH_TIME_US: &'static str = "dispatch_time_us";

/// Total bytes sent to RDP clients
pub const BYTES_SENT: &'static str = "bytes_sent_total";
/// Total bytes received from RDP clients
pub const BYTES_RECEIVED: &'static str = "bytes_received_total";
/// Total RDP packets sent
pub const PACKETS_SENT: &'static str = "packets_sent_total";
/// Total RDP packets received
pub const PACKETS_RECEIVED: &'static str = "packets_received_total";
/// Total network errors encountered
pub const NETWORK_ERRORS: &'static str = "network_errors_total";

/// Currently active RDP connections
pub const CONNECTIONS_ACTIVE: &'static str = "connections_active";
/// Total RDP connections since server start
pub const CONNECTIONS_TOTAL: &'static str = "connections_total";
/// Total connection errors (auth failures, protocol errors, etc.)
pub const CONNECTION_ERRORS: &'static str = "connection_errors_total";

/// Current CPU usage percentage
pub const CPU_USAGE: &'static str = "cpu_usage_percent";
/// Current memory usage in bytes
pub const MEMORY_USAGE: &'static str = "memory_usage_bytes";
/// Current memory usage as percentage of system total
pub const MEMORY_USAGE_PERCENT: &'static str = "memory_usage_percent";

/// Input event latency histogram (milliseconds)
pub const INPUT_LATENCY_MS: &'static str = "input_latency_ms";
/// Video encoding/transmission latency histogram (milliseconds)
pub const VIDEO_LATENCY_MS: &'static str = "video_latency_ms";
/// End-to-end latency histogram (milliseconds)
pub const END_TO_END_LATENCY_MS: &'static str = "end_to_end_latency_ms";

/// EGFX frame acknowledgement queue depth (gauge)
pub const EGFX_QUEUE_DEPTH: &'static str = "egfx_queue_depth";
/// Total EGFX frame acknowledgements received (counter)
pub const EGFX_FRAME_ACKS: &'static str = "egfx_frame_acks_total";
/// Client-reported decode+render time in microseconds (histogram, from QoE)
pub const CLIENT_DECODE_RENDER_US: &'static str = "client_decode_render_us";

/// Current encoder FPS (gauge)
pub const ENCODER_FPS: &'static str = "encoder_fps";
/// Current encoder bitrate in kbps (gauge)
pub const ENCODER_BITRATE_KBPS: &'static str = "encoder_bitrate_kbps";
/// Encoding duration per frame in milliseconds (histogram)
pub const ENCODE_DURATION_MS: &'static str = "encode_duration_ms";
/// Total frames encoded (counter)
pub const FRAMES_ENCODED: &'static str = "frames_encoded_total";

} // verus!
