//! State that the parts of a session publish for their sensors.
use vstd::prelude::*;

verus! {

/// The graphics channel.
#[derive(Debug)]
pub struct EgfxSnapshot {
    pub channel_ready: bool,
    pub avc420_enabled: bool,
    pub negotiated_version: Option<String>,
    pub queue_depth: u32,
    pub frame_acks: u64,
    /// Microseconds that the client needs for a frame, where it reports them.
    pub client_decode_render_us: Option<u64>,
}

impl EgfxSnapshot {
    /// The channel before it is negotiated.
    pub open spec fn is_initial(&self) -> bool {
        &&& !self.channel_ready
        &&& !self.avc420_enabled
        &&& self.negotiated_version is None
        &&& self.queue_depth == 0
        &&& self.frame_acks == 0
        &&& self.client_decode_render_us is None
    }
}

impl Default for EgfxSnapshot {
    fn default() -> (state: Self)
        ensures
            state.is_initial(),
    {
        EgfxSnapshot {
            channel_ready: false,
            avc420_enabled: false,
            negotiated_version: None,
            queue_depth: 0,
            frame_acks: 0,
            client_decode_render_us: None,
        }
    }
}

/// The frame rate that is aimed at.
#[derive(Clone, Copy, Debug, PartialEq, Eq)]
pub struct FpsSnapshot {
    pub current_fps: u32,
}

impl Default for FpsSnapshot {
    fn default() -> (state: Self)
        ensures
            state.current_fps == 30,
    {
        FpsSnapshot { current_fps: 30 }
    }
}

/// The encoder. Rates that are not whole numbers are kept as the bits of a double.
#[derive(Debug)]
pub struct EncoderSnapshot {
    pub backend: String,
    pub fps_bits: u64,
    pub bitrate_kbps: u32,
    pub avg_encode_time_ms_bits: u64,
    pub frames_encoded: u64,
    pub frames_skipped: u64,
}

impl EncoderSnapshot {
    /// A copy.
    pub fn duplicate(&self) -> (copy: Self)
        ensures
            copy == *self,
    {
        EncoderSnapshot {
            backend: self.backend.clone(),
            fps_bits: self.fps_bits,
            bitrate_kbps: self.bitrate_kbps,
            avg_encode_time_ms_bits: self.avg_encode_time_ms_bits,
            frames_encoded: self.frames_encoded,
            frames_skipped: self.frames_skipped,
        }
    }
}

impl EgfxSnapshot {
    /// A copy.
    pub fn duplicate(&self) -> (copy: Self)
        ensures
            copy == *self,
    {
        EgfxSnapshot {
            channel_ready: self.channel_ready,
            avc420_enabled: self.avc420_enabled,
            negotiated_version: match &self.negotiated_version {
                Some(version) => Some(version.clone()),
                None => None,
            },
            queue_depth: self.queue_depth,
            frame_acks: self.frame_acks,
            client_decode_render_us: self.client_decode_render_us,
        }
    }
}

/// Before anything was negotiated the channel promises nothing and counts nothing.
pub proof fn lemma_initial_channel_promises_nothing(state: EgfxSnapshot)
    requires
        state.is_initial(),
    ensures
        !state.channel_ready,
        !state.avc420_enabled,
        state.negotiated_version is None,
        state.client_decode_render_us is None,
        state.queue_depth == 0,
        state.frame_acks == 0,
{
}

} // verus!
