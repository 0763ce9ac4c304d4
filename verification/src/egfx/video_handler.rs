//! From raw frames to encoded frames: what is counted, what is sent, and what is
//! dropped. The encoder and the output queue are the caller's.
use vstd::prelude::*;

verus! {

/// This build has no H.264 encoder of its own.
pub const H264_BUILT_IN: bool = false;

/// A raw frame of any source.
#[derive(Debug)]
pub struct RawFrame {
    pub data: Vec<u8>,
    pub width: u32,
    pub height: u32,
    pub stride: u32,
}

/// How video is encoded.
#[derive(Clone, Copy, Debug, PartialEq, Eq)]
pub struct EgfxVideoConfig {
    pub bitrate_kbps: u32,
    pub max_fps: u32,
    pub enable_frame_skip: bool,
    pub quality_preset: u32,
    pub avc_444_mode: bool,
}

impl Default for EgfxVideoConfig {
    fn default() -> (config: Self)
        ensures
            config == (EgfxVideoConfig {
                bitrate_kbps: 5000,
                max_fps: 30,
                enable_frame_skip: true,
                quality_preset: 50,
                avc_444_mode: false,
            }),
    {
        EgfxVideoConfig {
            bitrate_kbps: 5000,
            max_fps: 30,
            enable_frame_skip: true,
            quality_preset: 50,
            avc_444_mode: false,
        }
    }
}

/// A frame that is ready to be sent.
#[derive(Debug)]
pub struct EncodedFrame {
    pub h264_data: Vec<u8>,
    pub timestamp_ms: u64,
    pub is_keyframe: bool,
    pub width: u32,
    pub height: u32,
    pub encode_time_us: u64,
}

/// What the encoder made of a frame.
#[derive(Debug)]
pub struct EncoderOutput {
    pub data: Vec<u8>,
    pub is_keyframe: bool,
}

/// Counts over a session.
#[derive(Clone, Copy, Debug, PartialEq, Eq)]
pub struct EncodingStats {
    pub frames_encoded: u64,
    pub frames_dropped: u64,
    pub keyframes: u64,
    pub total_bytes: u64,
    pub avg_encode_time_us: u64,
    pub peak_encode_time_us: u64,
}

impl EncodingStats {
    pub open spec fn zero() -> EncodingStats {
        EncodingStats {
            frames_encoded: 0,
            frames_dropped: 0,
            keyframes: 0,
            total_bytes: 0,
            avg_encode_time_us: 0,
            peak_encode_time_us: 0,
        }
    }

    /// One more frame and its bytes can be counted.
    pub open spec fn has_room_for(&self, bytes: int) -> bool {
        &&& self.frames_encoded < u64::MAX
        &&& self.frames_dropped < u64::MAX
        &&& self.keyframes < u64::MAX
        &&& self.total_bytes + bytes <= u64::MAX
    }
}

impl Default for EncodingStats {
    fn default() -> (stats: Self)
        ensures
            stats == EncodingStats::zero(),
    {
        EncodingStats {
            frames_encoded: 0,
            frames_dropped: 0,
            keyframes: 0,
            total_bytes: 0,
            avg_encode_time_us: 0,
            peak_encode_time_us: 0,
        }
    }
}

/// What became of a frame in the output queue.
#[derive(Clone, Copy, Debug, PartialEq, Eq)]
pub enum SendOutcome {
    Sent,
    Full,
    Closed,
}

/// The output queue is closed: nothing can be sent any more.
#[derive(Clone, Copy, Debug, PartialEq, Eq)]
pub struct OutputClosed;

impl OutputClosed {
    /// The error in words.
    pub fn message(&self) -> (text: &'static str)
        ensures
            text@ == "Output channel closed"@,
    {
        "Output channel closed"
    }
}

/// A frame that is being processed.
#[derive(Clone, Copy, Debug, PartialEq, Eq)]
pub struct FrameInProgress {
    pub number: u64,
    pub timestamp_ms: u64,
    pub width: u32,
    pub height: u32,
    /// The surface took on the frame's size.
    pub resized: bool,
}

/// Counts after a frame went through the encoder. `average` is the new mean time.
pub open spec fn counted(
    stats: EncodingStats,
    encode_time_us: u64,
    average: u64,
    encoded: Option<EncoderOutput>,
) -> EncodingStats {
    EncodingStats {
        frames_encoded: (stats.frames_encoded + 1) as u64,
        peak_encode_time_us: if stats.peak_encode_time_us > encode_time_us {
            stats.peak_encode_time_us
        } else {
            encode_time_us
        },
        avg_encode_time_us: average,
        keyframes: match encoded {
            Some(output) if output.is_keyframe => (stats.keyframes + 1) as u64,
            _ => stats.keyframes,
        },
        total_bytes: match encoded {
            Some(output) => (stats.total_bytes + output.data@.len()) as u64,
            None => stats.total_bytes,
        },
        ..stats
    }
}

/// The video handler's state.
pub struct EgfxVideoHandler {
    pub config: EgfxVideoConfig,
    pub stats: EncodingStats,
    pub surface_size: (u32, u32),
    pub frame_counter: u64,
}

impl EgfxVideoHandler {
    /// A handler for a surface of the given size.
    pub fn new(config: EgfxVideoConfig, initial_width: u32, initial_height: u32) -> (handler: Self)
        ensures
            handler.config == config,
            handler.stats == EncodingStats::zero(),
            handler.surface_size == (initial_width, initial_height),
            handler.frame_counter == 0,
    {
        EgfxVideoHandler {
            config,
            stats: EncodingStats::default(),
            surface_size: (initial_width, initial_height),
            frame_counter: 0,
        }
    }

    /// A frame came in: it gets a number, and the surface its size. Hand it to the
    /// encoder next.
    pub fn begin_frame(&mut self, width: u32, height: u32, timestamp_ms: u64) -> (frame:
        FrameInProgress)
        ensures
            frame.number == old(self).frame_counter,
            frame.timestamp_ms == timestamp_ms,
            frame.width == width,
            frame.height == height,
            frame.resized == (old(self).surface_size != (width, height)),
            final(self).surface_size == (width, height),
            final(self).frame_counter == (old(self).frame_counter + 1) % 0x1_0000_0000_0000_0000,
            final(self).stats == old(self).stats,
            final(self).config == old(self).config,
    {
        let number: u64 = self.frame_counter;
        self.frame_counter = number.wrapping_add(1);
        let resized: bool = self.surface_size.0 != width || self.surface_size.1 != height;
        if resized {
            self.surface_size = (width, height);
        }
        FrameInProgress { number, timestamp_ms, width, height, resized }
    }

    /// The encoder is done with a frame. Every frame counts as encoded; one that the
    /// encoder skipped gives nothing to send. `average` is the new mean encoding
    /// time.
    pub fn frame_encoded(
        &mut self,
        frame: FrameInProgress,
        encode_time_us: u64,
        average: u64,
        encoded: Option<EncoderOutput>,
    ) -> (output: Option<EncodedFrame>)
        requires
            old(self).stats.has_room_for(
                match encoded {
                    Some(output) => output.data@.len() as int,
                    None => 0,
                },
            ),
        ensures
            final(self).stats == counted(old(self).stats, encode_time_us, average, encoded),
            final(self).stats.frames_encoded == old(self).stats.frames_encoded + 1,
            final(self).stats.total_bytes == old(self).stats.total_bytes + match encoded {
                Some(made) => made.data@.len(),
                None => 0,
            },
            final(self).surface_size == old(self).surface_size,
            final(self).frame_counter == old(self).frame_counter,
            final(self).config == old(self).config,
            match encoded {
                None => output is None,
                Some(made) => output == Some(
                    EncodedFrame {
                        h264_data: made.data,
                        timestamp_ms: frame.timestamp_ms,
                        is_keyframe: made.is_keyframe,
                        width: frame.width,
                        height: frame.height,
                        encode_time_us,
                    },
                ),
            },
    {
        self.stats.frames_encoded = self.stats.frames_encoded + 1;
        if self.stats.peak_encode_time_us <= encode_time_us {
            self.stats.peak_encode_time_us = encode_time_us;
        }
        self.stats.avg_encode_time_us = average;
        match encoded {
            None => None,
            Some(made) => {
                if made.is_keyframe {
                    self.stats.keyframes = self.stats.keyframes + 1;
                }
                self.stats.total_bytes = self.stats.total_bytes + made.data.len() as u64;
                Some(
                    EncodedFrame {
                        h264_data: made.data,
                        timestamp_ms: frame.timestamp_ms,
                        is_keyframe: made.is_keyframe,
                        width: frame.width,
                        height: frame.height,
                        encode_time_us,
                    },
                )
            },
        }
    }

    /// What became of a frame in the output queue: whether it was sent. A full queue
    /// drops it, a closed one is an error.
    pub fn frame_sent(&mut self, outcome: SendOutcome) -> (sent: Result<bool, OutputClosed>)
        requires
            old(self).stats.frames_dropped < u64::MAX,
        ensures
            sent == match outcome {
                SendOutcome::Sent => Ok(true),
                SendOutcome::Full => Ok(false),
                SendOutcome::Closed => Err(OutputClosed),
            },
            final(self).stats == (EncodingStats {
                frames_dropped: if outcome == SendOutcome::Full {
                    (old(self).stats.frames_dropped + 1) as u64
                } else {
                    old(self).stats.frames_dropped
                },
                ..old(self).stats
            }),
            final(self).surface_size == old(self).surface_size,
            final(self).frame_counter == old(self).frame_counter,
            final(self).config == old(self).config,
    {
        match outcome {
            SendOutcome::Sent => Ok(true),
            SendOutcome::Full => {
                self.stats.frames_dropped = self.stats.frames_dropped + 1;
                Ok(false)
            },
            SendOutcome::Closed => Err(OutputClosed),
        }
    }

    /// The counts so far.
    pub fn get_stats(&self) -> (stats: EncodingStats)
        ensures
            stats == self.stats,
    {
        self.stats
    }

    /// Counts from zero again.
    pub fn reset_stats(&mut self)
        ensures
            final(self).stats == EncodingStats::zero(),
            final(self).surface_size == old(self).surface_size,
            final(self).frame_counter == old(self).frame_counter,
            final(self).config == old(self).config,
    {
        self.stats = EncodingStats::default();
    }

    /// The size of the surface.
    pub fn surface_size(&self) -> (size: (u32, u32))
        ensures
            size == self.surface_size,
    {
        self.surface_size
    }
}

/// What one frame does to the counts, whatever they were: one more frame, its bytes on
/// top of those before, one more keyframe where it is one, the time where it is the
/// longest so far, and nothing of the dropped frames.
pub proof fn lemma_a_frame_is_added(
    stats: EncodingStats,
    encode_time_us: u64,
    average: u64,
    made: EncoderOutput,
)
    requires
        stats.frames_encoded < u64::MAX,
        stats.keyframes < u64::MAX,
        stats.total_bytes + made.data@.len() <= u64::MAX,
    ensures
        ({
            let after = counted(stats, encode_time_us, average, Some(made));
            &&& after.total_bytes - stats.total_bytes == made.data@.len()
            &&& after.frames_encoded - stats.frames_encoded == 1
            &&& after.keyframes - stats.keyframes == if made.is_keyframe { 1int } else { 0 }
            &&& after.frames_dropped == stats.frames_dropped
            &&& after.avg_encode_time_us == average
            &&& after.peak_encode_time_us >= stats.peak_encode_time_us
            &&& after.peak_encode_time_us >= encode_time_us
            &&& after.peak_encode_time_us == stats.peak_encode_time_us
                || after.peak_encode_time_us == encode_time_us
        }),
{
}

/// A frame that went through the encoder.
pub ghost struct FrameRecord {
    pub encode_time_us: u64,
    pub average: u64,
    pub encoded: Option<EncoderOutput>,
}

impl FrameRecord {
    /// How many bytes the encoder made of it.
    pub open spec fn bytes(self) -> nat {
        match self.encoded {
            Some(output) => output.data@.len(),
            None => 0,
        }
    }

    pub open spec fn is_keyframe(self) -> bool {
        self.encoded is Some && self.encoded->Some_0.is_keyframe
    }
}

/// The counts after a session of frames.
pub open spec fn counted_all(stats: EncodingStats, frames: Seq<FrameRecord>) -> EncodingStats
    decreases frames.len(),
{
    if frames.len() == 0 {
        stats
    } else {
        let before = counted_all(stats, frames.drop_last());
        let last = frames.last();
        counted(before, last.encode_time_us, last.average, last.encoded)
    }
}

/// The bytes of all frames together.
pub open spec fn bytes_of_all(frames: Seq<FrameRecord>) -> nat {
    frames.map_values(|frame: FrameRecord| frame.bytes()).fold_left(
        0,
        |sum: nat, bytes: nat| sum + bytes,
    )
}

proof fn lemma_bytes_of_one_more(frames: Seq<FrameRecord>)
    requires
        frames.len() > 0,
    ensures
        bytes_of_all(frames) == bytes_of_all(frames.drop_last()) + frames.last().bytes(),
{
    let bytes = |frame: FrameRecord| frame.bytes();
    assert(frames.map_values(bytes).drop_last() =~= frames.drop_last().map_values(bytes));
    assert(frames.map_values(bytes).last() == frames.last().bytes());
}

/// Over a session the counts are what their names say: the number of frames, the sum
/// of the sizes of their data, the number of keyframes among them, the longest time
/// and the last mean time.
pub proof fn lemma_counts_of_a_session(frames: Seq<FrameRecord>)
    requires
        frames.len() <= u64::MAX,
        bytes_of_all(frames) <= u64::MAX,
    ensures
        ({
            let stats = counted_all(EncodingStats::zero(), frames);
            &&& stats.frames_encoded == frames.len()
            &&& stats.total_bytes == bytes_of_all(frames)
            &&& stats.keyframes == frames.filter(|frame: FrameRecord| frame.is_keyframe()).len()
            &&& stats.frames_dropped == 0
            &&& forall|i: int|
                0 <= i < frames.len() ==> (#[trigger] frames[i]).encode_time_us
                    <= stats.peak_encode_time_us
            &&& frames.len() > 0 ==> stats.avg_encode_time_us == frames.last().average
            &&& frames.len() > 0 ==> exists|i: int|
                0 <= i < frames.len() && (#[trigger] frames[i]).encode_time_us
                    == stats.peak_encode_time_us
            &&& frames.len() == 0 ==> stats.peak_encode_time_us == 0
        }),
    decreases frames.len(),
{
    let is_key = |frame: FrameRecord| frame.is_keyframe();
    if frames.len() == 0 {
        assert(frames.map_values(|frame: FrameRecord| frame.bytes()) =~= seq![]);
        assert(frames =~= seq![]);
        reveal(Seq::filter);
    } else {
        let earlier = frames.drop_last();
        let last = frames.last();
        lemma_bytes_of_one_more(frames);
        lemma_counts_of_a_session(earlier);
        reveal(Seq::filter);
        earlier.lemma_filter_len_push(is_key, last);
        assert(earlier.push(last) =~= frames);
        let before = counted_all(EncodingStats::zero(), earlier);
        let stats = counted_all(EncodingStats::zero(), frames);
        assert(earlier.filter(is_key).len() <= earlier.len()) by {
            earlier.lemma_filter_len(is_key);
        }
        assert forall|i: int| 0 <= i < frames.len() implies (#[trigger] frames[i]).encode_time_us
            <= stats.peak_encode_time_us by {
            if i < earlier.len() {
                assert(frames[i] == earlier[i]);
            }
        }
        assert(last == frames[frames.len() - 1]);
        if stats.peak_encode_time_us != last.encode_time_us {
            let i = choose|i: int|
                0 <= i < earlier.len() && (#[trigger] earlier[i]).encode_time_us
                    == before.peak_encode_time_us;
            assert(frames[i] == earlier[i]);
        }
    }
}

/// The counts stay consistent: no more keyframes than frames, and a skipped frame
/// adds no bytes.
pub proof fn lemma_counts_stay_consistent(
    stats: EncodingStats,
    encode_time_us: u64,
    average: u64,
    encoded: Option<EncoderOutput>,
)
    requires
        stats.keyframes <= stats.frames_encoded < u64::MAX,
    ensures
        ({
            let after = counted(stats, encode_time_us, average, encoded);
            &&& after.keyframes <= after.frames_encoded
            &&& after.frames_encoded == stats.frames_encoded + 1
            &&& encode_time_us <= after.peak_encode_time_us
            &&& stats.peak_encode_time_us <= after.peak_encode_time_us
            &&& encoded is None ==> after.total_bytes == stats.total_bytes
        }),
{
}

/// Makes video handlers.
pub struct EgfxVideoHandlerFactory {
    pub config: EgfxVideoConfig,
    /// There is an H.264 encoder to make handlers for.
    pub h264: bool,
}

impl EgfxVideoHandlerFactory {
    /// A factory for a configuration, with what this build has for an encoder.
    pub fn new(config: EgfxVideoConfig) -> (factory: Self)
        ensures
            factory.config == config,
            factory.h264 == H264_BUILT_IN,
    {
        EgfxVideoHandlerFactory { config, h264: H264_BUILT_IN }
    }

    /// Whether handlers can be made at all.
    pub fn is_available(&self) -> (available: bool)
        ensures
            available == self.h264,
    {
        self.h264
    }

    /// A handler for a surface of the given size, at the start of its session.
    /// `encoder_started` is whether an encoder could be set up for it: without one,
    /// or without H.264 at all, there is no handler.
    pub fn build_handler(&self, width: u32, height: u32, encoder_started: bool) -> (handler: Option<
        EgfxVideoHandler,
    >)
        ensures
            handler == if self.h264 && encoder_started {
                Some(
                    (EgfxVideoHandler {
                        config: self.config,
                        stats: EncodingStats::zero(),
                        surface_size: (width, height),
                        frame_counter: 0,
                    }),
                )
            } else {
                None
            },
    {
        if self.h264 && encoder_started {
            Some(EgfxVideoHandler::new(self.config, width, height))
        } else {
            None
        }
    }
}

} // verus!
