//! Formats, configuration, chunks, events and errors.

use vstd::prelude::*;
use vstd::string::*;

use crate::sample::UNITY;

verus! {

/// Rate of the inner form in Hz.
pub const SAMPLE_RATE: u32 = 48_000;

/// Channel count of the inner form.
pub const CHANNELS: u16 = 2;

/// Chunk duration in milliseconds unless another one is asked for.
pub const DEFAULT_CHUNK_MS: u32 = 20;

/// Frames of one chunk of the inner form at the default duration.
pub const CHUNK_FRAMES: usize = 960;

/// Lowest output rate that is supported.
pub const MIN_OUTPUT_RATE: u32 = 8_000;

/// Highest output rate that is supported.
pub const MAX_OUTPUT_RATE: u32 = 192_000;

/// What went wrong, with a message.
#[derive(Debug)]
pub enum Error {
    /// An argument is out of its domain.
    InvalidArg(String),
    /// The operation is not possible in the current state.
    InvalidState(String),
    /// The output format is not supported.
    UnsupportedFormat(String),
    /// The capture backend or the resampler failed.
    Backend(String),
}

/// The mathematical content of an [`Error`].
pub enum ErrorView {
    InvalidArg(Seq<char>),
    InvalidState(Seq<char>),
    UnsupportedFormat(Seq<char>),
    Backend(Seq<char>),
}

impl View for Error {
    type V = ErrorView;

    open spec fn view(&self) -> ErrorView {
        match self {
            Error::InvalidArg(s) => ErrorView::InvalidArg(s@),
            Error::InvalidState(s) => ErrorView::InvalidState(s@),
            Error::UnsupportedFormat(s) => ErrorView::UnsupportedFormat(s@),
            Error::Backend(s) => ErrorView::Backend(s@),
        }
    }
}

impl ErrorView {
    /// The text of the error: its kind, then its message.
    pub open spec fn text(self) -> Seq<char> {
        match self {
            ErrorView::InvalidArg(s) => "invalid argument: "@ + s,
            ErrorView::InvalidState(s) => "invalid state: "@ + s,
            ErrorView::UnsupportedFormat(s) => "unsupported format: "@ + s,
            ErrorView::Backend(s) => "backend error: "@ + s,
        }
    }
}

/// Joins two texts.
pub fn join(head: &str, tail: &str) -> (r: String)
    ensures
        r@ == head@ + tail@,
{
    let mut s = head.to_owned();
    s.append(tail);
    s
}

impl Error {
    /// The same error once more.
    pub fn duplicate(&self) -> (r: Self)
        ensures
            r@ == self@,
    {
        match self {
            Error::InvalidArg(s) => Error::InvalidArg(s.clone()),
            Error::InvalidState(s) => Error::InvalidState(s.clone()),
            Error::UnsupportedFormat(s) => Error::UnsupportedFormat(s.clone()),
            Error::Backend(s) => Error::Backend(s.clone()),
        }
    }

    /// The text of the error: its kind, then its message.
    pub fn text(&self) -> (r: String)
        ensures
            r@ == self@.text(),
    {
        match self {
            Error::InvalidArg(s) => join("invalid argument: ", s.as_str()),
            Error::InvalidState(s) => join("invalid state: ", s.as_str()),
            Error::UnsupportedFormat(s) => join("unsupported format: ", s.as_str()),
            Error::Backend(s) => join("backend error: ", s.as_str()),
        }
    }
}

/// What the stream reports beside its chunks.
#[derive(Debug)]
pub enum Event {
    /// No samples have arrived for too long.
    StreamStalled,
    /// The backend was opened again after a stall.
    StreamRecovered,
    /// The chunk ring gave up its oldest chunk; `count` is the total so far.
    ChunkDropped { count: u64 },
    /// Something failed.
    Error(String),
}

/// The mathematical content of an [`Event`].
pub enum EventView {
    StreamStalled,
    StreamRecovered,
    ChunkDropped { count: u64 },
    Error(Seq<char>),
}

impl View for Event {
    type V = EventView;

    open spec fn view(&self) -> EventView {
        match self {
            Event::StreamStalled => EventView::StreamStalled,
            Event::StreamRecovered => EventView::StreamRecovered,
            Event::ChunkDropped { count } => EventView::ChunkDropped { count: *count },
            Event::Error(s) => EventView::Error(s@),
        }
    }
}

/// Rate and channel count of what is handed out.
#[derive(Clone, Copy, Debug, PartialEq, Eq, Structural)]
pub struct OutputFormat {
    /// Frames per second.
    pub sample_rate: u32,
    /// Samples per frame.
    pub channels: u16,
}

/// Whole frames that `ms` milliseconds hold at `rate` frames per second.
pub open spec fn frames_in(rate: int, ms: int) -> int {
    rate * ms / 1000
}

/// Whole frames that `ms` milliseconds hold at `rate` frames per second, or
/// the largest `usize` where that is less.
pub open spec fn frames_fitting(rate: int, ms: int) -> int {
    if frames_in(rate, ms) > usize::MAX {
        usize::MAX as int
    } else {
        frames_in(rate, ms)
    }
}

/// Counts the frames of `ms` milliseconds at `rate`.
pub fn frames_for(rate: u32, ms: u32) -> (r: usize)
    ensures
        r == frames_fitting(rate as int, ms as int),
{
    assert(0 <= rate * ms <= 0xffff_ffff * 0xffff_ffff) by (nonlinear_arith)
        requires
            0 <= rate <= 0xffff_ffff,
            0 <= ms <= 0xffff_ffff,
    ;
    let frames: u64 = rate as u64 * ms as u64 / 1000;
    if frames > usize::MAX as u64 {
        usize::MAX
    } else {
        frames as usize
    }
}

impl OutputFormat {
    /// Whether the format is supported: mono or stereo, at a rate in range.
    pub open spec fn supported(self) -> bool {
        &&& MIN_OUTPUT_RATE <= self.sample_rate <= MAX_OUTPUT_RATE
        &&& (self.channels == 1 || self.channels == 2)
    }

    /// Why the format is not supported.
    pub open spec fn unsupported(self) -> ErrorView {
        ErrorView::UnsupportedFormat(
            if self.channels == 1 || self.channels == 2 {
                "output sample rate is out of range"@
            } else {
                "output must have one or two channels"@
            },
        )
    }

    /// Accepts exactly the supported formats.
    pub fn validate(&self) -> (r: Result<(), Error>)
        ensures
            r is Ok <==> self.supported(),
            r matches Err(e) ==> e@ == self.unsupported(),
    {
        if self.channels != 1 && self.channels != 2 {
            return Err(
                Error::UnsupportedFormat("output must have one or two channels".to_owned()),
            );
        }
        if self.sample_rate < MIN_OUTPUT_RATE || self.sample_rate > MAX_OUTPUT_RATE {
            return Err(Error::UnsupportedFormat("output sample rate is out of range".to_owned()));
        }
        Ok(())
    }

    /// Frames of one chunk of `chunk_ms` milliseconds.
    pub fn chunk_frames_for(&self, chunk_ms: u32) -> (r: usize)
        ensures
            r == frames_fitting(self.sample_rate as int, chunk_ms as int),
    {
        frames_for(self.sample_rate, chunk_ms)
    }
}

impl Default for OutputFormat {
    fn default() -> (r: Self)
        ensures
            r == (OutputFormat { sample_rate: SAMPLE_RATE, channels: CHANNELS }),
    {
        OutputFormat { sample_rate: SAMPLE_RATE, channels: CHANNELS }
    }
}

/// What a chunk says about the join with the chunk before it.
#[derive(Clone, Copy, Debug, PartialEq, Eq, Structural)]
pub struct ChunkFlags {
    /// The audio does not continue the chunk before.
    pub discontinuity: bool,
    /// First chunk after the backend was opened again by itself.
    pub recovered: bool,
}

impl ChunkFlags {
    /// No flag.
    pub fn empty() -> (r: Self)
        ensures
            r == (ChunkFlags { discontinuity: false, recovered: false }),
    {
        ChunkFlags { discontinuity: false, recovered: false }
    }
}

/// One finished chunk of the primary output.
#[derive(Debug)]
pub struct AudioChunk {
    /// Interleaved samples, as bit patterns.
    pub data: Vec<u32>,
    /// Number of frames in `data`.
    pub frames: usize,
    /// Time of the first frame on the recording clock.
    pub pts_ns: i64,
    /// Running number of the chunk.
    pub seq: u64,
    /// How the chunk joins the one before.
    pub flags: ChunkFlags,
    /// Chunks given up by the ring to make room for this one.
    pub dropped_before: u64,
    /// Largest magnitude in `data`, as a bit pattern.
    pub peak: u32,
    /// Root mean square of `data`, as a bit pattern.
    pub rms: u32,
}

/// One finished chunk of the secondary output.
#[derive(Debug)]
pub struct SecondaryChunk {
    /// Interleaved samples, as bit patterns.
    pub samples: Vec<u32>,
    /// Number of frames in `samples`.
    pub frames: usize,
    /// Time of the first frame on the recording clock.
    pub pts_ns: i64,
    /// Running number of the chunk among the secondary ones.
    pub seq: u64,
    /// How the chunk joins the one before.
    pub flags: ChunkFlags,
    /// Chunks given up by the ring to make room for this one.
    pub dropped_before: u64,
    /// Largest magnitude in `samples`, as a bit pattern.
    pub peak: u32,
    /// Root mean square of `samples`, as a bit pattern.
    pub rms: u32,
}

/// The mathematical content of a chunk of either output.
#[verifier::ext_equal]
pub struct ChunkView {
    pub data: Seq<u32>,
    pub frames: int,
    pub pts_ns: i64,
    pub seq: u64,
    pub flags: ChunkFlags,
    pub dropped_before: u64,
    pub peak: u32,
    pub rms: u32,
}

impl View for AudioChunk {
    type V = ChunkView;

    open spec fn view(&self) -> ChunkView {
        ChunkView {
            data: self.data@,
            frames: self.frames as int,
            pts_ns: self.pts_ns,
            seq: self.seq,
            flags: self.flags,
            dropped_before: self.dropped_before,
            peak: self.peak,
            rms: self.rms,
        }
    }
}

impl View for SecondaryChunk {
    type V = ChunkView;

    open spec fn view(&self) -> ChunkView {
        ChunkView {
            data: self.samples@,
            frames: self.frames as int,
            pts_ns: self.pts_ns,
            seq: self.seq,
            flags: self.flags,
            dropped_before: self.dropped_before,
            peak: self.peak,
            rms: self.rms,
        }
    }
}

/// Where the audio is captured.
#[derive(Clone, Copy, Debug, PartialEq, Eq, Structural)]
pub enum SourceKind {
    /// A microphone.
    Mic,
    /// Everything that the system plays.
    System,
    /// What one process plays.
    Process,
}

/// How a process is selected.
#[derive(Clone, Copy, Debug, PartialEq, Eq, Structural)]
pub enum ProcessMode {
    /// Only the target process.
    Only,
    /// Everything but the target process.
    Except,
}

/// How a stream is set up.
#[derive(Clone, Debug)]
pub struct StreamConfig {
    /// Kind of source.
    pub kind: SourceKind,
    /// Device to capture from, the default one where absent.
    pub device_id: Option<String>,
    /// Process to capture, for [`SourceKind::Process`].
    pub target_pid: Option<u32>,
    /// How `target_pid` selects.
    pub mode: ProcessMode,
    /// Leave out what this process plays.
    pub exclude_self: bool,
    /// Silence the playback of what is captured.
    pub mute_playback: bool,
    /// Primary output.
    pub output: OutputFormat,
    /// Secondary output, if any.
    pub secondary_output: Option<OutputFormat>,
    /// Chunk duration in milliseconds.
    pub chunk_ms: u32,
    /// Chunks that a ring holds.
    pub ring_capacity_chunks: usize,
    /// Input gain as the bit pattern of a linear factor.
    pub gain_bits: u32,
}

impl Default for StreamConfig {
    fn default() -> (r: Self)
        ensures
            r.kind == SourceKind::Mic,
            r.device_id is None,
            r.target_pid is None,
            r.mode == ProcessMode::Only,
            !r.exclude_self,
            !r.mute_playback,
            r.output == (OutputFormat { sample_rate: SAMPLE_RATE, channels: CHANNELS }),
            r.secondary_output is None,
            r.chunk_ms == DEFAULT_CHUNK_MS,
            r.ring_capacity_chunks == 50,
            r.gain_bits == UNITY,
    {
        StreamConfig {
            kind: SourceKind::Mic,
            device_id: None,
            target_pid: None,
            mode: ProcessMode::Only,
            exclude_self: false,
            mute_playback: false,
            output: OutputFormat { sample_rate: SAMPLE_RATE, channels: CHANNELS },
            secondary_output: None,
            chunk_ms: DEFAULT_CHUNK_MS,
            ring_capacity_chunks: 50,
            gain_bits: UNITY,
        }
    }
}

} // verus!
