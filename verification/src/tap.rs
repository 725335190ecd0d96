//! One output: from the inner form to chunks of one format.

use vstd::prelude::*;

use crate::arith::{count_up, saturate, saturate_count, to_i64};
use crate::frames::{convert_channels, converted, pad_with_silence, padded};
use crate::resampler::{
    block_frames, block_frames_of, law_flushed_rest_is_gone, lemma_squared_remaining,
    ResamplerModel, ResamplerPlan, ResamplerState,
};
use crate::types::{frames_fitting, frames_in, OutputFormat, CHANNELS, SAMPLE_RATE};

verus! {

/// Ties a frame of the output to the device time of its capture.
#[derive(Clone, Copy, Debug, PartialEq, Eq, Structural)]
pub struct PtsAnchor {
    /// Index of the frame, counted at the output rate.
    pub out_frame: u64,
    /// Device time of the frame.
    pub pts_ns: i64,
}

/// What lies between the inner form and an output.
#[verifier::ext_equal]
pub enum StageModel {
    /// The output is the inner form.
    Passthrough,
    /// Only the channels differ.
    Convert,
    /// The rate differs.
    Resample(ResamplerModel),
}

/// Contents of an [`OutputTap`].
#[verifier::ext_equal]
pub struct TapModel {
    pub format: OutputFormat,
    pub chunk_ms: u32,
    pub stage: StageModel,
    /// Output that has not been taken yet.
    pub out: Seq<u32>,
    /// Index of the first frame of `out`.
    pub origin: u64,
    pub anchor: Option<PtsAnchor>,
}

/// Samples per frame of a format, one at least.
pub open spec fn channels_of(format: OutputFormat) -> int {
    if format.channels == 0 {
        1
    } else {
        format.channels as int
    }
}

/// Frames per chunk of a format, one at least.
pub open spec fn chunk_frames_of(format: OutputFormat, chunk_ms: u32) -> int {
    if frames_fitting(format.sample_rate as int, chunk_ms as int) == 0 {
        1
    } else {
        frames_fitting(format.sample_rate as int, chunk_ms as int)
    }
}

/// Whether chunks and blocks of a format can be counted in samples.
pub open spec fn countable(format: OutputFormat, chunk_ms: u32) -> bool {
    &&& chunk_frames_of(format, chunk_ms) * channels_of(format) <= usize::MAX
    &&& block_frames(SAMPLE_RATE as int, chunk_ms as int) * channels_of(format) <= usize::MAX
}

/// Decides whether chunks and blocks of a format can be counted in samples.
pub fn is_countable(format: OutputFormat, chunk_ms: u32) -> (r: bool)
    ensures
        r == countable(format, chunk_ms),
{
    let channels: usize = if format.channels == 0 {
        1
    } else {
        format.channels as usize
    };
    let wanted: usize = format.chunk_frames_for(chunk_ms);
    let frames: usize = if wanted == 0 {
        1
    } else {
        wanted
    };
    frames.checked_mul(channels).is_some() && block_frames_of(SAMPLE_RATE, chunk_ms).checked_mul(
        channels,
    ).is_some()
}

impl TapModel {
    /// A tap that has seen nothing.
    pub open spec fn fresh(format: OutputFormat, chunk_ms: u32) -> Self {
        TapModel {
            format,
            chunk_ms,
            stage: if format.sample_rate != SAMPLE_RATE {
                StageModel::Resample(
                    ResamplerModel {
                        plan: ResamplerPlan::planned(
                            SAMPLE_RATE,
                            format.sample_rate,
                            channels_of(format) as usize,
                            chunk_ms,
                        ),
                        pending: Seq::empty(),
                    },
                )
            } else if channels_of(format) != CHANNELS {
                StageModel::Convert
            } else {
                StageModel::Passthrough
            },
            out: Seq::empty(),
            origin: 0,
            anchor: None,
        }
    }

    /// The stage suits the format.
    pub open spec fn wf(self) -> bool {
        &&& self.format.sample_rate > 0
        &&& countable(self.format, self.chunk_ms)
        &&& match self.stage {
            StageModel::Passthrough => self.format.sample_rate == SAMPLE_RATE && self.channels()
                == CHANNELS,
            StageModel::Convert => self.format.sample_rate == SAMPLE_RATE && self.channels()
                != CHANNELS,
            StageModel::Resample(r) => {
                &&& self.format.sample_rate != SAMPLE_RATE
                &&& r.wf()
                &&& r.plan == ResamplerPlan::planned(
                    SAMPLE_RATE,
                    self.format.sample_rate,
                    self.channels() as usize,
                    self.chunk_ms,
                )
            },
        }
    }

    /// Samples per frame.
    pub open spec fn channels(self) -> int {
        channels_of(self.format)
    }

    /// Frames per chunk.
    pub open spec fn chunk_frames(self) -> int {
        chunk_frames_of(self.format, self.chunk_ms)
    }

    /// Samples per chunk.
    pub open spec fn need(self) -> int {
        self.chunk_frames() * self.channels()
    }

    /// With the inner samples `inner` taken in. `averages` are the averages of
    /// its frames.
    pub open spec fn fed(self, inner: Seq<u32>, averages: Seq<u32>) -> Self {
        match self.stage {
            StageModel::Passthrough => TapModel { out: self.out + inner, ..self },
            StageModel::Convert => if inner.len() < 2 {
                self
            } else {
                TapModel { out: self.out + converted(inner, averages, self.channels()), ..self }
            },
            StageModel::Resample(r) => if inner.len() < 2 {
                self
            } else {
                TapModel {
                    stage: StageModel::Resample(
                        r.extended(converted(inner, averages, self.channels())),
                    ),
                    ..self
                }
            },
        }
    }

    /// Whether a block is due for conversion.
    pub open spec fn ready(self) -> bool {
        self.stage matches StageModel::Resample(r) && r.ready()
    }

    /// The block that is due.
    pub open spec fn block(self) -> Seq<u32> {
        self.stage->Resample_0.block()
    }

    /// With the block that was due converted to `output`.
    pub open spec fn accepted(self, output: Seq<u32>) -> Self {
        TapModel {
            stage: StageModel::Resample(self.stage->Resample_0.consumed()),
            out: self.out + output,
            ..self
        }
    }

    /// Frames that wait for a whole block.
    pub open spec fn remaining(self) -> int {
        match self.stage {
            StageModel::Resample(r) => r.remaining(),
            _ => 0,
        }
    }

    /// With the waiting frames brought to one block.
    pub open spec fn squared(self) -> Self {
        TapModel { stage: StageModel::Resample(self.stage->Resample_0.squared()), ..self }
    }

    /// With the waiting frames converted to `output`.
    pub open spec fn finished(self, output: Seq<u32>) -> Self {
        TapModel {
            stage: StageModel::Resample(self.stage->Resample_0.cleared()),
            out: self.out + output,
            ..self
        }
    }

    /// With the output brought to whole chunks, silence behind it.
    pub open spec fn aligned(self) -> Self {
        TapModel { out: padded(self.out, self.need()), ..self }
    }

    /// Whether the output consists of whole chunks.
    pub open spec fn is_aligned(self) -> bool {
        self.out.len() as int % self.need() == 0
    }

    /// With the start of a push at device time `pts_ns` tied to the output
    /// frame that `total` inner frames correspond to.
    pub open spec fn anchored(self, total: u64, pts_ns: i64) -> Self {
        TapModel {
            anchor: Some(
                PtsAnchor {
                    out_frame: saturate_count(
                        total * self.format.sample_rate / SAMPLE_RATE as int,
                    ),
                    pts_ns,
                },
            ),
            ..self
        }
    }

    /// Duration of an output frame in whole nanoseconds.
    pub open spec fn frame_ns(self) -> int {
        1_000_000_000int / self.format.sample_rate as int
    }

    /// Device time of an output frame, counted from the anchor; the time `now`
    /// where there is none yet.
    pub open spec fn pts_at(self, out_frame: u64, now_ns: i64) -> i64 {
        match self.anchor {
            None => now_ns,
            Some(a) => saturate(a.pts_ns + (out_frame - a.out_frame) * self.frame_ns()),
        }
    }

    /// Whether a whole chunk can be taken.
    pub open spec fn has_chunk(self) -> bool {
        self.out.len() >= self.need()
    }

    /// The chunk that can be taken.
    pub open spec fn chunk(self) -> Seq<u32> {
        self.out.take(self.need())
    }

    /// With that chunk taken.
    pub open spec fn popped(self) -> Self {
        TapModel {
            out: self.out.skip(self.need()),
            origin: saturate_count(self.origin + self.chunk_frames()),
            ..self
        }
    }

    /// With all whole chunks thrown away.
    pub open spec fn discarded(self) -> Self
        decreases self.out.len(),
    {
        if self.need() > 0 && self.has_chunk() {
            self.popped().discarded()
        } else {
            self
        }
    }

    /// Waiting frames brought to one block still wait.
    pub proof fn lemma_squared_waits(self)
        requires
            self.wf(),
            self.stage is Resample,
        ensures
            self.squared().wf(),
            self.squared().remaining() > 0,
    {
        lemma_squared_remaining(self.stage->Resample_0);
    }

    /// A chunk is not empty.
    pub proof fn lemma_need_positive(self)
        requires
            self.wf(),
        ensures
            0 < self.need() <= usize::MAX,
            0 < self.chunk_frames() <= usize::MAX,
            0 < self.channels() <= u16::MAX,
    {
        assert(frames_fitting(self.format.sample_rate as int, self.chunk_ms as int) >= 0) by {
            assert(self.format.sample_rate * self.chunk_ms >= 0) by (nonlinear_arith)
                requires
                    self.format.sample_rate >= 0,
                    self.chunk_ms >= 0,
            ;
        }
        assert(self.chunk_frames() * self.channels() > 0) by (nonlinear_arith)
            requires
                self.chunk_frames() > 0,
                self.channels() > 0,
        ;
    }
}

/// Conversion from the inner form to a format that differs from it.
#[derive(Debug)]
struct OutputStage {
    out_channels: usize,
    resampler: Option<ResamplerState>,
}

/// One output with its own buffer and its own time base.
#[derive(Debug)]
pub struct OutputTap {
    output: OutputFormat,
    stage2: Option<OutputStage>,
    out_buf: Vec<u32>,
    out_chunk_frames: usize,
    chunk_ms: u32,
    out_channels: usize,
    out_frame_origin: u64,
    pts_anchor: Option<PtsAnchor>,
}

impl View for OutputTap {
    type V = TapModel;

    closed spec fn view(&self) -> TapModel {
        TapModel {
            format: self.output,
            chunk_ms: self.chunk_ms,
            stage: match self.stage2 {
                None => StageModel::Passthrough,
                Some(stage) => match stage.resampler {
                    None => StageModel::Convert,
                    Some(r) => StageModel::Resample(r@),
                },
            },
            out: self.out_buf@,
            origin: self.out_frame_origin,
            anchor: self.pts_anchor,
        }
    }
}

impl OutputStage {
    /// The stage towards `out_channels` channels at `out_sample_rate`; at the
    /// inner rate only the channels are converted.
    fn new(out_sample_rate: u32, out_channels: usize, chunk_ms: u32) -> (r: Self)
        requires
            out_channels > 0,
            block_frames(SAMPLE_RATE as int, chunk_ms as int) * out_channels <= usize::MAX,
        ensures
            r.out_channels == out_channels,
            r.resampler is None <==> out_sample_rate == SAMPLE_RATE,
            r.resampler matches Some(s) ==> s@.wf() && s@ == (ResamplerModel {
                plan: ResamplerPlan::planned(SAMPLE_RATE, out_sample_rate, out_channels, chunk_ms),
                pending: Seq::empty(),
            }),
    {
        let resampler = if out_sample_rate == SAMPLE_RATE {
            None
        } else {
            Some(ResamplerState::new(SAMPLE_RATE, out_sample_rate, out_channels, chunk_ms))
        };
        OutputStage { out_channels, resampler }
    }

    /// Converts the channels of the inner samples and passes them on: to
    /// `out_buf`, or to what waits for the rate conversion.
    fn process_inner(&mut self, inner_stereo: &[u32], averages: &[u32], out_buf: &mut Vec<u32>)
        requires
            old(self).out_channels > 0,
        ensures
            final(self).out_channels == old(self).out_channels,
            final(self).resampler is Some <==> old(self).resampler is Some,
            inner_stereo@.len() < 2 ==> final(self).resampler == old(self).resampler
                && final(out_buf)@ == old(out_buf)@,
            inner_stereo@.len() >= 2 && old(self).resampler is None ==> final(out_buf)@ == old(
                out_buf,
            )@ + converted(inner_stereo@, averages@, old(self).out_channels as int),
            inner_stereo@.len() >= 2 && old(self).resampler is Some ==> {
                &&& final(out_buf)@ == old(out_buf)@
                &&& final(self).resampler->0@ == old(self).resampler->0@.extended(
                    converted(inner_stereo@, averages@, old(self).out_channels as int),
                )
            },
    {
        let frames: usize = inner_stereo.len() / 2;
        if frames == 0 {
            return;
        }
        let converted = convert_channels(inner_stereo, averages, self.out_channels);
        match &mut self.resampler {
            None => {
                let ghost before = out_buf@;
                out_buf.extend_from_slice(converted.as_slice());
                assert(out_buf@ =~= before + converted@);
            },
            Some(rs) => {
                rs.extend(converted.as_slice());
            },
        }
    }
}

impl OutputTap {
    /// The cached sizes agree with the format.
    pub closed spec fn wf(&self) -> bool {
        &&& self@.wf()
        &&& self.out_channels == self@.channels()
        &&& self.out_chunk_frames == self@.chunk_frames()
        &&& self.stage2 matches Some(s) ==> s.out_channels == self.out_channels
    }

    /// A fresh tap for a format.
    pub fn new(output: OutputFormat, chunk_ms: u32) -> (r: Self)
        requires
            output.sample_rate > 0,
            countable(output, chunk_ms),
        ensures
            r.wf(),
            r@ == TapModel::fresh(output, chunk_ms),
    {
        let out_channels: usize = if output.channels == 0 {
            1
        } else {
            output.channels as usize
        };
        let wanted: usize = output.chunk_frames_for(chunk_ms);
        let out_chunk_frames: usize = if wanted == 0 {
            1
        } else {
            wanted
        };
        let stage2 = if output.sample_rate == SAMPLE_RATE && out_channels == CHANNELS as usize {
            None
        } else {
            Some(OutputStage::new(output.sample_rate, out_channels, chunk_ms))
        };
        OutputTap {
            output,
            stage2,
            out_buf: Vec::new(),
            out_chunk_frames,
            chunk_ms,
            out_channels,
            out_frame_origin: 0,
            pts_anchor: None,
        }
    }

    /// A well-formed tap has a well-formed model.
    pub proof fn lemma_wf(&self)
        requires
            self.wf(),
        ensures
            self@.wf(),
    {
    }

    /// The format of the output.
    pub fn output(&self) -> (r: OutputFormat)
        ensures
            r == self@.format,
    {
        self.output
    }

    /// The chunk duration.
    pub fn chunk_ms(&self) -> (r: u32)
        ensures
            r == self@.chunk_ms,
    {
        self.chunk_ms
    }

    /// Whether the output is the inner form.
    pub fn is_passthrough(&self) -> (r: bool)
        ensures
            r == (self@.stage is Passthrough),
    {
        self.stage2.is_none()
    }

    /// Whether the frames have to be averaged for this output.
    pub fn is_mono(&self) -> (r: bool)
        requires
            self.wf(),
        ensures
            r == (self@.channels() == 1),
    {
        self.out_channels == 1
    }

    /// What the rate conversion has to be built for, if there is one.
    pub fn plan(&self) -> (r: Option<ResamplerPlan>)
        ensures
            r == (match self@.stage {
                StageModel::Resample(m) => Some(m.plan),
                _ => None,
            }),
    {
        match &self.stage2 {
            Some(stage) => match &stage.resampler {
                Some(rs) => Some(rs.plan()),
                None => None,
            },
            None => None,
        }
    }

    /// Takes inner samples in.
    pub fn feed_inner(&mut self, inner_stereo: &[u32], averages: &[u32])
        requires
            old(self).wf(),
        ensures
            final(self).wf(),
            final(self)@ == old(self)@.fed(inner_stereo@, averages@),
    {
        let ghost before = self.out_buf@;
        match &mut self.stage2 {
            None => {
                self.out_buf.extend_from_slice(inner_stereo);
                assert(self.out_buf@ =~= before + inner_stereo@);
            },
            Some(stage) => {
                stage.process_inner(inner_stereo, averages, &mut self.out_buf);
            },
        }
    }

    /// Decides whether a block is due for conversion.
    pub fn is_ready(&self) -> (r: bool)
        requires
            self.wf(),
        ensures
            r == self@.ready(),
    {
        match &self.stage2 {
            Some(stage) => match &stage.resampler {
                Some(rs) => rs.is_ready(),
                None => false,
            },
            None => false,
        }
    }

    /// The block that is due.
    pub fn block(&self) -> (r: Vec<u32>)
        requires
            self.wf(),
            self@.ready(),
        ensures
            r@ == self@.block(),
    {
        match &self.stage2 {
            Some(stage) => match &stage.resampler {
                Some(rs) => rs.block(),
                None => Vec::new(),
            },
            None => Vec::new(),
        }
    }

    /// Takes the conversion of the block that was due.
    pub fn accept(&mut self, output: &[u32])
        requires
            old(self).wf(),
            old(self)@.ready(),
        ensures
            final(self).wf(),
            final(self)@ == old(self)@.accepted(output@),
    {
        match &mut self.stage2 {
            Some(stage) => match &mut stage.resampler {
                Some(rs) => {
                    let _ = rs.drain_into(output, &mut self.out_buf);
                },
                None => {},
            },
            None => {},
        }
    }

    /// Frames that wait for a whole block.
    pub fn remaining(&self) -> (r: usize)
        requires
            self.wf(),
        ensures
            r == self@.remaining(),
    {
        match &self.stage2 {
            Some(stage) => match &stage.resampler {
                Some(rs) => rs.remaining(),
                None => 0,
            },
            None => 0,
        }
    }

    /// Brings the waiting frames to one block.
    pub fn square(&mut self)
        requires
            old(self).wf(),
            old(self)@.stage is Resample,
        ensures
            final(self).wf(),
            final(self)@ == old(self)@.squared(),
    {
        match &mut self.stage2 {
            Some(stage) => match &mut stage.resampler {
                Some(rs) => rs.square(),
                None => {},
            },
            None => {},
        }
    }

    /// Everything that waits for conversion.
    pub fn waiting(&self) -> (r: Vec<u32>)
        requires
            self.wf(),
            self@.stage is Resample,
        ensures
            r@ == self@.stage->Resample_0.pending,
    {
        match &self.stage2 {
            Some(stage) => match &stage.resampler {
                Some(rs) => rs.waiting(),
                None => Vec::new(),
            },
            None => Vec::new(),
        }
    }

    /// Takes the conversion of the last, incomplete block.
    pub fn finish(&mut self, output: &[u32])
        requires
            old(self).wf(),
            old(self)@.remaining() > 0,
        ensures
            final(self).wf(),
            final(self)@ == old(self)@.finished(output@),
    {
        match &mut self.stage2 {
            Some(stage) => match &mut stage.resampler {
                Some(rs) => {
                    let _ = rs.flush_into(output, &mut self.out_buf);
                },
                None => {},
            },
            None => {},
        }
    }

    /// Brings the output to whole chunks, silence behind it.
    pub fn flush(&mut self)
        requires
            old(self).wf(),
        ensures
            final(self).wf(),
            final(self)@ == old(self)@.aligned(),
            final(self)@.is_aligned(),
    {
        proof {
            self@.lemma_need_positive();
            crate::frames::law_padded_is_aligned(self@.out, self@.need());
        }
        let need: usize = self.out_chunk_frames * self.out_channels;
        pad_with_silence(&mut self.out_buf, need);
    }

    /// Takes one whole chunk, with the device time of its first frame.
    pub fn pop(&mut self, now_ns: i64) -> (r: Option<(Vec<u32>, i64)>)
        requires
            old(self).wf(),
        ensures
            final(self).wf(),
            !old(self)@.has_chunk() ==> r is None && final(self)@ == old(self)@,
            old(self)@.has_chunk() ==> {
                &&& r matches Some((chunk, pts))
                &&& chunk@ == old(self)@.chunk()
                &&& pts == old(self)@.pts_at(old(self)@.origin, now_ns)
                &&& final(self)@ == old(self)@.popped()
            },
    {
        proof {
            self@.lemma_need_positive();
        }
        let need: usize = self.out_chunk_frames * self.out_channels;
        if self.out_buf.len() < need {
            return None;
        }
        let pts: i64 = self.pts_for_out_frame(self.out_frame_origin, now_ns);
        let rest = self.out_buf.split_off(need);
        let mut chunk = rest;
        std::mem::swap(&mut chunk, &mut self.out_buf);
        self.out_frame_origin = count_up(self.out_frame_origin, self.out_chunk_frames as u64);
        Some((chunk, pts))
    }

    /// Whole frames that can be taken.
    pub fn buffered_out_frames(&self) -> (r: usize)
        requires
            self.wf(),
        ensures
            r == self@.out.len() as int / self@.channels(),
    {
        self.out_buf.len() / self.out_channels
    }

    /// Ties the start of a push to the output frame it corresponds to.
    pub fn update_pts_anchor(&mut self, total_inner_frames: u64, device_pts_ns: i64)
        requires
            old(self).wf(),
        ensures
            final(self).wf(),
            final(self)@ == old(self)@.anchored(total_inner_frames, device_pts_ns),
    {
        let rate: u32 = self.output.sample_rate;
        assert(0 <= total_inner_frames * rate <= 0xffff_ffff_ffff_ffff * 0xffff_ffff)
            by (nonlinear_arith)
            requires
                0 <= total_inner_frames <= 0xffff_ffff_ffff_ffff,
                0 <= rate <= 0xffff_ffff,
        ;
        let projected: u128 = total_inner_frames as u128 * rate as u128 / 48_000;
        let out_frame: u64 = if projected > u64::MAX as u128 {
            u64::MAX
        } else {
            projected as u64
        };
        self.pts_anchor = Some(PtsAnchor { out_frame, pts_ns: device_pts_ns });
    }

    /// Device time of an output frame.
    fn pts_for_out_frame(&self, out_frame: u64, now_ns: i64) -> (r: i64)
        requires
            self.wf(),
        ensures
            r == self@.pts_at(out_frame, now_ns),
    {
        match self.pts_anchor {
            None => now_ns,
            Some(anchor) => {
                let frame_delta: i128 = out_frame as i128 - anchor.out_frame as i128;
                let ns_per_out_frame: i128 = (1_000_000_000u32 / self.output.sample_rate) as i128;
                assert(0 <= ns_per_out_frame <= 1_000_000_000) by (nonlinear_arith)
                    requires
                        ns_per_out_frame == 1_000_000_000int / (self.output.sample_rate as int),
                        self.output.sample_rate > 0,
                ;
                assert(-0x1_0000_0000_0000_0000 * 1_000_000_000 <= frame_delta * ns_per_out_frame
                    <= 0x1_0000_0000_0000_0000 * 1_000_000_000) by (nonlinear_arith)
                    requires
                        -0x1_0000_0000_0000_0000 <= frame_delta <= 0x1_0000_0000_0000_0000,
                        0 <= ns_per_out_frame <= 1_000_000_000,
                ;
                to_i64(anchor.pts_ns as i128 + frame_delta * ns_per_out_frame)
            },
        }
    }
}

/// Taking a chunk loses nothing: the chunk and what is left make up the output
/// as it was.
pub proof fn law_pop_partitions_output(t: TapModel)
    requires
        t.wf(),
        t.has_chunk(),
    ensures
        t.chunk() + t.popped().out == t.out,
        t.chunk().len() == t.need(),
{
    t.lemma_need_positive();
    assert(t.chunk() + t.popped().out =~= t.out);
}

/// The tap after `n` chunks have been taken.
pub open spec fn popped_times(t: TapModel, n: nat) -> TapModel
    decreases n,
{
    if n == 0 {
        t
    } else {
        popped_times(t, (n - 1) as nat).popped()
    }
}

/// The chunks are the output cut at the multiples of their length, in order and
/// without gap or overlap.
pub proof fn law_chunks_are_consecutive(t: TapModel, n: nat)
    requires
        t.wf(),
        (n + 1) * t.need() <= t.out.len(),
    ensures
        popped_times(t, n).has_chunk(),
        popped_times(t, n).chunk() == t.out.subrange(n * t.need(), (n + 1) * t.need()),
{
    t.lemma_need_positive();
    assert((n + 1) * t.need() == n * t.need() + t.need()) by (nonlinear_arith);
    lemma_popped_times(t, n);
    assert(0 <= n * t.need()) by (nonlinear_arith)
        requires
            t.need() > 0,
    ;
    assert(popped_times(t, n).chunk() =~= t.out.subrange(n * t.need(), (n + 1) * t.need()));
}

proof fn lemma_popped_times(t: TapModel, n: nat)
    requires
        t.wf(),
        n * t.need() <= t.out.len(),
    ensures
        popped_times(t, n).out == t.out.skip(n * t.need()),
        popped_times(t, n).format == t.format,
        popped_times(t, n).chunk_ms == t.chunk_ms,
        popped_times(t, n).stage == t.stage,
        popped_times(t, n).anchor == t.anchor,
        popped_times(t, n).origin == saturate_count(t.origin + n * t.chunk_frames()),
    decreases n,
{
    t.lemma_need_positive();
    assert(0 * t.need() == 0 && 0 * t.chunk_frames() == 0) by (nonlinear_arith);
    if n > 0 {
        let k = (n - 1) as nat;
        assert(n * t.need() == k * t.need() + t.need() && n * t.chunk_frames() == k
            * t.chunk_frames() + t.chunk_frames() && k * t.need() >= 0 && k * t.chunk_frames() >= 0)
            by (nonlinear_arith)
            requires
                n == k + 1,
                t.need() > 0,
                t.chunk_frames() > 0,
        ;
        lemma_popped_times(t, k);
        assert(t.out.skip(k * t.need()).skip(t.need()) =~= t.out.skip(n * t.need()));
    } else {
        assert(t.out.skip(0) =~= t.out);
    }
}

/// Throwing the whole chunks away leaves the rest of the output, which is less
/// than a chunk, and the time base counts on over them.
pub proof fn law_discard_keeps_rest(t: TapModel)
    requires
        t.wf(),
    ensures
        t.discarded() == popped_times(t, (t.out.len() as int / t.need()) as nat),
        t.discarded().out == t.out.skip(t.out.len() as int / t.need() * t.need()),
        t.discarded().out.len() < t.need(),
        t.discarded().origin == saturate_count(
            t.origin + t.out.len() as int / t.need() * t.chunk_frames(),
        ),
{
    t.lemma_need_positive();
    let n = (t.out.len() as int / t.need()) as nat;
    vstd::arithmetic::div_mod::lemma_fundamental_div_mod(t.out.len() as int, t.need());
    vstd::arithmetic::div_mod::lemma_mod_bound(t.out.len() as int, t.need());
    assert(t.out.len() as int / t.need() >= 0) by (nonlinear_arith)
        requires
            t.out.len() >= 0,
            t.need() > 0,
    ;
    assert(n * t.need() == t.need() * (t.out.len() as int / t.need())) by (nonlinear_arith)
        requires
            n == t.out.len() as int / t.need(),
    ;
    lemma_popped_times(t, n);
    lemma_discard_goes_on(t, n);
    lemma_popped_times(t, n);
}

proof fn lemma_discard_goes_on(t: TapModel, n: nat)
    requires
        t.wf(),
        n * t.need() <= t.out.len(),
    ensures
        popped_times(t, n).discarded() == t.discarded(),
    decreases n,
{
    t.lemma_need_positive();
    if n > 0 {
        let k = (n - 1) as nat;
        assert(n * t.need() == k * t.need() + t.need()) by (nonlinear_arith)
            requires
                n == k + 1,
        ;
        lemma_popped_times(t, k);
        lemma_discard_goes_on(t, k);
    }
}

/// Times do not run backwards within an output.
pub proof fn law_pts_is_monotone(t: TapModel, a: u64, b: u64, now_ns: i64)
    requires
        t.wf(),
        a <= b,
    ensures
        t.pts_at(a, now_ns) <= t.pts_at(b, now_ns),
{
    if let Some(anchor) = t.anchor {
        assert(t.frame_ns() >= 0) by (nonlinear_arith)
            requires
                t.frame_ns() == 1_000_000_000int / (t.format.sample_rate as int),
                t.format.sample_rate > 0,
        ;
        assert((a - anchor.out_frame) * t.frame_ns() <= (b - anchor.out_frame) * t.frame_ns())
            by (nonlinear_arith)
            requires
                a <= b,
                t.frame_ns() >= 0,
        ;
    }
}

/// The times of any two output frames, before or behind the anchor, differ by
/// their distance times the duration of a frame in whole nanoseconds.
pub proof fn law_pts_is_linear(t: TapModel, a: u64, b: u64, now_ns: i64)
    requires
        t.wf(),
        t.anchor is Some,
        i64::MIN <= t.anchor->0.pts_ns + (a - t.anchor->0.out_frame) * t.frame_ns() <= i64::MAX,
        i64::MIN <= t.anchor->0.pts_ns + (b - t.anchor->0.out_frame) * t.frame_ns() <= i64::MAX,
    ensures
        t.pts_at(b, now_ns) - t.pts_at(a, now_ns) == (b - a) * t.frame_ns(),
{
    let o = t.anchor->0.out_frame;
    assert((b - o) * t.frame_ns() - (a - o) * t.frame_ns() == (b - a) * t.frame_ns())
        by (nonlinear_arith);
}

/// A second flush of an output changes nothing: the rest has been converted, and
/// whole chunks need no silence.
pub proof fn law_second_flush_of_a_tap_is_void(t: TapModel, output: Seq<u32>)
    requires
        t.wf(),
    ensures
        t.aligned().aligned() == t.aligned(),
        t.stage is Resample ==> t.finished(output).remaining() == 0,
{
    t.lemma_need_positive();
    crate::frames::law_padded_is_aligned(t.out, t.need());
    let out = t.aligned().out;
    assert(out + crate::frames::silence(0) =~= out);
    if let StageModel::Resample(r) = t.stage {
        law_flushed_rest_is_gone(r);
    }
}

/// Consecutive chunks of one push are a fixed time apart: their frames times
/// the duration of a frame in whole nanoseconds.
pub proof fn law_pts_spacing(t: TapModel, now_ns: i64)
    requires
        t.wf(),
        t.anchor is Some,
        t.origin + t.chunk_frames() <= u64::MAX,
        i64::MIN <= t.anchor->0.pts_ns + (t.origin - t.anchor->0.out_frame) * t.frame_ns(),
        t.anchor->0.pts_ns + (t.origin + t.chunk_frames() - t.anchor->0.out_frame) * t.frame_ns()
            <= i64::MAX,
    ensures
        t.popped().pts_at(t.popped().origin, now_ns) - t.pts_at(t.origin, now_ns)
            == t.chunk_frames() * t.frame_ns(),
{
    t.lemma_need_positive();
    let d = t.origin - t.anchor->0.out_frame;
    assert((d + t.chunk_frames()) * t.frame_ns() == d * t.frame_ns() + t.chunk_frames()
        * t.frame_ns()) by (nonlinear_arith);
    assert(t.chunk_frames() * t.frame_ns() >= 0) by (nonlinear_arith)
        requires
            t.chunk_frames() > 0,
            t.frame_ns() == 1_000_000_000int / (t.format.sample_rate as int),
            t.format.sample_rate > 0,
    ;
}

/// That time is the chunk duration, but for the rounding of a frame's duration
/// and of the frame count: it is never longer, and shorter by no more than a
/// nanosecond per frame and one frame.
pub proof fn law_spacing_is_chunk_duration(t: TapModel)
    requires
        t.wf(),
        frames_fitting(t.format.sample_rate as int, t.chunk_ms as int) > 0,
        frames_in(t.format.sample_rate as int, t.chunk_ms as int) <= usize::MAX,
    ensures
        t.chunk_frames() * t.frame_ns() <= t.chunk_ms * 1_000_000,
        t.chunk_frames() * t.frame_ns() >= t.chunk_ms * 1_000_000 - t.chunk_frames() - t.frame_ns()
            - 1,
{
    let rate = t.format.sample_rate as int;
    let ms = t.chunk_ms as int;
    let frames = t.chunk_frames();
    let ns = t.frame_ns();
    assert(frames == rate * ms / 1000);
    vstd::arithmetic::div_mod::lemma_fundamental_div_mod(1_000_000_000, rate);
    vstd::arithmetic::div_mod::lemma_mod_bound(1_000_000_000, rate);
    let q = 1_000_000_000int % rate;
    let r = (rate * ms) % 1000;
    assert(rate * ms == 1000 * frames + r && 0 <= r < 1000);
    assert(1_000_000_000 == rate * ns + q && 0 <= q < rate);
    assert(frames * ns <= ms * 1_000_000) by (nonlinear_arith)
        requires
            rate > 0,
            frames >= 0,
            ns >= 0,
            ms >= 0,
            1000 * frames <= rate * ms,
            rate * ns <= 1_000_000_000,
    {
        assert((1000 * frames) * (rate * ns) <= (rate * ms) * (rate * ns));
        assert((rate * ms) * (rate * ns) <= (rate * ms) * 1_000_000_000);
        assert((1000 * frames) * (rate * ns) == rate * (1000 * (frames * ns)));
        assert((rate * ms) * 1_000_000_000 == rate * (ms * 1_000_000_000));
    }
    assert(rate * (ns + 1) == rate * ns + rate) by (nonlinear_arith);
    assert(frames * ns >= ms * 1_000_000 - frames - ns - 1) by (nonlinear_arith)
        requires
            rate > 0,
            frames >= 0,
            ns >= 0,
            ms >= 0,
            rate * ms <= 1000 * frames + 1000,
            1_000_000_000 <= rate * (ns + 1),
    {
        assert((rate * ms) * 1_000_000_000 <= (1000 * frames + 1000) * (rate * (ns + 1)));
        assert((1000 * frames + 1000) * (rate * (ns + 1)) == rate * (1000 * ((frames + 1) * (ns
            + 1))));
        assert((rate * ms) * 1_000_000_000 == rate * (1000 * (ms * 1_000_000)));
        assert(ms * 1_000_000 <= (frames + 1) * (ns + 1));
        assert((frames + 1) * (ns + 1) == frames * ns + frames + ns + 1);
    }
}

/// A push ties the same moment to both outputs: the frame that its first inner
/// frame corresponds to has the device time of the push, at any output rate.
pub proof fn law_outputs_share_time(t: TapModel, total: u64, pts_ns: i64, now_ns: i64)
    requires
        t.wf(),
    ensures
        t.anchored(total, pts_ns).pts_at(
            saturate_count(total * t.format.sample_rate / SAMPLE_RATE as int),
            now_ns,
        ) == pts_ns,
{
    assert(0 * t.frame_ns() == 0) by (nonlinear_arith);
}

} // verus!
