//! What the numbers, the samples, the formats and the plans of the conversions
//! are, in plain terms.

use vstd::prelude::*;

use crate::arith::{later, saturate, saturate_count};
use crate::frames::{converted, mixed, mixed_frames, padded, resized, silence};
use crate::normalizer::{NormalizerModel, Unit};
use crate::resampler::{block_frames, ResamplerModel, MIN_BLOCK_FRAMES};
use crate::sample::{is_nan, limited, magnitude, peak_of, valid_gain};
use crate::tap::{channels_of, chunk_frames_of, countable, StageModel, TapModel};
use crate::types::{
    frames_fitting, OutputFormat, CHANNELS, CHUNK_FRAMES, DEFAULT_CHUNK_MS, SAMPLE_RATE,
};

verus! {

/// Distance of two numbers.
pub open spec fn distance(a: int, b: int) -> int {
    if a < b {
        b - a
    } else {
        a - b
    }
}

/// No time is nearer to a number than the one that stands for it.
pub proof fn law_saturated_time_is_nearest(x: int, other: i64)
    ensures
        distance(saturate(x) as int, x) <= distance(other as int, x),
{
}

/// No count is nearer to a number than the one that stands for it.
pub proof fn law_saturated_count_is_nearest(x: int, other: u64)
    ensures
        distance(saturate_count(x) as int, x) <= distance(other as int, x),
{
}

/// The later of two times is one of them, and neither is behind it.
pub proof fn law_later_time(a: i64, b: i64)
    ensures
        later(a, b) >= a && later(a, b) >= b,
        later(a, b) == a || later(a, b) == b,
{
}

/// A pattern and its negative have the same magnitude, which is the one of them
/// without the sign bit.
pub proof fn law_magnitude_ignores_the_sign(x: u32)
    requires
        x < 0x8000_0000,
    ensures
        magnitude(x) == x,
        magnitude((x + 0x8000_0000) as u32) == x,
        is_nan(x) <==> x > 0x7f80_0000,
        is_nan((x + 0x8000_0000) as u32) <==> x > 0x7f80_0000,
{
}

/// A gain is valid where it is positive zero or more and below infinity, or
/// negative zero: not a number, the infinities and all that is below zero are
/// refused.
pub proof fn law_valid_gains(x: u32)
    ensures
        valid_gain(x) <==> x < 0x7f80_0000 || x == 0x8000_0000,
{
}

/// Limiting keeps the sign and whatever lies between minus one and one, or is
/// not a number; what lies outside becomes one in magnitude.
pub proof fn law_limiting(x: u32)
    ensures
        limited(x) >= 0x8000_0000 <==> x >= 0x8000_0000,
        magnitude(x) <= 0x3f80_0000 ==> limited(x) == x,
        magnitude(x) > 0x7f80_0000 ==> limited(x) == x,
        0x3f80_0000 < magnitude(x) <= 0x7f80_0000 ==> magnitude(limited(x)) == 0x3f80_0000,
{
}

/// The peak neither depends on the order of the parts nor on the signs: it is
/// the larger of the peaks of two parts.
pub proof fn law_peak_of_parts(a: Seq<u32>, b: Seq<u32>)
    ensures
        peak_of(a + b) == (if peak_of(a) < peak_of(b) {
            peak_of(b)
        } else {
            peak_of(a)
        }),
    decreases b.len(),
{
    if b.len() == 0 {
        assert(a + b =~= a);
    } else {
        law_peak_of_parts(a, b.drop_last());
        assert((a + b).drop_last() =~= a + b.drop_last());
        assert((a + b).last() == b.last());
    }
}

/// The peak of a single number is its magnitude, and what is not a number has
/// none.
pub proof fn law_peak_of_one(x: u32)
    ensures
        peak_of(seq![x]) == (if magnitude(x) > 0x7f80_0000 {
            0
        } else {
            magnitude(x)
        }),
{
    let s = seq![x];
    assert(s.drop_last() =~= Seq::empty());
    assert(peak_of(s.drop_last()) == 0);
    assert(s.last() == x);
}

/// A chunk duration holds the whole frames that fit into it: one more would be
/// too long.
pub proof fn law_frames_fill_the_duration(rate: u32, ms: u32)
    ensures
        0 <= frames_fitting(rate as int, ms as int) <= usize::MAX,
        frames_fitting(rate as int, ms as int) * 1000 <= rate * ms,
        frames_fitting(rate as int, ms as int) < usize::MAX ==> rate * ms < (frames_fitting(
            rate as int,
            ms as int,
        ) + 1) * 1000,
{
    assert(rate * ms >= 0) by (nonlinear_arith)
        requires
            rate >= 0,
            ms >= 0,
    ;
}

/// A block lasts as long as a chunk, but has at least 64 frames.
pub proof fn law_blocks_last_a_chunk(rate: u32, ms: u32)
    ensures
        block_frames(rate as int, ms as int) >= 64,
        block_frames(rate as int, ms as int) >= frames_fitting(rate as int, ms as int),
        block_frames(rate as int, ms as int) == 64 || block_frames(rate as int, ms as int)
            == frames_fitting(rate as int, ms as int),
{
}

/// A supported output has one or two channels and between 8 and 192 kHz.
pub proof fn law_supported_formats(f: OutputFormat)
    ensures
        f.supported() <==> 8_000 <= f.sample_rate <= 192_000 && 1 <= f.channels <= 2,
{
}

/// Every frame of the stereo mix is made of one frame of the input: its only
/// sample twice, or its first two samples.
pub proof fn law_mix_takes_the_first_two_channels(src: Seq<u32>, in_ch: int, frames: int, f: int)
    requires
        in_ch > 0,
        0 <= f < frames,
        frames <= src.len() as int / in_ch,
    ensures
        mixed_frames(src, in_ch, frames).len() == 2 * frames,
        mixed(src, in_ch).len() == 2 * (src.len() as int / in_ch),
        mixed_frames(src, in_ch, frames)[2 * f] == src[f * in_ch],
        mixed_frames(src, in_ch, frames)[2 * f + 1] == (if in_ch == 1 {
            src[f * in_ch]
        } else {
            src[f * in_ch + 1]
        }),
        mixed(src, in_ch)[2 * f] == src[f * in_ch],
        mixed(src, in_ch)[2 * f + 1] == (if in_ch == 1 {
            src[f * in_ch]
        } else {
            src[f * in_ch + 1]
        }),
{
    assert((2 * f) / 2 == f && (2 * f + 1) / 2 == f);
    assert((2 * f) % 2 == 0 && (2 * f + 1) % 2 == 1);
    assert(f * 1 == f);
}

/// Every frame of an output is made of one stereo frame: stereo keeps both
/// samples, mono is the average, and any other count repeats the left sample.
pub proof fn law_channels_are_converted_frame_by_frame(
    inner: Seq<u32>,
    averages: Seq<u32>,
    ch: int,
    f: int,
    c: int,
)
    requires
        ch > 0,
        0 <= f < inner.len() as int / 2,
        0 <= c < ch,
    ensures
        ch == 1 ==> converted(inner, averages, ch) == averages,
        ch != 1 ==> converted(inner, averages, ch).len() == (inner.len() as int / 2) * ch,
        ch == 2 ==> converted(inner, averages, ch)[f * ch + c] == inner[f * 2 + c],
        ch > 2 ==> converted(inner, averages, ch)[f * ch + c] == inner[f * 2],
{
    assert((f * ch + c) / ch == f) by (nonlinear_arith)
        requires
            0 <= c < ch,
            0 <= f,
    ;
    assert(0 <= f * ch + c < (inner.len() as int / 2) * ch) by (nonlinear_arith)
        requires
            0 <= f < inner.len() as int / 2,
            0 <= c < ch,
    ;
}

/// Silence is made of positive zeros.
pub proof fn law_silence_is_zero(n: nat, i: int)
    requires
        0 <= i < n,
    ensures
        silence(n).len() == n,
        silence(n)[i] == 0,
{
}

/// What is resized keeps its front and is filled up with zeros.
pub proof fn law_resizing_keeps_the_front(s: Seq<u32>, n: nat, i: int)
    requires
        0 <= i < n,
    ensures
        resized(s, n).len() == n,
        resized(s, n)[i] == (if i < s.len() {
            s[i]
        } else {
            0
        }),
{
}

/// What is padded keeps all its samples, is followed by zeros, and reaches the
/// next multiple.
pub proof fn law_padding_adds_silence(s: Seq<u32>, need: int, i: int)
    requires
        need > 0,
        0 <= i < padded(s, need).len(),
    ensures
        padded(s, need).len() as int % need == 0,
        s.len() <= padded(s, need).len() < s.len() + need,
        padded(s, need)[i] == (if i < s.len() {
            s[i]
        } else {
            0
        }),
{
    crate::frames::law_padded_is_aligned(s, need);
}

/// A channel count of zero stands for one, in every format.
pub proof fn law_outputs_have_a_channel(f: OutputFormat, chunk_ms: u32)
    ensures
        channels_of(f) == (if f.channels == 0 {
            1
        } else {
            f.channels as int
        }),
        chunk_frames_of(f, chunk_ms) >= 1,
        chunk_frames_of(f, chunk_ms) == 1 || chunk_frames_of(f, chunk_ms) == frames_fitting(
            f.sample_rate as int,
            chunk_ms as int,
        ),
        frames_fitting(f.sample_rate as int, chunk_ms as int) >= 1 ==> chunk_frames_of(f, chunk_ms)
            == frames_fitting(f.sample_rate as int, chunk_ms as int),
{
    law_frames_fill_the_duration(f.sample_rate, chunk_ms);
}

/// The rates that the conversions of a new normalizer are asked for: the first
/// stage from the rate of the device to 48 kHz, and each output from 48 kHz to
/// its own rate. Where the two are the same there is none. The first stage has
/// two channels, an output its own, and every block lasts a chunk.
pub proof fn law_conversions_are_planned_for_their_rates(
    in_sample_rate: u32,
    in_channels: u16,
    output: OutputFormat,
    chunk_ms: u32,
)
    requires
        block_frames(in_sample_rate as int, chunk_ms as int) <= usize::MAX,
        block_frames(48_000, chunk_ms as int) <= usize::MAX,
    ensures
        ({
            let n = NormalizerModel::fresh(in_sample_rate, in_channels, output, chunk_ms);
            &&& n.plan_of(Unit::Inner) is Some <==> in_sample_rate != 48_000
            &&& n.plan_of(Unit::Inner) matches Some(p) ==> {
                &&& p.in_rate == in_sample_rate
                &&& p.out_rate == 48_000
                &&& p.channels == 2
                &&& p.chunk_in_frames == block_frames(in_sample_rate as int, chunk_ms as int)
            }
            &&& n.plan_of(Unit::Primary) is Some <==> output.sample_rate != 48_000
            &&& n.plan_of(Unit::Primary) matches Some(p) ==> {
                &&& p.in_rate == 48_000
                &&& p.out_rate == output.sample_rate
                &&& p.channels == (if output.channels == 0 {
                    1
                } else {
                    output.channels as int
                })
                &&& p.chunk_in_frames == block_frames(48_000, chunk_ms as int)
            }
            &&& n.plan_of(Unit::Secondary) is None
        }),
{
}

/// A secondary output that is added is planned for in the same way.
pub proof fn law_secondary_is_planned_for_its_rate(
    n: NormalizerModel,
    output: OutputFormat,
    chunk_ms: u32,
)
    requires
        n.secondary == Some(TapModel::fresh(output, chunk_ms)),
        block_frames(48_000, chunk_ms as int) <= usize::MAX,
    ensures
        n.plan_of(Unit::Secondary) is Some <==> output.sample_rate != 48_000,
        n.plan_of(Unit::Secondary) matches Some(p) ==> {
            &&& p.in_rate == 48_000
            &&& p.out_rate == output.sample_rate
            &&& p.channels == (if output.channels == 0 {
                1
            } else {
                output.channels as int
            })
            &&& p.chunk_in_frames == block_frames(48_000, chunk_ms as int)
        },
{
}

/// Whether nothing of a conversion waits.
pub open spec fn nothing_waits(stage: StageModel) -> bool {
    stage matches StageModel::Resample(r) ==> r.pending.len() == 0
}

/// Whether an output has taken nothing yet and makes chunks of a format.
pub open spec fn is_new_output(t: TapModel, output: OutputFormat, chunk_ms: u32) -> bool {
    &&& t.format == output
    &&& t.chunk_ms == chunk_ms
    &&& t.out.len() == 0
    &&& t.origin == 0
    &&& t.anchor is None
    &&& nothing_waits(t.stage)
    &&& t.stage is Resample <==> output.sample_rate != 48_000
    &&& t.stage is Passthrough <==> output.sample_rate == 48_000 && output.channels == 2
}

/// A new output is the inner form itself, or differs in the rate, or else in
/// the channels; it holds nothing.
pub proof fn law_new_output_is_empty(output: OutputFormat, chunk_ms: u32)
    ensures
        is_new_output(TapModel::fresh(output, chunk_ms), output, chunk_ms),
{
}

/// Whether a normalizer is for a device of these numbers and holds nothing.
pub open spec fn is_new_for(n: NormalizerModel, rate: u32, channels: u16) -> bool {
    &&& n.in_sample_rate == rate
    &&& channels > 0 ==> n.in_channels == channels
    &&& channels == 0 ==> n.in_channels == 1
    &&& n.stage1 is Some <==> rate != 48_000
    &&& n.stage1 matches Some(r) ==> {
        &&& r.pending.len() == 0
        &&& r.plan.in_rate == rate
        &&& r.plan.out_rate == 48_000
        &&& r.plan.channels == 2
    }
    &&& n.inner.len() == 0
    &&& n.total == 0
    &&& n.phase is Idle
    &&& n.failure is None
    &&& n.primary.out.len() == 0
    &&& n.primary.anchor is None
    &&& nothing_waits(n.primary.stage)
    &&& n.secondary matches Some(t) ==> t.out.len() == 0 && t.anchor is None && nothing_waits(
        t.stage,
    )
}

/// A new normalizer is for the device that it was asked for, with chunks of the
/// output that it was asked for, without a processor and without a secondary
/// output, and holds nothing.
pub proof fn law_new_normalizer_is_empty(
    in_sample_rate: u32,
    in_channels: u16,
    output: OutputFormat,
    chunk_ms: u32,
)
    ensures
        ({
            let n = NormalizerModel::fresh(in_sample_rate, in_channels, output, chunk_ms);
            &&& is_new_for(n, in_sample_rate, in_channels)
            &&& is_new_output(n.primary, output, chunk_ms)
            &&& n.secondary is None
            &&& !n.processor
        }),
{
}

/// The start of a push is tied to the output frame that the inner frames before
/// it correspond to: a frame further would lie behind them at 48 kHz.
pub proof fn law_anchor_is_projected(t: TapModel, total: u64, pts_ns: i64)
    requires
        total * t.format.sample_rate <= u64::MAX,
    ensures
        t.anchored(total, pts_ns).anchor is Some,
        t.anchored(total, pts_ns).anchor->0.pts_ns == pts_ns,
        t.anchored(total, pts_ns).anchor->0.out_frame * 48_000 <= total * t.format.sample_rate,
        total * t.format.sample_rate < (t.anchored(total, pts_ns).anchor->0.out_frame + 1)
            * 48_000,
        t.anchored(total, pts_ns).out == t.out,
        t.anchored(total, pts_ns).stage == t.stage,
        t.anchored(total, pts_ns).origin == t.origin,
        t.anchored(total, pts_ns).format == t.format,
{
    assert(total * t.format.sample_rate >= 0) by (nonlinear_arith)
        requires
            total >= 0,
            t.format.sample_rate >= 0,
    ;
}

/// A frame lasts the whole nanoseconds that fit into its share of a second, and
/// the frame of the anchor has the time of the anchor; without an anchor the
/// time at hand is given.
pub proof fn law_frames_last_their_share(t: TapModel, now_ns: i64)
    requires
        t.format.sample_rate > 0,
    ensures
        t.frame_ns() * t.format.sample_rate <= 1_000_000_000,
        1_000_000_000 < (t.frame_ns() + 1) * t.format.sample_rate,
        t.anchor matches Some(a) ==> t.pts_at(a.out_frame, now_ns) == a.pts_ns,
        t.anchor is None ==> forall|f: u64| #[trigger] t.pts_at(f, now_ns) == now_ns,
{
    let rate = t.format.sample_rate as int;
    vstd::arithmetic::div_mod::lemma_fundamental_div_mod(1_000_000_000, rate);
    vstd::arithmetic::div_mod::lemma_mod_bound(1_000_000_000, rate);
    assert(rate * t.frame_ns() == t.frame_ns() * rate) by (nonlinear_arith);
    assert((t.frame_ns() + 1) * rate == t.frame_ns() * rate + rate) by (nonlinear_arith);
    assert(0 * t.frame_ns() == 0) by (nonlinear_arith);
}

/// A chunk can be taken exactly where its frames are there; taking it removes
/// just these samples from the front and counts its frames.
pub proof fn law_taking_a_chunk(t: TapModel)
    requires
        t.wf(),
    ensures
        t.need() == chunk_frames_of(t.format, t.chunk_ms) * channels_of(t.format),
        t.has_chunk() <==> t.out.len() >= t.need(),
        t.has_chunk() ==> {
            &&& t.chunk().len() == t.need()
            &&& t.chunk() + t.popped().out == t.out
            &&& t.origin + chunk_frames_of(t.format, t.chunk_ms) <= u64::MAX
                ==> t.popped().origin == t.origin + chunk_frames_of(t.format, t.chunk_ms)
            &&& t.popped().stage == t.stage
            &&& t.popped().anchor == t.anchor
            &&& t.popped().format == t.format
            &&& t.popped().chunk_ms == t.chunk_ms
        },
{
    t.lemma_need_positive();
    assert(t.has_chunk() ==> t.chunk() + t.popped().out =~= t.out);
}

/// A block is due exactly where its frames are there, and is the front of what
/// waits.
pub proof fn law_block_is_due(r: ResamplerModel)
    requires
        r.wf(),
    ensures
        r.ready() <==> r.pending.len() >= r.plan.chunk_in_frames * r.plan.channels,
        r.ready() ==> r.block().len() == r.plan.chunk_in_frames * r.plan.channels && r.block()
            + r.consumed().pending == r.pending && r.consumed().plan == r.plan,
        r.remaining() * r.plan.channels <= r.pending.len() < (r.remaining() + 1)
            * r.plan.channels,
{
    r.plan.lemma_step_positive();
    assert(r.ready() ==> r.block() + r.consumed().pending =~= r.pending);
    let ch = r.plan.channels as int;
    let len = r.pending.len() as int;
    vstd::arithmetic::div_mod::lemma_fundamental_div_mod(len, ch);
    vstd::arithmetic::div_mod::lemma_mod_bound(len, ch);
    assert(ch * (len / ch) == r.remaining() * ch) by (nonlinear_arith)
        requires
            r.remaining() == len / ch,
    ;
    assert((r.remaining() + 1) * ch == r.remaining() * ch + ch) by (nonlinear_arith);
}

/// A block of an output is due exactly where its frames wait, and what waits is
/// counted in whole frames.
pub proof fn law_block_of_an_output_is_due(t: TapModel)
    requires
        t.wf(),
    ensures
        t.ready() <==> (t.stage matches StageModel::Resample(r) && r.pending.len()
            >= r.plan.chunk_in_frames * r.plan.channels),
        t.ready() ==> t.block() == t.stage->Resample_0.pending.take(
            t.stage->Resample_0.plan.chunk_in_frames * t.stage->Resample_0.plan.channels,
        ),
        t.remaining() == (match t.stage {
            StageModel::Resample(r) => r.pending.len() as int / r.plan.channels as int,
            _ => 0,
        }),
{
}

/// Chunks and blocks can be counted exactly where their samples fit into a
/// `usize`.
pub proof fn law_countable_formats(f: OutputFormat, chunk_ms: u32)
    ensures
        countable(f, chunk_ms) <==> chunk_frames_of(f, chunk_ms) * channels_of(f) <= usize::MAX
            && block_frames(48_000, chunk_ms as int) * channels_of(f) <= usize::MAX,
{
}

/// The numbers that hold for all streams: 48 kHz, stereo and 20 ms inside, so
/// 960 frames; blocks of 64 frames at least.
pub proof fn law_inner_form()
    ensures
        SAMPLE_RATE == 48_000,
        CHANNELS == 2,
        DEFAULT_CHUNK_MS == 20,
        CHUNK_FRAMES == frames_fitting(48_000, 20),
        MIN_BLOCK_FRAMES == 64,
{
}

} // verus!
