//! Where the samples go: from a push or a flush through the conversions, the
//! processor and the averages into the outputs, told by the steps that were
//! asked for and the answers to them.

use vstd::prelude::*;

use crate::arith::saturate_count;
use crate::frames::{converted, law_padded_is_aligned, mixed};
use crate::normalizer::{NormalizerModel, Outcome, Phase, StepModel, Unit};
use crate::normalizer_laws::{
    flush_holds, is_settled, law_push_settles, lemma_advance_keeps_wf, lemma_flush_begins,
    lemma_push_keeps_wf, lemma_step_aligns,
};
use crate::resampler::{law_block_partitions_pending, ResamplerModel};
use crate::tap::{channels_of, PtsAnchor, StageModel, TapModel};
use crate::types::ErrorView;

verus! {

/// What a conversion has been handed, and what it has answered, put end to end.
#[verifier::ext_equal]
pub struct Passed {
    pub input: Seq<u32>,
    pub output: Seq<u32>,
}

impl Passed {
    /// Nothing.
    pub open spec fn nothing() -> Self {
        Passed { input: Seq::empty(), output: Seq::empty() }
    }

    /// With one more block.
    pub open spec fn and(self, input: Seq<u32>, output: Seq<u32>) -> Self {
        Passed { input: self.input + input, output: self.output + output }
    }
}

/// A last, incomplete block, the frames of it that count, and the answer.
#[verifier::ext_equal]
pub struct Rest {
    pub input: Seq<u32>,
    pub frames: int,
    pub output: Seq<u32>,
}

/// What has been asked of the caller in the course of an operation, and what it
/// has answered.
#[verifier::ext_equal]
pub struct Flow {
    pub inner: Passed,
    /// Frames that the first stage has answered with, block by block.
    pub inner_frames: int,
    pub primary: Passed,
    pub secondary: Passed,
    /// What the processor was given, time by time.
    pub processing: Seq<Seq<u32>>,
    pub processed: Seq<u32>,
    /// What was to be averaged, time by time.
    pub averaging: Seq<Seq<u32>>,
    pub averaged: Seq<u32>,
    /// How often the processor was asked for its tail.
    pub tails: int,
    pub tail: Seq<u32>,
    pub primary_rests: Seq<Rest>,
    pub secondary_rests: Seq<Rest>,
}

impl Flow {
    /// Nothing has been asked.
    pub open spec fn nothing() -> Self {
        Flow {
            inner: Passed::nothing(),
            inner_frames: 0,
            primary: Passed::nothing(),
            secondary: Passed::nothing(),
            processing: Seq::empty(),
            processed: Seq::empty(),
            averaging: Seq::empty(),
            averaged: Seq::empty(),
            tails: 0,
            tail: Seq::empty(),
            primary_rests: Seq::empty(),
            secondary_rests: Seq::empty(),
        }
    }

    /// With one more step and its answer.
    pub open spec fn noted(self, step: StepModel, answer: Seq<u32>) -> Self {
        match step {
            StepModel::Done(_) => self,
            StepModel::Resample { unit, input, partial: None } => match unit {
                Unit::Inner => Flow {
                    inner: self.inner.and(input, answer),
                    inner_frames: self.inner_frames + answer.len() as int / 2,
                    ..self
                },
                Unit::Primary => Flow { primary: self.primary.and(input, answer), ..self },
                Unit::Secondary => Flow { secondary: self.secondary.and(input, answer), ..self },
            },
            StepModel::Resample { unit, input, partial: Some(frames) } => {
                let rest = Rest { input, frames, output: answer };
                match unit {
                    Unit::Inner => self,
                    Unit::Primary => Flow {
                        primary_rests: self.primary_rests.push(rest),
                        ..self
                    },
                    Unit::Secondary => Flow {
                        secondary_rests: self.secondary_rests.push(rest),
                        ..self
                    },
                }
            },
            StepModel::Process { samples } => Flow {
                processing: self.processing.push(samples),
                processed: self.processed + answer,
                ..self
            },
            StepModel::Average { samples } => Flow {
                averaging: self.averaging.push(samples),
                averaged: self.averaged + answer,
                ..self
            },
            StepModel::Tail => Flow { tails: self.tails + 1, tail: self.tail + answer, ..self },
        }
    }
}

/// What is asked and answered where a normalizer goes on with these answers.
pub open spec fn flow_of(m: NormalizerModel, answers: Seq<Outcome>) -> Flow
    decreases answers.len(),
{
    if answers.len() == 0 {
        Flow::nothing()
    } else {
        flow_of(m, answers.drop_last()).noted(
            m.run(answers.drop_last()).step(),
            answers.last()->Samples_0,
        )
    }
}

/// Whether all answers are samples.
pub open spec fn all_succeed(answers: Seq<Outcome>) -> bool {
    forall|i: int| 0 <= i < answers.len() ==> (#[trigger] answers[i]) is Samples
}

/// The inner samples in the channels of an output; less than a frame is dropped
/// where they have to be converted.
pub open spec fn in_channels_of(t: TapModel, inner: Seq<u32>, averages: Seq<u32>) -> Seq<u32> {
    if inner.len() < 2 {
        Seq::empty()
    } else {
        converted(inner, averages, channels_of(t.format))
    }
}

/// Whether an output has taken inner samples in: they are at its end, in its
/// channels, where the rate is the same; else they have gone to its conversion or
/// wait for it, behind what waited, and the answers are at its end.
pub open spec fn has_taken(
    before: TapModel,
    after: TapModel,
    inner: Seq<u32>,
    averages: Seq<u32>,
    passed: Passed,
) -> bool {
    &&& after.format == before.format
    &&& after.chunk_ms == before.chunk_ms
    &&& after.origin == before.origin
    &&& match before.stage {
        StageModel::Passthrough => {
            &&& after.stage is Passthrough
            &&& passed == Passed::nothing()
            &&& after.out == before.out + inner
        },
        StageModel::Convert => {
            &&& after.stage is Convert
            &&& passed == Passed::nothing()
            &&& after.out == before.out + in_channels_of(before, inner, averages)
        },
        StageModel::Resample(r) => {
            &&& after.stage is Resample
            &&& after.stage->Resample_0.plan == r.plan
            &&& passed.input + after.stage->Resample_0.pending == r.pending + in_channels_of(
                before,
                inner,
                averages,
            )
            &&& after.out == before.out + passed.output
        },
    }
}

/// Whether both outputs have taken the same inner samples in.
pub open spec fn both_have_taken(
    m: NormalizerModel,
    end: NormalizerModel,
    inner: Seq<u32>,
    flow: Flow,
) -> bool {
    &&& has_taken(m.primary, end.primary, inner, flow.averaged, flow.primary)
    &&& end.secondary is Some <==> m.secondary is Some
    &&& m.secondary matches Some(t) ==> has_taken(
        t,
        end.secondary->0,
        inner,
        flow.averaged,
        flow.secondary,
    )
}

/// Whether an output is mono.
pub open spec fn has_mono_output(m: NormalizerModel) -> bool {
    channels_of(m.primary.format) == 1 || (m.secondary matches Some(t) && channels_of(t.format)
        == 1)
}

/// Whether the frames of inner samples have been averaged as often as needed:
/// once, just these, where an output is mono and there are any.
pub open spec fn has_averaged(m: NormalizerModel, inner: Seq<u32>, flow: Flow) -> bool {
    if inner.len() > 0 && has_mono_output(m) {
        flow.averaging == seq![inner]
    } else {
        flow.averaging.len() == 0
    }
}

/// The inner samples that a push has made: the stereo mix of its frames at
/// 48 kHz, else what the first stage has answered, in order.
pub open spec fn inner_made(m: NormalizerModel, samples: Seq<u32>, flow: Flow) -> Seq<u32> {
    if m.stage1 is None {
        mixed(samples, m.in_channels)
    } else {
        flow.inner.output
    }
}

/// The inner samples that the outputs get: those that were made, or what the
/// processor has answered to them.
pub open spec fn inner_given(m: NormalizerModel, samples: Seq<u32>, flow: Flow) -> Seq<u32> {
    if m.processor {
        flow.processed
    } else {
        inner_made(m, samples, flow)
    }
}

/// Whether the first stage has got the stereo mix behind what waited for it, and
/// nothing of it is lost.
pub open spec fn first_stage_has_taken(
    m: NormalizerModel,
    end: NormalizerModel,
    samples: Seq<u32>,
    flow: Flow,
) -> bool {
    match m.stage1 {
        None => end.stage1 is None && flow.inner == Passed::nothing(),
        Some(r) => {
            &&& end.stage1 is Some
            &&& end.stage1->0.plan == r.plan
            &&& flow.inner.input + end.stage1->0.pending == r.pending + mixed(
                samples,
                m.in_channels,
            )
        },
    }
}

/// Whether an output is tied to the start of a push at `pts_ns`, at the frame
/// that `total` inner frames correspond to.
pub open spec fn is_tied(before: TapModel, after: TapModel, total: u64, pts_ns: i64) -> bool {
    after.anchor == Some(
        PtsAnchor {
            out_frame: saturate_count(total * before.format.sample_rate / 48_000),
            pts_ns,
        },
    )
}

/// Whether both outputs are.
pub open spec fn both_are_tied(m: NormalizerModel, end: NormalizerModel, pts_ns: i64) -> bool {
    &&& is_tied(m.primary, end.primary, m.total, pts_ns)
    &&& m.secondary matches Some(t) ==> end.secondary is Some && is_tied(
        t,
        end.secondary->0,
        m.total,
        pts_ns,
    )
}

/// Whether only the anchors of two outputs differ.
spec fn same_content(a: TapModel, b: TapModel) -> bool {
    a == (TapModel { anchor: a.anchor, ..b })
}

/// Whether neither output has been fed.
spec fn is_unfed(m: NormalizerModel, now: NormalizerModel, flow: Flow) -> bool {
    &&& same_content(now.primary, m.primary)
    &&& now.secondary is Some <==> m.secondary is Some
    &&& m.secondary matches Some(t) ==> same_content(now.secondary->0, t)
    &&& flow.primary == Passed::nothing()
    &&& flow.secondary == Passed::nothing()
    &&& flow.averaging.len() == 0
    &&& flow.averaged.len() == 0
}

/// What a running push of `samples` has done so far.
spec fn push_flows(
    m: NormalizerModel,
    samples: Seq<u32>,
    pts_ns: i64,
    now: NormalizerModel,
    flow: Flow,
) -> bool {
    let given = inner_given(m, samples, flow);
    let made = inner_made(m, samples, flow);
    &&& push_base(m, samples, pts_ns, now, flow)
    &&& match now.phase {
        Phase::Inner => {
            &&& m.stage1 is Some
            &&& now.inner == flow.inner.output
            &&& now.total == m.total
            &&& now.produced == saturate_count(flow.inner_frames)
            &&& is_unfed(m, now, flow)
            &&& flow.processing.len() == 0
            &&& flow.processed.len() == 0
        },
        Phase::Process => {
            &&& m.processor
            &&& now.inner == made
            &&& is_counted(m, samples, now, flow)
            &&& is_unfed(m, now, flow)
            &&& flow.processing.len() == 0
            &&& flow.processed.len() == 0
        },
        Phase::Average => {
            &&& now.inner == given
            &&& given.len() > 0
            &&& has_mono_output(m)
            &&& is_counted(m, samples, now, flow)
            &&& is_unfed(m, now, flow)
            &&& flow.processing == (if m.processor {
                seq![made]
            } else {
                Seq::empty()
            })
        },
        _ => {
            &&& now.phase is Primary || now.phase is Secondary || now.phase is Idle
            &&& is_counted(m, samples, now, flow)
            &&& both_have_taken(m, now, given, flow)
            &&& has_averaged(m, given, flow)
            &&& flow.processing == (if m.processor {
                seq![made]
            } else {
                Seq::empty()
            })
        },
    }
}

spec fn push_base(
    m: NormalizerModel,
    samples: Seq<u32>,
    pts_ns: i64,
    now: NormalizerModel,
    flow: Flow,
) -> bool {
    &&& now.parts_wf()
    &&& !now.flushing
    &&& now.failure is None
    &&& now.processor == m.processor
    &&& first_stage_has_taken(m, now, samples, flow)
    &&& both_are_tied(m, now, pts_ns)
    &&& flow.inner_frames >= 0
    &&& flow.tails == 0
    &&& flow.tail.len() == 0
    &&& flow.primary_rests.len() == 0
    &&& flow.secondary_rests.len() == 0
}

/// Whether the inner frames that were made have been counted.
pub open spec fn is_counted(
    m: NormalizerModel,
    samples: Seq<u32>,
    end: NormalizerModel,
    flow: Flow,
) -> bool {
    end.total == saturate_count(
        m.total + (if m.stage1 is None {
            samples.len() as int / m.in_channels
        } else {
            flow.inner_frames
        }),
    )
}

/// A tap that is drained goes on as it is.
proof fn lemma_drain_flows(
    m: NormalizerModel,
    samples: Seq<u32>,
    pts_ns: i64,
    now: NormalizerModel,
    flow: Flow,
)
    requires
        push_flows(m, samples, pts_ns, NormalizerModel { phase: Phase::Idle, ..now }, flow),
    ensures
        push_flows(m, samples, pts_ns, now.drain_primary(), flow),
        push_flows(m, samples, pts_ns, now.drain_secondary(), flow),
        push_flows(m, samples, pts_ns, now.taps_fed(), flow),
{
    reveal(NormalizerModel::drain_primary);
    reveal(NormalizerModel::drain_secondary);
    reveal(NormalizerModel::taps_fed);
}

proof fn lemma_tap_takes(before: TapModel, now: TapModel, inner: Seq<u32>, averages: Seq<u32>)
    requires
        same_content(now, before),
    ensures
        has_taken(before, now.fed(inner, averages), inner, averages, Passed::nothing()),
        now.fed(inner, averages).anchor == now.anchor,
{
    let none = Seq::<u32>::empty();
    assert(before.out + none =~= before.out);
    if let StageModel::Resample(r) = before.stage {
        assert(r.pending + none =~= r.pending);
        let all = r.pending + in_channels_of(before, inner, averages);
        assert(none + all =~= all);
    }
}

proof fn lemma_fed_flows(
    m: NormalizerModel,
    samples: Seq<u32>,
    pts_ns: i64,
    now: NormalizerModel,
    flow: Flow,
)
    requires
        push_base(m, samples, pts_ns, now, flow),
        now.inner == inner_given(m, samples, flow),
        is_counted(m, samples, now, flow),
        same_content(now.primary, m.primary),
        now.secondary is Some <==> m.secondary is Some,
        m.secondary matches Some(t) ==> same_content(now.secondary->0, t),
        flow.primary == Passed::nothing(),
        flow.secondary == Passed::nothing(),
        has_averaged(m, now.inner, flow),
        flow.processing == (if m.processor {
            seq![inner_made(m, samples, flow)]
        } else {
            Seq::empty()
        }),
    ensures
        push_flows(m, samples, pts_ns, now.fed(flow.averaged), flow),
{
    reveal(NormalizerModel::fed);
    let fed = NormalizerModel {
        primary: now.primary.fed(now.inner, flow.averaged),
        secondary: match now.secondary {
            None => None,
            Some(t) => Some(t.fed(now.inner, flow.averaged)),
        },
        inner: Seq::empty(),
        ..now
    };
    lemma_tap_takes(m.primary, now.primary, now.inner, flow.averaged);
    if let Some(t) = now.secondary {
        lemma_tap_takes(m.secondary->0, t, now.inner, flow.averaged);
    }
    assert(push_flows(m, samples, pts_ns, NormalizerModel { phase: Phase::Idle, ..fed }, flow));
    lemma_drain_flows(m, samples, pts_ns, fed, flow);
}

proof fn lemma_distributed_flows(
    m: NormalizerModel,
    samples: Seq<u32>,
    pts_ns: i64,
    now: NormalizerModel,
    flow: Flow,
)
    requires
        push_base(m, samples, pts_ns, now, flow),
        now.inner == inner_given(m, samples, flow),
        is_counted(m, samples, now, flow),
        is_unfed(m, now, flow),
        flow.processing == (if m.processor {
            seq![inner_made(m, samples, flow)]
        } else {
            Seq::empty()
        }),
    ensures
        push_flows(m, samples, pts_ns, now.distributed(), flow),
{
    reveal(NormalizerModel::distributed);
    assert(flow.averaged =~= Seq::empty());
    if now.inner.len() == 0 {
        let none = Seq::<u32>::empty();
        assert(now.inner =~= none);
        lemma_tap_takes(m.primary, now.primary, none, none);
        assert(now.primary.fed(none, none) == now.primary) by {
            assert(now.primary.out + none =~= now.primary.out);
        }
        if let Some(t) = now.secondary {
            lemma_tap_takes(m.secondary->0, t, none, none);
            assert(t.out + none =~= t.out);
        }
        lemma_drain_flows(m, samples, pts_ns, now, flow);
    } else if !now.needs_averages() {
        lemma_fed_flows(m, samples, pts_ns, now, flow);
    }
}

proof fn lemma_inner_flows(
    m: NormalizerModel,
    samples: Seq<u32>,
    pts_ns: i64,
    now: NormalizerModel,
    flow: Flow,
)
    requires
        push_base(m, samples, pts_ns, now, flow),
        now.inner == inner_made(m, samples, flow),
        is_counted(m, samples, now, flow),
        is_unfed(m, now, flow),
        flow.processing.len() == 0,
        flow.processed.len() == 0,
    ensures
        push_flows(m, samples, pts_ns, now.inner_complete(), flow),
{
    reveal(NormalizerModel::inner_complete);
    if !now.processor {
        assert(flow.processing =~= Seq::empty());
        lemma_distributed_flows(m, samples, pts_ns, now, flow);
    }
}

proof fn lemma_first_flows(
    m: NormalizerModel,
    samples: Seq<u32>,
    pts_ns: i64,
    now: NormalizerModel,
    flow: Flow,
)
    requires
        push_base(m, samples, pts_ns, now, flow),
        m.stage1 is Some,
        now.inner == flow.inner.output,
        now.total == m.total,
        now.produced == saturate_count(flow.inner_frames),
        is_unfed(m, now, flow),
        flow.processing.len() == 0,
        flow.processed.len() == 0,
    ensures
        push_flows(m, samples, pts_ns, now.drain_inner(), flow),
{
    reveal(NormalizerModel::drain_inner);
    if !now.stage1->0.ready() {
        let counted = NormalizerModel { total: saturate_count(now.total + now.produced), ..now };
        lemma_inner_flows(m, samples, pts_ns, counted, flow);
    }
}

/// A step and its answer.
proof fn lemma_step_flows(
    m: NormalizerModel,
    samples: Seq<u32>,
    pts_ns: i64,
    now: NormalizerModel,
    flow: Flow,
    s: Seq<u32>,
)
    requires
        push_flows(m, samples, pts_ns, now, flow),
        now.wf(),
    ensures
        push_flows(
            m,
            samples,
            pts_ns,
            now.advanced(Outcome::Samples(s)),
            flow.noted(now.step(), s),
        ),
{
    reveal(NormalizerModel::advanced);
    let next = flow.noted(now.step(), s);
    match now.phase {
        Phase::Inner => {
            let r = now.stage1->0;
            law_block_partitions_pending(r);
            assert((flow.inner.input + r.block()) + r.consumed().pending =~= flow.inner.input
                + (r.block() + r.consumed().pending));
            let after = NormalizerModel {
                inner: now.inner + s,
                produced: saturate_count(now.produced + s.len() as int / 2),
                stage1: Some(r.consumed()),
                ..now
            };
            lemma_first_flows(m, samples, pts_ns, after, next);
        },
        Phase::Process => {
            assert(next.processed =~= s);
            assert(next.processing =~= seq![inner_made(m, samples, next)]);
            lemma_distributed_flows(
                m,
                samples,
                pts_ns,
                NormalizerModel { inner: s, ..now },
                next,
            );
        },
        Phase::Average => {
            assert(next.averaged =~= s);
            assert(next.averaging =~= seq![now.inner]);
            lemma_fed_flows(m, samples, pts_ns, now, next);
        },
        Phase::Primary => {
            let r = now.primary.stage->Resample_0;
            law_block_partitions_pending(r);
            let after = NormalizerModel { primary: now.primary.accepted(s), ..now };
            assert((flow.primary.input + r.block()) + r.consumed().pending =~= flow.primary.input
                + (r.block() + r.consumed().pending));
            assert((m.primary.out + flow.primary.output) + s =~= m.primary.out + (
            flow.primary.output + s));
            assert(push_flows(
                m,
                samples,
                pts_ns,
                NormalizerModel { phase: Phase::Idle, ..after },
                next,
            ));
            lemma_drain_flows(m, samples, pts_ns, after, next);
        },
        Phase::Secondary => {
            let t = now.secondary->0;
            let r = t.stage->Resample_0;
            law_block_partitions_pending(r);
            let after = NormalizerModel { secondary: Some(t.accepted(s)), ..now };
            assert((flow.secondary.input + r.block()) + r.consumed().pending
                =~= flow.secondary.input + (r.block() + r.consumed().pending));
            assert((m.secondary->0.out + flow.secondary.output) + s =~= m.secondary->0.out + (
            flow.secondary.output + s));
            assert(push_flows(
                m,
                samples,
                pts_ns,
                NormalizerModel { phase: Phase::Idle, ..after },
                next,
            ));
            lemma_drain_flows(m, samples, pts_ns, after, next);
        },
        _ => {},
    }
}

proof fn lemma_push_starts_flow(m: NormalizerModel, samples: Seq<u32>, pts_ns: i64)
    requires
        m.wf(),
        samples.len() >= m.in_channels,
    ensures
        push_flows(m, samples, pts_ns, m.pushed(samples, pts_ns), Flow::nothing()),
{
    reveal(NormalizerModel::pushed);
    let frames = samples.len() as int / m.in_channels;
    assert(frames > 0) by (nonlinear_arith)
        requires
            samples.len() >= m.in_channels > 0,
            frames == samples.len() as int / m.in_channels,
    ;
    let none = Flow::nothing();
    let at = (NormalizerModel { flushing: false, failure: None, ..m }).anchored(pts_ns);
    match at.stage1 {
        None => {
            let ready = NormalizerModel {
                inner: mixed(samples, m.in_channels),
                total: saturate_count(at.total + frames),
                ..at
            };
            lemma_inner_flows(m, samples, pts_ns, ready, none);
        },
        Some(r) => {
            let ready = NormalizerModel {
                inner: Seq::empty(),
                produced: 0,
                stage1: Some(r.extended(mixed(samples, m.in_channels))),
                ..at
            };
            let all = r.pending + mixed(samples, m.in_channels);
            assert(Seq::<u32>::empty() + all =~= all);
            lemma_first_flows(m, samples, pts_ns, ready, none);
        },
    }
}

proof fn lemma_run_flows(
    m: NormalizerModel,
    samples: Seq<u32>,
    pts_ns: i64,
    answers: Seq<Outcome>,
)
    requires
        m.wf(),
        samples.len() >= m.in_channels,
        all_succeed(answers),
    ensures
        m.pushed(samples, pts_ns).run(answers).wf(),
        push_flows(
            m,
            samples,
            pts_ns,
            m.pushed(samples, pts_ns).run(answers),
            flow_of(m.pushed(samples, pts_ns), answers),
        ),
    decreases answers.len(),
{
    let start = m.pushed(samples, pts_ns);
    if answers.len() == 0 {
        lemma_push_keeps_wf(m, samples, pts_ns);
        lemma_push_starts_flow(m, samples, pts_ns);
    } else {
        let front = answers.drop_last();
        assert(all_succeed(front)) by {
            assert forall|i: int| 0 <= i < front.len() implies (#[trigger] front[i]) is Samples by {
                assert(front[i] == answers[i]);
            }
        }
        lemma_run_flows(m, samples, pts_ns, front);
        let now = start.run(front);
        assert(answers[answers.len() - 1] is Samples);
        let s = answers.last()->Samples_0;
        assert(answers.last() == Outcome::Samples(s));
        lemma_step_flows(m, samples, pts_ns, now, flow_of(start, front), s);
        lemma_advance_keeps_wf(now, answers.last());
    }
}

/// A push that succeeds moves every sample to where it belongs, at any rates,
/// with any outputs, with or without a processor. At 48 kHz the stereo mix of
/// its frames is the inner form. At any other rate the mix goes to the first
/// stage behind what waited there, and its answers are the inner form. A
/// processor is given just these samples, once, and the outputs get its answer;
/// without one it is not asked. Where an output is mono, just these samples are
/// averaged. Both outputs take the same inner samples in.
pub proof fn law_push_moves_every_sample(
    m: NormalizerModel,
    samples: Seq<u32>,
    pts_ns: i64,
    answers: Seq<Outcome>,
)
    requires
        m.wf(),
        m.phase is Idle,
        samples.len() >= m.in_channels,
        all_succeed(answers),
        m.pushed(samples, pts_ns).run(answers).phase is Idle,
    ensures
        ({
            let end = m.pushed(samples, pts_ns).run(answers);
            let flow = flow_of(m.pushed(samples, pts_ns), answers);
            &&& first_stage_has_taken(m, end, samples, flow)
            &&& m.processor ==> flow.processing == seq![inner_made(m, samples, flow)]
            &&& !m.processor ==> flow.processing.len() == 0
            &&& has_averaged(m, inner_given(m, samples, flow), flow)
            &&& both_have_taken(m, end, inner_given(m, samples, flow), flow)
            &&& flow.tails == 0
            &&& flow.primary_rests.len() == 0
            &&& flow.secondary_rests.len() == 0
            &&& end.failure is None
        }),
{
    lemma_run_flows(m, samples, pts_ns, answers);
}

/// At any rates, with any outputs, with or without a processor, and however far
/// it has come, a push of at least a frame ties each output to its device time,
/// at the frame that the inner frames before it correspond to. When it is over,
/// just the inner frames that it has made have been counted.
pub proof fn law_push_ties_its_time(
    m: NormalizerModel,
    samples: Seq<u32>,
    pts_ns: i64,
    answers: Seq<Outcome>,
)
    requires
        m.wf(),
        m.phase is Idle,
        samples.len() >= m.in_channels,
        all_succeed(answers),
    ensures
        both_are_tied(m, m.pushed(samples, pts_ns).run(answers), pts_ns),
        m.pushed(samples, pts_ns).run(answers).phase is Idle ==> is_counted(
            m,
            samples,
            m.pushed(samples, pts_ns).run(answers),
            flow_of(m.pushed(samples, pts_ns), answers),
        ),
{
    lemma_run_flows(m, samples, pts_ns, answers);
}

/// Whether nothing has been given to an output.
pub open spec fn has_got_nothing(before: TapModel, after: TapModel) -> bool {
    after.out == before.out && after.stage == before.stage
}

/// With a processor no inner samples reach an output but through it, at any
/// device rate: while the first stage and the processor work, neither output has
/// been given anything, and the first step behind the first stage is to process
/// just the inner samples that were made.
pub proof fn law_processor_comes_first(
    m: NormalizerModel,
    samples: Seq<u32>,
    pts_ns: i64,
    answers: Seq<Outcome>,
)
    requires
        m.wf(),
        m.phase is Idle,
        m.processor,
        samples.len() >= m.in_channels,
        all_succeed(answers),
    ensures
        ({
            let now = m.pushed(samples, pts_ns).run(answers);
            let flow = flow_of(m.pushed(samples, pts_ns), answers);
            flow.processing.len() == 0 ==> {
                &&& has_got_nothing(m.primary, now.primary)
                &&& m.secondary matches Some(t) ==> now.secondary is Some && has_got_nothing(
                    t,
                    now.secondary->0,
                )
                &&& now.step() matches StepModel::Resample { unit, .. } ==> unit is Inner
                &&& !(now.step() is Resample) ==> now.step() == (StepModel::Process {
                    samples: inner_made(m, samples, flow),
                })
            }
        }),
{
    lemma_run_flows(m, samples, pts_ns, answers);
}

/// An output once it has taken inner samples in.
spec fn taken_by(
    before: TapModel,
    inner: Seq<u32>,
    averages: Seq<u32>,
    passed: Passed,
) -> TapModel {
    match before.stage {
        StageModel::Passthrough => TapModel { out: before.out + inner, ..before },
        StageModel::Convert => TapModel {
            out: before.out + in_channels_of(before, inner, averages),
            ..before
        },
        StageModel::Resample(r) => TapModel {
            stage: StageModel::Resample(
                ResamplerModel {
                    pending: left_waiting(before, inner, averages, passed),
                    ..r
                },
            ),
            out: before.out + passed.output,
            ..before
        },
    }
}

/// What is left in front of a conversion of what waited there and what has come
/// behind it.
pub open spec fn left_waiting(
    before: TapModel,
    inner: Seq<u32>,
    averages: Seq<u32>,
    passed: Passed,
) -> Seq<u32> {
    (before.stage->Resample_0.pending + in_channels_of(before, inner, averages)).skip(
        passed.input.len() as int,
    )
}

proof fn lemma_taken_is_known(
    before: TapModel,
    after: TapModel,
    inner: Seq<u32>,
    averages: Seq<u32>,
    passed: Passed,
)
    requires
        has_taken(before, after, inner, averages, passed),
        after.anchor == before.anchor,
    ensures
        after == taken_by(before, inner, averages, passed),
        before.stage is Resample ==> passed.input.len() <= (before.stage->Resample_0.pending
            + in_channels_of(before, inner, averages)).len(),
{
    if let StageModel::Resample(r) = before.stage {
        let q = after.stage->Resample_0;
        let all = r.pending + in_channels_of(before, inner, averages);
        assert(all.len() == passed.input.len() + q.pending.len());
        assert(q.pending =~= all.skip(passed.input.len() as int)) by {
            assert((passed.input + q.pending).skip(passed.input.len() as int) =~= q.pending);
        }
        assert(after.stage == taken_by(before, inner, averages, passed).stage);
    }
}

/// How an output ends from where it has taken everything in.
spec fn ends_as(w: TapModel, after: TapModel, rests: Seq<Rest>) -> bool {
    if w.remaining() > 0 {
        &&& rests.len() == 1
        &&& rests[0].frames == w.remaining()
        &&& rests[0].input == w.squared().stage->Resample_0.pending
        &&& after == w.finished(rests[0].output).aligned()
    } else {
        rests.len() == 0 && after == w.aligned()
    }
}

/// What a running flush has done so far.
spec fn flush_flows(m: NormalizerModel, now: NormalizerModel, flow: Flow) -> bool {
    let p = taken_by(m.primary, flow.tail, flow.averaged, flow.primary);
    &&& flush_base(m, now, flow)
    &&& match now.phase {
        Phase::Tail => {
            &&& m.processor
            &&& flow.tails == 0
            &&& flow.tail.len() == 0
            &&& now.primary == m.primary
            &&& now.secondary == m.secondary
            &&& has_fed_nothing(flow)
        },
        Phase::Average => {
            &&& m.processor
            &&& flow.tails == 1
            &&& now.inner == flow.tail
            &&& flow.tail.len() > 0
            &&& has_mono_output(m)
            &&& now.primary == m.primary
            &&& now.secondary == m.secondary
            &&& has_fed_nothing(flow)
        },
        Phase::PrimaryRest => {
            &&& is_past_tail(m, flow)
            &&& now.secondary == second_taken(m, flow)
            &&& second_waits(now)
            &&& flow.primary_rests.len() == 0
            &&& flow.secondary_rests.len() == 0
            &&& !p.ready()
            &&& p.remaining() > 0
            &&& p.wf()
            &&& now.primary == p.squared()
            &&& now.rest == p.remaining()
        },
        Phase::SecondaryRest => {
            let t = second_taken(m, flow)->0;
            &&& is_past_tail(m, flow)
            &&& ends_as(p, now.primary, flow.primary_rests)
            &&& !p.ready()
            &&& m.secondary is Some
            &&& flow.secondary_rests.len() == 0
            &&& !t.ready()
            &&& t.wf()
            &&& t.remaining() > 0
            &&& now.secondary == Some(t.squared())
            &&& now.rest == t.remaining()
        },
        Phase::Idle => {
            &&& is_past_tail(m, flow)
            &&& ends_as(p, now.primary, flow.primary_rests)
            &&& !p.ready()
            &&& p.wf()
            &&& now.secondary is Some <==> m.secondary is Some
            &&& m.secondary is Some ==> {
                let t = second_taken(m, flow)->0;
                !t.ready() && t.wf() && ends_as(t, now.secondary->0, flow.secondary_rests)
            }
            &&& m.secondary is None ==> flow.secondary_rests.len() == 0
        },
        _ => {
            &&& now.phase is Primary || now.phase is Secondary
            &&& is_past_tail(m, flow)
            &&& now.phase is Secondary ==> !now.primary.ready()
            &&& flush_feeds(m, now, flow)
        },
    }
}

/// What the secondary output has become once it has taken the tail in.
spec fn second_taken(m: NormalizerModel, flow: Flow) -> Option<TapModel> {
    match m.secondary {
        None => None,
        Some(t) => Some(taken_by(t, flow.tail, flow.averaged, flow.secondary)),
    }
}

spec fn second_waits(now: NormalizerModel) -> bool {
    now.secondary matches Some(t) ==> !t.ready() && t.wf()
}

spec fn has_fed_nothing(flow: Flow) -> bool {
    &&& flow.primary == Passed::nothing()
    &&& flow.secondary == Passed::nothing()
    &&& flow.averaging.len() == 0
    &&& flow.averaged.len() == 0
    &&& flow.primary_rests.len() == 0
    &&& flow.secondary_rests.len() == 0
}

spec fn is_past_tail(m: NormalizerModel, flow: Flow) -> bool {
    &&& flow.tails == (if m.processor {
        1int
    } else {
        0int
    })
    &&& !m.processor ==> flow.tail.len() == 0
    &&& has_averaged(m, flow.tail, flow)
}

spec fn flush_feeds(m: NormalizerModel, now: NormalizerModel, flow: Flow) -> bool {
    &&& both_have_taken(m, now, flow.tail, flow)
    &&& now.primary.anchor == m.primary.anchor
    &&& m.secondary matches Some(t) ==> now.secondary->0.anchor == t.anchor
    &&& flow.primary_rests.len() == 0
    &&& flow.secondary_rests.len() == 0
}

spec fn flush_base(m: NormalizerModel, now: NormalizerModel, flow: Flow) -> bool {
    &&& now.parts_wf()
    &&& now.flushing
    &&& now.failure is None
    &&& now.processor == m.processor
    &&& now.stage1 == m.stage1
    &&& now.total == m.total
    &&& flow.inner == Passed::nothing()
    &&& flow.processing.len() == 0
}

proof fn lemma_rest_secondary_flows(m: NormalizerModel, now: NormalizerModel, flow: Flow)
    requires
        flush_base(m, now, flow),
        is_past_tail(m, flow),
        ({
            let p = taken_by(m.primary, flow.tail, flow.averaged, flow.primary);
            !p.ready() && p.wf() && ends_as(p, now.primary, flow.primary_rests)
        }),
        now.secondary == second_taken(m, flow),
        second_waits(now),
        flow.secondary_rests.len() == 0,
    ensures
        flush_flows(m, now.rest_secondary(), flow),
{
    reveal(NormalizerModel::rest_secondary);
    if let Some(t) = now.secondary {
        if t.remaining() > 0 {
            t.lemma_squared_waits();
        }
    }
}

proof fn lemma_rest_primary_flows(m: NormalizerModel, now: NormalizerModel, flow: Flow)
    requires
        flush_base(m, now, flow),
        is_past_tail(m, flow),
        flush_feeds(m, now, flow),
        !now.primary.ready(),
        second_waits(now),
    ensures
        flush_flows(m, now.rest_primary(), flow),
{
    reveal(NormalizerModel::rest_primary);
    lemma_taken_is_known(m.primary, now.primary, flow.tail, flow.averaged, flow.primary);
    if let Some(t) = m.secondary {
        lemma_taken_is_known(t, now.secondary->0, flow.tail, flow.averaged, flow.secondary);
    }
    if now.primary.remaining() > 0 {
        now.primary.lemma_squared_waits();
    } else {
        lemma_rest_secondary_flows(
            m,
            NormalizerModel { primary: now.primary.aligned(), ..now },
            flow,
        );
    }
}

proof fn lemma_flush_drains(m: NormalizerModel, now: NormalizerModel, flow: Flow)
    requires
        flush_base(m, now, flow),
        is_past_tail(m, flow),
        flush_feeds(m, now, flow),
    ensures
        flush_flows(m, now.drain_primary(), flow),
        !now.primary.ready() ==> flush_flows(m, now.drain_secondary(), flow),
{
    reveal(NormalizerModel::drain_primary);
    reveal(NormalizerModel::drain_secondary);
    reveal(NormalizerModel::taps_fed);
    if !now.primary.ready() && (now.secondary matches Some(t) ==> !t.ready()) {
        lemma_rest_primary_flows(m, now, flow);
    }
}

proof fn lemma_flush_feeds(m: NormalizerModel, now: NormalizerModel, flow: Flow)
    requires
        flush_base(m, now, flow),
        is_past_tail(m, flow),
        now.inner == flow.tail,
        now.primary == m.primary,
        now.secondary == m.secondary,
        flow.primary == Passed::nothing(),
        flow.secondary == Passed::nothing(),
        flow.primary_rests.len() == 0,
        flow.secondary_rests.len() == 0,
    ensures
        flush_flows(m, now.fed(flow.averaged), flow),
{
    reveal(NormalizerModel::fed);
    let fed = NormalizerModel {
        primary: now.primary.fed(now.inner, flow.averaged),
        secondary: match now.secondary {
            None => None,
            Some(t) => Some(t.fed(now.inner, flow.averaged)),
        },
        inner: Seq::empty(),
        ..now
    };
    lemma_tap_takes(m.primary, now.primary, now.inner, flow.averaged);
    if let Some(t) = now.secondary {
        lemma_tap_takes(t, t, now.inner, flow.averaged);
    }
    lemma_flush_drains(m, fed, flow);
}

/// A flush whose tail is empty converts what waits at once.
proof fn lemma_flush_without_tail(m: NormalizerModel, now: NormalizerModel, flow: Flow)
    requires
        flush_base(m, now, flow),
        is_past_tail(m, flow),
        flow.tail.len() == 0,
        now.primary == m.primary,
        now.secondary == m.secondary,
        has_fed_nothing(flow),
        is_settled(m),
    ensures
        flush_flows(m, now.rest_primary(), flow),
{
    let none = Seq::<u32>::empty();
    assert(flow.tail =~= none);
    assert(flow.averaged =~= none);
    assert(now.primary.out + none =~= now.primary.out);
    lemma_tap_takes(m.primary, now.primary, none, none);
    if let Some(t) = now.secondary {
        assert(t.out + none =~= t.out);
        lemma_tap_takes(t, t, none, none);
    }
    lemma_rest_primary_flows(m, now, flow);
}

proof fn lemma_flush_step_flows(m: NormalizerModel, now: NormalizerModel, flow: Flow, s: Seq<u32>)
    requires
        flush_flows(m, now, flow),
        now.wf(),
        is_settled(m),
    ensures
        flush_flows(m, now.advanced(Outcome::Samples(s)), flow.noted(now.step(), s)),
{
    reveal(NormalizerModel::advanced);
    let next = flow.noted(now.step(), s);
    match now.phase {
        Phase::Tail => {
            assert(next.tail =~= s);
            if s.len() == 0 {
                lemma_flush_without_tail(m, now, next);
            } else {
                reveal(NormalizerModel::distributed);
                let fed = NormalizerModel { inner: s, ..now };
                if !fed.needs_averages() {
                    assert(next.averaged =~= Seq::empty());
                    lemma_flush_feeds(m, fed, next);
                }
            }
        },
        Phase::Average => {
            assert(next.averaged =~= s);
            assert(next.averaging =~= seq![now.inner]);
            lemma_flush_feeds(m, now, next);
        },
        Phase::Primary => {
            let r = now.primary.stage->Resample_0;
            law_block_partitions_pending(r);
            let after = NormalizerModel { primary: now.primary.accepted(s), ..now };
            assert((flow.primary.input + r.block()) + r.consumed().pending =~= flow.primary.input
                + (r.block() + r.consumed().pending));
            assert((m.primary.out + flow.primary.output) + s =~= m.primary.out + (
            flow.primary.output + s));
            lemma_flush_drains(m, after, next);
        },
        Phase::Secondary => {
            let t = now.secondary->0;
            let r = t.stage->Resample_0;
            law_block_partitions_pending(r);
            let after = NormalizerModel { secondary: Some(t.accepted(s)), ..now };
            assert((flow.secondary.input + r.block()) + r.consumed().pending
                =~= flow.secondary.input + (r.block() + r.consumed().pending));
            assert((m.secondary->0.out + flow.secondary.output) + s =~= m.secondary->0.out + (
            flow.secondary.output + s));
            lemma_flush_drains(m, after, next);
        },
        Phase::PrimaryRest => {
            let after = NormalizerModel {
                primary: now.primary.finished(s).aligned(),
                ..now
            };
            lemma_rest_secondary_flows(m, after, next);
        },
        _ => {},
    }
}

proof fn lemma_flush_run_flows(m: NormalizerModel, answers: Seq<Outcome>)
    requires
        m.wf(),
        m.phase is Idle,
        is_settled(m),
        all_succeed(answers),
    ensures
        m.flushed().run(answers).wf(),
        flush_flows(m, m.flushed().run(answers), flow_of(m.flushed(), answers)),
    decreases answers.len(),
{
    if answers.len() == 0 {
        lemma_flush_begins(m);
        reveal(NormalizerModel::flushed);
        let start = NormalizerModel { flushing: true, failure: None, ..m };
        if !m.processor {
            lemma_flush_without_tail(m, start, Flow::nothing());
        }
    } else {
        let front = answers.drop_last();
        assert(all_succeed(front)) by {
            assert forall|i: int| 0 <= i < front.len() implies (#[trigger] front[i]) is Samples by {
                assert(front[i] == answers[i]);
            }
        }
        lemma_flush_run_flows(m, front);
        let now = m.flushed().run(front);
        assert(answers[answers.len() - 1] is Samples);
        let s = answers.last()->Samples_0;
        assert(answers.last() == Outcome::Samples(s));
        lemma_flush_step_flows(m, now, flow_of(m.flushed(), front), s);
        lemma_advance_keeps_wf(now, answers.last());
    }
}

/// Whether samples have been filled up with as few zeros as needed for a
/// multiple of `need`.
pub open spec fn is_filled_up(s: Seq<u32>, filled: Seq<u32>, need: int) -> bool {
    &&& filled.len() as int % need == 0
    &&& s.len() <= filled.len() < s.len() + need
    &&& forall|i: int|
        0 <= i < filled.len() ==> #[trigger] filled[i] == (if i < s.len() {
            s[i]
        } else {
            0
        })
}

/// Whether a last block is what waited, followed by zeros, with its whole frames
/// counted.
pub open spec fn is_last_block(rest: Rest, waiting: Seq<u32>, frames: int, channels: int) -> bool {
    &&& rest.frames == waiting.len() as int / channels
    &&& rest.input.len() == frames * channels
    &&& forall|i: int|
        0 <= i < rest.input.len() ==> #[trigger] rest.input[i] == (if i < waiting.len() {
            waiting[i]
        } else {
            0
        })
}

/// Whether an output has been brought to its end: it has taken inner samples in,
/// whole frames that still waited for its conversion have been converted as one
/// last block, and silence fills its last chunk.
pub open spec fn has_ended(
    before: TapModel,
    after: TapModel,
    inner: Seq<u32>,
    averages: Seq<u32>,
    passed: Passed,
    rests: Seq<Rest>,
) -> bool {
    let channels = channels_of(before.format);
    let need = before.chunk_frames() * channels;
    &&& after.format == before.format
    &&& after.chunk_ms == before.chunk_ms
    &&& after.origin == before.origin
    &&& after.anchor == before.anchor
    &&& match before.stage {
        StageModel::Passthrough => {
            &&& after.stage is Passthrough
            &&& rests.len() == 0
            &&& is_filled_up(before.out + inner, after.out, need)
        },
        StageModel::Convert => {
            &&& after.stage is Convert
            &&& rests.len() == 0
            &&& is_filled_up(
                before.out + in_channels_of(before, inner, averages),
                after.out,
                need,
            )
        },
        StageModel::Resample(r) => {
            let waiting = left_waiting(before, inner, averages, passed);
            &&& after.stage is Resample
            &&& after.stage->Resample_0.plan == r.plan
            &&& if waiting.len() as int / channels > 0 {
                &&& rests.len() == 1
                &&& is_last_block(rests[0], waiting, r.plan.chunk_in_frames as int, channels)
                &&& after.stage->Resample_0.pending.len() == 0
                &&& is_filled_up(
                    before.out + passed.output + rests[0].output,
                    after.out,
                    need,
                )
            } else {
                &&& rests.len() == 0
                &&& after.stage->Resample_0.pending == waiting
                &&& is_filled_up(before.out + passed.output, after.out, need)
            }
        },
    }
}

proof fn lemma_filled_up(t: TapModel)
    requires
        t.wf(),
    ensures
        is_filled_up(t.out, t.aligned().out, t.chunk_frames() * channels_of(t.format)),
{
    t.lemma_need_positive();
    law_padded_is_aligned(t.out, t.need());
}

proof fn lemma_end_is_known(
    before: TapModel,
    after: TapModel,
    inner: Seq<u32>,
    averages: Seq<u32>,
    passed: Passed,
    rests: Seq<Rest>,
)
    requires
        before.wf(),
        ({
            let w = taken_by(before, inner, averages, passed);
            w.wf() && !w.ready() && ends_as(w, after, rests)
        }),
    ensures
        has_ended(before, after, inner, averages, passed, rests),
{
    let w = taken_by(before, inner, averages, passed);
    lemma_filled_up(w);
    if let StageModel::Resample(r) = w.stage {
        r.plan.lemma_step_positive();
        assert(r.plan.channels == channels_of(before.format)) by {
            before.lemma_need_positive();
        }
        if w.remaining() > 0 {
            let done = w.finished(rests[0].output);
            lemma_filled_up(done);
            assert(is_last_block(
                rests[0],
                r.pending,
                r.plan.chunk_in_frames as int,
                channels_of(before.format),
            ));
        }
    }
}

/// A flush that succeeds loses nothing: a processor is asked for its tail, once;
/// both outputs take the tail in as they take a push in; and each is brought to
/// its end. The first stage keeps what waits there.
pub proof fn law_flush_ends_every_output(m: NormalizerModel, answers: Seq<Outcome>)
    requires
        m.wf(),
        m.phase is Idle,
        is_settled(m),
        all_succeed(answers),
        m.flushed().run(answers).phase is Idle,
    ensures
        ({
            let end = m.flushed().run(answers);
            let flow = flow_of(m.flushed(), answers);
            &&& flow.tails == (if m.processor {
                1int
            } else {
                0int
            })
            &&& !m.processor ==> flow.tail.len() == 0
            &&& flow.processing.len() == 0
            &&& has_averaged(m, flow.tail, flow)
            &&& has_ended(
                m.primary,
                end.primary,
                flow.tail,
                flow.averaged,
                flow.primary,
                flow.primary_rests,
            )
            &&& end.secondary is Some <==> m.secondary is Some
            &&& m.secondary matches Some(t) ==> has_ended(
                t,
                end.secondary->0,
                flow.tail,
                flow.averaged,
                flow.secondary,
                flow.secondary_rests,
            )
            &&& end.stage1 == m.stage1
            &&& end.total == m.total
            &&& end.failure is None
        }),
{
    lemma_flush_run_flows(m, answers);
    let end = m.flushed().run(answers);
    let flow = flow_of(m.flushed(), answers);
    lemma_end_is_known(
        m.primary,
        end.primary,
        flow.tail,
        flow.averaged,
        flow.primary,
        flow.primary_rests,
    );
    if let Some(t) = m.secondary {
        lemma_end_is_known(
            t,
            end.secondary->0,
            flow.tail,
            flow.averaged,
            flow.secondary,
            flow.secondary_rests,
        );
    }
}

/// Whether nothing has gone in or out of any stage.
pub open spec fn has_moved_nothing(a: NormalizerModel, b: NormalizerModel) -> bool {
    &&& b.stage1 == a.stage1
    &&& b.primary == a.primary
    &&& b.secondary == a.secondary
    &&& b.total == a.total
}

/// A conversion that fails during a push takes nothing away and adds nothing:
/// its block still waits. In the first stage it ends the push; for the primary
/// output the secondary one still gets its turn; for the secondary output the
/// push is over. The first message is reported.
pub proof fn law_failed_block_still_waits(m: NormalizerModel, message: Seq<char>)
    requires
        m.wf(),
        !m.flushing,
        m.phase is Inner || m.phase is Primary || m.phase is Secondary,
    ensures
        ({
            let after = m.advanced(Outcome::Failed(message));
            &&& has_moved_nothing(m, after)
            &&& after.failure == (if m.failure is Some {
                m.failure
            } else {
                Some(ErrorView::Backend(message))
            })
            &&& m.phase is Primary && (m.secondary matches Some(t) && t.ready()) ==> after.step()
                == (StepModel::Resample {
                unit: Unit::Secondary,
                input: m.secondary->0.block(),
                partial: None,
            })
            &&& !(m.phase is Primary && (m.secondary matches Some(t) && t.ready()))
                ==> after.step() == StepModel::Done(after.failure)
        }),
{
    reveal(NormalizerModel::advanced);
    reveal(NormalizerModel::drain_secondary);
    reveal(NormalizerModel::taps_fed);
}

/// A conversion of the last block that fails is passed over: the output is still
/// filled up to whole chunks, and the flush goes on without an error.
pub proof fn law_failed_last_block_is_passed_over(m: NormalizerModel, message: Seq<char>)
    requires
        m.wf(),
        m.failure is None,
        m.phase is PrimaryRest || m.phase is SecondaryRest,
    ensures
        ({
            let after = m.advanced(Outcome::Failed(message));
            &&& after.failure is None
            &&& after.stage1 == m.stage1
            &&& m.phase is PrimaryRest ==> after.primary.stage == m.primary.stage && is_filled_up(
                m.primary.out,
                after.primary.out,
                m.primary.chunk_frames() * channels_of(m.primary.format),
            )
            &&& m.phase is SecondaryRest ==> {
                &&& after.phase is Idle
                &&& after.primary == m.primary
                &&& after.secondary->0.stage == m.secondary->0.stage
                &&& is_filled_up(
                    m.secondary->0.out,
                    after.secondary->0.out,
                    m.secondary->0.chunk_frames() * channels_of(m.secondary->0.format),
                )
            }
        }),
{
    reveal(NormalizerModel::advanced);
    reveal(NormalizerModel::rest_secondary);
    lemma_filled_up(m.primary);
    if let Some(t) = m.secondary {
        lemma_filled_up(t);
    }
}

/// A block that is handed out is whole: it has the frames and the channels that
/// its conversion was planned for.
pub proof fn law_blocks_are_whole(m: NormalizerModel)
    requires
        m.wf(),
    ensures
        m.step() matches StepModel::Resample { unit, input, partial: None } ==> {
            &&& m.plan_of(unit) is Some
            &&& input.len() == m.plan_of(unit)->0.chunk_in_frames * m.plan_of(unit)->0.channels
        },
{
    match m.phase {
        Phase::Inner => law_block_partitions_pending(m.stage1->0),
        Phase::Primary => law_block_partitions_pending(m.primary.stage->Resample_0),
        Phase::Secondary => law_block_partitions_pending(m.secondary->0.stage->Resample_0),
        _ => {},
    }
}

/// Whether less than a block waits.
pub open spec fn is_less_than_a_block(r: ResamplerModel) -> bool {
    r.pending.len() < r.plan.chunk_in_frames * r.plan.channels
}

/// Whether less than a block waits in front of the conversion of an output.
pub open spec fn waits_for_a_block(t: TapModel) -> bool {
    t.stage matches StageModel::Resample(r) ==> is_less_than_a_block(r)
}

/// Whether less than a block waits in front of every conversion.
pub open spec fn all_wait_for_a_block(m: NormalizerModel) -> bool {
    &&& m.stage1 matches Some(r) ==> is_less_than_a_block(r)
    &&& waits_for_a_block(m.primary)
    &&& m.secondary matches Some(t) ==> waits_for_a_block(t)
}

/// A push converts all that it can: when it is over, less than a block waits in
/// front of every conversion, if that was so before. A new normalizer has
/// nothing waiting at all.
pub proof fn law_push_converts_all_that_it_can(
    m: NormalizerModel,
    samples: Seq<u32>,
    pts_ns: i64,
    answers: Seq<Outcome>,
)
    requires
        m.wf(),
        m.phase is Idle,
        all_wait_for_a_block(m),
        m.pushed(samples, pts_ns).run(answers).phase is Idle,
        m.pushed(samples, pts_ns).run(answers).failure is None,
    ensures
        all_wait_for_a_block(m.pushed(samples, pts_ns).run(answers)),
{
    law_push_settles(m, samples, pts_ns, answers);
}

/// What a running flush has done with failures.
spec fn flush_forgets(m: NormalizerModel) -> bool {
    &&& m.flushing
    &&& m.phase is Idle || m.phase is Tail || m.phase is PrimaryRest || m.phase is SecondaryRest
        ==> m.failure is None
}

proof fn lemma_ending_forgets(m: NormalizerModel)
    requires
        m.flushing,
    ensures
        m.failure is None ==> flush_forgets(m.rest_secondary()),
        m.failure is None ==> flush_forgets(m.rest_primary()),
        flush_forgets(m.taps_fed()),
        flush_forgets(m.drain_secondary()),
        flush_forgets(m.drain_primary()),
{
    reveal(NormalizerModel::rest_secondary);
    reveal(NormalizerModel::rest_primary);
    reveal(NormalizerModel::taps_fed);
    reveal(NormalizerModel::drain_secondary);
    reveal(NormalizerModel::drain_primary);
}

proof fn lemma_feeding_forgets(m: NormalizerModel, averages: Seq<u32>)
    requires
        m.flushing,
    ensures
        flush_forgets(m.fed(averages)),
        flush_forgets(m.distributed()),
{
    reveal(NormalizerModel::fed);
    reveal(NormalizerModel::distributed);
    let fed = NormalizerModel {
        primary: m.primary.fed(m.inner, averages),
        secondary: match m.secondary {
            None => None,
            Some(t) => Some(t.fed(m.inner, averages)),
        },
        inner: Seq::empty(),
        ..m
    };
    lemma_ending_forgets(fed);
    lemma_ending_forgets(m);
    let none = Seq::<u32>::empty();
    let plain = NormalizerModel {
        primary: m.primary.fed(m.inner, none),
        secondary: match m.secondary {
            None => None,
            Some(t) => Some(t.fed(m.inner, none)),
        },
        inner: Seq::empty(),
        ..m
    };
    lemma_ending_forgets(plain);
}

proof fn lemma_flush_step_forgets(m: NormalizerModel, outcome: Outcome)
    requires
        flush_forgets(m),
        flush_holds(m),
    ensures
        flush_forgets(m.advanced(outcome)),
{
    reveal(NormalizerModel::advanced);
    match outcome {
        Outcome::Samples(s) => match m.phase {
            Phase::Average => lemma_feeding_forgets(m, s),
            Phase::Primary => lemma_ending_forgets(
                NormalizerModel { primary: m.primary.accepted(s), ..m },
            ),
            Phase::Secondary => lemma_ending_forgets(
                NormalizerModel { secondary: Some(m.secondary->0.accepted(s)), ..m },
            ),
            Phase::Tail => {
                lemma_ending_forgets(m);
                lemma_feeding_forgets(NormalizerModel { inner: s, ..m }, s);
                reveal(NormalizerModel::rest_primary);
                reveal(NormalizerModel::rest_secondary);
            },
            Phase::PrimaryRest => lemma_ending_forgets(
                NormalizerModel { primary: m.primary.finished(s).aligned(), ..m },
            ),
            _ => {},
        },
        Outcome::Failed(message) => {
            lemma_ending_forgets(m.failed(message));
            lemma_ending_forgets(NormalizerModel { primary: m.primary.aligned(), ..m });
        },
    }
}

proof fn lemma_flush_run_forgets(m: NormalizerModel, answers: Seq<Outcome>)
    requires
        m.wf(),
        m.phase is Idle,
    ensures
        flush_forgets(m.flushed().run(answers)),
        flush_holds(m.flushed().run(answers)),
    decreases answers.len(),
{
    if answers.len() == 0 {
        lemma_flush_begins(m);
        reveal(NormalizerModel::flushed);
        lemma_ending_forgets(NormalizerModel { flushing: true, failure: None, ..m });
    } else {
        let front = answers.drop_last();
        lemma_flush_run_forgets(m, front);
        let now = m.flushed().run(front);
        if now.phase is Idle {
            reveal(NormalizerModel::advanced);
        } else {
            lemma_step_aligns(now, answers.last());
            lemma_flush_step_forgets(now, answers.last());
        }
    }
}

/// Whatever fails in the course of a flush, the flush is over without an error.
pub proof fn law_flush_reports_no_error(m: NormalizerModel, answers: Seq<Outcome>)
    requires
        m.wf(),
        m.phase is Idle,
        m.flushed().run(answers).phase is Idle,
    ensures
        m.flushed().run(answers).step() == StepModel::Done(None),
{
    lemma_flush_run_forgets(m, answers);
}

} // verus!
