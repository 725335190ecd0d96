//! What holds of every [`Normalizer`](crate::normalizer::Normalizer), whatever
//! the answers to its steps are.

use vstd::prelude::*;

use crate::arith::saturate_count;
use crate::frames::{
    law_mix_of_parts, law_padded_is_aligned, law_silence_is_kept, mixed, silence,
};
use crate::normalizer::{NormalizerModel, Outcome, Phase, StepModel};
use crate::resampler::law_block_partitions_pending;
use crate::tap::{law_second_flush_of_a_tap_is_void, StageModel, TapModel};
use crate::types::{ErrorView, OutputFormat};

verus! {

/// Whether the samples pass without any conversion of the rate, without a
/// processor and to the primary output alone.
pub open spec fn is_direct(m: NormalizerModel) -> bool {
    &&& m.wf()
    &&& m.phase is Idle
    &&& m.stage1 is None
    &&& !m.processor
    &&& m.primary.stage is Passthrough
    &&& m.secondary is None
}

/// Where nothing is converted, a push ends at once, and the stereo mix of its
/// whole frames is at the end of the output.
pub proof fn law_direct_push(m: NormalizerModel, samples: Seq<u32>, pts_ns: i64)
    requires
        is_direct(m),
        samples.len() >= m.in_channels,
    ensures
        is_direct(m.pushed(samples, pts_ns)),
        m.pushed(samples, pts_ns).failure is None,
        m.pushed(samples, pts_ns).primary == (TapModel {
            out: m.primary.out + mixed(samples, m.in_channels),
            ..m.primary.anchored(m.total, pts_ns)
        }),
        m.pushed(samples, pts_ns).total == saturate_count(
            m.total + samples.len() as int / m.in_channels,
        ),
        m.pushed(samples, pts_ns).same_setup(m),
{
    reveal(NormalizerModel::pushed);
    reveal(NormalizerModel::inner_complete);
    reveal(NormalizerModel::distributed);
    reveal(NormalizerModel::fed);
    reveal(NormalizerModel::drain_primary);
    reveal(NormalizerModel::drain_secondary);
    reveal(NormalizerModel::taps_fed);
    m.lemma_push_keeps_setup(samples, pts_ns);
    assert(samples.len() as int / m.in_channels > 0) by (nonlinear_arith)
        requires
            samples.len() >= m.in_channels > 0,
    ;
    let inner = mixed(samples, m.in_channels);
    assert(inner.len() > 0);
}

/// Less than one frame changes nothing but the record of the last operation.
pub proof fn law_subframe_push_is_void(m: NormalizerModel, samples: Seq<u32>, pts_ns: i64)
    requires
        m.wf(),
        samples.len() < m.in_channels,
    ensures
        m.pushed(samples, pts_ns) == (NormalizerModel { flushing: false, failure: None, ..m }),
{
    reveal(NormalizerModel::pushed);
    assert(samples.len() as int / m.in_channels == 0) by (nonlinear_arith)
        requires
            0 <= samples.len() < m.in_channels,
    ;
}

/// Where nothing is converted, the output does not depend on how whole frames
/// are divided among pushes.
pub proof fn law_direct_push_in_parts(
    m: NormalizerModel,
    a: Seq<u32>,
    b: Seq<u32>,
    p: i64,
    q: i64,
)
    requires
        is_direct(m),
        a.len() >= m.in_channels,
        b.len() >= m.in_channels,
        a.len() as int % m.in_channels == 0,
    ensures
        m.pushed(a, p).pushed(b, q).primary.out == m.pushed(a + b, p).primary.out,
        m.pushed(a, p).pushed(b, q).total == m.pushed(a + b, p).total,
{
    law_direct_push(m, a, p);
    law_direct_push(m.pushed(a, p), b, q);
    law_direct_push(m, a + b, p);
    law_mix_of_parts(a, b, m.in_channels);
    let whole = m.primary.out + mixed(a + b, m.in_channels);
    assert((m.primary.out + mixed(a, m.in_channels)) + mixed(b, m.in_channels) =~= whole);
    let k = a.len() as int / m.in_channels;
    vstd::arithmetic::div_mod::lemma_fundamental_div_mod(a.len() as int, m.in_channels);
    vstd::arithmetic::div_mod::lemma_hoist_over_denominator(
        b.len() as int,
        k,
        m.in_channels as nat,
    );
    assert(m.in_channels * k == k * m.in_channels) by (nonlinear_arith);
    assert((a + b).len() as int / m.in_channels == k + b.len() as int / m.in_channels);
    assert(b.len() as int / m.in_channels >= 0 && k >= 0) by (nonlinear_arith)
        requires
            b.len() >= 0,
            a.len() >= 0,
            m.in_channels > 0,
            k == a.len() as int / m.in_channels,
    ;
}

/// Silence stays silence where nothing is converted.
pub proof fn law_direct_silence(m: NormalizerModel, n: nat, pts_ns: i64)
    requires
        is_direct(m),
        n >= m.in_channels,
    ensures
        m.pushed(silence(n), pts_ns).primary.out == m.primary.out + silence(
            (n as int / m.in_channels * 2) as nat,
        ),
{
    law_direct_push(m, silence(n), pts_ns);
    law_silence_is_kept(n, m.in_channels);
}

/// No answer changes the device, the outputs or the processor.
pub proof fn law_run_keeps_setup(m: NormalizerModel, answers: Seq<Outcome>)
    requires
        m.wf(),
    ensures
        m.run(answers).wf(),
        m.run(answers).same_setup(m),
    decreases answers.len(),
{
    if answers.len() > 0 {
        let before = m.run(answers.drop_last());
        law_run_keeps_setup(m, answers.drop_last());
        before.lemma_advance_keeps_setup(answers.last());
        lemma_advance_keeps_wf(before, answers.last());
    }
}

/// What ends an operation keeps the parts together.
proof fn lemma_ending_keeps_wf(m: NormalizerModel)
    requires
        m.parts_wf(),
    ensures
        m.rest_secondary().wf(),
        m.rest_primary().wf(),
        m.taps_fed().wf(),
{
    reveal(NormalizerModel::rest_secondary);
    reveal(NormalizerModel::rest_primary);
    reveal(NormalizerModel::taps_fed);
    if m.primary.stage is Resample {
        m.primary.lemma_squared_waits();
    }
    if let Some(t) = m.secondary {
        if t.stage is Resample {
            t.lemma_squared_waits();
        }
    }
    let aligned = NormalizerModel { primary: m.primary.aligned(), ..m };
    assert(aligned.rest_secondary().wf());
    assert(m.rest_primary().wf());
    let clean = NormalizerModel { failure: None, ..m };
    let clean_aligned = NormalizerModel { primary: clean.primary.aligned(), ..clean };
    assert(clean_aligned.rest_secondary().wf());
}

/// What feeds the taps keeps the parts together.
proof fn lemma_feeding_keeps_wf(m: NormalizerModel, averages: Seq<u32>)
    requires
        m.parts_wf(),
    ensures
        m.drain_secondary().wf(),
        m.drain_primary().wf(),
        m.fed(averages).wf(),
{
    reveal(NormalizerModel::drain_secondary);
    reveal(NormalizerModel::drain_primary);
    reveal(NormalizerModel::fed);
    lemma_ending_keeps_wf(m);
    let fed = NormalizerModel {
        primary: m.primary.fed(m.inner, averages),
        secondary: match m.secondary {
            None => None,
            Some(t) => Some(t.fed(m.inner, averages)),
        },
        inner: Seq::empty(),
        ..m
    };
    lemma_ending_keeps_wf(fed);
}

/// What makes inner samples keeps the parts together.
proof fn lemma_inner_keeps_wf(m: NormalizerModel)
    requires
        m.parts_wf(),
    ensures
        m.distributed().wf(),
        m.inner_complete().wf(),
        m.stage1 is Some ==> m.drain_inner().wf(),
{
    reveal(NormalizerModel::distributed);
    reveal(NormalizerModel::inner_complete);
    reveal(NormalizerModel::drain_inner);
    lemma_ending_keeps_wf(m);
    lemma_feeding_keeps_wf(m, Seq::empty());
    let counted = NormalizerModel { total: saturate_count(m.total + m.produced), ..m };
    lemma_ending_keeps_wf(counted);
    lemma_feeding_keeps_wf(counted, Seq::empty());
    assert(counted.inner_complete().wf());
}

/// A push keeps the parts together.
pub proof fn lemma_push_keeps_wf(m: NormalizerModel, samples: Seq<u32>, pts_ns: i64)
    requires
        m.wf(),
    ensures
        m.pushed(samples, pts_ns).wf(),
{
    reveal(NormalizerModel::pushed);
    let start = NormalizerModel { flushing: false, failure: None, ..m };
    let anchored = start.anchored(pts_ns);
    let frames = samples.len() as int / m.in_channels;
    lemma_inner_keeps_wf(
        NormalizerModel {
            inner: mixed(samples, m.in_channels),
            total: saturate_count(anchored.total + frames),
            ..anchored
        },
    );
    if let Some(r) = anchored.stage1 {
        lemma_inner_keeps_wf(
            NormalizerModel {
                inner: Seq::empty(),
                produced: 0,
                stage1: Some(r.extended(mixed(samples, m.in_channels))),
                ..anchored
            },
        );
    }
}

/// An answer keeps the parts together.
pub proof fn lemma_advance_keeps_wf(m: NormalizerModel, outcome: Outcome)
    requires
        m.wf(),
    ensures
        m.advanced(outcome).wf(),
{
    reveal(NormalizerModel::advanced);
    match outcome {
        Outcome::Samples(s) => match m.phase {
            Phase::Idle => {},
            Phase::Inner => {
                lemma_inner_keeps_wf(
                    NormalizerModel {
                        inner: m.inner + s,
                        produced: saturate_count(m.produced + s.len() as int / 2),
                        stage1: Some(m.stage1->0.consumed()),
                        ..m
                    },
                );
            },
            Phase::Process => {
                lemma_inner_keeps_wf(NormalizerModel { inner: s, ..m });
            },
            Phase::Average => {
                lemma_feeding_keeps_wf(m, s);
            },
            Phase::Primary => {
                lemma_feeding_keeps_wf(
                    NormalizerModel { primary: m.primary.accepted(s), ..m },
                    s,
                );
            },
            Phase::Secondary => {
                lemma_feeding_keeps_wf(
                    NormalizerModel { secondary: Some(m.secondary->0.accepted(s)), ..m },
                    s,
                );
            },
            Phase::Tail => {
                lemma_ending_keeps_wf(m);
                lemma_inner_keeps_wf(NormalizerModel { inner: s, ..m });
            },
            Phase::PrimaryRest => {
                lemma_ending_keeps_wf(
                    NormalizerModel { primary: m.primary.finished(s).aligned(), ..m },
                );
            },
            Phase::SecondaryRest => {},
        },
        Outcome::Failed(message) => {
            let failed = m.failed(message);
            lemma_feeding_keeps_wf(failed, Seq::empty());
            lemma_ending_keeps_wf(failed);
            lemma_ending_keeps_wf(NormalizerModel { primary: m.primary.aligned(), ..m });
        },
    }
}

/// Whether both outputs consist of whole chunks.
pub open spec fn is_aligned(m: NormalizerModel) -> bool {
    m.primary.is_aligned() && (m.secondary matches Some(t) ==> t.is_aligned())
}

/// What a running flush has reached: at its end both outputs are aligned.
pub open spec fn flush_holds(m: NormalizerModel) -> bool {
    &&& m.wf()
    &&& m.flushing
    &&& !(m.phase is Inner)
    &&& !(m.phase is Process)
    &&& m.phase is Idle ==> is_aligned(m)
    &&& m.phase is SecondaryRest ==> m.primary.is_aligned()
}

/// An aligned tap consists of whole chunks.
proof fn lemma_aligned(t: TapModel)
    requires
        t.wf(),
    ensures
        t.aligned().is_aligned(),
        t.aligned().wf(),
{
    t.lemma_need_positive();
    law_padded_is_aligned(t.out, t.need());
}

proof fn lemma_ending_aligns(m: NormalizerModel)
    requires
        m.parts_wf(),
        m.flushing,
    ensures
        m.primary.is_aligned() ==> flush_holds(m.rest_secondary()),
        flush_holds(m.rest_primary()),
        flush_holds(m.taps_fed()),
{
    reveal(NormalizerModel::rest_secondary);
    reveal(NormalizerModel::rest_primary);
    reveal(NormalizerModel::taps_fed);
    lemma_ending_keeps_wf(m);
    lemma_aligned(m.primary);
    if let Some(t) = m.secondary {
        lemma_aligned(t);
    }
    let clean = NormalizerModel { failure: None, ..m };
    assert(flush_holds(clean.rest_primary()));
}

proof fn lemma_feeding_aligns(m: NormalizerModel, averages: Seq<u32>)
    requires
        m.parts_wf(),
        m.flushing,
    ensures
        flush_holds(m.drain_secondary()),
        flush_holds(m.drain_primary()),
        flush_holds(m.fed(averages)),
{
    reveal(NormalizerModel::drain_secondary);
    reveal(NormalizerModel::drain_primary);
    reveal(NormalizerModel::fed);
    lemma_feeding_keeps_wf(m, averages);
    lemma_ending_aligns(m);
    let fed = NormalizerModel {
        primary: m.primary.fed(m.inner, averages),
        secondary: match m.secondary {
            None => None,
            Some(t) => Some(t.fed(m.inner, averages)),
        },
        inner: Seq::empty(),
        ..m
    };
    lemma_ending_aligns(fed);
}

/// Every answer keeps a flush on its way.
pub proof fn lemma_step_aligns(m: NormalizerModel, outcome: Outcome)
    requires
        flush_holds(m),
        !(m.phase is Idle),
    ensures
        flush_holds(m.advanced(outcome)),
{
    reveal(NormalizerModel::advanced);
    lemma_advance_keeps_wf(m, outcome);
    match outcome {
        Outcome::Samples(s) => match m.phase {
            Phase::Average => {
                lemma_feeding_aligns(m, s);
            },
            Phase::Primary => {
                lemma_feeding_aligns(NormalizerModel { primary: m.primary.accepted(s), ..m }, s);
            },
            Phase::Secondary => {
                lemma_feeding_aligns(
                    NormalizerModel { secondary: Some(m.secondary->0.accepted(s)), ..m },
                    s,
                );
            },
            Phase::Tail => {
                lemma_ending_aligns(m);
                let next = NormalizerModel { inner: s, ..m };
                reveal(NormalizerModel::distributed);
                lemma_ending_aligns(next);
                lemma_feeding_aligns(next, Seq::empty());
            },
            Phase::PrimaryRest => {
                lemma_aligned(m.primary.finished(s));
                lemma_ending_aligns(
                    NormalizerModel { primary: m.primary.finished(s).aligned(), ..m },
                );
            },
            Phase::SecondaryRest => {
                lemma_aligned(m.secondary->0.finished(s));
            },
            _ => {},
        },
        Outcome::Failed(message) => {
            let failed = m.failed(message);
            lemma_feeding_aligns(failed, Seq::empty());
            lemma_ending_aligns(failed);
            lemma_aligned(m.primary);
            lemma_ending_aligns(NormalizerModel { primary: m.primary.aligned(), ..m });
            if let Some(t) = m.secondary {
                lemma_aligned(t);
            }
        },
    }
}

/// A flush begins on its way.
pub proof fn lemma_flush_begins(m: NormalizerModel)
    requires
        m.wf(),
    ensures
        flush_holds(m.flushed()),
{
    reveal(NormalizerModel::flushed);
    let start = NormalizerModel { flushing: true, failure: None, ..m };
    lemma_ending_aligns(start);
}

/// However its steps are answered, a flush ends with both outputs in whole
/// chunks: nothing is left over.
pub proof fn law_flush_aligns(m: NormalizerModel, answers: Seq<Outcome>)
    requires
        m.wf(),
        m.phase is Idle,
        m.flushed().run(answers).phase is Idle,
    ensures
        is_aligned(m.flushed().run(answers)),
{
    lemma_flush_begins(m);
    lemma_run_aligns(m.flushed(), answers);
}

proof fn lemma_run_aligns(m: NormalizerModel, answers: Seq<Outcome>)
    requires
        flush_holds(m),
    ensures
        flush_holds(m.run(answers)),
    decreases answers.len(),
{
    if answers.len() > 0 {
        let before = m.run(answers.drop_last());
        lemma_run_aligns(m, answers.drop_last());
        if before.phase is Idle {
            reveal(NormalizerModel::advanced);
        } else {
            lemma_step_aligns(before, answers.last());
        }
    }
}

/// Whether no conversion has a whole block waiting.
pub open spec fn is_settled(m: NormalizerModel) -> bool {
    &&& m.stage1 matches Some(r) ==> !r.ready()
    &&& !m.primary.ready()
    &&& m.secondary matches Some(t) ==> !t.ready()
}

/// What a running push has reached: less than a block waits in front of each
/// conversion that it is done with.
pub open spec fn push_holds(m: NormalizerModel) -> bool {
    let first = m.stage1 matches Some(r) ==> !r.ready();
    let second = m.secondary matches Some(t) ==> !t.ready();
    &&& m.wf()
    &&& !m.flushing
    &&& match m.phase {
        Phase::Idle => m.failure is None ==> is_settled(m),
        Phase::Inner => !m.primary.ready() && second,
        Phase::Process => is_settled(m),
        Phase::Average => is_settled(m),
        Phase::Primary => first,
        Phase::Secondary => first && (m.failure is None ==> !m.primary.ready()),
        _ => false,
    }
}

proof fn lemma_feeding_settles(m: NormalizerModel, averages: Seq<u32>)
    requires
        m.parts_wf(),
        !m.flushing,
        m.stage1 matches Some(r) ==> !r.ready(),
    ensures
        (m.failure is None ==> !m.primary.ready()) ==> push_holds(m.drain_secondary()),
        push_holds(m.drain_primary()),
        push_holds(m.fed(averages)),
{
    reveal(NormalizerModel::taps_fed);
    reveal(NormalizerModel::drain_secondary);
    reveal(NormalizerModel::drain_primary);
    reveal(NormalizerModel::fed);
    lemma_feeding_keeps_wf(m, averages);
    let fed = NormalizerModel {
        primary: m.primary.fed(m.inner, averages),
        secondary: match m.secondary {
            None => None,
            Some(t) => Some(t.fed(m.inner, averages)),
        },
        inner: Seq::empty(),
        ..m
    };
    assert(push_holds(fed.drain_primary()));
}

proof fn lemma_inner_settles(m: NormalizerModel)
    requires
        m.parts_wf(),
        !m.flushing,
        !m.primary.ready(),
        m.secondary matches Some(t) ==> !t.ready(),
    ensures
        is_settled(m) ==> push_holds(m.distributed()),
        is_settled(m) ==> push_holds(m.inner_complete()),
        m.stage1 is Some ==> push_holds(m.drain_inner()),
{
    reveal(NormalizerModel::taps_fed);
    reveal(NormalizerModel::distributed);
    reveal(NormalizerModel::inner_complete);
    reveal(NormalizerModel::drain_inner);
    lemma_inner_keeps_wf(m);
    if is_settled(m) {
        lemma_feeding_settles(m, Seq::empty());
        let counted = NormalizerModel { total: saturate_count(m.total + m.produced), ..m };
        lemma_inner_keeps_wf(counted);
        lemma_feeding_settles(counted, Seq::empty());
        assert(push_holds(counted.inner_complete()));
    }
}

/// The answer to a step keeps what a running push has reached.
pub proof fn lemma_step_settles(m: NormalizerModel, outcome: Outcome)
    requires
        push_holds(m),
        !(m.phase is Idle),
    ensures
        push_holds(m.advanced(outcome)),
{
    reveal(NormalizerModel::advanced);
    lemma_advance_keeps_wf(m, outcome);
    match outcome {
        Outcome::Samples(s) => match m.phase {
            Phase::Inner => {
                lemma_inner_settles(
                    NormalizerModel {
                        inner: m.inner + s,
                        produced: saturate_count(m.produced + s.len() as int / 2),
                        stage1: Some(m.stage1->0.consumed()),
                        ..m
                    },
                );
            },
            Phase::Process => {
                lemma_inner_settles(NormalizerModel { inner: s, ..m });
            },
            Phase::Average => {
                lemma_feeding_settles(m, s);
            },
            Phase::Primary => {
                lemma_feeding_settles(NormalizerModel { primary: m.primary.accepted(s), ..m }, s);
            },
            Phase::Secondary => {
                lemma_feeding_settles(
                    NormalizerModel { secondary: Some(m.secondary->0.accepted(s)), ..m },
                    s,
                );
            },
            _ => {},
        },
        Outcome::Failed(message) => {
            let failed = m.failed(message);
            reveal(NormalizerModel::taps_fed);
            if m.phase is Primary {
                lemma_feeding_settles(failed, Seq::empty());
            }
        },
    }
}

/// A push that begins has reached what a running push has.
pub proof fn lemma_push_begins(m: NormalizerModel, samples: Seq<u32>, pts_ns: i64)
    requires
        m.wf(),
        m.phase is Idle,
        is_settled(m),
    ensures
        push_holds(m.pushed(samples, pts_ns)),
{
    lemma_push_keeps_wf(m, samples, pts_ns);
    reveal(NormalizerModel::pushed);
    let start = NormalizerModel { flushing: false, failure: None, ..m };
    let anchored = start.anchored(pts_ns);
    let frames = samples.len() as int / m.in_channels;
    match anchored.stage1 {
        None => {
            lemma_inner_settles(
                NormalizerModel {
                    inner: mixed(samples, m.in_channels),
                    total: saturate_count(anchored.total + frames),
                    ..anchored
                },
            );
        },
        Some(r) => {
            lemma_inner_settles(
                NormalizerModel {
                    inner: Seq::empty(),
                    produced: 0,
                    stage1: Some(r.extended(mixed(samples, m.in_channels))),
                    ..anchored
                },
            );
        },
    }
}

/// A push that succeeds leaves less than a block in front of each conversion:
/// what waits does not grow from push to push.
pub proof fn law_push_settles(
    m: NormalizerModel,
    samples: Seq<u32>,
    pts_ns: i64,
    answers: Seq<Outcome>,
)
    requires
        m.wf(),
        m.phase is Idle,
        is_settled(m),
        m.pushed(samples, pts_ns).run(answers).phase is Idle,
        m.pushed(samples, pts_ns).run(answers).failure is None,
    ensures
        is_settled(m.pushed(samples, pts_ns).run(answers)),
{
    lemma_push_begins(m, samples, pts_ns);
    lemma_run_settles(m.pushed(samples, pts_ns), answers);
}

proof fn lemma_run_settles(m: NormalizerModel, answers: Seq<Outcome>)
    requires
        push_holds(m),
    ensures
        push_holds(m.run(answers)),
    decreases answers.len(),
{
    if answers.len() > 0 {
        let before = m.run(answers.drop_last());
        lemma_run_settles(m, answers.drop_last());
        if before.phase is Idle {
            reveal(NormalizerModel::advanced);
        } else {
            lemma_step_settles(before, answers.last());
        }
    }
}

/// Before the first push nothing waits.
pub proof fn law_fresh_is_settled(
    in_sample_rate: u32,
    in_channels: u16,
    output: OutputFormat,
    chunk_ms: u32,
)
    requires
        NormalizerModel::fresh(in_sample_rate, in_channels, output, chunk_ms).wf(),
    ensures
        is_settled(NormalizerModel::fresh(in_sample_rate, in_channels, output, chunk_ms)),
{
    let m = NormalizerModel::fresh(in_sample_rate, in_channels, output, chunk_ms);
    if let Some(r) = m.stage1 {
        r.plan.lemma_step_positive();
    }
    if let StageModel::Resample(r) = m.primary.stage {
        r.plan.lemma_step_positive();
    }
}

/// Whether the secondary output is in the state of the primary one, and neither
/// converts its rate.
pub open spec fn has_twin_outputs(m: NormalizerModel) -> bool {
    &&& m.secondary == Some(m.primary)
    &&& !(m.primary.stage is Resample)
}

proof fn lemma_ending_keeps_twins(m: NormalizerModel)
    requires
        m.parts_wf(),
        has_twin_outputs(m),
    ensures
        has_twin_outputs(m.rest_primary()),
        has_twin_outputs(m.taps_fed()),
{
    reveal(NormalizerModel::rest_secondary);
    reveal(NormalizerModel::rest_primary);
    reveal(NormalizerModel::taps_fed);
    let clean = NormalizerModel { failure: None, ..m };
    assert(has_twin_outputs(clean.rest_primary()));
}

proof fn lemma_feeding_keeps_twins(m: NormalizerModel, averages: Seq<u32>)
    requires
        m.parts_wf(),
        has_twin_outputs(m),
    ensures
        has_twin_outputs(m.drain_primary()),
        has_twin_outputs(m.fed(averages)),
{
    reveal(NormalizerModel::drain_secondary);
    reveal(NormalizerModel::drain_primary);
    reveal(NormalizerModel::fed);
    lemma_ending_keeps_twins(m);
    let fed = NormalizerModel {
        primary: m.primary.fed(m.inner, averages),
        secondary: match m.secondary {
            None => None,
            Some(t) => Some(t.fed(m.inner, averages)),
        },
        inner: Seq::empty(),
        ..m
    };
    lemma_ending_keeps_twins(fed);
}

proof fn lemma_inner_keeps_twins(m: NormalizerModel)
    requires
        m.parts_wf(),
        has_twin_outputs(m),
    ensures
        has_twin_outputs(m.distributed()),
        has_twin_outputs(m.inner_complete()),
        m.stage1 is Some ==> has_twin_outputs(m.drain_inner()),
{
    reveal(NormalizerModel::distributed);
    reveal(NormalizerModel::inner_complete);
    reveal(NormalizerModel::drain_inner);
    lemma_ending_keeps_twins(m);
    lemma_feeding_keeps_twins(m, Seq::empty());
    let counted = NormalizerModel { total: saturate_count(m.total + m.produced), ..m };
    lemma_ending_keeps_twins(counted);
    lemma_feeding_keeps_twins(counted, Seq::empty());
}

proof fn lemma_step_keeps_twins(m: NormalizerModel, outcome: Outcome)
    requires
        m.wf(),
        has_twin_outputs(m),
    ensures
        has_twin_outputs(m.advanced(outcome)),
{
    reveal(NormalizerModel::advanced);
    match outcome {
        Outcome::Samples(s) => match m.phase {
            Phase::Inner => {
                lemma_inner_keeps_twins(
                    NormalizerModel {
                        inner: m.inner + s,
                        produced: saturate_count(m.produced + s.len() as int / 2),
                        stage1: Some(m.stage1->0.consumed()),
                        ..m
                    },
                );
            },
            Phase::Process => {
                lemma_inner_keeps_twins(NormalizerModel { inner: s, ..m });
            },
            Phase::Average => {
                lemma_feeding_keeps_twins(m, s);
            },
            Phase::Tail => {
                lemma_ending_keeps_twins(m);
                lemma_inner_keeps_twins(NormalizerModel { inner: s, ..m });
            },
            _ => {},
        },
        Outcome::Failed(_) => {},
    }
}

/// Both outputs get the same audio: two outputs of one format without a rate
/// conversion stay equal, sample for sample and in time, whatever is pushed and
/// however the steps are answered.
pub proof fn law_twin_outputs_agree(
    m: NormalizerModel,
    samples: Seq<u32>,
    pts_ns: i64,
    answers: Seq<Outcome>,
)
    requires
        m.wf(),
        has_twin_outputs(m),
    ensures
        has_twin_outputs(m.pushed(samples, pts_ns).run(answers)),
        has_twin_outputs(m.flushed().run(answers)),
{
    assert(has_twin_outputs(m.pushed(samples, pts_ns))) by {
        reveal(NormalizerModel::pushed);
        let start = NormalizerModel { flushing: false, failure: None, ..m };
        let anchored = start.anchored(pts_ns);
        let frames = samples.len() as int / m.in_channels;
        match anchored.stage1 {
            None => {
                lemma_inner_keeps_twins(
                    NormalizerModel {
                        inner: mixed(samples, m.in_channels),
                        total: saturate_count(anchored.total + frames),
                        ..anchored
                    },
                );
            },
            Some(r) => {
                lemma_inner_keeps_twins(
                    NormalizerModel {
                        inner: Seq::empty(),
                        produced: 0,
                        stage1: Some(r.extended(mixed(samples, m.in_channels))),
                        ..anchored
                    },
                );
            },
        }
    }
    lemma_push_keeps_wf(m, samples, pts_ns);
    lemma_run_keeps_twins(m.pushed(samples, pts_ns), answers);
    let start = NormalizerModel { flushing: true, failure: None, ..m };
    lemma_ending_keeps_twins(start);
    lemma_ending_keeps_wf(start);
    assert(has_twin_outputs(m.flushed()) && m.flushed().wf()) by {
        reveal(NormalizerModel::flushed);
    }
    lemma_run_keeps_twins(m.flushed(), answers);
}

proof fn lemma_run_keeps_twins(m: NormalizerModel, answers: Seq<Outcome>)
    requires
        m.wf(),
        has_twin_outputs(m),
    ensures
        has_twin_outputs(m.run(answers)),
    decreases answers.len(),
{
    if answers.len() > 0 {
        lemma_run_keeps_twins(m, answers.drop_last());
        law_run_keeps_setup(m, answers.drop_last());
        lemma_step_keeps_twins(m.run(answers.drop_last()), answers.last());
    }
}

/// The normalizer after the processor has answered and, where an output is mono,
/// the frames of its answer have been averaged.
pub open spec fn after_processor(
    m: NormalizerModel,
    answer: Seq<u32>,
    averages: Seq<u32>,
) -> NormalizerModel {
    let once = m.advanced(Outcome::Samples(answer));
    if answer.len() > 0 && m.needs_averages() {
        once.advanced(Outcome::Samples(averages))
    } else {
        once
    }
}

/// Feeding uses the averages for mono alone, and feeding nothing changes
/// nothing.
proof fn lemma_feeding_without_averages(t: TapModel, inner: Seq<u32>, averages: Seq<u32>)
    ensures
        t.channels() != 1 ==> t.fed(inner, Seq::empty()) == t.fed(inner, averages),
        inner.len() == 0 ==> t.fed(inner, averages) == t,
{
    if inner.len() == 0 {
        assert(t.out + inner =~= t.out);
    }
}

/// What the processor answers is what every output gets: both are fed exactly
/// its answer, whatever their formats. Where an output is mono, the frames of
/// that answer are averaged first.
pub proof fn law_processor_feeds_outputs(
    m: NormalizerModel,
    answer: Seq<u32>,
    averages: Seq<u32>,
)
    requires
        m.wf(),
        m.phase is Process,
        !m.flushing,
    ensures
        answer.len() > 0 && m.needs_averages() ==> m.advanced(Outcome::Samples(answer)).step()
            == (StepModel::Average { samples: answer }),
        after_processor(m, answer, averages).primary == m.primary.fed(answer, averages),
        after_processor(m, answer, averages).secondary == (match m.secondary {
            None => None,
            Some(t) => Some(t.fed(answer, averages)),
        }),
{
    reveal(NormalizerModel::advanced);
    reveal(NormalizerModel::distributed);
    reveal(NormalizerModel::fed);
    reveal(NormalizerModel::drain_primary);
    reveal(NormalizerModel::drain_secondary);
    reveal(NormalizerModel::taps_fed);
    lemma_feeding_without_averages(m.primary, answer, averages);
    if let Some(t) = m.secondary {
        lemma_feeding_without_averages(t, answer, averages);
    }
}

/// Whether a tap has kept what `a` held: its output, and what waits for a
/// conversion, with at most silence behind it.
pub open spec fn is_kept(a: TapModel, b: TapModel) -> bool {
    &&& a.out.is_prefix_of(b.out)
    &&& a.stage matches StageModel::Resample(r) ==> {
        &&& b.stage is Resample
        &&& r.pending.is_prefix_of(b.stage->Resample_0.pending)
    }
}

proof fn lemma_flushing_keeps_tap(t: TapModel)
    requires
        t.wf(),
        !t.ready(),
    ensures
        is_kept(t, t),
        is_kept(t, t.aligned()),
        t.stage is Resample ==> is_kept(t, t.squared()),
{
    t.lemma_need_positive();
    law_padded_is_aligned(t.out, t.need());
    assert(t.out =~= t.out.take(t.out.len() as int));
    if let StageModel::Resample(r) = t.stage {
        r.plan.lemma_step_positive();
        assert(r.pending =~= r.pending.take(r.pending.len() as int));
        assert(r.pending =~= r.squared().pending.take(r.pending.len() as int));
    }
}

proof fn lemma_ending_keeps_taps(m: NormalizerModel)
    requires
        m.parts_wf(),
        m.flushing,
        !m.primary.ready(),
        m.secondary matches Some(t) ==> !t.ready(),
    ensures
        is_kept(m.primary, m.rest_primary().primary),
        m.secondary matches Some(t) ==> m.rest_primary().secondary is Some && is_kept(
            t,
            m.rest_primary().secondary->0,
        ),
        is_kept(m.primary, m.taps_fed().primary),
        m.secondary matches Some(t) ==> m.taps_fed().secondary is Some && is_kept(
            t,
            m.taps_fed().secondary->0,
        ),
{
    reveal(NormalizerModel::rest_secondary);
    reveal(NormalizerModel::rest_primary);
    reveal(NormalizerModel::taps_fed);
    lemma_flushing_keeps_tap(m.primary);
    if let Some(t) = m.secondary {
        lemma_flushing_keeps_tap(t);
    }
}

/// The tail that the processor gives up at the end is not lost: both outputs are
/// fed exactly the tail, and what they then hold is kept, with at most silence
/// behind it. Where no rate is converted, the flush is over with that.
pub proof fn law_tail_is_kept(m: NormalizerModel, tail: Seq<u32>, averages: Seq<u32>)
    requires
        m.wf(),
        m.phase is Tail,
        m.flushing,
        is_settled(m),
    ensures
        tail.len() > 0 && m.needs_averages() ==> m.advanced(Outcome::Samples(tail)).step() == (
        StepModel::Average { samples: tail }),
        ({
            let after = after_processor(m, tail, averages);
            let primary = m.primary.fed(tail, averages);
            &&& is_kept(primary, after.primary)
            &&& m.secondary matches Some(t) ==> after.secondary is Some && is_kept(
                t.fed(tail, averages),
                after.secondary->0,
            )
            &&& !(m.primary.stage is Resample) && (m.secondary matches Some(t) ==> !(
            t.stage is Resample)) ==> {
                &&& after.phase is Idle
                &&& after.primary == primary.aligned()
                &&& m.secondary matches Some(t) ==> after.secondary == Some(
                    t.fed(tail, averages).aligned(),
                )
            }
        }),
{
    reveal(NormalizerModel::advanced);
    reveal(NormalizerModel::distributed);
    lemma_feeding_without_averages(m.primary, tail, averages);
    if let Some(t) = m.secondary {
        lemma_feeding_without_averages(t, tail, averages);
    }
    lemma_ending_keeps_taps(m);
    let next = NormalizerModel { inner: tail, ..m };
    let averaging = NormalizerModel { phase: Phase::Average, ..next };
    lemma_feeding_keeps_taps(averaging, averages);
    lemma_feeding_keeps_taps(next, Seq::empty());
    lemma_feeding_without_conversion(m, averaging, averages);
    lemma_feeding_without_conversion(m, next, Seq::empty());
}

proof fn lemma_feeding_keeps_taps(m: NormalizerModel, averages: Seq<u32>)
    requires
        m.parts_wf(),
        m.flushing,
    ensures
        is_kept(m.primary.fed(m.inner, averages), m.fed(averages).primary),
        m.secondary matches Some(t) ==> m.fed(averages).secondary is Some && is_kept(
            t.fed(m.inner, averages),
            m.fed(averages).secondary->0,
        ),
{
    reveal(NormalizerModel::fed);
    reveal(NormalizerModel::drain_primary);
    reveal(NormalizerModel::drain_secondary);
    let fed = NormalizerModel {
        primary: m.primary.fed(m.inner, averages),
        secondary: match m.secondary {
            None => None,
            Some(t) => Some(t.fed(m.inner, averages)),
        },
        inner: Seq::empty(),
        ..m
    };
    lemma_kept_by_itself(fed.primary);
    if let Some(t) = fed.secondary {
        lemma_kept_by_itself(t);
    }
    if !fed.primary.ready() && (fed.secondary matches Some(t) ==> !t.ready()) {
        lemma_ending_keeps_taps(fed);
    }
}

proof fn lemma_kept_by_itself(t: TapModel)
    ensures
        is_kept(t, t),
{
    assert(t.out =~= t.out.take(t.out.len() as int));
    if let StageModel::Resample(r) = t.stage {
        assert(r.pending =~= r.pending.take(r.pending.len() as int));
    }
}

proof fn lemma_feeding_without_conversion(
    m: NormalizerModel,
    next: NormalizerModel,
    averages: Seq<u32>,
)
    requires
        m.parts_wf(),
        m.flushing,
        next == (NormalizerModel { inner: next.inner, phase: next.phase, ..m }),
    ensures
        !(m.primary.stage is Resample) && (m.secondary matches Some(t) ==> !(t.stage is Resample))
            ==> {
            &&& next.fed(averages).phase is Idle
            &&& next.fed(averages).primary == m.primary.fed(next.inner, averages).aligned()
            &&& m.secondary matches Some(t) ==> next.fed(averages).secondary == Some(
                t.fed(next.inner, averages).aligned(),
            )
            &&& m.rest_primary().phase is Idle
            &&& m.rest_primary().primary == m.primary.aligned()
            &&& m.secondary matches Some(t) ==> m.rest_primary().secondary == Some(t.aligned())
        },
{
    reveal(NormalizerModel::fed);
    reveal(NormalizerModel::drain_primary);
    reveal(NormalizerModel::drain_secondary);
    reveal(NormalizerModel::taps_fed);
    reveal(NormalizerModel::rest_primary);
    reveal(NormalizerModel::rest_secondary);
}

/// A flush that meets no failure leaves nothing to convert.
spec fn flush_clears(m: NormalizerModel) -> bool {
    &&& flush_holds(m)
    &&& m.failure is None
    &&& m.phase is Idle ==> !(m.primary.remaining() > 0) && (m.secondary matches Some(t) ==> !(
    t.remaining() > 0))
    &&& m.phase is SecondaryRest ==> !(m.primary.remaining() > 0)
}

proof fn lemma_ending_clears(m: NormalizerModel)
    requires
        m.parts_wf(),
        m.flushing,
        m.failure is None,
    ensures
        m.primary.is_aligned() && !(m.primary.remaining() > 0) ==> flush_clears(
            m.rest_secondary(),
        ),
        flush_clears(m.rest_primary()),
        flush_clears(m.taps_fed()),
{
    reveal(NormalizerModel::rest_secondary);
    reveal(NormalizerModel::rest_primary);
    reveal(NormalizerModel::taps_fed);
    lemma_ending_aligns(m);
}

proof fn lemma_feeding_clears(m: NormalizerModel, averages: Seq<u32>)
    requires
        m.parts_wf(),
        m.flushing,
        m.failure is None,
    ensures
        flush_clears(m.drain_secondary()),
        flush_clears(m.drain_primary()),
        flush_clears(m.fed(averages)),
{
    reveal(NormalizerModel::drain_secondary);
    reveal(NormalizerModel::drain_primary);
    reveal(NormalizerModel::fed);
    lemma_feeding_aligns(m, averages);
    lemma_ending_clears(m);
    let fed = NormalizerModel {
        primary: m.primary.fed(m.inner, averages),
        secondary: match m.secondary {
            None => None,
            Some(t) => Some(t.fed(m.inner, averages)),
        },
        inner: Seq::empty(),
        ..m
    };
    lemma_ending_clears(fed);
}

proof fn lemma_step_clears(m: NormalizerModel, s: Seq<u32>)
    requires
        flush_clears(m),
        !(m.phase is Idle),
    ensures
        flush_clears(m.advanced(Outcome::Samples(s))),
{
    reveal(NormalizerModel::advanced);
    lemma_step_aligns(m, Outcome::Samples(s));
    match m.phase {
        Phase::Average => {
            lemma_feeding_clears(m, s);
        },
        Phase::Primary => {
            lemma_feeding_clears(NormalizerModel { primary: m.primary.accepted(s), ..m }, s);
        },
        Phase::Secondary => {
            lemma_feeding_clears(
                NormalizerModel { secondary: Some(m.secondary->0.accepted(s)), ..m },
                s,
            );
        },
        Phase::Tail => {
            lemma_ending_clears(m);
            let next = NormalizerModel { inner: s, ..m };
            reveal(NormalizerModel::distributed);
            lemma_ending_clears(next);
            lemma_feeding_clears(next, Seq::empty());
        },
        Phase::PrimaryRest => {
            law_second_flush_of_a_tap_is_void(m.primary, s);
            lemma_aligned(m.primary.finished(s));
            lemma_ending_clears(
                NormalizerModel { primary: m.primary.finished(s).aligned(), ..m },
            );
        },
        Phase::SecondaryRest => {
            law_second_flush_of_a_tap_is_void(m.secondary->0, s);
        },
        _ => {},
    }
}

proof fn lemma_run_clears(m: NormalizerModel, answers: Seq<Outcome>)
    requires
        flush_clears(m),
        forall|i: int| 0 <= i < answers.len() ==> (#[trigger] answers[i]) is Samples,
    ensures
        flush_clears(m.run(answers)),
    decreases answers.len(),
{
    if answers.len() > 0 {
        let front = answers.drop_last();
        assert forall|i: int| 0 <= i < front.len() implies (#[trigger] front[i]) is Samples by {
            assert(front[i] == answers[i]);
        }
        let before = m.run(front);
        lemma_run_clears(m, front);
        assert(answers[answers.len() - 1] is Samples);
        if before.phase is Idle {
            reveal(NormalizerModel::advanced);
        } else {
            lemma_step_clears(before, answers.last()->Samples_0);
        }
    }
}

/// A second flush changes nothing: after a flush whose conversions succeeded, a
/// flush asks for no conversion and leaves everything as it is. A processor is
/// asked for its tail once more, and has none.
pub proof fn law_second_flush_is_void(m: NormalizerModel, answers: Seq<Outcome>)
    requires
        m.wf(),
        m.phase is Idle,
        forall|i: int| 0 <= i < answers.len() ==> (#[trigger] answers[i]) is Samples,
        m.flushed().run(answers).phase is Idle,
    ensures
        ({
            let once = m.flushed().run(answers);
            let again = if once.processor {
                once.flushed().advanced(Outcome::Samples(Seq::empty()))
            } else {
                once.flushed()
            };
            again == once
        }),
{
    let once = m.flushed().run(answers);
    assert(flush_clears(m.flushed())) by {
        reveal(NormalizerModel::flushed);
        let start = NormalizerModel { flushing: true, failure: None, ..m };
        lemma_flush_begins(m);
        lemma_ending_clears(start);
    }
    lemma_run_clears(m.flushed(), answers);
    reveal(NormalizerModel::flushed);
    reveal(NormalizerModel::advanced);
    reveal(NormalizerModel::rest_primary);
    reveal(NormalizerModel::rest_secondary);
    once.primary.lemma_need_positive();
    assert(once.primary.out + silence(0) =~= once.primary.out);
    assert(once.primary.aligned() == once.primary);
    if let Some(t) = once.secondary {
        t.lemma_need_positive();
        assert(t.out + silence(0) =~= t.out);
        assert(t.aligned() == t);
    }
}

proof fn lemma_chain_keeps_failure(m: NormalizerModel, averages: Seq<u32>)
    requires
        !m.flushing,
    ensures
        m.taps_fed().failure == m.failure && !m.taps_fed().flushing,
        m.drain_secondary().failure == m.failure && !m.drain_secondary().flushing,
        m.drain_primary().failure == m.failure && !m.drain_primary().flushing,
        m.fed(averages).failure == m.failure && !m.fed(averages).flushing,
{
    reveal(NormalizerModel::taps_fed);
    reveal(NormalizerModel::drain_secondary);
    reveal(NormalizerModel::drain_primary);
    reveal(NormalizerModel::fed);
}

proof fn lemma_inner_keeps_failure(m: NormalizerModel)
    requires
        !m.flushing,
    ensures
        m.distributed().failure == m.failure && !m.distributed().flushing,
        m.inner_complete().failure == m.failure && !m.inner_complete().flushing,
        m.drain_inner().failure == m.failure && !m.drain_inner().flushing,
{
    reveal(NormalizerModel::distributed);
    reveal(NormalizerModel::inner_complete);
    reveal(NormalizerModel::drain_inner);
    lemma_chain_keeps_failure(m, Seq::empty());
    let counted = NormalizerModel { total: saturate_count(m.total + m.produced), ..m };
    lemma_chain_keeps_failure(counted, Seq::empty());
}

/// A push reports its first failure, however it goes on after it.
pub proof fn law_first_failure_is_reported(
    m: NormalizerModel,
    message: Seq<char>,
    answers: Seq<Outcome>,
)
    requires
        m.wf(),
        m.resampling(),
        !m.flushing,
        !(m.phase is PrimaryRest),
        !(m.phase is SecondaryRest),
        m.failure is None,
    ensures
        m.advanced(Outcome::Failed(message)).run(answers).failure == Some(
            ErrorView::Backend(message),
        ),
{
    let after = m.advanced(Outcome::Failed(message));
    assert(after.failure == Some(ErrorView::Backend(message)) && !after.flushing)
        by {
        reveal(NormalizerModel::advanced);
        lemma_chain_keeps_failure(m.failed(message), Seq::empty());
    }
    lemma_run_keeps_failure(after, answers);
}

proof fn lemma_run_keeps_failure(m: NormalizerModel, answers: Seq<Outcome>)
    requires
        m.failure is Some,
        !m.flushing,
    ensures
        m.run(answers).failure == m.failure,
        !m.run(answers).flushing,
    decreases answers.len(),
{
    if answers.len() > 0 {
        lemma_run_keeps_failure(m, answers.drop_last());
        lemma_step_keeps_failure(m.run(answers.drop_last()), answers.last());
    }
}

/// An answer does not turn a push into a flush, and keeps its first failure.
pub proof fn lemma_step_keeps_failure(m: NormalizerModel, outcome: Outcome)
    requires
        !m.flushing,
    ensures
        m.failure is Some ==> m.advanced(outcome).failure == m.failure,
        !m.advanced(outcome).flushing,
{
    reveal(NormalizerModel::advanced);
    reveal(NormalizerModel::rest_primary);
    reveal(NormalizerModel::rest_secondary);
    match outcome {
        Outcome::Samples(s) => match m.phase {
            Phase::Inner => {
                lemma_inner_keeps_failure(
                    NormalizerModel {
                        inner: m.inner + s,
                        produced: saturate_count(m.produced + s.len() as int / 2),
                        stage1: Some(m.stage1->0.consumed()),
                        ..m
                    },
                );
            },
            Phase::Process => {
                lemma_inner_keeps_failure(NormalizerModel { inner: s, ..m });
            },
            Phase::Average => {
                lemma_chain_keeps_failure(m, s);
            },
            Phase::Primary => {
                lemma_chain_keeps_failure(
                    NormalizerModel { primary: m.primary.accepted(s), ..m },
                    s,
                );
            },
            Phase::Secondary => {
                lemma_chain_keeps_failure(
                    NormalizerModel { secondary: Some(m.secondary->0.accepted(s)), ..m },
                    s,
                );
            },
            Phase::Tail => {
                lemma_inner_keeps_failure(NormalizerModel { inner: s, ..m });
            },
            _ => {},
        },
        Outcome::Failed(message) => {
            lemma_chain_keeps_failure(m.failed(message), Seq::empty());
        },
    }
}

/// A push is no flush.
pub proof fn lemma_push_is_no_flush(m: NormalizerModel, samples: Seq<u32>, pts_ns: i64)
    ensures
        !m.pushed(samples, pts_ns).flushing,
{
    reveal(NormalizerModel::pushed);
    let start = NormalizerModel { flushing: false, failure: None, ..m };
    let anchored = start.anchored(pts_ns);
    let frames = samples.len() as int / m.in_channels;
    lemma_inner_keeps_failure(
        NormalizerModel {
            inner: mixed(samples, m.in_channels),
            total: saturate_count(anchored.total + frames),
            ..anchored
        },
    );
    if let Some(r) = anchored.stage1 {
        lemma_inner_keeps_failure(
            NormalizerModel {
                inner: Seq::empty(),
                produced: 0,
                stage1: Some(r.extended(mixed(samples, m.in_channels))),
                ..anchored
            },
        );
    }
}

proof fn lemma_chain_keeps_stages(m: NormalizerModel, averages: Seq<u32>)
    requires
        !m.flushing,
    ensures
        m.taps_fed().stage1 == m.stage1,
        m.taps_fed().primary == m.primary,
        m.taps_fed().secondary == m.secondary,
        m.drain_secondary().stage1 == m.stage1,
        m.drain_secondary().primary == m.primary,
        m.drain_secondary().secondary == m.secondary,
        m.drain_primary().stage1 == m.stage1,
        m.drain_primary().primary == m.primary,
        m.drain_primary().secondary == m.secondary,
        m.fed(averages).stage1 == m.stage1,
{
    reveal(NormalizerModel::taps_fed);
    reveal(NormalizerModel::drain_secondary);
    reveal(NormalizerModel::drain_primary);
    reveal(NormalizerModel::fed);
}

proof fn lemma_inner_keeps_stage1(m: NormalizerModel)
    requires
        !m.flushing,
    ensures
        m.distributed().stage1 == m.stage1,
        m.inner_complete().stage1 == m.stage1,
        m.drain_inner().stage1 == m.stage1,
{
    reveal(NormalizerModel::distributed);
    reveal(NormalizerModel::inner_complete);
    reveal(NormalizerModel::drain_inner);
    lemma_chain_keeps_stages(m, Seq::empty());
    let counted = NormalizerModel { total: saturate_count(m.total + m.produced), ..m };
    lemma_chain_keeps_stages(counted, Seq::empty());
}

/// A push hands its input to a conversion block by block, in order and without
/// gap or overlap: the block of a step and what waits after it make up what
/// waited before.
pub proof fn law_conversion_gets_every_sample(m: NormalizerModel, answer: Seq<u32>)
    requires
        m.wf(),
        !m.flushing,
    ensures
        ({
            let after = m.advanced(Outcome::Samples(answer));
            &&& m.phase is Inner ==> m.step()->input + after.stage1->0.pending
                == m.stage1->0.pending
            &&& m.phase is Primary ==> m.step()->input + after.primary.stage->Resample_0.pending
                == m.primary.stage->Resample_0.pending
            &&& m.phase is Secondary ==> m.step()->input
                + after.secondary->0.stage->Resample_0.pending
                == m.secondary->0.stage->Resample_0.pending
        }),
{
    reveal(NormalizerModel::advanced);
    if m.phase is Inner {
        let consumed = NormalizerModel {
            inner: m.inner + answer,
            produced: saturate_count(m.produced + answer.len() as int / 2),
            stage1: Some(m.stage1->0.consumed()),
            ..m
        };
        lemma_inner_keeps_stage1(consumed);
        law_block_partitions_pending(m.stage1->0);
    }
    if m.phase is Primary {
        let accepted = NormalizerModel { primary: m.primary.accepted(answer), ..m };
        lemma_chain_keeps_stages(accepted, answer);
        law_block_partitions_pending(m.primary.stage->Resample_0);
    }
    if m.phase is Secondary {
        let accepted = NormalizerModel {
            secondary: Some(m.secondary->0.accepted(answer)),
            ..m
        };
        lemma_chain_keeps_stages(accepted, answer);
        law_block_partitions_pending(m.secondary->0.stage->Resample_0);
    }
}

/// What a conversion answers goes to the end of its output, unchanged and in
/// order.
pub proof fn law_conversion_loses_nothing(m: NormalizerModel, answer: Seq<u32>)
    requires
        m.wf(),
        !m.flushing,
    ensures
        ({
            let after = m.advanced(Outcome::Samples(answer));
            &&& m.phase is Primary ==> after.primary.out == m.primary.out + answer
            &&& m.phase is Secondary ==> after.secondary->0.out == m.secondary->0.out + answer
        }),
{
    reveal(NormalizerModel::advanced);
    if m.phase is Primary {
        let accepted = NormalizerModel { primary: m.primary.accepted(answer), ..m };
        lemma_chain_keeps_stages(accepted, answer);
    }
    if m.phase is Secondary {
        let accepted = NormalizerModel {
            secondary: Some(m.secondary->0.accepted(answer)),
            ..m
        };
        lemma_chain_keeps_stages(accepted, answer);
    }
}

} // verus!
