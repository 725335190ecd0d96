//! That everything comes to an end: no operation of the normalizer and no round
//! of the intake can go on for ever, whatever the answers are.

use vstd::prelude::*;

use crate::arith::saturate_count;
use crate::intake::{IntakeModel, IntakePhase, Joint};
use crate::intake_laws::IntakeEvent;
use crate::normalizer::{NormalizerModel, Outcome, Phase};
use crate::normalizer_laws::{lemma_advance_keeps_wf, lemma_flush_begins, lemma_push_keeps_wf};
use crate::shared::SharedModel;

verus! {

/// How far a phase is from the end of an operation.
pub open spec fn phase_rank(phase: Phase) -> int {
    match phase {
        Phase::Idle => 0,
        Phase::SecondaryRest => 1,
        Phase::PrimaryRest => 2,
        Phase::Secondary => 3,
        Phase::Primary => 4,
        Phase::Average => 5,
        Phase::Process => 6,
        Phase::Inner => 7,
        Phase::Tail => 8,
    }
}

/// Samples that wait in front of the conversion at work.
pub open spec fn work_waiting(m: NormalizerModel) -> int {
    match m.phase {
        Phase::Inner => m.stage1->0.pending.len() as int,
        Phase::Primary => m.primary.stage->Resample_0.pending.len() as int,
        Phase::Secondary => m.secondary->0.stage->Resample_0.pending.len() as int,
        _ => 0,
    }
}

/// Whether `b` is nearer to the end of the operation than `a`.
pub open spec fn operation_is_nearer(a: NormalizerModel, b: NormalizerModel) -> bool {
    ||| phase_rank(b.phase) < phase_rank(a.phase)
    ||| phase_rank(b.phase) == phase_rank(a.phase) && 0 <= work_waiting(b) < work_waiting(a)
}

proof fn lemma_ending_rank(m: NormalizerModel)
    ensures
        phase_rank(m.rest_secondary().phase) <= 1,
        phase_rank(m.rest_primary().phase) <= 2,
        phase_rank(m.taps_fed().phase) <= 2,
{
    reveal(NormalizerModel::rest_secondary);
    reveal(NormalizerModel::rest_primary);
    reveal(NormalizerModel::taps_fed);
}

proof fn lemma_feeding_rank(m: NormalizerModel, averages: Seq<u32>)
    ensures
        phase_rank(m.drain_secondary().phase) <= 3,
        m.drain_secondary().phase is Secondary ==> m.drain_secondary().secondary == m.secondary,
        phase_rank(m.drain_primary().phase) <= 4,
        m.drain_primary().phase is Primary ==> m.drain_primary().primary == m.primary,
        phase_rank(m.fed(averages).phase) <= 4,
{
    reveal(NormalizerModel::drain_secondary);
    reveal(NormalizerModel::drain_primary);
    reveal(NormalizerModel::fed);
    lemma_ending_rank(m);
    let fed = NormalizerModel {
        primary: m.primary.fed(m.inner, averages),
        secondary: match m.secondary {
            None => None,
            Some(t) => Some(t.fed(m.inner, averages)),
        },
        inner: Seq::empty(),
        ..m
    };
    lemma_ending_rank(fed);
}

proof fn lemma_inner_rank(m: NormalizerModel)
    ensures
        phase_rank(m.distributed().phase) <= 5,
        phase_rank(m.inner_complete().phase) <= 6,
        phase_rank(m.drain_inner().phase) <= 7,
        m.drain_inner().phase is Inner ==> m.drain_inner().stage1 == m.stage1,
{
    reveal(NormalizerModel::distributed);
    reveal(NormalizerModel::inner_complete);
    reveal(NormalizerModel::drain_inner);
    lemma_ending_rank(m);
    lemma_feeding_rank(m, Seq::empty());
    let counted = NormalizerModel { total: saturate_count(m.total + m.produced), ..m };
    lemma_ending_rank(counted);
    lemma_feeding_rank(counted, Seq::empty());
    assert(phase_rank(counted.inner_complete().phase) <= 6);
}

/// Every answer, a failure as well, brings an operation nearer to its end: it
/// reaches a later phase, or the conversion at work has less in front of it. So
/// every operation ends.
pub proof fn law_answers_make_progress(m: NormalizerModel, outcome: Outcome)
    requires
        m.wf(),
        !(m.phase is Idle),
        outcome is Failed ==> m.resampling(),
    ensures
        operation_is_nearer(m, m.advanced(outcome)),
{
    reveal(NormalizerModel::advanced);
    match outcome {
        Outcome::Samples(s) => match m.phase {
            Phase::Idle => {},
            Phase::Inner => {
                m.stage1->0.plan.lemma_step_positive();
                lemma_inner_rank(
                    NormalizerModel {
                        inner: m.inner + s,
                        produced: saturate_count(m.produced + s.len() as int / 2),
                        stage1: Some(m.stage1->0.consumed()),
                        ..m
                    },
                );
            },
            Phase::Process => {
                lemma_inner_rank(NormalizerModel { inner: s, ..m });
            },
            Phase::Average => {
                lemma_feeding_rank(m, s);
            },
            Phase::Primary => {
                m.primary.stage->Resample_0.plan.lemma_step_positive();
                lemma_feeding_rank(NormalizerModel { primary: m.primary.accepted(s), ..m }, s);
            },
            Phase::Secondary => {
                m.secondary->0.stage->Resample_0.plan.lemma_step_positive();
                lemma_feeding_rank(
                    NormalizerModel { secondary: Some(m.secondary->0.accepted(s)), ..m },
                    s,
                );
            },
            Phase::Tail => {
                lemma_ending_rank(m);
                lemma_inner_rank(NormalizerModel { inner: s, ..m });
            },
            Phase::PrimaryRest => {
                lemma_ending_rank(
                    NormalizerModel { primary: m.primary.finished(s).aligned(), ..m },
                );
            },
            Phase::SecondaryRest => {},
        },
        Outcome::Failed(message) => {
            let failed = m.failed(message);
            lemma_feeding_rank(failed, Seq::empty());
            lemma_ending_rank(failed);
            lemma_ending_rank(NormalizerModel { primary: m.primary.aligned(), ..m });
        },
    }
}

/// How far a phase is from the end of a round.
pub open spec fn round_rank(phase: IntakePhase) -> int {
    match phase {
        IntakePhase::Idle => 0,
        IntakePhase::Over => 0,
        IntakePhase::MeasureSecondary => 1,
        IntakePhase::ScaleSecondary => 1,
        IntakePhase::MeasurePrimary => 2,
        IntakePhase::ScalePrimary => 2,
        IntakePhase::Flush => 3,
        IntakePhase::Push => 4,
        IntakePhase::Pop => 5,
        IntakePhase::Rebuild => 6,
        IntakePhase::Init => 6,
    }
}

/// Output that is still to be delivered by the phase.
pub open spec fn output_waiting(m: IntakeModel) -> int {
    match m.phase {
        IntakePhase::MeasurePrimary => m.normalizer.primary.out.len() as int,
        IntakePhase::ScalePrimary => m.normalizer.primary.out.len() as int,
        IntakePhase::MeasureSecondary => m.normalizer.secondary->0.out.len() as int,
        IntakePhase::ScaleSecondary => m.normalizer.secondary->0.out.len() as int,
        _ => 0,
    }
}

/// Whether a chunk has still to be multiplied.
pub open spec fn is_scaling(phase: IntakePhase) -> bool {
    phase is ScalePrimary || phase is ScaleSecondary
}

/// Whether `b` is nearer to the end of the round than `a`.
pub open spec fn round_is_nearer(a: IntakeModel, b: IntakeModel) -> bool {
    ||| round_rank(b.phase) < round_rank(a.phase)
    ||| {
        &&& round_rank(b.phase) == round_rank(a.phase)
        &&& (a.phase is Push || a.phase is Flush)
        &&& operation_is_nearer(a.normalizer, b.normalizer)
    }
    ||| round_rank(b.phase) == round_rank(a.phase) && 0 <= output_waiting(b) < output_waiting(a)
    ||| {
        &&& round_rank(b.phase) == round_rank(a.phase)
        &&& output_waiting(b) == output_waiting(a)
        &&& is_scaling(a.phase)
        &&& !is_scaling(b.phase)
    }
}

proof fn lemma_emission_rank(j: Joint, now_ns: i64)
    requires
        j.intake.normalizer.wf(),
    ensures
        round_rank(j.next_secondary(now_ns).intake.phase) <= 1,
        round_rank(j.next_secondary(now_ns).intake.phase) == 1 ==> 0 <= output_waiting(
            j.next_secondary(now_ns).intake,
        ) < j.intake.normalizer.secondary->0.out.len(),
        round_rank(j.next_primary(now_ns).intake.phase) <= 2,
        round_rank(j.next_primary(now_ns).intake.phase) == 2 ==> 0 <= output_waiting(
            j.next_primary(now_ns).intake,
        ) < j.intake.normalizer.primary.out.len(),
{
    reveal(Joint::next_secondary);
    reveal(Joint::next_primary);
    j.intake.normalizer.primary.lemma_need_positive();
    if let Some(t) = j.intake.normalizer.secondary {
        t.lemma_need_positive();
    }
}

proof fn lemma_intake_rank(j: Joint, now_ns: i64)
    requires
        j.intake.normalizer.wf(),
    ensures
        round_rank(j.flushing(now_ns).intake.phase) <= 3,
        j.flushing(now_ns).intake.phase is Flush ==> j.flushing(now_ns).intake.normalizer
            == j.intake.normalizer,
        round_rank(j.taken_in(now_ns).intake.phase) <= 3,
        round_rank(j.pushing(now_ns).intake.phase) <= 4,
        j.pushing(now_ns).intake.phase is Push ==> j.pushing(now_ns).intake.normalizer
            == j.intake.normalizer,
{
    reveal(Joint::flushing);
    reveal(Joint::taken_in);
    reveal(Joint::pushing);
    let n = j.intake.normalizer;
    lemma_flush_begins(n);
    lemma_emission_rank(j, now_ns);
    let flushed = Joint { intake: IntakeModel { normalizer: n.flushed(), ..j.intake }, ..j };
    lemma_emission_rank(flushed, now_ns);
    let noted = Joint {
        intake: IntakeModel { produced: true, ..j.intake },
        shared: SharedModel { last_sample_ns: now_ns, ..j.shared },
    };
    lemma_emission_rank(noted, now_ns);
    let noted_flushed = Joint {
        intake: IntakeModel { normalizer: n.flushed(), ..noted.intake },
        ..noted
    };
    lemma_emission_rank(noted_flushed, now_ns);
}

/// Every event that a running round waits for brings the round nearer to its
/// end: to a later phase, to less in front of a conversion, or to less output to
/// deliver. So every round ends.
pub proof fn law_events_make_progress(j: Joint, ev: IntakeEvent)
    requires
        j.intake.wf(),
        j.expects(ev),
        !(ev is Elsewhere),
        !(ev is Tick),
        ev matches IntakeEvent::Normalized { outcome, .. } ==> (outcome is Failed
            ==> j.intake.normalizer.resampling()),
    ensures
        round_is_nearer(j.intake, j.after(ev).intake),
{
    match ev {
        IntakeEvent::Elsewhere(_) => {},
        IntakeEvent::Built(failure) => {},
        IntakeEvent::Tick => {},
        IntakeEvent::Popped { samples, overflow, pts_ns, now_ns } => {
            reveal(Joint::popped);
            let looked = Joint { intake: j.intake.overflowed(overflow), ..j };
            lemma_intake_rank(looked, now_ns);
            lemma_push_keeps_wf(looked.intake.normalizer, samples, pts_ns);
            let pushed = Joint {
                intake: IntakeModel {
                    normalizer: looked.intake.normalizer.pushed(samples, pts_ns),
                    ..looked.intake
                },
                ..looked
            };
            lemma_intake_rank(pushed, now_ns);
        },
        IntakeEvent::Normalized { outcome, now_ns } => {
            reveal(Joint::normalized);
            let n = j.intake.normalizer;
            lemma_advance_keeps_wf(n, outcome);
            law_answers_make_progress(n, outcome);
            let advanced = Joint {
                intake: IntakeModel { normalizer: n.advanced(outcome), ..j.intake },
                ..j
            };
            lemma_intake_rank(advanced, now_ns);
        },
        IntakeEvent::Scaled { product } => {},
        IntakeEvent::Measured { rms, now_ns } => {
            reveal(Joint::measured);
            lemma_emission_rank(j.cleared(rms), now_ns);
        },
    }
}

} // verus!
