//! What holds of every [`Intake`](crate::intake::Intake), whatever the order of
//! the events around it.

use vstd::prelude::*;

use crate::arith::later;
use crate::intake::{IntakeModel, IntakePhase, IntakeStepModel, Joint, Lane};
use crate::normalizer::{NormalizerModel, Outcome};
use crate::normalizer_laws::{
    flush_holds, is_aligned, lemma_advance_keeps_wf, lemma_flush_begins, lemma_push_is_no_flush,
    lemma_push_keeps_wf, lemma_step_aligns, lemma_step_keeps_failure,
};
use crate::sample::{law_limited_peak, law_silent_peak, limited, magnitude, UNITY};
use crate::shared::{SharedModel, NO_EPOCH};
use crate::tap::{law_discard_keeps_rest, TapModel};
use crate::types::{ChunkView, ErrorView};

verus! {

/// Something that happens to an intake or to what it shares.
#[verifier::ext_equal]
pub enum IntakeEvent {
    /// The owner or the watchdog has left the shared state so. The recording
    /// epoch is not theirs.
    Elsewhere(SharedModel),
    Built(Option<ErrorView>),
    Tick,
    Popped { samples: Seq<u32>, overflow: Option<u64>, pts_ns: i64, now_ns: i64 },
    Normalized { outcome: Outcome, now_ns: i64 },
    Scaled { product: Seq<u32> },
    Measured { rms: u32, now_ns: i64 },
}

impl Joint {
    /// Whether the event is one that the intake waits for.
    pub open spec fn expects(self, ev: IntakeEvent) -> bool {
        let phase = self.intake.phase;
        match ev {
            IntakeEvent::Elsewhere(_) => true,
            IntakeEvent::Built(_) => phase is Init || phase is Rebuild,
            IntakeEvent::Tick => phase is Idle,
            IntakeEvent::Popped { .. } => phase is Pop,
            IntakeEvent::Normalized { .. } => phase is Push || phase is Flush,
            IntakeEvent::Scaled { .. } => phase is ScalePrimary || phase is ScaleSecondary,
            IntakeEvent::Measured { .. } => phase is MeasurePrimary || phase is MeasureSecondary,
        }
    }

    /// The state after an event; one that is not expected does not happen.
    pub open spec fn after(self, ev: IntakeEvent) -> Self {
        if !self.expects(ev) {
            self
        } else {
            match ev {
                IntakeEvent::Elsewhere(m) => Joint {
                    shared: SharedModel { epoch: self.shared.epoch, ..m },
                    ..self
                },
                IntakeEvent::Built(failure) => self.built(failure),
                IntakeEvent::Tick => self.ticked(),
                IntakeEvent::Popped { samples, overflow, pts_ns, now_ns } => self.popped(
                    samples,
                    overflow,
                    pts_ns,
                    now_ns,
                ),
                IntakeEvent::Normalized { outcome, now_ns } => self.normalized(outcome, now_ns),
                IntakeEvent::Scaled { product } => Joint {
                    intake: self.intake.scaled(product),
                    ..self
                },
                IntakeEvent::Measured { rms, now_ns } => self.measured(rms, now_ns),
            }
        }
    }

    /// The state after a history of events.
    pub open spec fn trace(self, evs: Seq<IntakeEvent>) -> Self
        decreases evs.len(),
    {
        if evs.len() == 0 {
            self
        } else {
            self.trace(evs.drop_last()).after(evs.last())
        }
    }

    /// Whether the event delivers a primary chunk.
    pub open spec fn delivers_primary(self, ev: IntakeEvent) -> bool {
        ev is Measured && self.intake.phase is MeasurePrimary && !self.shared.paused
    }

    /// Whether the event delivers a secondary chunk.
    pub open spec fn delivers_secondary(self, ev: IntakeEvent) -> bool {
        ev is Measured && self.intake.phase is MeasureSecondary && !self.shared.paused
    }

    /// The primary chunks that a history delivers, in order.
    pub open spec fn primary_chunks(self, evs: Seq<IntakeEvent>) -> Seq<ChunkView>
        decreases evs.len(),
    {
        if evs.len() == 0 {
            Seq::empty()
        } else {
            let before = self.primary_chunks(evs.drop_last());
            let state = self.trace(evs.drop_last());
            if state.delivers_primary(evs.last()) {
                before.push(state.delivered_chunk(evs.last()->rms))
            } else {
                before
            }
        }
    }

    /// The secondary chunks that a history delivers, in order.
    pub open spec fn secondary_chunks(self, evs: Seq<IntakeEvent>) -> Seq<ChunkView>
        decreases evs.len(),
    {
        if evs.len() == 0 {
            Seq::empty()
        } else {
            let before = self.secondary_chunks(evs.drop_last());
            let state = self.trace(evs.drop_last());
            if state.delivers_secondary(evs.last()) {
                before.push(state.delivered_chunk(evs.last()->rms))
            } else {
                before
            }
        }
    }
}

/// The marks that an event hands to both outputs: a recovery, and a
/// discontinuity. A round takes the shared ones at its begin and with each
/// chunk that it delivers, and a new loss in front of the intake is a
/// discontinuity.
pub open spec fn marks_of(j: Joint, ev: IntakeEvent) -> (bool, bool) {
    if collects(j, ev) {
        (j.shared.recovered_pending, j.shared.discontinuity_pending)
    } else {
        match ev {
            IntakeEvent::Popped { overflow, .. } => (
                false,
                j.expects(ev) && (overflow matches Some(n) && n > j.intake.overflow),
            ),
            _ => (false, false),
        }
    }
}

/// Whether an event takes the shared marks.
pub open spec fn collects(j: Joint, ev: IntakeEvent) -> bool {
    &&& j.expects(ev)
    &&& match ev {
        IntakeEvent::Tick => j.shared.generation == j.intake.generation,
        IntakeEvent::Built(failure) => failure is None && j.intake.phase is Rebuild,
        IntakeEvent::Measured { .. } => !j.shared.paused && j.shared.generation
            == j.intake.generation,
        _ => false,
    }
}

/// Whether nothing of the lanes, of the marks, of the rings and of the recording
/// clock differs.
pub open spec fn is_quiet(a: Joint, b: Joint) -> bool {
    &&& b.intake.primary == a.intake.primary
    &&& b.intake.secondary == a.intake.secondary
    &&& b.intake.generation == a.intake.generation
    &&& b.intake.overflow == a.intake.overflow
    &&& b.shared.recovered_pending == a.shared.recovered_pending
    &&& b.shared.discontinuity_pending == a.shared.discontinuity_pending
    &&& b.shared.generation == a.shared.generation
    &&& b.shared.chunks == a.shared.chunks
    &&& b.shared.secondary == a.shared.secondary
    &&& b.shared.epoch == a.shared.epoch
}

/// A lane once the chunk in work has been delivered.
pub open spec fn lane_after(j: Joint, lane: Lane) -> Lane {
    lane.timed(j.shared.on_clock(j.intake.raw_pts_ns)).sent()
}

proof fn lemma_emission_is_quiet(j: Joint, now_ns: i64)
    ensures
        is_quiet(j, j.next_secondary(now_ns)),
        is_quiet(j, j.next_primary(now_ns)),
{
    reveal(Joint::next_secondary);
    reveal(Joint::next_primary);
}

proof fn lemma_intake_is_quiet(j: Joint, now_ns: i64)
    ensures
        is_quiet(j, j.flushing(now_ns)),
        is_quiet(j, j.taken_in(now_ns)),
        is_quiet(j, j.pushing(now_ns)),
{
    reveal(Joint::flushing);
    reveal(Joint::taken_in);
    reveal(Joint::pushing);
    lemma_emission_is_quiet(j, now_ns);
    let flushed = Joint {
        intake: IntakeModel { normalizer: j.intake.normalizer.flushed(), ..j.intake },
        ..j
    };
    lemma_emission_is_quiet(flushed, now_ns);
    let noted = Joint {
        intake: IntakeModel { produced: true, ..j.intake },
        shared: SharedModel { last_sample_ns: now_ns, ..j.shared },
    };
    lemma_emission_is_quiet(noted, now_ns);
    let noted_flushed = Joint {
        intake: IntakeModel { normalizer: noted.intake.normalizer.flushed(), ..noted.intake },
        ..noted
    };
    lemma_emission_is_quiet(noted_flushed, now_ns);
}

/// What an event does to the lanes, to the shared marks and to the rings.
#[verifier::rlimit(40)]
pub proof fn lemma_event_moves(j: Joint, ev: IntakeEvent)
    ensures
        ({
            let after = j.after(ev);
            let (recovered, discontinuity) = marks_of(j, ev);
            let primary = j.intake.primary.marked(recovered, discontinuity);
            let secondary = j.intake.secondary.marked(recovered, discontinuity);
            &&& after.intake.primary == (if j.delivers_primary(ev) {
                lane_after(j, primary)
            } else {
                primary
            })
            &&& after.intake.secondary == (if j.delivers_secondary(ev) {
                lane_after(j, secondary)
            } else {
                secondary
            })
            &&& after.shared.epoch == (if j.delivers_primary(ev) {
                j.shared.epoch_applied(j.intake.raw_pts_ns).epoch
            } else {
                j.shared.epoch
            })
            &&& !(ev is Elsewhere) ==> {
                &&& after.shared.generation == j.shared.generation
                &&& after.intake.generation == j.intake.generation || after.intake.generation
                    == j.shared.generation
                &&& collects(j, ev) ==> !after.shared.recovered_pending
                    && !after.shared.discontinuity_pending
                &&& !collects(j, ev) ==> after.shared.recovered_pending
                    == j.shared.recovered_pending && after.shared.discontinuity_pending
                    == j.shared.discontinuity_pending
                &&& after.shared.chunks == (if j.delivers_primary(ev) {
                    j.shared.chunks.pushed(j.delivered_chunk(ev->rms))
                } else {
                    j.shared.chunks
                })
                &&& after.shared.secondary == (if j.delivers_secondary(ev) {
                    Some(j.shared.secondary->0.pushed(j.delivered_chunk(ev->rms)))
                } else {
                    j.shared.secondary
                })
            }
        }),
{
    if j.expects(ev) {
        match ev {
            IntakeEvent::Popped { samples, overflow, pts_ns, now_ns } => {
                reveal(Joint::popped);
                let looked = Joint { intake: j.intake.overflowed(overflow), ..j };
                lemma_intake_is_quiet(looked, now_ns);
                let pushed = Joint {
                    intake: IntakeModel {
                        normalizer: looked.intake.normalizer.pushed(samples, pts_ns),
                        ..looked.intake
                    },
                    ..looked
                };
                lemma_intake_is_quiet(pushed, now_ns);
            },
            IntakeEvent::Normalized { outcome, now_ns } => {
                reveal(Joint::normalized);
                let advanced = Joint {
                    intake: IntakeModel {
                        normalizer: j.intake.normalizer.advanced(outcome),
                        ..j.intake
                    },
                    ..j
                };
                lemma_intake_is_quiet(advanced, now_ns);
            },
            IntakeEvent::Measured { rms, now_ns } => {
                reveal(Joint::measured);
                lemma_emission_is_quiet(j.cleared(rms), now_ns);
            },
            _ => {},
        }
    }
}

/// An event delivers at most one chunk of an output, which carries the number of
/// the output's lane, its marks, those of the event among them, and its device
/// time on the recording clock, or the time of the chunk before it where that is
/// later; the lane then counts on without marks. Every other event leaves number
/// and time alone and adds just its own marks.
pub proof fn law_event_moves_lanes(j: Joint, ev: IntakeEvent)
    ensures
        ({
            let (recovered, discontinuity) = marks_of(j, ev);
            let primary = j.intake.primary.marked(recovered, discontinuity);
            let secondary = j.intake.secondary.marked(recovered, discontinuity);
            let time = j.shared.on_clock(j.intake.raw_pts_ns);
            &&& j.delivers_primary(ev) ==> {
                &&& j.delivered_chunk(ev->rms).seq == j.intake.primary.seq
                &&& j.delivered_chunk(ev->rms).pts_ns == later(time, j.intake.primary.last_pts_ns)
                &&& j.delivered_chunk(ev->rms).flags == primary.flags()
                &&& j.after(ev).intake.primary == lane_after(j, primary)
            }
            &&& !j.delivers_primary(ev) ==> j.after(ev).intake.primary == primary
            &&& j.delivers_secondary(ev) ==> {
                &&& j.delivered_chunk(ev->rms).seq == j.intake.secondary.seq
                &&& j.delivered_chunk(ev->rms).pts_ns == later(
                    time,
                    j.intake.secondary.last_pts_ns,
                )
                &&& j.delivered_chunk(ev->rms).flags == secondary.flags()
                &&& j.after(ev).intake.secondary == lane_after(j, secondary)
            }
            &&& !j.delivers_secondary(ev) ==> j.after(ev).intake.secondary == secondary
        }),
{
    lemma_event_moves(j, ev);
}

/// Over any history, across pauses, recoveries and switches of the source, the
/// delivered primary chunks are numbered consecutively and their times never go
/// back; nor are they below zero.
pub proof fn law_primary_chunks_are_in_order(j: Joint, evs: Seq<IntakeEvent>)
    requires
        j.intake.primary.seq + evs.len() < u64::MAX,
        j.intake.primary.last_pts_ns >= 0,
    ensures
        forall|i: int|
            0 <= i < j.primary_chunks(evs).len() ==> (#[trigger] j.primary_chunks(evs)[i]).seq
                == j.intake.primary.seq + i,
        forall|i: int, k: int|
            0 <= i <= k < j.primary_chunks(evs).len() ==> (#[trigger] j.primary_chunks(
                evs,
            )[i]).pts_ns <= (#[trigger] j.primary_chunks(evs)[k]).pts_ns,
        forall|i: int|
            0 <= i < j.primary_chunks(evs).len() ==> (#[trigger] j.primary_chunks(evs)[i]).pts_ns
                >= 0,
        j.primary_chunks(evs).len() <= evs.len(),
        j.trace(evs).intake.primary.seq == j.intake.primary.seq + j.primary_chunks(evs).len(),
        j.trace(evs).intake.primary.last_pts_ns >= j.intake.primary.last_pts_ns,
        forall|i: int|
            0 <= i < j.primary_chunks(evs).len() ==> (#[trigger] j.primary_chunks(evs)[i]).pts_ns
                <= j.trace(evs).intake.primary.last_pts_ns,
    decreases evs.len(),
{
    if evs.len() > 0 {
        let front = evs.drop_last();
        law_primary_chunks_are_in_order(j, front);
        law_event_moves_lanes(j.trace(front), evs.last());
    }
}

/// The same of the secondary chunks, which have numbers of their own.
pub proof fn law_secondary_chunks_are_in_order(j: Joint, evs: Seq<IntakeEvent>)
    requires
        j.intake.secondary.seq + evs.len() < u64::MAX,
        j.intake.secondary.last_pts_ns >= 0,
    ensures
        forall|i: int|
            0 <= i < j.secondary_chunks(evs).len() ==> (#[trigger] j.secondary_chunks(evs)[i]).seq
                == j.intake.secondary.seq + i,
        forall|i: int, k: int|
            0 <= i <= k < j.secondary_chunks(evs).len() ==> (#[trigger] j.secondary_chunks(
                evs,
            )[i]).pts_ns <= (#[trigger] j.secondary_chunks(evs)[k]).pts_ns,
        forall|i: int|
            0 <= i < j.secondary_chunks(evs).len() ==> (#[trigger] j.secondary_chunks(
                evs,
            )[i]).pts_ns >= 0,
        j.secondary_chunks(evs).len() <= evs.len(),
        j.trace(evs).intake.secondary.seq == j.intake.secondary.seq + j.secondary_chunks(evs).len(),
        j.trace(evs).intake.secondary.last_pts_ns >= j.intake.secondary.last_pts_ns,
        forall|i: int|
            0 <= i < j.secondary_chunks(evs).len() ==> (#[trigger] j.secondary_chunks(
                evs,
            )[i]).pts_ns <= j.trace(evs).intake.secondary.last_pts_ns,
    decreases evs.len(),
{
    if evs.len() > 0 {
        let front = evs.drop_last();
        law_secondary_chunks_are_in_order(j, front);
        law_event_moves_lanes(j.trace(front), evs.last());
    }
}

/// A mark stays until a chunk carries it: once the primary lane is marked, the
/// next primary chunk shows it, however long that takes.
pub proof fn law_mark_reaches_next_chunk(j: Joint, evs: Seq<IntakeEvent>)
    ensures
        j.intake.primary.discontinuity && j.primary_chunks(evs).len() > 0 ==> j.primary_chunks(
            evs,
        )[0].flags.discontinuity,
        j.intake.primary.recovered && j.primary_chunks(evs).len() > 0 ==> j.primary_chunks(
            evs,
        )[0].flags.recovered,
        j.intake.secondary.discontinuity && j.secondary_chunks(evs).len() > 0
            ==> j.secondary_chunks(evs)[0].flags.discontinuity,
        j.intake.secondary.recovered && j.secondary_chunks(evs).len() > 0 ==> j.secondary_chunks(
            evs,
        )[0].flags.recovered,
        j.primary_chunks(evs).len() == 0 ==> {
            &&& j.intake.primary.discontinuity ==> j.trace(evs).intake.primary.discontinuity
            &&& j.intake.primary.recovered ==> j.trace(evs).intake.primary.recovered
        },
        j.secondary_chunks(evs).len() == 0 ==> {
            &&& j.intake.secondary.discontinuity ==> j.trace(evs).intake.secondary.discontinuity
            &&& j.intake.secondary.recovered ==> j.trace(evs).intake.secondary.recovered
        },
    decreases evs.len(),
{
    if evs.len() > 0 {
        let front = evs.drop_last();
        law_mark_reaches_next_chunk(j, front);
        law_event_moves_lanes(j.trace(front), evs.last());
    }
}

/// A chunk after a recovery is a discontinuity as well, in either output.
pub proof fn law_recovered_is_discontinuity(j: Joint, evs: Seq<IntakeEvent>)
    ensures
        forall|i: int|
            0 <= i < j.primary_chunks(evs).len() && (#[trigger] j.primary_chunks(
                evs,
            )[i]).flags.recovered ==> j.primary_chunks(evs)[i].flags.discontinuity,
        forall|i: int|
            0 <= i < j.secondary_chunks(evs).len() && (#[trigger] j.secondary_chunks(
                evs,
            )[i]).flags.recovered ==> j.secondary_chunks(evs)[i].flags.discontinuity,
    decreases evs.len(),
{
    if evs.len() > 0 {
        let front = evs.drop_last();
        let state = j.trace(front);
        law_recovered_is_discontinuity(j, front);
        law_event_moves_lanes(state, evs.last());
        assert forall|i: int|
            0 <= i < j.primary_chunks(evs).len() && (#[trigger] j.primary_chunks(
                evs,
            )[i]).flags.recovered implies j.primary_chunks(evs)[i].flags.discontinuity by {
            if i < j.primary_chunks(front).len() {
                assert(j.primary_chunks(evs)[i] == j.primary_chunks(front)[i]);
            }
        }
        assert forall|i: int|
            0 <= i < j.secondary_chunks(evs).len() && (#[trigger] j.secondary_chunks(
                evs,
            )[i]).flags.recovered implies j.secondary_chunks(evs)[i].flags.discontinuity by {
            if i < j.secondary_chunks(front).len() {
                assert(j.secondary_chunks(evs)[i] == j.secondary_chunks(front)[i]);
            }
        }
    }
}

/// Whether a chunk is in work.
pub open spec fn in_work(phase: IntakePhase) -> bool {
    ||| phase is ScalePrimary
    ||| phase is MeasurePrimary
    ||| phase is ScaleSecondary
    ||| phase is MeasureSecondary
}

/// Before the first primary chunk: the clock has not started, and no time has
/// passed.
spec fn clock_at_zero(j: Joint) -> bool {
    &&& j.intake.primary.last_pts_ns == 0
    &&& j.intake.secondary.last_pts_ns == 0
    &&& j.shared.epoch == NO_EPOCH
}

/// The recording starts with the primary output: the first primary chunk of
/// every history has the time zero, whatever secondary chunks came before it
/// and however long the stream was paused. Those secondary chunks stand at zero
/// as well.
pub proof fn law_first_primary_chunk_is_at_zero(j: Joint, evs: Seq<IntakeEvent>)
    requires
        j.intake.primary.last_pts_ns == 0,
        j.intake.secondary.last_pts_ns == 0,
        j.shared.epoch == NO_EPOCH,
    ensures
        j.primary_chunks(evs).len() > 0 ==> j.primary_chunks(evs)[0].pts_ns == 0,
        j.primary_chunks(evs).len() == 0 ==> forall|i: int|
            0 <= i < j.secondary_chunks(evs).len() ==> (#[trigger] j.secondary_chunks(
                evs,
            )[i]).pts_ns == 0,
{
    lemma_trace_keeps_clock_at_zero(j, evs);
}

proof fn lemma_trace_keeps_clock_at_zero(j: Joint, evs: Seq<IntakeEvent>)
    requires
        clock_at_zero(j),
    ensures
        j.primary_chunks(evs).len() == 0 ==> clock_at_zero(j.trace(evs)),
        j.primary_chunks(evs).len() > 0 ==> j.primary_chunks(evs)[0].pts_ns == 0,
        j.primary_chunks(evs).len() == 0 ==> forall|i: int|
            0 <= i < j.secondary_chunks(evs).len() ==> (#[trigger] j.secondary_chunks(
                evs,
            )[i]).pts_ns == 0,
    decreases evs.len(),
{
    if evs.len() > 0 {
        let front = evs.drop_last();
        let state = j.trace(front);
        lemma_trace_keeps_clock_at_zero(j, front);
        lemma_event_moves(state, evs.last());
        law_event_moves_lanes(state, evs.last());
        if j.primary_chunks(evs).len() == 0 {
            assert forall|i: int| 0 <= i < j.secondary_chunks(evs).len() implies (
            #[trigger] j.secondary_chunks(evs)[i]).pts_ns == 0 by {
                if i < j.secondary_chunks(front).len() {
                    assert(j.secondary_chunks(evs)[i] == j.secondary_chunks(front)[i]);
                }
            }
        }
    }
}

/// Once it has started, the recording clock is never set again: it runs on
/// across pauses, recoveries and switches of the source.
pub proof fn law_epoch_is_fixed(j: Joint, ev: IntakeEvent)
    requires
        j.shared.epoch != NO_EPOCH,
    ensures
        j.after(ev).shared.epoch == j.shared.epoch,
{
    lemma_event_moves(j, ev);
}

/// The shared marks reach both outputs with the next round, and only once.
pub proof fn law_round_takes_marks(j: Joint)
    requires
        j.shared.generation == j.intake.generation,
    ensures
        j.ticked().intake.primary == j.intake.primary.marked(
            j.shared.recovered_pending,
            j.shared.discontinuity_pending,
        ),
        j.ticked().intake.secondary == j.intake.secondary.marked(
            j.shared.recovered_pending,
            j.shared.discontinuity_pending,
        ),
        !j.ticked().shared.recovered_pending,
        !j.ticked().shared.discontinuity_pending,
{
}

/// A new generation waits for its normalizer before it takes the marks, so they
/// are on its own first chunks; numbers, times and the clock go on.
pub proof fn law_generation_goes_on(j: Joint)
    requires
        j.shared.generation != j.intake.generation,
    ensures
        j.ticked().intake.phase is Rebuild,
        j.ticked().intake.generation == j.shared.generation,
        j.ticked().shared == j.shared,
        j.ticked().intake.primary == j.intake.primary,
        j.ticked().intake.secondary == j.intake.secondary,
        j.ticked().built(None).intake.primary == j.intake.primary.marked(
            j.shared.recovered_pending,
            j.shared.discontinuity_pending,
        ),
        j.ticked().built(None).intake.secondary == j.intake.secondary.marked(
            j.shared.recovered_pending,
            j.shared.discontinuity_pending,
        ),
        j.ticked().built(None).shared.epoch == j.shared.epoch,
        j.ticked().built(None).intake.overflow == 0,
{
}

/// Whether an event, if it is one of the owner or the watchdog, withdraws no
/// mark and begins no generation.
pub open spec fn leaves_marks(j: Joint, ev: IntakeEvent) -> bool {
    ev matches IntakeEvent::Elsewhere(m) ==> {
        &&& j.shared.discontinuity_pending ==> m.discontinuity_pending
        &&& m.generation == j.shared.generation
    }
}

/// Whether all events of a history do.
pub open spec fn leave_marks(j: Joint, evs: Seq<IntakeEvent>) -> bool
    decreases evs.len(),
{
    evs.len() > 0 ==> leave_marks(j, evs.drop_last()) && leaves_marks(
        j.trace(evs.drop_last()),
        evs.last(),
    )
}

/// After a resume, at any moment of a round, the first chunk of each output that
/// is delivered is a discontinuity.
pub proof fn law_resume_marks_next_chunk(j: Joint, evs: Seq<IntakeEvent>)
    requires
        j.shared.paused,
        j.shared.generation == j.intake.generation,
        leave_marks(Joint { shared: j.shared.with_resume(), ..j }, evs),
    ensures
        ({
            let resumed = Joint { shared: j.shared.with_resume(), ..j };
            &&& resumed.primary_chunks(evs).len() > 0 ==> resumed.primary_chunks(
                evs,
            )[0].flags.discontinuity
            &&& resumed.secondary_chunks(evs).len() > 0 ==> resumed.secondary_chunks(
                evs,
            )[0].flags.discontinuity
        }),
{
    lemma_pending_mark_arrives(Joint { shared: j.shared.with_resume(), ..j }, evs);
}

/// A discontinuity that waits in the shared state is on the next chunk of each
/// output.
proof fn lemma_pending_mark_arrives(j: Joint, evs: Seq<IntakeEvent>)
    requires
        j.shared.generation == j.intake.generation,
        j.shared.discontinuity_pending,
        leave_marks(j, evs),
    ensures
        j.trace(evs).shared.generation == j.trace(evs).intake.generation,
        j.primary_chunks(evs).len() == 0 ==> j.trace(evs).shared.discontinuity_pending || j.trace(
            evs,
        ).intake.primary.discontinuity,
        j.secondary_chunks(evs).len() == 0 ==> j.trace(evs).shared.discontinuity_pending || j.trace(
            evs,
        ).intake.secondary.discontinuity,
        j.primary_chunks(evs).len() > 0 ==> j.primary_chunks(evs)[0].flags.discontinuity,
        j.secondary_chunks(evs).len() > 0 ==> j.secondary_chunks(evs)[0].flags.discontinuity,
    decreases evs.len(),
{
    if evs.len() > 0 {
        let front = evs.drop_last();
        lemma_pending_mark_arrives(j, front);
        lemma_event_moves(j.trace(front), evs.last());
        law_event_moves_lanes(j.trace(front), evs.last());
    }
}

/// The marks that a history has handed to the primary output since its last
/// chunk.
pub open spec fn primary_marks(j: Joint, evs: Seq<IntakeEvent>) -> (bool, bool)
    decreases evs.len(),
{
    if evs.len() == 0 {
        (j.intake.primary.recovered, j.intake.primary.discontinuity)
    } else {
        let state = j.trace(evs.drop_last());
        if state.delivers_primary(evs.last()) {
            (false, false)
        } else {
            let before = primary_marks(j, evs.drop_last());
            let new = marks_of(state, evs.last());
            (before.0 || new.0, before.1 || new.1)
        }
    }
}

/// The marks that a history has handed to the secondary output since its last
/// chunk.
pub open spec fn secondary_marks(j: Joint, evs: Seq<IntakeEvent>) -> (bool, bool)
    decreases evs.len(),
{
    if evs.len() == 0 {
        (j.intake.secondary.recovered, j.intake.secondary.discontinuity)
    } else {
        let state = j.trace(evs.drop_last());
        if state.delivers_secondary(evs.last()) {
            (false, false)
        } else {
            let before = secondary_marks(j, evs.drop_last());
            let new = marks_of(state, evs.last());
            (before.0 || new.0, before.1 || new.1)
        }
    }
}

/// A chunk shows exactly the marks handed to its output since the chunk before
/// it, those taken with the chunk itself among them: no mark is lost, none is
/// shown twice and none is made up.
pub proof fn law_flags_are_the_marks(j: Joint, evs: Seq<IntakeEvent>, ev: IntakeEvent)
    ensures
        ({
            let state = j.trace(evs);
            let new = marks_of(state, ev);
            &&& state.delivers_primary(ev) ==> {
                let flags = state.delivered_chunk(ev->rms).flags;
                let before = primary_marks(j, evs);
                &&& flags.recovered == (before.0 || new.0)
                &&& flags.discontinuity == (before.0 || new.0 || before.1 || new.1)
            }
            &&& state.delivers_secondary(ev) ==> {
                let flags = state.delivered_chunk(ev->rms).flags;
                let before = secondary_marks(j, evs);
                &&& flags.recovered == (before.0 || new.0)
                &&& flags.discontinuity == (before.0 || new.0 || before.1 || new.1)
            }
        }),
{
    lemma_lanes_hold_marks(j, evs);
    law_event_moves_lanes(j.trace(evs), ev);
}

proof fn lemma_lanes_hold_marks(j: Joint, evs: Seq<IntakeEvent>)
    ensures
        primary_marks(j, evs) == (
            j.trace(evs).intake.primary.recovered,
            j.trace(evs).intake.primary.discontinuity,
        ),
        secondary_marks(j, evs) == (
            j.trace(evs).intake.secondary.recovered,
            j.trace(evs).intake.secondary.discontinuity,
        ),
    decreases evs.len(),
{
    if evs.len() > 0 {
        lemma_lanes_hold_marks(j, evs.drop_last());
        law_event_moves_lanes(j.trace(evs.drop_last()), evs.last());
    }
}

/// After a new generation has begun, the marks that were set with it are on the
/// first chunk of each output: a recovery shows as a recovery, a switch of the
/// source as a discontinuity alone.
pub proof fn law_new_generation_marks_next_chunk(j: Joint, evs: Seq<IntakeEvent>)
    requires
        j.intake.phase is Idle,
        j.shared.generation != j.intake.generation,
    ensures
        ({
            let rebuilt = j.ticked().built(None);
            &&& rebuilt.primary_chunks(evs).len() > 0 ==> {
                let flags = rebuilt.primary_chunks(evs)[0].flags;
                &&& j.shared.recovered_pending ==> flags.recovered && flags.discontinuity
                &&& j.shared.discontinuity_pending ==> flags.discontinuity
            }
            &&& rebuilt.secondary_chunks(evs).len() > 0 ==> {
                let flags = rebuilt.secondary_chunks(evs)[0].flags;
                &&& j.shared.recovered_pending ==> flags.recovered && flags.discontinuity
                &&& j.shared.discontinuity_pending ==> flags.discontinuity
            }
            &&& !j.shared.recovered_pending ==> rebuilt.intake.primary.recovered
                == j.intake.primary.recovered && rebuilt.intake.secondary.recovered
                == j.intake.secondary.recovered
        }),
{
    let rebuilt = j.ticked().built(None);
    law_generation_goes_on(j);
    law_mark_reaches_next_chunk(rebuilt, evs);
    law_recovered_is_discontinuity(rebuilt, evs);
}

/// While the stream is paused nothing is delivered, at any moment of a round: no
/// event of the intake touches the rings, the numbers, the times or the clock.
pub proof fn law_pause_delivers_nothing(j: Joint, ev: IntakeEvent)
    requires
        j.shared.paused,
        !(ev is Elsewhere),
    ensures
        !j.delivers_primary(ev),
        !j.delivers_secondary(ev),
        j.after(ev).shared.chunks == j.shared.chunks,
        j.after(ev).shared.secondary == j.shared.secondary,
        j.after(ev).shared.epoch == j.shared.epoch,
        j.after(ev).intake.primary.seq == j.intake.primary.seq,
        j.after(ev).intake.primary.last_pts_ns == j.intake.primary.last_pts_ns,
        j.after(ev).intake.secondary.seq == j.intake.secondary.seq,
        j.after(ev).intake.secondary.last_pts_ns == j.intake.secondary.last_pts_ns,
{
    lemma_event_moves(j, ev);
}

/// Nothing piles up during a pause either: a round throws all finished chunks
/// away and is over, with less than a chunk of each output left.
pub proof fn law_pause_discards_chunks(j: Joint, now_ns: i64)
    requires
        j.shared.paused,
        j.intake.parts_wf(),
    ensures
        j.next_primary(now_ns).shared == j.shared,
        j.next_primary(now_ns).intake.primary == j.intake.primary,
        j.next_primary(now_ns).intake.secondary == j.intake.secondary,
        j.next_primary(now_ns).intake.phase == (if j.intake.stopping {
            IntakePhase::Over
        } else {
            IntakePhase::Idle
        }),
        !j.next_primary(now_ns).intake.normalizer.primary.has_chunk(),
        j.next_primary(now_ns).intake.normalizer.secondary matches Some(t) ==> !t.has_chunk(),
{
    reveal(Joint::next_primary);
    reveal(Joint::next_secondary);
    law_discard_keeps_rest(j.intake.normalizer.primary);
    lemma_discard_keeps_parts(j.intake.normalizer.primary);
    if let Some(t) = j.intake.normalizer.secondary {
        law_discard_keeps_rest(t);
        lemma_discard_keeps_parts(t);
    }
}

/// At a gain of one the samples are not touched: what is delivered is the chunk
/// as it came out of the normalizer.
pub proof fn law_unity_gain_keeps_samples(j: Joint, now_ns: i64)
    requires
        !j.shared.paused,
        j.shared.gain == UNITY,
    ensures
        j.intake.normalizer.primary.has_chunk() ==> {
            &&& j.next_primary(now_ns).intake.phase is MeasurePrimary
            &&& j.next_primary(now_ns).intake.data == j.intake.normalizer.primary.chunk()
        },
        (j.intake.normalizer.secondary matches Some(t) && t.has_chunk()) ==> {
            &&& j.next_secondary(now_ns).intake.phase is MeasureSecondary
            &&& j.next_secondary(now_ns).intake.data == j.intake.normalizer.secondary->0.chunk()
        },
{
    reveal(Joint::next_primary);
    reveal(Joint::next_secondary);
}

/// Any other gain is asked to be applied to every sample of the next chunk of
/// either output, as it is in force when that chunk is taken.
pub proof fn law_gain_takes_effect_with_the_next_chunk(j: Joint, now_ns: i64)
    requires
        !j.shared.paused,
        j.shared.gain != UNITY,
    ensures
        j.intake.normalizer.primary.has_chunk() ==> j.next_primary(now_ns).intake.step() == (
        IntakeStepModel::Scale {
            samples: j.intake.normalizer.primary.chunk(),
            gain: j.shared.gain,
        }),
        (j.intake.normalizer.secondary matches Some(t) && t.has_chunk()) ==> j.next_secondary(
            now_ns,
        ).intake.step() == (IntakeStepModel::Scale {
            samples: j.intake.normalizer.secondary->0.chunk(),
            gain: j.shared.gain,
        }),
{
    reveal(Joint::next_primary);
    reveal(Joint::next_secondary);
}

/// At any other gain the delivered samples lie between minus one and one, and a
/// silent product is delivered as it is, with a peak of zero.
pub proof fn law_scaled_chunk_is_limited(j: Joint, product: Seq<u32>, rms: u32)
    requires
        j.expects(IntakeEvent::Scaled { product }),
    ensures
        j.after(IntakeEvent::Scaled { product }).chunk(rms).data == product.map_values(
            |x: u32| limited(x),
        ),
        j.after(IntakeEvent::Scaled { product }).chunk(rms).peak <= UNITY,
        (forall|i: int| 0 <= i < product.len() ==> magnitude(#[trigger] product[i]) == 0) ==> j.after(
            IntakeEvent::Scaled { product },
        ).chunk(rms).peak == 0 && j.after(IntakeEvent::Scaled { product }).chunk(rms).data
            == product,
{
    law_limited_peak(product);
    if forall|i: int| 0 <= i < product.len() ==> magnitude(#[trigger] product[i]) == 0 {
        assert(product.map_values(|x: u32| limited(x)) =~= product);
        law_silent_peak(product);
    }
}

/// A new loss in front of the intake marks both outputs; an unchanged count
/// marks neither.
pub proof fn law_overflow_marks_both_outputs(m: IntakeModel, count: u64)
    ensures
        count > m.overflow ==> m.overflowed(Some(count)).primary.discontinuity && m.overflowed(
            Some(count),
        ).secondary.discontinuity,
        count <= m.overflow ==> m.overflowed(Some(count)).primary == m.primary && m.overflowed(
            Some(count),
        ).secondary == m.secondary,
        m.overflowed(Some(count)).overflow == count,
        m.overflowed(None) == m,
{
}

/// Whether an event is no cause for a mark: the owner and the watchdog set none,
/// and the count of lost samples has not grown.
pub open spec fn is_undisturbed(j: Joint, ev: IntakeEvent) -> bool {
    match ev {
        IntakeEvent::Elsewhere(m) => !m.recovered_pending && !m.discontinuity_pending,
        IntakeEvent::Popped { overflow, .. } => overflow matches Some(n) ==> n
            <= j.intake.overflow,
        _ => true,
    }
}

/// Whether no event of a history is one.
pub open spec fn are_undisturbed(j: Joint, evs: Seq<IntakeEvent>) -> bool
    decreases evs.len(),
{
    evs.len() > 0 ==> are_undisturbed(j, evs.drop_last()) && is_undisturbed(
        j.trace(evs.drop_last()),
        evs.last(),
    )
}

/// Whether no mark is about.
pub open spec fn is_unmarked(j: Joint) -> bool {
    &&& !j.shared.recovered_pending
    &&& !j.shared.discontinuity_pending
    &&& !j.intake.primary.recovered
    &&& !j.intake.primary.discontinuity
    &&& !j.intake.secondary.recovered
    &&& !j.intake.secondary.discontinuity
}

/// Without a recovery, a switch, a resume or a loss of samples no chunk is
/// marked.
pub proof fn law_no_mark_without_cause(j: Joint, evs: Seq<IntakeEvent>)
    requires
        is_unmarked(j),
        are_undisturbed(j, evs),
    ensures
        is_unmarked(j.trace(evs)),
        forall|i: int|
            0 <= i < j.primary_chunks(evs).len() ==> !(#[trigger] j.primary_chunks(
                evs,
            )[i]).flags.discontinuity && !j.primary_chunks(evs)[i].flags.recovered,
        forall|i: int|
            0 <= i < j.secondary_chunks(evs).len() ==> !(#[trigger] j.secondary_chunks(
                evs,
            )[i]).flags.discontinuity && !j.secondary_chunks(evs)[i].flags.recovered,
    decreases evs.len(),
{
    if evs.len() > 0 {
        let front = evs.drop_last();
        law_no_mark_without_cause(j, front);
        lemma_event_moves(j.trace(front), evs.last());
        law_event_moves_lanes(j.trace(front), evs.last());
        assert forall|i: int| 0 <= i < j.primary_chunks(evs).len() implies !(
        #[trigger] j.primary_chunks(evs)[i]).flags.discontinuity && !j.primary_chunks(
            evs,
        )[i].flags.recovered by {
            if i < j.primary_chunks(front).len() {
                assert(j.primary_chunks(evs)[i] == j.primary_chunks(front)[i]);
            }
        }
        assert forall|i: int| 0 <= i < j.secondary_chunks(evs).len() implies !(
        #[trigger] j.secondary_chunks(evs)[i]).flags.discontinuity && !j.secondary_chunks(
            evs,
        )[i].flags.recovered by {
            if i < j.secondary_chunks(front).len() {
                assert(j.secondary_chunks(evs)[i] == j.secondary_chunks(front)[i]);
            }
        }
    }
}

/// Whether nothing of an output is left.
pub open spec fn is_drained(j: Joint) -> bool {
    &&& j.intake.normalizer.primary.out.len() == 0
    &&& j.intake.normalizer.secondary matches Some(t) ==> t.out.len() == 0
}

/// How far the last round has come.
spec fn last_round_holds(j: Joint) -> bool {
    let n = j.intake.normalizer;
    &&& j.intake.stopping
    &&& n.wf()
    &&& match j.intake.phase {
        IntakePhase::Pop => n.phase is Idle,
        IntakePhase::Push => !n.flushing,
        IntakePhase::Flush => flush_holds(n),
        IntakePhase::Over => n.failure is None ==> is_drained(j),
        _ => {
            &&& in_work(j.intake.phase)
            &&& n.phase is Idle
            &&& is_aligned(n)
            &&& j.intake.phase is ScaleSecondary || j.intake.phase is MeasureSecondary
                ==> n.primary.out.len() == 0
        },
    }
}

/// Taking or throwing away whole chunks leaves whole chunks.
proof fn lemma_chunks_leave_chunks(t: TapModel)
    requires
        t.wf(),
        t.is_aligned(),
    ensures
        t.has_chunk() ==> t.popped().is_aligned() && t.popped().wf(),
        !t.has_chunk() ==> t.out.len() == 0,
        t.discarded().out.len() == 0,
        t.discarded().wf(),
{
    t.lemma_need_positive();
    let len = t.out.len() as int;
    if t.has_chunk() {
        vstd::arithmetic::div_mod::lemma_mod_sub_multiples_vanish(len, t.need());
        assert(t.popped().out.len() == len - t.need());
    } else {
        vstd::arithmetic::div_mod::lemma_small_mod(t.out.len(), t.need() as nat);
    }
    law_discard_keeps_rest(t);
    vstd::arithmetic::div_mod::lemma_fundamental_div_mod(len, t.need());
    assert(len / t.need() * t.need() == t.need() * (len / t.need())) by (nonlinear_arith);
    lemma_discard_keeps_parts(t);
}

proof fn lemma_discard_keeps_parts(t: TapModel)
    ensures
        t.discarded().format == t.format,
        t.discarded().chunk_ms == t.chunk_ms,
        t.discarded().stage == t.stage,
    decreases t.out.len(),
{
    if t.need() > 0 && t.has_chunk() {
        lemma_discard_keeps_parts(t.popped());
    }
}

proof fn lemma_emission_drains(j: Joint, now_ns: i64)
    requires
        j.intake.stopping,
        j.intake.normalizer.wf(),
        j.intake.normalizer.phase is Idle,
        is_aligned(j.intake.normalizer),
    ensures
        j.intake.normalizer.primary.out.len() == 0 ==> last_round_holds(j.next_secondary(now_ns)),
        last_round_holds(j.next_primary(now_ns)),
{
    reveal(Joint::next_secondary);
    reveal(Joint::next_primary);
    let n = j.intake.normalizer;
    n.primary.lemma_need_positive();
    lemma_chunks_leave_chunks(n.primary);
    if let Some(t) = n.secondary {
        t.lemma_need_positive();
        lemma_chunks_leave_chunks(t);
    }
}

proof fn lemma_flush_drains(j: Joint, now_ns: i64)
    requires
        j.intake.stopping,
        flush_holds(j.intake.normalizer),
    ensures
        last_round_holds(j.flushing(now_ns)),
{
    reveal(Joint::flushing);
    if j.intake.normalizer.phase is Idle {
        lemma_emission_drains(j, now_ns);
    }
}

proof fn lemma_push_drains(j: Joint, now_ns: i64)
    requires
        j.intake.stopping,
        j.intake.normalizer.wf(),
    ensures
        j.intake.normalizer.phase is Idle ==> last_round_holds(j.taken_in(now_ns)),
        !j.intake.normalizer.flushing ==> last_round_holds(j.pushing(now_ns)),
{
    reveal(Joint::taken_in);
    reveal(Joint::pushing);
    lemma_flush_begins(j.intake.normalizer);
    lemma_flush_drains(
        Joint {
            intake: IntakeModel { normalizer: j.intake.normalizer.flushed(), ..j.intake },
            ..j
        },
        now_ns,
    );
    let noted = Joint {
        intake: IntakeModel { produced: true, ..j.intake },
        shared: SharedModel { last_sample_ns: now_ns, ..j.shared },
    };
    lemma_flush_drains(
        Joint {
            intake: IntakeModel { normalizer: noted.intake.normalizer.flushed(), ..noted.intake },
            ..noted
        },
        now_ns,
    );
}

proof fn lemma_event_drains(j: Joint, ev: IntakeEvent)
    requires
        last_round_holds(j),
    ensures
        last_round_holds(j.after(ev)),
{
    if j.expects(ev) {
        match ev {
            IntakeEvent::Popped { samples, overflow, pts_ns, now_ns } => {
                reveal(Joint::popped);
                let looked = Joint { intake: j.intake.overflowed(overflow), ..j };
                lemma_push_drains(looked, now_ns);
                let before = looked.intake.normalizer;
                lemma_push_keeps_wf(before, samples, pts_ns);
                lemma_push_is_no_flush(before, samples, pts_ns);
                let pushed = Joint {
                    intake: IntakeModel {
                        normalizer: before.pushed(samples, pts_ns),
                        ..looked.intake
                    },
                    ..looked
                };
                lemma_push_drains(pushed, now_ns);
            },
            IntakeEvent::Normalized { outcome, now_ns } => {
                reveal(Joint::normalized);
                let n = j.intake.normalizer;
                let advanced = Joint {
                    intake: IntakeModel { normalizer: n.advanced(outcome), ..j.intake },
                    ..j
                };
                if j.intake.phase is Push {
                    lemma_advance_keeps_wf(n, outcome);
                    lemma_step_keeps_failure(n, outcome);
                    lemma_push_drains(advanced, now_ns);
                } else {
                    if n.phase is Idle {
                        reveal(NormalizerModel::advanced);
                    } else {
                        lemma_step_aligns(n, outcome);
                    }
                    lemma_flush_drains(advanced, now_ns);
                }
            },
            IntakeEvent::Measured { rms, now_ns } => {
                reveal(Joint::measured);
                lemma_emission_drains(j.cleared(rms), now_ns);
            },
            _ => {},
        }
    }
}

proof fn lemma_trace_drains(j: Joint, evs: Seq<IntakeEvent>)
    requires
        last_round_holds(j),
    ensures
        last_round_holds(j.trace(evs)),
    decreases evs.len(),
{
    if evs.len() > 0 {
        lemma_trace_drains(j, evs.drop_last());
        lemma_event_drains(j.trace(evs.drop_last()), evs.last());
    }
}

/// A stopped stream loses no tail: the last round is followed by none, and once
/// it has ended without a failure nothing of either output is left behind.
pub proof fn law_last_round_drains(j: Joint, evs: Seq<IntakeEvent>)
    requires
        j.intake.wf(),
        j.intake.phase is Pop,
        j.intake.stopping,
    ensures
        !(j.trace(evs).intake.phase is Idle),
        j.trace(evs).intake.phase is Over && j.trace(evs).intake.normalizer.failure is None
            ==> is_drained(j.trace(evs)),
{
    lemma_trace_drains(j, evs);
}

/// After its end an intake does nothing any more.
pub proof fn law_over_is_over(j: Joint, evs: Seq<IntakeEvent>)
    requires
        j.intake.phase is Over,
    ensures
        j.trace(evs).intake == j.intake,
        j.primary_chunks(evs).len() == 0,
        j.secondary_chunks(evs).len() == 0,
    decreases evs.len(),
{
    if evs.len() > 0 {
        law_over_is_over(j, evs.drop_last());
    }
}

} // verus!
