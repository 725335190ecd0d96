//! What each event of a round does with the samples, the source and the shared
//! state, in plain terms.

use vstd::prelude::*;

use crate::arith::saturate_count;
use crate::format_laws::{is_new_for, is_new_output};
use crate::intake::{IntakeModel, IntakeStepModel, Joint, Lane};
use crate::intake_laws::{lemma_event_moves, IntakeEvent};
use crate::normalizer::{NormalizerModel, Outcome};
use crate::normalizer_laws::{lemma_advance_keeps_wf, lemma_flush_begins, lemma_push_keeps_wf};
use crate::sample::limited;
use crate::shared::{RingModel, SharedModel};
use crate::stream::IntakeSetup;
use crate::tap::{channels_of, law_discard_keeps_rest, TapModel};
use crate::types::{ChunkView, ErrorView, EventView, OutputFormat};

verus! {

/// Whether a normalizer is new for a source and makes chunks of 20 ms of the
/// outputs, with a processor where noise suppression is wanted.
pub open spec fn is_new_source(
    n: NormalizerModel,
    native: (u32, u16),
    output: OutputFormat,
    secondary_output: Option<OutputFormat>,
    denoise: bool,
) -> bool {
    &&& is_new_for(n, native.0, native.1)
    &&& is_new_output(n.primary, output, 20)
    &&& n.secondary is Some <==> secondary_output is Some
    &&& secondary_output matches Some(f) ==> is_new_output(n.secondary->0, f, 20)
    &&& n.processor == denoise
}

/// A new intake works on the source that it was set up for, has numbered no
/// chunk, has no marks, has lost nothing and first asks for its conversions.
pub proof fn law_new_intake_works_on_its_source(setup: IntakeSetup, shared: SharedModel)
    ensures
        ({
            let m = IntakeModel::fresh(setup, shared);
            &&& is_new_source(
                m.normalizer,
                setup.native_format,
                setup.output,
                setup.secondary_output,
                shared.denoise,
            )
            &&& m.output == setup.output
            &&& m.secondary_output == setup.secondary_output
            &&& m.generation == shared.generation
            &&& m.overflow == 0
            &&& m.primary.seq == 0 && m.secondary.seq == 0
            &&& m.primary.last_pts_ns == 0 && m.secondary.last_pts_ns == 0
            &&& !m.primary.recovered && !m.primary.discontinuity
            &&& !m.secondary.recovered && !m.secondary.discontinuity
            &&& !m.stopping
            &&& m.step() is Build
        }),
{
}

/// A round that finds a new generation goes on with a normalizer that is new for
/// the native format of the source now in charge, for the outputs as they were,
/// and with noise suppression as it is wanted now. A round of the same
/// generation keeps its normalizer with all that waits in it. Either way the
/// round is the last one exactly where all threads are to end.
pub proof fn law_new_generation_works_on_the_new_source(j: Joint)
    ensures
        ({
            let after = j.ticked();
            &&& after.intake.stopping == j.shared.stopping
            &&& after.intake.generation == j.shared.generation
            &&& after.intake.output == j.intake.output
            &&& after.intake.secondary_output == j.intake.secondary_output
            &&& j.shared.generation != j.intake.generation ==> {
                &&& is_new_source(
                    after.intake.normalizer,
                    j.shared.native,
                    j.intake.output,
                    j.intake.secondary_output,
                    j.shared.denoise,
                )
                &&& after.intake.step() is Build
                &&& after.shared == j.shared
            }
            &&& j.shared.generation == j.intake.generation ==> {
                &&& after.intake.normalizer == j.intake.normalizer
                &&& after.intake.step() is Pop
                &&& after.intake.overflow == j.intake.overflow
                &&& !after.intake.produced
                &&& !after.intake.emitted
            }
        }),
{
}

/// Whether the intake has ended with an error of this text, and nothing else of
/// the shared state has changed.
pub open spec fn has_died(j: Joint, after: Joint, text: Seq<char>) -> bool {
    &&& after.intake.step() is Exit
    &&& after.shared == (SharedModel {
        events: j.shared.events.push(EventView::Error(text)),
        ..j.shared
    })
}

/// Where the conversions cannot be built the intake ends and says why. Else the
/// first round can begin, or the round of the new generation goes on, which
/// counts losses from zero.
pub proof fn law_building_begins_or_ends(j: Joint, failure: Option<ErrorView>)
    requires
        j.intake.phase is Init || j.intake.phase is Rebuild,
    ensures
        failure matches Some(e) ==> has_died(
            j,
            j.built(failure),
            (if j.intake.phase is Init {
                "normalizer init failed: "@
            } else {
                "normalizer rebuild failed after source change: "@
            }) + e.text(),
        ),
        failure is None ==> j.built(failure).intake.normalizer == j.intake.normalizer,
        failure is None && j.intake.phase is Init ==> {
            &&& j.built(failure).intake.phase is Idle
            &&& j.built(failure).intake.generation == j.shared.generation
            &&& j.built(failure).shared == j.shared
        },
        failure is None && j.intake.phase is Rebuild ==> {
            &&& j.built(failure).intake.step() is Pop
            &&& j.built(failure).intake.generation == j.intake.generation
            &&& j.built(failure).intake.overflow == 0
            &&& j.built(failure).intake.stopping == j.intake.stopping
        },
{
}

/// Whether a chunk has been taken off the front of an output: it has the samples
/// of one chunk, and what is left follows it.
pub open spec fn is_cut_off(before: TapModel, after: TapModel, chunk: Seq<u32>) -> bool {
    &&& chunk.len() == before.chunk_frames() * channels_of(before.format)
    &&& chunk + after.out == before.out
    &&& after.stage == before.stage
    &&& after.anchor == before.anchor
    &&& after.format == before.format
    &&& after.chunk_ms == before.chunk_ms
    &&& after.origin == saturate_count(before.origin + before.chunk_frames())
}

/// Whether an output has been freed of all whole chunks, or had none.
pub open spec fn is_thrown_away(before: TapModel, after: TapModel) -> bool {
    let need = before.chunk_frames() * channels_of(before.format);
    &&& after.out == before.out.skip(before.out.len() as int / need * need)
    &&& after.stage == before.stage
    &&& after.anchor == before.anchor
    &&& after.origin == saturate_count(
        before.origin + before.out.len() as int / need * before.chunk_frames(),
    )
}

/// Whether a chunk of an output is waiting.
pub open spec fn has_whole_chunk(t: TapModel) -> bool {
    t.out.len() >= t.chunk_frames() * channels_of(t.format)
}

/// Whether the chunk in work is what has been cut off `tap`, with its device time
/// and the gain in force, which has to be applied unless it is one.
pub open spec fn is_in_work(
    j: Joint,
    after: Joint,
    tap: TapModel,
    left: TapModel,
    now_ns: i64,
) -> bool {
    &&& is_cut_off(tap, left, after.intake.data)
    &&& after.intake.raw_pts_ns == tap.pts_at(tap.origin, now_ns)
    &&& after.intake.step() == (if j.shared.gain == 0x3f80_0000 {
        IntakeStepModel::Measure { samples: after.intake.data }
    } else {
        IntakeStepModel::Scale { samples: after.intake.data, gain: j.shared.gain }
    })
}

/// Whether the round goes on with the next chunk of the secondary output, or is
/// over where there is none; where the stream is paused there is none.
pub open spec fn goes_on_with_secondary(j: Joint, after: Joint, now_ns: i64) -> bool {
    let n = j.intake.normalizer;
    &&& after.shared == j.shared
    &&& after.intake.primary == j.intake.primary
    &&& after.intake.secondary == j.intake.secondary
    &&& after.intake.normalizer.stage1 == n.stage1
    &&& after.intake.normalizer.secondary is Some <==> n.secondary is Some
    &&& if !j.shared.paused && (n.secondary matches Some(t) && has_whole_chunk(t)) {
        &&& after.intake.phase is ScaleSecondary || after.intake.phase is MeasureSecondary
        &&& is_in_work(j, after, n.secondary->0, after.intake.normalizer.secondary->0, now_ns)
    } else {
        &&& after.intake.step() is Exit <==> j.intake.stopping
        &&& !j.intake.stopping ==> after.intake.phase is Idle
        &&& n.secondary matches Some(t) ==> if j.shared.paused {
            is_thrown_away(t, after.intake.normalizer.secondary->0)
        } else {
            after.intake.normalizer.secondary == n.secondary
        }
    }
}

/// Whether the round goes on with the next chunk of the primary output, or with
/// the secondary output where there is none; where the stream is paused there is
/// none.
pub open spec fn goes_on_with_primary(j: Joint, after: Joint, now_ns: i64) -> bool {
    let n = j.intake.normalizer;
    if !j.shared.paused && has_whole_chunk(n.primary) {
        &&& after.shared == j.shared
        &&& after.intake.primary == j.intake.primary
        &&& after.intake.secondary == j.intake.secondary
        &&& after.intake.phase is ScalePrimary || after.intake.phase is MeasurePrimary
        &&& is_in_work(j, after, n.primary, after.intake.normalizer.primary, now_ns)
        &&& after.intake.normalizer.secondary == n.secondary
        &&& after.intake.normalizer.stage1 == n.stage1
    } else {
        &&& goes_on_with_secondary(j, after, now_ns)
        &&& if j.shared.paused {
            is_thrown_away(n.primary, after.intake.normalizer.primary)
        } else {
            after.intake.normalizer.primary == n.primary
        }
    }
}

proof fn lemma_tap_is_cut(t: TapModel)
    requires
        t.wf(),
    ensures
        t.has_chunk() <==> has_whole_chunk(t),
        t.has_chunk() ==> is_cut_off(t, t.popped(), t.chunk()),
        is_thrown_away(t, t.discarded()),
        !t.has_chunk() ==> is_thrown_away(t, t),
{
    t.lemma_need_positive();
    assert(t.has_chunk() ==> t.chunk() + t.popped().out =~= t.out);
    law_discard_keeps_rest(t);
    lemma_discard_keeps_base(t);
    if !t.has_chunk() {
        assert(t.out.len() as int / t.need() == 0) by (nonlinear_arith)
            requires
                0 <= t.out.len() < t.need(),
        ;
        assert(t.out.skip(0) =~= t.out);
        assert(0 * t.need() == 0 && 0 * t.chunk_frames() == 0);
    }
}

proof fn lemma_discard_keeps_base(t: TapModel)
    ensures
        t.discarded().stage == t.stage,
        t.discarded().anchor == t.anchor,
    decreases t.out.len(),
{
    if t.need() > 0 && t.has_chunk() {
        lemma_discard_keeps_base(t.popped());
    }
}

/// Chunks are taken one by one off the front of the outputs, the primary ones
/// first; each has its own device time and the gain in force when it is taken.
/// While the stream is paused whole chunks are thrown away and only these.
pub proof fn law_chunks_are_taken_in_turn(j: Joint, now_ns: i64)
    requires
        j.intake.normalizer.wf(),
    ensures
        goes_on_with_primary(j, j.next_primary(now_ns), now_ns),
        goes_on_with_secondary(j, j.next_secondary(now_ns), now_ns),
        j.next_secondary(now_ns).intake.normalizer.primary == j.intake.normalizer.primary,
{
    reveal(Joint::next_primary);
    reveal(Joint::next_secondary);
    lemma_tap_is_cut(j.intake.normalizer.primary);
    if let Some(t) = j.intake.normalizer.secondary {
        lemma_tap_is_cut(t);
    }
}

/// The state once the samples of a round are in the normalizer `n`, at `now_ns`.
pub open spec fn with_samples(j: Joint, n: NormalizerModel, now_ns: i64) -> Joint {
    Joint {
        intake: IntakeModel { normalizer: n, produced: true, ..j.intake },
        shared: SharedModel { last_sample_ns: now_ns, ..j.shared },
    }
}

/// Whether a round whose samples are in goes on as it should: the last one with
/// a flush, every other one with its chunks.
pub open spec fn goes_on_after_intake(j: Joint, after: Joint, now_ns: i64) -> bool {
    if j.intake.stopping {
        let flushed = Joint {
            intake: IntakeModel { normalizer: j.intake.normalizer.flushed(), ..j.intake },
            ..j
        };
        goes_on_with_flush(flushed, after, now_ns)
    } else {
        goes_on_with_primary(j, after, now_ns)
    }
}

/// Whether a flush goes on, or with the chunks where it is over.
pub open spec fn goes_on_with_flush(j: Joint, after: Joint, now_ns: i64) -> bool {
    if j.intake.normalizer.phase is Idle {
        goes_on_with_primary(j, after, now_ns)
    } else {
        &&& after.shared == j.shared
        &&& after.intake.normalizer == j.intake.normalizer
        &&& after.intake.step() == IntakeStepModel::Normalize(j.intake.normalizer.step())
        &&& after.intake.phase is Flush
    }
}

/// Whether a push goes on; where it is over the samples are in and the stream is
/// alive, and where it has failed the intake ends and says why.
pub open spec fn goes_on_with_push(j: Joint, after: Joint, now_ns: i64) -> bool {
    let n = j.intake.normalizer;
    if !(n.phase is Idle) {
        &&& after.shared == j.shared
        &&& after.intake.normalizer == n
        &&& after.intake.step() == IntakeStepModel::Normalize(n.step())
        &&& after.intake.phase is Push
    } else if n.failure is Some {
        has_died(j, after, "normalizer push failed: "@ + n.failure->0.text())
    } else {
        goes_on_after_intake(with_samples(j, n, now_ns), after, now_ns)
    }
}

proof fn lemma_intake_goes_on(j: Joint, now_ns: i64)
    requires
        j.intake.normalizer.wf(),
    ensures
        goes_on_with_flush(j, j.flushing(now_ns), now_ns),
        goes_on_after_intake(j, j.taken_in(now_ns), now_ns),
{
    reveal(Joint::flushing);
    reveal(Joint::taken_in);
    law_chunks_are_taken_in_turn(j, now_ns);
    lemma_flush_begins(j.intake.normalizer);
    let flushed = Joint {
        intake: IntakeModel { normalizer: j.intake.normalizer.flushed(), ..j.intake },
        ..j
    };
    law_chunks_are_taken_in_turn(flushed, now_ns);
}

proof fn lemma_push_goes_on(j: Joint, now_ns: i64)
    requires
        j.intake.normalizer.wf(),
    ensures
        goes_on_with_push(j, j.pushing(now_ns), now_ns),
{
    reveal(Joint::pushing);
    lemma_intake_goes_on(with_samples(j, j.intake.normalizer, now_ns), now_ns);
}

/// What the raw ring gives is pushed, all of it and with its device time; a
/// round that gets nothing goes on with what is there, and the stream does not
/// count as alive for it. The count of lost samples is kept for the next look.
pub proof fn law_round_pushes_what_it_gets(
    j: Joint,
    samples: Seq<u32>,
    overflow: Option<u64>,
    pts_ns: i64,
    now_ns: i64,
)
    requires
        j.intake.normalizer.wf(),
        j.intake.phase is Pop,
    ensures
        ({
            let count = match overflow {
                None => j.intake.overflow,
                Some(n) => n,
            };
            let after = j.popped(samples, overflow, pts_ns, now_ns);
            let lost = overflow matches Some(n) && n > j.intake.overflow;
            let seen = Joint {
                intake: IntakeModel {
                    overflow: count,
                    primary: Lane {
                        discontinuity: j.intake.primary.discontinuity || lost,
                        ..j.intake.primary
                    },
                    secondary: Lane {
                        discontinuity: j.intake.secondary.discontinuity || lost,
                        ..j.intake.secondary
                    },
                    ..j.intake
                },
                ..j
            };
            let pushed = Joint {
                intake: IntakeModel {
                    normalizer: j.intake.normalizer.pushed(samples, pts_ns),
                    ..seen.intake
                },
                ..seen
            };
            &&& after.intake.overflow == count
            &&& samples.len() > 0 ==> goes_on_with_push(pushed, after, now_ns)
            &&& samples.len() == 0 ==> goes_on_after_intake(seen, after, now_ns)
        }),
{
    reveal(Joint::popped);
    let looked = Joint { intake: j.intake.overflowed(overflow), ..j };
    lemma_intake_goes_on(looked, now_ns);
    lemma_push_keeps_wf(j.intake.normalizer, samples, pts_ns);
    let pushed = Joint {
        intake: IntakeModel {
            normalizer: j.intake.normalizer.pushed(samples, pts_ns),
            ..looked.intake
        },
        ..looked
    };
    lemma_push_goes_on(pushed, now_ns);
    lemma_overflow_is_kept(j, samples, overflow, pts_ns, now_ns);
}

proof fn lemma_overflow_is_kept(
    j: Joint,
    samples: Seq<u32>,
    overflow: Option<u64>,
    pts_ns: i64,
    now_ns: i64,
)
    ensures
        j.popped(samples, overflow, pts_ns, now_ns).intake.overflow == j.intake.overflowed(
            overflow,
        ).overflow,
{
    reveal(Joint::popped);
    reveal(Joint::pushing);
    reveal(Joint::taken_in);
    reveal(Joint::flushing);
    reveal(Joint::next_primary);
    reveal(Joint::next_secondary);
}

/// An answer goes to the normalizer, and the push or the flush goes on with it.
pub proof fn law_answers_reach_the_normalizer(j: Joint, outcome: Outcome, now_ns: i64)
    requires
        j.intake.normalizer.wf(),
        j.intake.phase is Push || j.intake.phase is Flush,
    ensures
        ({
            let answered = Joint {
                intake: IntakeModel {
                    normalizer: j.intake.normalizer.advanced(outcome),
                    ..j.intake
                },
                ..j
            };
            let after = j.normalized(outcome, now_ns);
            &&& j.intake.phase is Push ==> goes_on_with_push(answered, after, now_ns)
            &&& j.intake.phase is Flush ==> goes_on_with_flush(answered, after, now_ns)
        }),
{
    reveal(Joint::normalized);
    lemma_advance_keeps_wf(j.intake.normalizer, outcome);
    let answered = Joint {
        intake: IntakeModel {
            normalizer: j.intake.normalizer.advanced(outcome),
            ..j.intake
        },
        ..j
    };
    lemma_push_goes_on(answered, now_ns);
    lemma_intake_goes_on(answered, now_ns);
}

/// A metered chunk leaves the normalizer alone, and the next chunk of the same
/// output follows it.
pub proof fn law_next_chunk_follows(j: Joint, rms: u32, now_ns: i64)
    requires
        j.intake.normalizer.wf(),
        j.intake.phase is MeasurePrimary || j.intake.phase is MeasureSecondary,
    ensures
        j.cleared(rms).intake.normalizer == j.intake.normalizer,
        j.cleared(rms).intake.stopping == j.intake.stopping,
        j.cleared(rms).shared.paused == j.shared.paused,
        j.cleared(rms).shared.gain == j.shared.gain,
        j.cleared(rms).shared.last_sample_ns == j.shared.last_sample_ns,
        j.shared.paused ==> j.cleared(rms).shared == j.shared,
        j.intake.phase is MeasurePrimary ==> goes_on_with_primary(
            j.cleared(rms),
            j.measured(rms, now_ns),
            now_ns,
        ),
        j.intake.phase is MeasureSecondary ==> goes_on_with_secondary(
            j.cleared(rms),
            j.measured(rms, now_ns),
            now_ns,
        ),
{
    reveal(Joint::measured);
    law_chunks_are_taken_in_turn(j.cleared(rms), now_ns);
}

/// A delivered chunk has the samples that were metered, all of them in its
/// frames, and the level that was given; unless the stream is paused it is at the
/// end of the ring of its output, and the other ring is as it was.
pub proof fn law_metered_chunk_is_delivered(j: Joint, rms: u32, now_ns: i64)
    requires
        j.intake.phase is MeasurePrimary || j.intake.phase is MeasureSecondary,
        !j.shared.paused,
        0 < j.shared.chunks.capacity,
        j.shared.chunks.items.len() <= j.shared.chunks.capacity,
        j.intake.phase is MeasureSecondary ==> j.shared.secondary is Some && 0
            < j.shared.secondary->0.capacity && j.shared.secondary->0.items.len()
            <= j.shared.secondary->0.capacity,
    ensures
        ({
            let after = j.after(IntakeEvent::Measured { rms, now_ns });
            let chunk = if j.intake.phase is MeasurePrimary {
                after.shared.chunks.items.last()
            } else {
                after.shared.secondary->0.items.last()
            };
            let channels = if j.intake.phase is MeasurePrimary {
                channels_of(j.intake.output)
            } else {
                channels_of(j.intake.secondary_output->0)
            };
            &&& chunk.data == j.intake.data
            &&& chunk.frames == j.intake.data.len() as int / channels
            &&& chunk.rms == rms
            &&& chunk.seq == (if j.intake.phase is MeasurePrimary {
                j.intake.primary.seq
            } else {
                j.intake.secondary.seq
            })
            &&& j.intake.phase is MeasurePrimary ==> after.shared.secondary == j.shared.secondary
            &&& j.intake.phase is MeasureSecondary ==> after.shared.chunks == j.shared.chunks
                && after.shared.events == j.shared.events
            &&& after.intake.emitted
        }),
{
    lemma_event_moves(j, IntakeEvent::Measured { rms, now_ns });
    reveal(Joint::measured);
    reveal(Joint::next_primary);
    reveal(Joint::next_secondary);
}

/// The product of a chunk with the gain is limited and metered next, as a chunk
/// of the same output and of the same time.
pub proof fn law_scaled_chunk_is_metered(j: Joint, product: Seq<u32>)
    requires
        j.intake.phase is ScalePrimary || j.intake.phase is ScaleSecondary,
    ensures
        ({
            let after = j.after(IntakeEvent::Scaled { product });
            &&& after.intake.phase is MeasurePrimary <==> j.intake.phase is ScalePrimary
            &&& after.intake.phase is MeasureSecondary <==> j.intake.phase is ScaleSecondary
            &&& after.intake.data.len() == product.len()
            &&& forall|i: int|
                0 <= i < product.len() ==> #[trigger] after.intake.data[i] == limited(product[i])
            &&& after.intake.step() == (IntakeStepModel::Measure { samples: after.intake.data })
            &&& after.intake.raw_pts_ns == j.intake.raw_pts_ns
            &&& after.intake.normalizer == j.intake.normalizer
            &&& after.intake.primary == j.intake.primary
            &&& after.intake.secondary == j.intake.secondary
            &&& after.shared == j.shared
        }),
{
}

/// A round rests only where it has neither taken samples in nor delivered a
/// chunk.
pub proof fn law_round_rests_where_nothing_happened(m: IntakeModel)
    requires
        m.phase is Idle,
    ensures
        m.step() is Sleep <==> !m.produced && !m.emitted,
        m.step() is Again <==> m.produced || m.emitted,
{
}

/// A pushed chunk is at the end of the ring with all that it carries; a full
/// ring has given up its oldest chunk and counts it, and the chunk notes one.
pub proof fn law_ring_takes_the_whole_chunk(m: RingModel, chunk: ChunkView)
    requires
        0 < m.capacity,
        m.items.len() <= m.capacity,
    ensures
        m.pushed(chunk).items.last() == (ChunkView {
            dropped_before: if m.items.len() == m.capacity {
                1
            } else {
                0
            },
            ..chunk
        }),
        m.items.len() < m.capacity ==> m.pushed(chunk).items.drop_last() == m.items
            && m.pushed(chunk).dropped == m.dropped,
        m.items.len() == m.capacity ==> m.pushed(chunk).items.drop_last() == m.items.skip(1),
        m.items.len() == m.capacity && m.dropped < u64::MAX ==> m.pushed(chunk).dropped
            == m.dropped + 1,
{
    assert(m.items.skip(1).push(ChunkView { dropped_before: 1, ..chunk }).drop_last()
        =~= m.items.skip(1));
    assert(m.items.push(ChunkView { dropped_before: 0, ..chunk }).drop_last() =~= m.items);
}

/// Giving up a primary chunk is reported with the count of all that were given
/// up; giving up a secondary one is not. Nothing else of the shared state
/// changes with a delivery.
pub proof fn law_drops_are_reported(m: SharedModel, chunk: ChunkView)
    ensures
        m.chunks.items.len() == m.chunks.capacity ==> m.delivered(chunk) == (SharedModel {
            chunks: m.chunks.pushed(chunk),
            events: m.events.push(
                EventView::ChunkDropped { count: m.chunks.pushed(chunk).dropped },
            ),
            ..m
        }),
        m.chunks.items.len() != m.chunks.capacity ==> m.delivered(chunk) == (SharedModel {
            chunks: m.chunks.pushed(chunk),
            ..m
        }),
        m.secondary matches Some(r) ==> m.secondary_delivered(chunk) == (SharedModel {
            secondary: Some(r.pushed(chunk)),
            ..m
        }),
{
}

/// The orders of the owner: each changes what it is for, and nothing else.
pub proof fn law_orders_change_what_they_are_for(m: SharedModel)
    ensures
        m.with_pause() == (SharedModel { paused: true, ..m }),
        m.with_stop() == (SharedModel { stopping: true, ..m }),
        m.paused ==> m.with_resume() == (SharedModel {
            paused: false,
            discontinuity_pending: true,
            ..m
        }),
        !m.paused ==> m.with_resume() == m,
{
}

/// The recording clock runs as the device clock does: from the time at which it
/// was started, two device times lie as far apart on it as they do. It can be
/// started once.
pub proof fn law_clock_runs_with_the_device(m: SharedModel, start: i64, a: i64, b: i64)
    requires
        m.epoch == i64::MIN,
        start != i64::MIN,
        i64::MIN <= a - start <= i64::MAX,
        i64::MIN <= b - start <= i64::MAX,
    ensures
        m.on_clock(start) == 0,
        m.epoch_applied(start).on_clock(start) == 0,
        m.epoch_applied(start).on_clock(b) - m.epoch_applied(start).on_clock(a) == b - a,
        m.epoch_applied(start).epoch_applied(a) == m.epoch_applied(start),
        m.epoch_applied(start) == (SharedModel { epoch: start, ..m }),
{
}

/// Taking a chunk from a ring takes the oldest one and nothing else.
pub proof fn law_ring_hands_out_the_oldest(m: RingModel)
    requires
        m.items.len() > 0,
    ensures
        seq![m.items[0]] + m.popped().items == m.items,
        m.popped().capacity == m.capacity,
        m.popped().dropped == m.dropped,
{
    assert(seq![m.items[0]] + m.popped().items =~= m.items);
}

} // verus!
