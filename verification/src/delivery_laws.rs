//! What the rings hold, and how the delivered chunks are metered.

use vstd::prelude::*;

use crate::intake::{IntakeModel, IntakeStepModel, Joint};
use crate::intake_laws::{law_event_moves_lanes, lemma_event_moves, IntakeEvent};
use crate::sample::{is_nan, law_limited_peak, law_silent_peak, limited, magnitude, peak_of, UNITY};
use crate::shared::{RingModel, SharedModel};
use crate::types::ChunkView;

verus! {

/// Whether a ring holds the newest chunks before number `next`, in rising order
/// and without a gap.
pub open spec fn is_in_order(ring: RingModel, next: u64) -> bool {
    &&& 0 < ring.capacity
    &&& ring.items.len() <= ring.capacity
    &&& forall|i: int|
        0 <= i < ring.items.len() ==> (#[trigger] ring.items[i]).seq == next - ring.items.len() + i
}

/// Whether ring `b` is ring `a` with chunks taken off its front.
pub open spec fn is_polled(a: RingModel, b: RingModel) -> bool {
    &&& b.capacity == a.capacity
    &&& b.items.len() <= a.items.len()
    &&& b.items == a.items.skip(a.items.len() - b.items.len())
}

/// Whether an event, if it is one of the owner or the watchdog, does to the
/// rings no more than to take chunks off the front.
pub open spec fn only_polls(j: Joint, ev: IntakeEvent) -> bool {
    ev matches IntakeEvent::Elsewhere(m) ==> {
        &&& is_polled(j.shared.chunks, m.chunks)
        &&& m.secondary is Some <==> j.shared.secondary is Some
        &&& m.secondary matches Some(r) ==> is_polled(j.shared.secondary->0, r)
    }
}

/// Whether all events of a history do.
pub open spec fn only_poll(j: Joint, evs: Seq<IntakeEvent>) -> bool
    decreases evs.len(),
{
    evs.len() > 0 ==> only_poll(j, evs.drop_last()) && only_polls(
        j.trace(evs.drop_last()),
        evs.last(),
    )
}

proof fn lemma_push_stays_in_order(ring: RingModel, chunk: ChunkView, next: u64)
    requires
        is_in_order(ring, next),
        chunk.seq == next,
        next < u64::MAX,
    ensures
        is_in_order(ring.pushed(chunk), (next + 1) as u64),
{
    let pushed = ring.pushed(chunk);
    assert forall|i: int| 0 <= i < pushed.items.len() implies (#[trigger] pushed.items[i]).seq
        == next + 1 - pushed.items.len() + i by {
        if ring.full() {
            if i < pushed.items.len() - 1 {
                assert(pushed.items[i] == ring.items[i + 1]);
            }
        } else if i < pushed.items.len() - 1 {
            assert(pushed.items[i] == ring.items[i]);
        }
    }
}

proof fn lemma_poll_stays_in_order(a: RingModel, b: RingModel, next: u64)
    requires
        is_in_order(a, next),
        is_polled(a, b),
    ensures
        is_in_order(b, next),
{
    let gone = a.items.len() - b.items.len();
    assert forall|i: int| 0 <= i < b.items.len() implies (#[trigger] b.items[i]).seq == next
        - b.items.len() + i by {
        assert(b.items[i] == a.items[i + gone]);
    }
}

/// Over any history in which others only poll, before a stop and after it, each
/// ring holds the newest chunks of its output in rising number without a gap.
pub proof fn law_rings_are_in_order(j: Joint, evs: Seq<IntakeEvent>)
    requires
        is_in_order(j.shared.chunks, j.intake.primary.seq),
        j.shared.secondary matches Some(r) ==> is_in_order(r, j.intake.secondary.seq),
        only_poll(j, evs),
        j.intake.primary.seq + evs.len() < u64::MAX,
        j.intake.secondary.seq + evs.len() < u64::MAX,
    ensures
        is_in_order(j.trace(evs).shared.chunks, j.trace(evs).intake.primary.seq),
        j.shared.secondary is Some ==> j.trace(evs).shared.secondary is Some && is_in_order(
            j.trace(evs).shared.secondary->0,
            j.trace(evs).intake.secondary.seq,
        ),
        j.trace(evs).intake.primary.seq <= j.intake.primary.seq + evs.len(),
        j.trace(evs).intake.secondary.seq <= j.intake.secondary.seq + evs.len(),
    decreases evs.len(),
{
    if evs.len() > 0 {
        let front = evs.drop_last();
        let state = j.trace(front);
        let ev = evs.last();
        law_rings_are_in_order(j, front);
        lemma_event_moves(state, ev);
        law_event_moves_lanes(state, ev);
        if let IntakeEvent::Elsewhere(m) = ev {
            lemma_poll_stays_in_order(state.shared.chunks, m.chunks, state.intake.primary.seq);
            if j.shared.secondary is Some {
                lemma_poll_stays_in_order(
                    state.shared.secondary->0,
                    m.secondary->0,
                    state.intake.secondary.seq,
                );
            }
        }
        if state.delivers_primary(ev) {
            lemma_push_stays_in_order(
                state.shared.chunks,
                state.delivered_chunk(ev->rms),
                state.intake.primary.seq,
            );
        }
        if state.delivers_secondary(ev) && j.shared.secondary is Some {
            lemma_push_stays_in_order(
                state.shared.secondary->0,
                state.delivered_chunk(ev->rms),
                state.intake.secondary.seq,
            );
        }
    }
}

/// The ring after `n` polls.
pub open spec fn polled_times(ring: RingModel, n: nat) -> RingModel
    decreases n,
{
    if n == 0 {
        ring
    } else {
        polled_times(ring, (n - 1) as nat).popped()
    }
}

/// Polling hands out every chunk of a ring in rising number, and then none.
pub proof fn law_polls_empty_the_ring(ring: RingModel, next: u64, n: nat)
    requires
        is_in_order(ring, next),
        n <= ring.items.len(),
    ensures
        polled_times(ring, n).items == ring.items.skip(n as int),
        n < ring.items.len() ==> polled_times(ring, n).items[0] == ring.items[n as int]
            && polled_times(ring, n).items[0].seq == next - ring.items.len() + n,
        n == ring.items.len() ==> polled_times(ring, n).items.len() == 0,
    decreases n,
{
    if n > 0 {
        law_polls_empty_the_ring(ring, next, (n - 1) as nat);
        assert(ring.items.skip(n - 1).skip(1) =~= ring.items.skip(n as int));
    } else {
        assert(ring.items.skip(0) =~= ring.items);
    }
}

/// Once the intake has ended no chunk is added to either ring: what is there
/// can be polled, and nothing else happens to it.
pub proof fn law_nothing_is_added_after_the_end(j: Joint, evs: Seq<IntakeEvent>)
    requires
        j.intake.phase is Over,
        only_poll(j, evs),
    ensures
        j.trace(evs).intake == j.intake,
        is_polled(j.shared.chunks, j.trace(evs).shared.chunks),
        j.shared.secondary is Some <==> j.trace(evs).shared.secondary is Some,
        j.shared.secondary matches Some(r) ==> is_polled(r, j.trace(evs).shared.secondary->0),
    decreases evs.len(),
{
    if evs.len() == 0 {
        assert(j.shared.chunks.items.skip(0) =~= j.shared.chunks.items);
        if let Some(r) = j.shared.secondary {
            assert(r.items.skip(0) =~= r.items);
        }
    } else {
        let front = evs.drop_last();
        let state = j.trace(front);
        law_nothing_is_added_after_the_end(j, front);
        if let IntakeEvent::Elsewhere(m) = evs.last() {
            lemma_polls_add_up(j.shared.chunks, state.shared.chunks, m.chunks);
            if let Some(r) = j.shared.secondary {
                lemma_polls_add_up(r, state.shared.secondary->0, m.secondary->0);
            }
        }
    }
}

proof fn lemma_polls_add_up(a: RingModel, b: RingModel, c: RingModel)
    requires
        is_polled(a, b),
        is_polled(b, c),
    ensures
        is_polled(a, c),
{
    assert(a.items.skip(a.items.len() - b.items.len()).skip(b.items.len() - c.items.len())
        =~= a.items.skip(a.items.len() - c.items.len()));
}

/// Stopping takes no chunk away and adds none, and stopping once more changes
/// nothing.
pub proof fn law_stop_keeps_the_rings(m: SharedModel)
    ensures
        m.with_stop().chunks == m.chunks,
        m.with_stop().secondary == m.secondary,
        m.with_stop().with_stop() == m.with_stop(),
{
}

/// Whether all samples that are numbers lie between minus one and one.
pub open spec fn is_limited(data: Seq<u32>) -> bool {
    forall|i: int|
        0 <= i < data.len() ==> is_nan(#[trigger] data[i]) || magnitude(data[i]) <= UNITY
}

/// Whether the chunk that is being metered has been limited where the gain asks
/// for it.
pub open spec fn is_metered(m: IntakeModel) -> bool {
    (m.phase is MeasurePrimary || m.phase is MeasureSecondary) && m.gain != UNITY
        ==> is_limited(m.data) && peak_of(m.data) <= UNITY
}

/// Whether all samples are silent.
pub open spec fn is_silent(data: Seq<u32>) -> bool {
    forall|i: int| 0 <= i < data.len() ==> magnitude(#[trigger] data[i]) == 0
}

/// Whether the chunk that is being metered is silent where the gain is zero.
pub open spec fn is_hushed(m: IntakeModel) -> bool {
    (m.phase is MeasurePrimary || m.phase is MeasureSecondary) && magnitude(m.gain) == 0
        ==> is_silent(m.data)
}

/// Whether an event, where it answers with a product with a gain of zero, answers
/// with silence.
pub open spec fn hushes(j: Joint, ev: IntakeEvent) -> bool {
    j.expects(ev) && magnitude(j.intake.gain) == 0 ==> (ev matches IntakeEvent::Scaled {
        product,
    } ==> is_silent(product))
}

/// Whether that holds of every event of a history.
pub open spec fn all_hush(j: Joint, evs: Seq<IntakeEvent>) -> bool
    decreases evs.len(),
{
    evs.len() == 0 || all_hush(j, evs.drop_last()) && hushes(
        j.trace(evs.drop_last()),
        evs.last(),
    )
}

proof fn lemma_emission_is_metered(j: Joint, now_ns: i64)
    ensures
        is_metered(j.next_secondary(now_ns).intake),
        is_hushed(j.next_secondary(now_ns).intake),
        is_metered(j.next_primary(now_ns).intake),
        is_hushed(j.next_primary(now_ns).intake),
{
    reveal(Joint::next_secondary);
    reveal(Joint::next_primary);
}

proof fn lemma_intake_is_metered(j: Joint, now_ns: i64)
    ensures
        is_metered(j.flushing(now_ns).intake),
        is_hushed(j.flushing(now_ns).intake),
        is_metered(j.taken_in(now_ns).intake),
        is_hushed(j.taken_in(now_ns).intake),
        is_metered(j.pushing(now_ns).intake),
        is_hushed(j.pushing(now_ns).intake),
{
    reveal(Joint::flushing);
    reveal(Joint::taken_in);
    reveal(Joint::pushing);
    lemma_emission_is_metered(j, now_ns);
    let flushed = Joint {
        intake: IntakeModel { normalizer: j.intake.normalizer.flushed(), ..j.intake },
        ..j
    };
    lemma_emission_is_metered(flushed, now_ns);
    let noted = Joint {
        intake: IntakeModel { produced: true, ..j.intake },
        shared: SharedModel { last_sample_ns: now_ns, ..j.shared },
    };
    lemma_emission_is_metered(noted, now_ns);
    let noted_flushed = Joint {
        intake: IntakeModel { normalizer: noted.intake.normalizer.flushed(), ..noted.intake },
        ..noted
    };
    lemma_emission_is_metered(noted_flushed, now_ns);
}

proof fn lemma_event_is_metered(j: Joint, ev: IntakeEvent)
    ensures
        is_metered(j.intake) ==> is_metered(j.after(ev).intake),
        is_hushed(j.intake) && hushes(j, ev) ==> is_hushed(j.after(ev).intake),
{
    if j.expects(ev) {
        match ev {
            IntakeEvent::Popped { samples, overflow, pts_ns, now_ns } => {
                reveal(Joint::popped);
                let looked = Joint { intake: j.intake.overflowed(overflow), ..j };
                lemma_intake_is_metered(looked, now_ns);
                let pushed = Joint {
                    intake: IntakeModel {
                        normalizer: looked.intake.normalizer.pushed(samples, pts_ns),
                        ..looked.intake
                    },
                    ..looked
                };
                lemma_intake_is_metered(pushed, now_ns);
            },
            IntakeEvent::Normalized { outcome, now_ns } => {
                reveal(Joint::normalized);
                let advanced = Joint {
                    intake: IntakeModel {
                        normalizer: j.intake.normalizer.advanced(outcome),
                        ..j.intake
                    },
                    ..j
                };
                lemma_intake_is_metered(advanced, now_ns);
            },
            IntakeEvent::Scaled { product } => {
                law_limited_peak(product);
                let data = product.map_values(|x: u32| limited(x));
                assert forall|i: int| 0 <= i < data.len() implies is_nan(#[trigger] data[i])
                    || magnitude(data[i]) <= UNITY by {
                    assert(data[i] == limited(product[i]));
                }
                if is_silent(product) {
                    assert forall|i: int| 0 <= i < data.len() implies magnitude(
                        #[trigger] data[i],
                    ) == 0 by {
                        assert(magnitude(product[i]) == 0);
                        assert(data[i] == limited(product[i]));
                    }
                }
            },
            IntakeEvent::Measured { rms, now_ns } => {
                reveal(Joint::measured);
                lemma_emission_is_metered(j.cleared(rms), now_ns);
            },
            _ => {},
        }
    }
}

/// Over every history a delivered chunk is metered by its own samples, as they
/// are after the gain: its peak is theirs, and its root mean square is the answer
/// to the step that asked for just these samples. Where its gain is not one, no
/// sample exceeds one in magnitude.
pub proof fn law_chunks_meter_their_samples(j: Joint, evs: Seq<IntakeEvent>, ev: IntakeEvent)
    requires
        is_metered(j.intake),
        j.trace(evs).delivers_primary(ev) || j.trace(evs).delivers_secondary(ev),
    ensures
        ({
            let state = j.trace(evs);
            let chunk = state.delivered_chunk(ev->rms);
            &&& chunk.peak == peak_of(chunk.data)
            &&& state.intake.step() == IntakeStepModel::Measure { samples: chunk.data }
            &&& chunk.rms == ev->rms
            &&& state.intake.gain != UNITY ==> is_limited(chunk.data) && chunk.peak <= UNITY
        }),
{
    lemma_trace_is_metered(j, evs);
}

proof fn lemma_trace_is_metered(j: Joint, evs: Seq<IntakeEvent>)
    requires
        is_metered(j.intake),
    ensures
        is_metered(j.trace(evs).intake),
    decreases evs.len(),
{
    if evs.len() > 0 {
        lemma_trace_is_metered(j, evs.drop_last());
        lemma_event_is_metered(j.trace(evs.drop_last()), evs.last());
    }
}

/// Over every history in which the products with a gain of zero are silent, the
/// chunks that are delivered at a gain of zero are silent, with a peak of zero.
pub proof fn law_zero_gain_is_silent(j: Joint, evs: Seq<IntakeEvent>, ev: IntakeEvent)
    requires
        is_hushed(j.intake),
        all_hush(j, evs),
        j.trace(evs).delivers_primary(ev) || j.trace(evs).delivers_secondary(ev),
        magnitude(j.trace(evs).intake.gain) == 0,
    ensures
        is_silent(j.trace(evs).delivered_chunk(ev->rms).data),
        j.trace(evs).delivered_chunk(ev->rms).peak == 0,
{
    lemma_trace_is_hushed(j, evs);
    law_silent_peak(j.trace(evs).intake.data);
}

proof fn lemma_trace_is_hushed(j: Joint, evs: Seq<IntakeEvent>)
    requires
        is_hushed(j.intake),
        all_hush(j, evs),
    ensures
        is_hushed(j.trace(evs).intake),
    decreases evs.len(),
{
    if evs.len() > 0 {
        lemma_trace_is_hushed(j, evs.drop_last());
        lemma_event_is_metered(j.trace(evs.drop_last()), evs.last());
    }
}

} // verus!
