//! What holds of every [`Watchdog`](crate::watchdog::Watchdog) over all its
//! passes, whatever happens to the stream in between.

use vstd::arithmetic::power2::{lemma2_to64, lemma_pow2_unfold, pow2};
use vstd::prelude::*;

use crate::shared::SharedModel;
use crate::types::{ErrorView, EventView};
use crate::watchdog::{
    backoff_after, finds_stall, jittered, law_backoff_grows, next_backoff, Watch, WatchdogAction,
    BACKOFF_MAX_NS, BACKOFF_MIN_NS, SLEEP_SLICE_NS, STALL_THRESHOLD_NS, WATCHDOG_TICK_NS,
};

verus! {

/// What can happen to a watch.
pub enum WatchEvent {
    /// The watchdog looks at the stream.
    Look { now_ns: i64 },
    /// The backend has been stopped, as it was asked for.
    Stopped,
    /// The backend has been started again as it was asked for, or could not be.
    Reopened { failure: Option<ErrorView>, entropy: u64 },
    /// Somebody else has changed the stream.
    Elsewhere { shared: SharedModel },
}

/// Whether an event can happen to a watch: a look after a wait, and an answer
/// after the action that asks for it.
pub open spec fn can_happen(w: Watch, ev: WatchEvent) -> bool {
    match ev {
        WatchEvent::Look { .. } => w.action is Wait || w.action is Sleep,
        WatchEvent::Stopped => w.action is StopBackend,
        WatchEvent::Reopened { .. } => w.action is StartBackend,
        WatchEvent::Elsewhere { .. } => true,
    }
}

/// A watch after an event.
pub open spec fn watched(w: Watch, ev: WatchEvent) -> Watch {
    match ev {
        WatchEvent::Look { now_ns } => w.looked(now_ns),
        WatchEvent::Stopped => w.stopped(),
        WatchEvent::Reopened { failure, entropy } => w.reopened(failure, entropy),
        WatchEvent::Elsewhere { shared } => Watch { shared, ..w },
    }
}

/// A watch after a history.
pub open spec fn watched_all(w: Watch, evs: Seq<WatchEvent>) -> Watch
    decreases evs.len(),
{
    if evs.len() == 0 {
        w
    } else {
        watched(watched_all(w, evs.drop_last()), evs.last())
    }
}

/// Whether a history can happen to a watch.
pub open spec fn can_all_happen(w: Watch, evs: Seq<WatchEvent>) -> bool
    decreases evs.len(),
{
    evs.len() == 0 || can_all_happen(w, evs.drop_last()) && can_happen(
        watched_all(w, evs.drop_last()),
        evs.last(),
    )
}

/// What the watchdog reports on an event.
pub open spec fn report_on(w: Watch, ev: WatchEvent) -> Option<EventView> {
    match ev {
        WatchEvent::Look { now_ns } => if !w.shared.stopping && !w.shared.switching
            && !w.dog.stalled && finds_stall(w.shared, now_ns) {
            Some(EventView::StreamStalled)
        } else {
            None
        },
        WatchEvent::Reopened { failure: None, .. } => Some(EventView::StreamRecovered),
        WatchEvent::Reopened { failure: Some(e), .. } => Some(
            EventView::Error("reopen failed: "@ + e.text()),
        ),
        _ => None,
    }
}

/// The stalls and recoveries that the watchdog reports in a history, in order.
pub open spec fn turns(w: Watch, evs: Seq<WatchEvent>) -> Seq<EventView>
    decreases evs.len(),
{
    if evs.len() == 0 {
        Seq::empty()
    } else {
        let before = turns(w, evs.drop_last());
        match report_on(watched_all(w, evs.drop_last()), evs.last()) {
            Some(EventView::StreamStalled) => before.push(EventView::StreamStalled),
            Some(EventView::StreamRecovered) => before.push(EventView::StreamRecovered),
            _ => before,
        }
    }
}

/// How many attempts to start the backend have failed since the last stall that
/// was reported.
pub open spec fn failures(w: Watch, evs: Seq<WatchEvent>) -> nat
    decreases evs.len(),
{
    if evs.len() == 0 {
        0
    } else {
        let before = failures(w, evs.drop_last());
        match report_on(watched_all(w, evs.drop_last()), evs.last()) {
            Some(EventView::StreamStalled) => 0,
            Some(EventView::Error(_)) => before + 1,
            _ => before,
        }
    }
}

/// What the watchdog reports is what it adds to the events of the stream, and a
/// recovery marks the next chunks besides.
pub proof fn law_reports_reach_the_stream(w: Watch, ev: WatchEvent)
    requires
        !(ev is Elsewhere),
    ensures
        watched(w, ev).shared == (match report_on(w, ev) {
            None => w.shared,
            Some(EventView::StreamRecovered) => (SharedModel {
                recovered_pending: true,
                ..w.shared
            }).reported(EventView::StreamRecovered),
            Some(e) => w.shared.reported(e),
        }),
{
}

proof fn lemma_watch_holds(shared: SharedModel, evs: Seq<WatchEvent>)
    requires
        can_all_happen(Watch::fresh(shared), evs),
    ensures
        ({
            let first = Watch::fresh(shared);
            let w = watched_all(first, evs);
            &&& w.dog.wf()
            &&& w.action is StopBackend || w.action is StartBackend ==> w.dog.stalled
            &&& w.dog.stalled ==> w.dog.backoff_ns == backoff_after(failures(first, evs))
            &&& w.dog.stalled <==> turns(first, evs).len() % 2 == 1
            &&& forall|i: int|
                0 <= i < turns(first, evs).len() ==> (#[trigger] turns(first, evs)[i]) == (if i % 2
                    == 0 {
                    EventView::StreamStalled
                } else {
                    EventView::StreamRecovered
                })
        }),
    decreases evs.len(),
{
    if evs.len() > 0 {
        let first = Watch::fresh(shared);
        let front = evs.drop_last();
        lemma_watch_holds(shared, front);
        law_backoff_grows(failures(first, front));
        let before = turns(first, front);
        let now = turns(first, evs);
        assert forall|i: int| 0 <= i < now.len() implies (#[trigger] now[i]) == (if i % 2 == 0 {
            EventView::StreamStalled
        } else {
            EventView::StreamRecovered
        }) by {
            if i < before.len() {
                assert(now[i] == before[i]);
            }
        }
    }
}

/// Stalls and recoveries are reported in turn, a stall first, and the stream
/// counts as stalled exactly from a stall to the recovery from it.
pub proof fn law_stalls_and_recoveries_alternate(shared: SharedModel, evs: Seq<WatchEvent>)
    requires
        can_all_happen(Watch::fresh(shared), evs),
    ensures
        forall|i: int|
            0 <= i < turns(Watch::fresh(shared), evs).len() ==> (#[trigger] turns(
                Watch::fresh(shared),
                evs,
            )[i]) == (if i % 2 == 0 {
                EventView::StreamStalled
            } else {
                EventView::StreamRecovered
            }),
        watched_all(Watch::fresh(shared), evs).dog.stalled <==> turns(
            Watch::fresh(shared),
            evs,
        ).len() % 2 == 1,
{
    lemma_watch_holds(shared, evs);
}

/// The backend is touched only while the stream counts as stalled.
pub proof fn law_only_a_stall_touches_the_backend(shared: SharedModel, evs: Seq<WatchEvent>)
    requires
        can_all_happen(Watch::fresh(shared), evs),
    ensures
        ({
            let w = watched_all(Watch::fresh(shared), evs);
            w.action is StopBackend || w.action is StartBackend ==> w.dog.stalled
        }),
{
    lemma_watch_holds(shared, evs);
}

/// A failed attempt is followed by the wait that the failures before it since
/// the stall call for, moved by the jitter alone.
pub proof fn law_failures_pace_the_attempts(
    shared: SharedModel,
    evs: Seq<WatchEvent>,
    error: ErrorView,
    entropy: u64,
)
    requires
        can_all_happen(Watch::fresh(shared), evs),
        watched_all(Watch::fresh(shared), evs).action is StartBackend,
    ensures
        watched(
            watched_all(Watch::fresh(shared), evs),
            WatchEvent::Reopened { failure: Some(error), entropy },
        ).action == (WatchdogAction::Sleep {
            ns: jittered(
                backoff_after(failures(Watch::fresh(shared), evs)) as int,
                entropy as int,
            ) as u64,
        }),
{
    lemma_watch_holds(shared, evs);
}

/// The wait starts at the shortest, doubles with each failure and is cut at the
/// longest.
pub proof fn law_backoff_doubles(k: nat)
    ensures
        backoff_after(k) == (if BACKOFF_MIN_NS * pow2(k) > BACKOFF_MAX_NS {
            BACKOFF_MAX_NS as int
        } else {
            BACKOFF_MIN_NS * pow2(k)
        }),
    decreases k,
{
    if k == 0 {
        lemma2_to64();
    } else {
        law_backoff_doubles((k - 1) as nat);
        lemma_pow2_unfold(k);
        assert(backoff_after(k) == next_backoff(backoff_after((k - 1) as nat)));
    }
}

/// What a look finds. Where all threads are to end the watchdog ends, and while
/// the source is being switched it waits. A running stream is found stalled
/// where nothing has come in for two seconds, which is reported. A stalled one
/// is acted on at every look, however many attempts have failed.
pub proof fn law_look_acts_on_every_stall(w: Watch, now_ns: i64)
    ensures
        w.shared.stopping ==> w.looked(now_ns) == (Watch { action: WatchdogAction::Exit, ..w }),
        !w.shared.stopping && w.shared.switching ==> w.looked(now_ns) == (Watch {
            action: WatchdogAction::Wait,
            ..w
        }),
        !w.shared.stopping && !w.shared.switching && w.dog.stalled ==> w.looked(now_ns) == (Watch {
            action: WatchdogAction::StopBackend,
            ..w
        }),
        !w.shared.stopping && !w.shared.switching && !w.dog.stalled ==> {
            let after = w.looked(now_ns);
            &&& after.action is Wait
            &&& after.dog.stalled <==> now_ns - w.shared.last_sample_ns >= 2_000_000_000
            &&& after.dog.stalled ==> after.dog.backoff_ns == 250_000_000 && after.shared == (
            SharedModel { events: w.shared.events.push(EventView::StreamStalled), ..w.shared })
            &&& !after.dog.stalled ==> after.shared == w.shared && after.dog == w.dog
        },
{
}

/// A backend that has been stopped is started again, unless all threads are to
/// end; nothing else changes with that.
pub proof fn law_stopped_backend_is_started_again(w: Watch)
    ensures
        w.stopped() == (Watch {
            action: if w.shared.stopping {
                WatchdogAction::Exit
            } else {
                WatchdogAction::StartBackend
            },
            ..w
        }),
{
}

/// A start that succeeds ends the stall, is reported and marks the next chunks.
/// One that fails does not: it is reported, and after a wait the next attempt
/// comes, which a further failure would delay twice as long, up to five seconds.
pub proof fn law_failed_start_is_tried_again(
    w: Watch,
    failure: Option<ErrorView>,
    entropy: u64,
)
    requires
        w.dog.wf(),
    ensures
        failure is None ==> {
            let after = w.reopened(failure, entropy);
            &&& after.action is Wait
            &&& !after.dog.stalled
            &&& after.dog.backoff_ns == 250_000_000
            &&& after.shared == (SharedModel {
                recovered_pending: true,
                events: w.shared.events.push(EventView::StreamRecovered),
                ..w.shared
            })
        },
        failure matches Some(e) ==> {
            let after = w.reopened(failure, entropy);
            let base = w.dog.backoff_ns as int;
            &&& after.action is Sleep
            &&& base - base / 8 <= after.action->ns < base + base / 8
            &&& after.dog.stalled == w.dog.stalled
            &&& after.dog.backoff_ns == (if 2 * base < 5_000_000_000 {
                2 * base
            } else {
                5_000_000_000
            })
            &&& after.shared == (SharedModel {
                events: w.shared.events.push(
                    EventView::Error("reopen failed: "@ + e.text()),
                ),
                ..w.shared
            })
        },
{
    let base = w.dog.backoff_ns as int;
    law_jitter_covers_its_range(base, entropy as int);
    vstd::arithmetic::div_mod::lemma_mod_bound(entropy as int, 2 * (base / 8));
}

/// From a stall on attempts follow each other, however many have failed, until
/// one succeeds: a look at a stalled stream that neither ends nor is being
/// switched leads to another start.
pub proof fn law_attempts_go_on_until_one_succeeds(
    shared: SharedModel,
    evs: Seq<WatchEvent>,
    now_ns: i64,
)
    requires
        can_all_happen(Watch::fresh(shared), evs),
        watched_all(Watch::fresh(shared), evs).dog.stalled,
        !watched_all(Watch::fresh(shared), evs).shared.stopping,
        !watched_all(Watch::fresh(shared), evs).shared.switching,
    ensures
        ({
            let w = watched_all(Watch::fresh(shared), evs);
            &&& watched(w, WatchEvent::Look { now_ns }).action is StopBackend
            &&& watched(watched(w, WatchEvent::Look { now_ns }), WatchEvent::Stopped).action
                is StartBackend
            &&& watched(w, WatchEvent::Look { now_ns }).dog.stalled
        }),
{
}

/// The jitter covers its range evenly: two values of entropy that follow each
/// other move a wait by one nanosecond, from an eighth less on, and start over
/// with an eighth more.
pub proof fn law_jitter_covers_its_range(base: int, entropy: int)
    requires
        base >= 8,
        entropy >= 0,
    ensures
        jittered(base, 0) == base - base / 8,
        jittered(base, entropy) == base - base / 8 + entropy % (2 * (base / 8)),
{
    vstd::arithmetic::div_mod::lemma_mod_bound(entropy, 2 * (base / 8));
    vstd::arithmetic::div_mod::lemma_small_mod(0, (2 * (base / 8)) as nat);
}

/// The watchdog looks four times a second, and no part of a wait in which nobody
/// looks for the order to stop is longer than 50 ms. Waits between attempts grow
/// from 250 ms to 5 s.
pub proof fn law_pace_of_the_watchdog()
    ensures
        WATCHDOG_TICK_NS * 4 == 1_000_000_000,
        SLEEP_SLICE_NS == 50_000_000,
        STALL_THRESHOLD_NS == 2_000_000_000,
        BACKOFF_MIN_NS == 250_000_000,
        BACKOFF_MAX_NS == 5_000_000_000,
{
}

} // verus!
