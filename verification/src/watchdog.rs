//! Detects that a device has fallen silent and paces the attempts to reopen it.

use vstd::prelude::*;

use crate::shared::{SharedModel, SharedState};
use crate::types::{join, Error, ErrorView, Event, EventView};

verus! {

/// Time between two looks.
pub const WATCHDOG_TICK_NS: u64 = 250_000_000;

/// Time without samples after which a stream counts as stalled.
pub const STALL_THRESHOLD_NS: u64 = 2_000_000_000;

/// Shortest wait between two attempts to reopen.
pub const BACKOFF_MIN_NS: u64 = 250_000_000;

/// Longest wait between two attempts to reopen.
pub const BACKOFF_MAX_NS: u64 = 5_000_000_000;

/// Longest part of a wait during which nobody looks for the order to stop.
pub const SLEEP_SLICE_NS: u64 = 50_000_000;

/// What the watchdog does next.
#[derive(Clone, Copy, Debug, PartialEq, Eq, Structural)]
pub enum WatchdogAction {
    /// Wait for the next look.
    Wait,
    /// Stop the backend, then ask [`Watchdog::stopped`].
    StopBackend,
    /// Start the backend, then report to [`Watchdog::reopened`].
    StartBackend,
    /// Sleep that long before the next look.
    Sleep { ns: u64 },
    /// End.
    Exit,
}

/// State of the watchdog.
#[derive(Clone, Copy, Debug, PartialEq, Eq, Structural)]
pub struct Watchdog {
    /// The stream counts as stalled.
    pub stalled: bool,
    /// Wait after the next failed attempt.
    pub backoff_ns: u64,
}

/// Time since the last samples; a clock that runs backwards counts as none.
pub open spec fn idle_ns(last_sample_ns: i64, now_ns: i64) -> int {
    if now_ns <= last_sample_ns {
        0
    } else if now_ns - last_sample_ns > i64::MAX {
        i64::MAX as int
    } else {
        now_ns - last_sample_ns
    }
}

/// Whether a look finds that the stream has stalled.
pub open spec fn finds_stall(m: SharedModel, now_ns: i64) -> bool {
    idle_ns(m.last_sample_ns, now_ns) >= STALL_THRESHOLD_NS
}

/// A wait of `base` shortened or lengthened by up to an eighth, as `entropy`
/// has it.
pub open spec fn jittered(base: int, entropy: int) -> int {
    let span = if base / 8 == 0 {
        1int
    } else {
        base / 8
    };
    let shifted = base + entropy % (2 * span) - span;
    if shifted < 0 {
        0
    } else {
        shifted
    }
}

/// The wait after the next failure: twice as long, up to the longest.
pub open spec fn next_backoff(backoff: u64) -> u64 {
    if backoff * 2 > BACKOFF_MAX_NS {
        BACKOFF_MAX_NS
    } else {
        (backoff * 2) as u64
    }
}

/// Shortens or lengthens a wait by up to an eighth.
pub fn jittered_backoff(base_ns: u64, entropy: u64) -> (r: u64)
    requires
        base_ns <= i64::MAX as u64 - base_ns / 8,
    ensures
        r == jittered(base_ns as int, entropy as int),
{
    let eighth: u64 = base_ns / 8;
    let span: u64 = if eighth == 0 {
        1
    } else {
        eighth
    };
    let shift: u64 = entropy % (2 * span);
    if base_ns + shift < span {
        0
    } else {
        base_ns + shift - span
    }
}

/// The next part of a wait of `remaining_ns`, and what is left after it;
/// nothing where the wait is over or everything is to end.
pub fn sleep_interruptible(remaining_ns: u64, stopping: bool) -> (r: Option<(u64, u64)>)
    ensures
        r is None <==> stopping || remaining_ns == 0,
        r matches Some((part, rest)) ==> {
            &&& part == (if remaining_ns < SLEEP_SLICE_NS {
                remaining_ns
            } else {
                SLEEP_SLICE_NS
            })
            &&& rest == remaining_ns - part
        },
{
    if stopping || remaining_ns == 0 {
        return None;
    }
    let part: u64 = if remaining_ns < SLEEP_SLICE_NS {
        remaining_ns
    } else {
        SLEEP_SLICE_NS
    };
    Some((part, remaining_ns - part))
}

/// A watchdog, the state that it watches, and what it does next.
#[verifier::ext_equal]
pub struct Watch {
    pub dog: Watchdog,
    pub shared: SharedModel,
    pub action: WatchdogAction,
}

impl Watch {
    /// A watchdog that has seen nothing, over a stream.
    pub open spec fn fresh(shared: SharedModel) -> Self {
        Watch {
            dog: Watchdog { stalled: false, backoff_ns: BACKOFF_MIN_NS },
            shared,
            action: WatchdogAction::Wait,
        }
    }

    /// One look at the stream. While the source is being switched it finds
    /// nothing; a stall is reported at first, and acted on from the next look.
    pub open spec fn looked(self, now_ns: i64) -> Self {
        if self.shared.stopping {
            Watch { action: WatchdogAction::Exit, ..self }
        } else if self.shared.switching {
            Watch { action: WatchdogAction::Wait, ..self }
        } else if self.dog.stalled {
            Watch { action: WatchdogAction::StopBackend, ..self }
        } else if finds_stall(self.shared, now_ns) {
            Watch {
                dog: Watchdog { stalled: true, backoff_ns: BACKOFF_MIN_NS },
                shared: self.shared.reported(EventView::StreamStalled),
                action: WatchdogAction::Wait,
            }
        } else {
            Watch { action: WatchdogAction::Wait, ..self }
        }
    }

    /// Once the backend has been stopped.
    pub open spec fn stopped(self) -> Self {
        Watch {
            action: if self.shared.stopping {
                WatchdogAction::Exit
            } else {
                WatchdogAction::StartBackend
            },
            ..self
        }
    }

    /// Once the backend has been started again, or could not be.
    pub open spec fn reopened(self, failure: Option<ErrorView>, entropy: u64) -> Self {
        match failure {
            None => Watch {
                dog: Watchdog { stalled: false, backoff_ns: BACKOFF_MIN_NS },
                shared: (SharedModel { recovered_pending: true, ..self.shared }).reported(
                    EventView::StreamRecovered,
                ),
                action: WatchdogAction::Wait,
            },
            Some(e) => Watch {
                dog: Watchdog { backoff_ns: next_backoff(self.dog.backoff_ns), ..self.dog },
                shared: self.shared.reported(EventView::Error("reopen failed: "@ + e.text())),
                action: WatchdogAction::Sleep {
                    ns: jittered(self.dog.backoff_ns as int, entropy as int) as u64,
                },
            },
        }
    }
}

/// The watch that a watchdog and the shared state stand for.
pub open spec fn watch_of(dog: Watchdog, shared: SharedModel, action: WatchdogAction) -> Watch {
    Watch { dog, shared, action }
}

impl Watchdog {
    /// The wait stays between the shortest and the longest.
    pub open spec fn wf(self) -> bool {
        BACKOFF_MIN_NS <= self.backoff_ns <= BACKOFF_MAX_NS
    }

    /// A watchdog over a running stream.
    pub fn new() -> (r: Self)
        ensures
            r == (Watchdog { stalled: false, backoff_ns: BACKOFF_MIN_NS }),
            r.wf(),
    {
        Watchdog { stalled: false, backoff_ns: BACKOFF_MIN_NS }
    }

    /// One look at the stream. While the source is being switched it finds
    /// nothing; a stall is reported at first, and acted on from the next look.
    pub fn tick(&mut self, shared: &mut SharedState, now_ns: i64) -> (action: WatchdogAction)
        requires
            old(self).wf(),
            old(shared).wf(),
        ensures
            final(self).wf(),
            final(shared).wf(),
            watch_of(*final(self), final(shared)@, action) == watch_of(
                *old(self),
                old(shared)@,
                WatchdogAction::Wait,
            ).looked(now_ns),
    {
        if shared.stopping {
            return WatchdogAction::Exit;
        }
        if shared.switching {
            return WatchdogAction::Wait;
        }
        if !self.stalled {
            let last: i64 = shared.last_sample_ns;
            let idle: i128 = now_ns as i128 - last as i128;
            if idle >= STALL_THRESHOLD_NS as i128 {
                self.stalled = true;
                self.backoff_ns = BACKOFF_MIN_NS;
                shared.push_event(Event::StreamStalled);
            }
            return WatchdogAction::Wait;
        }
        WatchdogAction::StopBackend
    }

    /// Goes on once the backend has been stopped.
    pub fn stopped(&self, shared: &SharedState) -> (action: WatchdogAction)
        ensures
            watch_of(*self, shared@, action) == watch_of(
                *self,
                shared@,
                WatchdogAction::StopBackend,
            ).stopped(),
    {
        if shared.stopping {
            WatchdogAction::Exit
        } else {
            WatchdogAction::StartBackend
        }
    }

    /// Notes the attempt to start the backend again. After a success the next
    /// chunks are marked and the watch goes on; after a failure the next
    /// attempt waits, longer each time.
    pub fn reopened(
        &mut self,
        shared: &mut SharedState,
        outcome: Result<(), Error>,
        entropy: u64,
    ) -> (action: WatchdogAction)
        requires
            old(self).wf(),
            old(shared).wf(),
        ensures
            final(self).wf(),
            final(shared).wf(),
            watch_of(*final(self), final(shared)@, action) == watch_of(
                *old(self),
                old(shared)@,
                WatchdogAction::StartBackend,
            ).reopened(
                match outcome {
                    Ok(_) => None,
                    Err(e) => Some(e@),
                },
                entropy,
            ),
    {
        match outcome {
            Ok(_) => {
                shared.recovered_pending = true;
                self.stalled = false;
                shared.push_event(Event::StreamRecovered);
                self.backoff_ns = BACKOFF_MIN_NS;
                WatchdogAction::Wait
            },
            Err(e) => {
                let text = e.text();
                shared.push_event(Event::Error(join("reopen failed: ", text.as_str())));
                let ns: u64 = jittered_backoff(self.backoff_ns, entropy);
                self.backoff_ns = if self.backoff_ns * 2 > BACKOFF_MAX_NS {
                    BACKOFF_MAX_NS
                } else {
                    self.backoff_ns * 2
                };
                WatchdogAction::Sleep { ns }
            },
        }
    }
}

/// Jitter moves a wait by no more than an eighth of it, or by one where the
/// eighth is less.
pub proof fn law_jitter_is_small(base: int, entropy: int)
    requires
        base >= 0,
        entropy >= 0,
    ensures
        jittered(base, entropy) >= 0,
        base - base / 8 - 1 <= jittered(base, entropy),
        base >= 8 ==> base - base / 8 <= jittered(base, entropy),
        jittered(base, entropy) <= base + base / 8,
{
    let span = if base / 8 == 0 {
        1int
    } else {
        base / 8
    };
    vstd::arithmetic::div_mod::lemma_mod_bound(entropy, 2 * span);
}

/// Every wait between two attempts lies between seven eighths of the shortest
/// and nine eighths of the longest backoff.
pub proof fn law_waits_are_bounded(w: Watchdog, entropy: int)
    requires
        w.wf(),
        entropy >= 0,
    ensures
        BACKOFF_MIN_NS - BACKOFF_MIN_NS / 8 <= jittered(w.backoff_ns as int, entropy)
            <= BACKOFF_MAX_NS + BACKOFF_MAX_NS / 8,
{
    law_jitter_is_small(w.backoff_ns as int, entropy);
}

/// The wait after `failures` failed attempts in a row.
pub open spec fn backoff_after(failures: nat) -> u64
    decreases failures,
{
    if failures == 0 {
        BACKOFF_MIN_NS
    } else {
        next_backoff(backoff_after((failures - 1) as nat))
    }
}

/// The backoff never shrinks from one failure to the next, and from the fifth
/// on it is the longest.
pub proof fn law_backoff_grows(failures: nat)
    ensures
        BACKOFF_MIN_NS <= backoff_after(failures) <= backoff_after(failures + 1)
            <= BACKOFF_MAX_NS,
        failures >= 5 ==> backoff_after(failures) == BACKOFF_MAX_NS,
    decreases failures,
{
    if failures > 0 {
        law_backoff_grows((failures - 1) as nat);
        if failures == 5 {
            reveal_with_fuel(backoff_after, 6);
        }
    }
}

/// The parts of a wait add up to it.
pub open spec fn slept(remaining: int) -> int
    decreases remaining,
{
    if remaining <= 0 {
        0
    } else if remaining < SLEEP_SLICE_NS {
        remaining
    } else {
        SLEEP_SLICE_NS + slept(remaining - SLEEP_SLICE_NS)
    }
}

/// A wait that nobody interrupts lasts as long as it was meant to.
pub proof fn law_sleep_is_complete(ns: int)
    requires
        ns >= 0,
    ensures
        slept(ns) == ns,
    decreases ns,
{
    if ns >= SLEEP_SLICE_NS {
        law_sleep_is_complete(ns - SLEEP_SLICE_NS);
    }
}

/// A stream counts as stalled if and only if no samples have arrived for the
/// threshold. Whether its delivery is paused does not matter.
pub proof fn law_stall_is_silence(m: SharedModel, paused: bool, now_ns: i64)
    ensures
        finds_stall(m, now_ns) <==> now_ns - m.last_sample_ns >= STALL_THRESHOLD_NS,
        finds_stall(SharedModel { paused, ..m }, now_ns) == finds_stall(m, now_ns),
{
}

} // verus!
