use flexaudio::watchdog::{jittered_backoff, sleep_interruptible};

#[test]
fn jitter_moves_a_wait_by_an_eighth_at_most() {
    assert_eq!(jittered_backoff(800, 0), 700);
    assert_eq!(jittered_backoff(800, 199), 899);
    assert_eq!(jittered_backoff(800, 200), 700);
    assert_eq!(jittered_backoff(0, 0), 0);
    assert_eq!(jittered_backoff(0, 1), 0);
    assert_eq!(jittered_backoff(1, 1), 1);
}

#[test]
fn a_wait_is_cut_into_slices() {
    assert_eq!(sleep_interruptible(120_000_000, false), Some((50_000_000, 70_000_000)));
    assert_eq!(sleep_interruptible(20_000_000, false), Some((20_000_000, 0)));
    assert_eq!(sleep_interruptible(0, false), None);
    assert_eq!(sleep_interruptible(20_000_000, true), None);
}
