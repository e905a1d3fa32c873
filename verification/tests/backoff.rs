//! Reconnect pacing.

use atas::feed::backoff::Backoff;

fn millis(n: u64) -> u64 {
    n * 1_000_000
}

fn secs(n: u64) -> u64 {
    n * 1_000_000_000
}


fn backoff() -> Backoff {
    Backoff::new(millis(100), secs(10))
}

#[test]
fn the_ceiling_doubles_then_clamps() {
    let mut b = backoff();
    assert_eq!(b.ceiling(), millis(100));
    b.next_delay();
    assert_eq!(b.ceiling(), millis(200));
    b.next_delay();
    assert_eq!(b.ceiling(), millis(400));

    for _ in 0..20 {
        b.next_delay();
    }
    assert_eq!(b.ceiling(), secs(10), "must clamp at max");
}

#[test]
fn every_delay_stays_within_its_ceiling() {
    let mut b = backoff();
    for _ in 0..200 {
        let ceiling = b.ceiling();
        let delay = b.next_delay();
        assert!(delay <= ceiling, "{delay:?} exceeded ceiling {ceiling:?}");
        assert!(delay <= secs(10));
    }
}

#[test]
fn jitter_actually_varies() {
    // Without jitter, every client that dropped on the same venue hiccup
    // returns at the same instant.
    let mut b = backoff();
    for _ in 0..8 {
        b.next_delay();
    }
    let ceiling = b.ceiling();
    let mut seen = std::collections::HashSet::new();
    for _ in 0..40 {
        let mut probe = b.clone();
        seen.insert(probe.next_delay());
        b.next_delay();
    }
    assert!(seen.len() > 1, "delays were identical at ceiling {ceiling:?}");
}

#[test]
fn different_seeds_give_different_sequences() {
    let mut a = backoff().with_seed(1);
    let mut b = backoff().with_seed(2);
    let left: Vec<_> = (0..10).map(|_| a.next_delay()).collect();
    let right: Vec<_> = (0..10).map(|_| b.next_delay()).collect();
    assert_ne!(left, right);
}

#[test]
fn the_same_seed_reproduces_a_sequence() {
    let mut a = backoff().with_seed(7);
    let mut b = backoff().with_seed(7);
    for _ in 0..10 {
        assert_eq!(a.next_delay(), b.next_delay());
    }
}

#[test]
fn a_successful_connection_resets_the_ceiling() {
    let mut b = backoff();
    for _ in 0..6 {
        b.next_delay();
    }
    assert!(b.ceiling() > millis(100));
    assert_eq!(b.attempt(), 6);

    b.reset();
    assert_eq!(b.attempt(), 0);
    assert_eq!(b.ceiling(), millis(100));
}

#[test]
fn a_long_outage_does_not_overflow() {
    // Left shifting by the attempt count overflows quickly if unclamped.
    let mut b = Backoff::new(secs(1), secs(300));
    for _ in 0..10_000 {
        let delay = b.next_delay();
        assert!(delay <= secs(300));
    }
    assert_eq!(b.ceiling(), secs(300));
}
