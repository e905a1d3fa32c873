use atas::primitives::time::{Ts, NANOS_PER_SEC};

#[test]
fn converts_between_units() {
    let t = Ts::from_millis(1_700_000_000_123);
    assert_eq!(t.millis(), 1_700_000_000_123);
    assert_eq!(t.secs(), 1_700_000_000);
    assert_eq!(t.nanos(), 1_700_000_000_123_000_000);
}

#[test]
fn floors_into_stable_buckets() {
    let minute = 60 * NANOS_PER_SEC;
    // 1_700_000_040_000 ms is exactly on a minute boundary; both of these
    // sit inside the minute that starts there.
    let a = Ts::from_millis(1_700_000_077_500);
    let b = Ts::from_millis(1_700_000_099_999);
    assert_eq!(a.floor_to(minute), b.floor_to(minute));
    assert_eq!(a.floor_to(minute), Ts::from_millis(1_700_000_040_000));
    // The next millisecond starts a new bucket.
    let c = Ts::from_millis(1_700_000_100_000);
    assert_ne!(b.floor_to(minute), c.floor_to(minute));
    assert_eq!(c.floor_to(minute), c);
}

#[test]
fn floor_is_idempotent() {
    let sec = NANOS_PER_SEC;
    let t = Ts::from_millis(1_700_000_037_500).floor_to(sec);
    assert_eq!(t.floor_to(sec), t);
}

#[test]
fn arithmetic_and_differences() {
    let t = Ts::from_secs(100);
    assert_eq!((t + NANOS_PER_SEC).secs(), 101);
    assert_eq!((t - NANOS_PER_SEC).secs(), 99);
    assert_eq!(Ts::from_secs(105) - t, 5 * NANOS_PER_SEC);
    assert_eq!(Ts::from_secs(105).since(t), 5 * NANOS_PER_SEC);
}

#[test]
fn orders_chronologically() {
    let mut v = [Ts::from_secs(3), Ts::from_secs(1), Ts::from_secs(2)];
    v.sort();
    assert_eq!(v, [Ts::from_secs(1), Ts::from_secs(2), Ts::from_secs(3)]);
}

#[test]
fn out_of_range_inputs_saturate_instead_of_wrapping() {
    // A venue sending a garbage timestamp must not panic or, in release,
    // wrap into a plausible-looking date.
    assert_eq!(Ts::from_millis(i64::MAX), Ts::max_value());
    assert_eq!(Ts::from_millis(i64::MIN), Ts::min_value());
    assert_eq!(Ts::from_secs(i64::MAX), Ts::max_value());
    // Ordering still holds at the boundary.
    assert!(Ts::from_millis(1_700_000_000_000) < Ts::max_value());
}

#[test]
fn displays_seconds_and_nanos() {
    assert_eq!(Ts::from_millis(1_500).to_string(), "1.500000000");
}
