//! Fixed-width trade records.

use atas::primitives::fixed::{Price, Qty};
use atas::primitives::market::{Side, Trade};
use atas::primitives::time::Ts;
use atas::store::record::{decode, decode_ts, encode, RecordError};


fn trade(side: Side) -> Trade {
    Trade::new(
        Ts::from_millis(1_700_000_000_123),
        Price::parse("95123.45").unwrap(),
        Qty::parse("0.00123456").unwrap(),
        side,
        9_876_543_210,
    )
}

#[test]
fn round_trips_both_sides() {
    for side in [Side::Buy, Side::Sell] {
        let original = trade(side);
        let decoded = decode(&encode(&original)).unwrap();
        assert_eq!(decoded, original, "{side:?}");
    }
}

#[test]
fn round_trips_extreme_values() {
    let t = Trade::new(
        Ts::from_nanos(i64::MAX),
        Price::from_minor(i64::MAX),
        Qty::from_minor(i64::MIN),
        Side::Buy,
        u64::MAX,
    );
    assert_eq!(decode(&encode(&t)).unwrap(), t);
}

#[test]
fn timestamp_shortcut_matches_a_full_decode() {
    let t = trade(Side::Buy);
    let buf = encode(&t);
    assert_eq!(decode_ts(&buf), decode(&buf).unwrap().ts);
}

#[test]
fn padding_is_zeroed() {
    let buf = encode(&trade(Side::Buy));
    assert_eq!(&buf[33..40], &[0u8; 7], "reserved bytes must stay zero");
}

#[test]
fn rejects_records_from_a_newer_format() {
    let mut buf = encode(&trade(Side::Buy));
    buf[32] |= 0b1000_0000;
    assert!(matches!(
        decode(&buf),
        Err(RecordError::UnknownFlags(0b1000_0001))
    ));
}
