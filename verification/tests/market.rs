use atas::primitives::fixed::{Price, Qty};
use atas::primitives::market::{MarketEvent, Side, Trade};
use atas::primitives::time::Ts;

fn trade(px: &str, qty: &str, side: Side) -> Trade {
    Trade::new(
        Ts::from_millis(1_700_000_000_000),
        Price::parse(px).unwrap(),
        Qty::parse(qty).unwrap(),
        side,
        1,
    )
}

#[test]
fn side_inverts_and_signs() {
    assert_eq!(Side::Buy.opposite(), Side::Sell);
    assert_eq!(Side::Sell.opposite(), Side::Buy);
    assert_eq!(Side::Buy.signum(), 1);
    assert_eq!(Side::Sell.signum(), -1);
    assert!(Side::Buy.is_buy());
}

#[test]
fn signed_qty_encodes_aggression() {
    let buy = trade("100", "2", Side::Buy);
    let sell = trade("100", "3", Side::Sell);
    assert_eq!(buy.signed_qty(), Qty::parse("2").unwrap());
    assert_eq!(sell.signed_qty(), Qty::parse("-3").unwrap());

    // Delta is just the sum of signed sizes.
    let delta = buy.signed_qty() + sell.signed_qty();
    assert_eq!(delta, Qty::parse("-1").unwrap());
}

#[test]
fn computes_notional() {
    assert_eq!(
        trade("95000", "0.5", Side::Buy).notional(),
        Qty::parse("47500").unwrap()
    );
}

#[test]
fn events_expose_their_timestamp() {
    let t = trade("100", "1", Side::Buy);
    assert_eq!(MarketEvent::Trade(t).ts(), t.ts);

    let status = MarketEvent::Status {
        ts: Ts::from_secs(5),
        connected: false,
        detail: "socket closed".into(),
    };
    assert_eq!(status.ts(), Ts::from_secs(5));
    assert!(!status.is_trade());
}
