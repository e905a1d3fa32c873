//! Bars: OHLC and the order-flow payload.

use atas::engine::bar::Bar;
use atas::primitives::fixed::{Price, Qty};
use atas::primitives::market::{Side, Trade};
use atas::primitives::time::Ts;


fn px(s: &str) -> Price {
    Price::parse(s).unwrap()
}
fn qty(s: &str) -> Qty {
    Qty::parse(s).unwrap()
}
fn trade(ms: i64, price: &str, q: &str, side: Side) -> Trade {
    Trade::new(Ts::from_millis(ms), px(price), qty(q), side, 0)
}

#[test]
fn opening_records_the_first_trade() {
    let t = trade(1_000, "100.00", "5", Side::Buy);
    let bar = Bar::open(Ts::from_millis(1_000), &t, px("0.25"));

    assert_eq!(bar.open, px("100.00"));
    assert_eq!(bar.high, px("100.00"));
    assert_eq!(bar.low, px("100.00"));
    assert_eq!(bar.close, px("100.00"));
    assert_eq!(bar.volume, qty("5"));
    assert_eq!(bar.trades, 1);
    assert_eq!(bar.delta(), qty("5"));
    assert!(!bar.closed);
}

#[test]
fn tracks_ohlc_across_trades() {
    let mut bar = Bar::open(
        Ts::from_millis(0),
        &trade(0, "100.00", "1", Side::Buy),
        px("0.25"),
    );
    bar.apply(&trade(1, "101.00", "1", Side::Buy));
    bar.apply(&trade(2, "99.00", "1", Side::Sell));
    bar.apply(&trade(3, "100.50", "1", Side::Buy));

    assert_eq!(bar.open, px("100.00"));
    assert_eq!(bar.high, px("101.00"));
    assert_eq!(bar.low, px("99.00"));
    assert_eq!(bar.close, px("100.50"));
    assert_eq!(bar.range(), px("2.00"));
    assert_eq!(bar.volume, qty("4"));
    assert_eq!(bar.trades, 4);
    assert_eq!(bar.close_ts, Ts::from_millis(3));
    assert!(bar.is_up());
}

#[test]
fn delta_and_side_volume_agree_with_the_ladder() {
    let mut bar = Bar::open(
        Ts::from_millis(0),
        &trade(0, "100.00", "7", Side::Buy),
        px("0.25"),
    );
    bar.apply(&trade(1, "100.00", "3", Side::Sell));

    assert_eq!(bar.side_volume(Side::Buy), qty("7"));
    assert_eq!(bar.side_volume(Side::Sell), qty("3"));
    assert_eq!(bar.delta(), qty("4"));
    assert_eq!(bar.volume, bar.clusters.total_volume());
}

#[test]
fn down_bar_is_not_up() {
    let mut bar = Bar::open(
        Ts::from_millis(0),
        &trade(0, "100.00", "1", Side::Buy),
        px("0.25"),
    );
    bar.apply(&trade(1, "99.00", "1", Side::Sell));
    assert!(!bar.is_up());
}

#[test]
fn poc_comes_from_the_ladder() {
    let mut bar = Bar::open(
        Ts::from_millis(0),
        &trade(0, "100.00", "1", Side::Buy),
        px("0.25"),
    );
    bar.apply(&trade(1, "100.25", "50", Side::Buy));
    assert_eq!(bar.poc().unwrap(), px("100.25"));
}
