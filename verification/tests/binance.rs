//! Binance wire format.

use atas::feed::binance::{
    agg_trade_stream, aggressor_from_maker_flag, depth_stream, depth_update_first_id,
    parse_agg_trades, parse_depth_snapshot, parse_message, parse_trade, symbol_of,
};
use atas::feed::error::FeedError;
use atas::feed::json::parse_json;
use atas::primitives::fixed::{Price, Qty};
use atas::primitives::market::{MarketEvent, Side};
use atas::primitives::time::Ts;


/// A real-shaped aggTrade payload.
const AGG_TRADE: &str = r#"{
    "e":"aggTrade","E":1672515782136,"s":"BTCUSDT","a":26129,
    "p":"16578.50","q":"0.00385","f":27781,"l":27781,
    "T":1672515782130,"m":true,"M":true
}"#;

#[test]
fn maker_flag_inverts_into_the_aggressor() {
    // The whole platform's delta sign hangs on these two lines.
    assert_eq!(aggressor_from_maker_flag(true), Side::Sell);
    assert_eq!(aggressor_from_maker_flag(false), Side::Buy);
}

#[test]
fn parses_an_agg_trade() {
    let value = parse_json(AGG_TRADE).unwrap();
    let trade = parse_trade(&value).unwrap();

    assert_eq!(trade.price, Price::parse("16578.50").unwrap());
    assert_eq!(trade.qty, Qty::parse("0.00385").unwrap());
    assert_eq!(trade.id, 26129);
    // m == true, so the seller was the aggressor.
    assert_eq!(trade.aggressor, Side::Sell);
    // T (trade time), not E (event time).
    assert_eq!(trade.ts, Ts::from_millis(1_672_515_782_130));
}

#[test]
fn buyer_aggressor_is_recognised() {
    let raw = AGG_TRADE.replace("\"m\":true", "\"m\":false");
    let value = parse_json(&raw).unwrap();
    assert_eq!(parse_trade(&value).unwrap().aggressor, Side::Buy);
}

#[test]
fn signed_quantity_follows_the_maker_flag() {
    // An end-to-end check that delta comes out with the right sign.
    let value = parse_json(AGG_TRADE).unwrap();
    let sell = parse_trade(&value).unwrap();
    assert!(sell.signed_qty().is_negative(), "m=true must give -qty");

    let raw = AGG_TRADE.replace("\"m\":true", "\"m\":false");
    let value = parse_json(&raw).unwrap();
    assert!(parse_trade(&value).unwrap().signed_qty().is_positive());
}

#[test]
fn unwraps_a_combined_stream_envelope() {
    let raw = format!(r#"{{"stream":"btcusdt@aggTrade","data":{AGG_TRADE}}}"#);
    let event = parse_message(&raw).unwrap();
    let MarketEvent::Trade(trade) = event else {
        panic!("expected a trade, got {event:?}");
    };
    assert_eq!(trade.id, 26129);
    assert_eq!(symbol_of(&parse_json(&raw).unwrap()), Some("BTCUSDT"));
}

#[test]
fn parses_a_depth_update() {
    let raw = r#"{
        "e":"depthUpdate","E":1672515782136,"s":"BTCUSDT",
        "U":157,"u":160,
        "b":[["16578.00","2.5"],["16577.50","0"]],
        "a":[["16579.00","1.25"]]
    }"#;
    let event = parse_message(raw).unwrap();
    let MarketEvent::BookDelta {
        ts,
        bids,
        asks,
        sequence,
    } = event
    else {
        panic!("expected a book delta");
    };

    assert_eq!(ts, Ts::from_millis(1_672_515_782_136));
    assert_eq!(sequence, 160, "the book stores the final id");
    assert_eq!(bids.len(), 2);
    assert_eq!(bids[0], (Price::parse("16578.00").unwrap(), Qty::parse("2.5").unwrap()));
    // A zero quantity is a removal and must survive parsing as zero.
    assert_eq!(bids[1].1, Qty::zero());
    assert_eq!(asks.len(), 1);

    let value = parse_json(raw).unwrap();
    assert_eq!(depth_update_first_id(&value).unwrap(), 157);
}

#[test]
fn a_one_sided_depth_update_parses() {
    let raw = r#"{"e":"depthUpdate","E":1,"s":"BTCUSDT","U":1,"u":2,"b":[["100","1"]]}"#;
    let MarketEvent::BookDelta { bids, asks, .. } = parse_message(raw).unwrap() else {
        panic!("expected a book delta");
    };
    assert_eq!(bids.len(), 1);
    assert!(asks.is_empty());
}

#[test]
fn parses_a_rest_depth_snapshot() {
    let raw = r#"{
        "lastUpdateId":1027024,
        "bids":[["16578.00","2.5"]],
        "asks":[["16579.00","1.25"],["16580.00","3"]]
    }"#;
    let event = parse_depth_snapshot(raw, Ts::from_millis(5)).unwrap();
    let MarketEvent::BookSnapshot {
        ts,
        bids,
        asks,
        sequence,
    } = event
    else {
        panic!("expected a snapshot");
    };
    assert_eq!(ts, Ts::from_millis(5));
    assert_eq!(sequence, 1_027_024);
    assert_eq!(bids.len(), 1);
    assert_eq!(asks.len(), 2);
}

#[test]
fn parses_a_rest_backfill_page() {
    let raw = r#"[
        {"a":1,"p":"100.00","q":"1","f":1,"l":1,"T":1000,"m":false,"M":true},
        {"a":2,"p":"100.50","q":"2","f":2,"l":2,"T":2000,"m":true,"M":true}
    ]"#;
    let trades = parse_agg_trades(raw).unwrap();
    assert_eq!(trades.len(), 2);
    assert_eq!(trades[0].aggressor, Side::Buy);
    assert_eq!(trades[1].aggressor, Side::Sell);
    assert!(trades[0].ts <= trades[1].ts, "backfill must stay ordered");
}

#[test]
fn unknown_message_kinds_are_reported_not_guessed() {
    let raw = r#"{"e":"kline","E":1,"s":"BTCUSDT"}"#;
    assert!(matches!(parse_message(raw), Err(FeedError::Unhandled(k)) if k == "kline"));
}

#[test]
fn a_trade_without_the_maker_flag_is_rejected() {
    // Better to fail loudly than to default the aggressor and invent flow.
    let raw = r#"{"e":"aggTrade","E":1,"s":"BTCUSDT","a":1,"p":"1","q":"1","T":1}"#;
    assert!(matches!(
        parse_message(raw),
        Err(FeedError::MissingField { field: "m", .. })
    ));
}

#[test]
fn malformed_json_is_an_error() {
    assert!(matches!(parse_message("{not json"), Err(FeedError::Json(_))));
}

#[test]
fn builds_stream_names() {
    assert_eq!(agg_trade_stream("BTCUSDT"), "btcusdt@aggTrade");
    assert_eq!(depth_stream("BTCUSDT"), "btcusdt@depth@100ms");
}
