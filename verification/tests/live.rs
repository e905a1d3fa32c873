//! What a live connection decides, without a socket.

use atas::feed::backoff::Backoff;
use atas::feed::error::FeedError;
use atas::feed::json::parse_json;
use atas::feed::live::{
    bybit_events, ping_is_due, reconnect_delay, snapshot_url, stream_url, BinanceLink, LinkStep,
    LiveOptions, BINANCE_REST_DATA, BINANCE_WS_DATA,
};
use atas::primitives::fixed::{Price, Qty};
use atas::primitives::market::{MarketEvent, Side};
use atas::primitives::time::Ts;

fn depth(first: u64, last: u64, price: &str) -> String {
    format!(
        r#"{{"e":"depthUpdate","E":1700000000000,"s":"BTCUSDT","U":{first},"u":{last},"b":[["{price}","2"]],"a":[]}}"#
    )
}

fn snapshot(id: u64) -> String {
    format!(r#"{{"lastUpdateId":{id},"bids":[["99","1"]],"asks":[["101","1"]]}}"#)
}

#[test]
fn the_default_options_use_the_market_data_hosts() {
    let options = LiveOptions::default();
    assert_eq!(options.ws_base, BINANCE_WS_DATA);
    assert_eq!(options.rest_base, BINANCE_REST_DATA);
    assert_eq!(options.snapshot_depth, 1_000);
    assert_eq!(options.read_timeout_nanos, 30_000_000_000);
    assert_eq!(options.channel_capacity, 65_536);
    assert_eq!(options.backoff.ceiling(), 500_000_000);
}

#[test]
fn stream_names_are_lower_case_and_snapshot_symbols_upper_case() {
    let options = LiveOptions::default();
    assert_eq!(
        stream_url(&options, "BtcUSDT"),
        "wss://data-stream.binance.vision/stream?streams=btcusdt@aggTrade/btcusdt@depth@100ms"
    );
    assert_eq!(
        snapshot_url(&options, "btcUsdt"),
        "https://data-api.binance.vision/api/v3/depth?symbol=BTCUSDT&limit=1000"
    );
}

#[test]
fn the_configured_hosts_are_used() {
    let options = LiveOptions {
        ws_base: "ws://localhost/".to_string(),
        rest_base: "http://localhost".to_string(),
        snapshot_depth: 5,
        ..LiveOptions::default()
    };
    assert_eq!(
        stream_url(&options, "ETHUSDT"),
        "ws://localhost/ethusdt@aggTrade/ethusdt@depth@100ms"
    );
    assert_eq!(
        snapshot_url(&options, "ETHUSDT"),
        "http://localhost/api/v3/depth?symbol=ETHUSDT&limit=5"
    );
}

#[test]
fn a_long_lived_connection_starts_the_backoff_over() {
    let mut backoff = Backoff::new(1_000, 1_000_000);
    for _ in 0..5 {
        reconnect_delay(&mut backoff, 1);
    }
    assert_eq!(backoff.attempt(), 5);
    let delay = reconnect_delay(&mut backoff, 60_000_000_000);
    assert!(delay <= 32_000);
    assert_eq!(backoff.attempt(), 6);
    let delay = reconnect_delay(&mut backoff, 60_000_000_001);
    assert!(delay <= 1_000);
    assert_eq!(backoff.attempt(), 1);
}

#[test]
fn an_idle_connection_is_pinged_after_twenty_seconds() {
    assert!(!ping_is_due(20_000_000_000));
    assert!(ping_is_due(20_000_000_001));
}

#[test]
fn a_trade_frame_is_sent_on() {
    let mut link = BinanceLink::new();
    let frame = r#"{"stream":"btcusdt@aggTrade","data":{"e":"aggTrade","E":1,"s":"BTCUSDT","a":7,"p":"100.5","q":"2","f":1,"l":1,"T":1700000000001,"m":true}}"#;
    match link.on_text(frame) {
        Ok(LinkStep::Send(MarketEvent::Trade(trade))) => {
            assert_eq!(trade.price, Price::parse("100.5").unwrap());
            assert_eq!(trade.qty, Qty::from_units(2));
            assert_eq!(trade.aggressor, Side::Sell);
            assert_eq!(trade.id, 7);
            assert_eq!(trade.ts, Ts::from_millis(1_700_000_000_001));
        }
        other => panic!("{other:?}"),
    }
}

#[test]
fn frames_that_are_neither_trade_nor_depth_lead_to_nothing() {
    let mut link = BinanceLink::new();
    assert_eq!(link.on_text(r#"{"result":null,"id":1}"#).unwrap(), LinkStep::Nothing);
    assert_eq!(link.on_text(r#"{"e":"kline"}"#).unwrap(), LinkStep::Nothing);
    assert!(matches!(link.on_text("{"), Err(FeedError::Json(_))));
    assert!(matches!(
        link.on_text(r#"{"e":"depthUpdate"}"#),
        Err(FeedError::MissingField { field: "U", .. })
    ));
}

#[test]
fn the_handshake_fetches_one_snapshot_and_applies_what_joins_on() {
    let mut link = BinanceLink::new();
    assert_eq!(link.on_text(&depth(11, 12, "98")).unwrap(), LinkStep::FetchSnapshot);
    assert_eq!(link.on_text(&depth(13, 14, "97")).unwrap(), LinkStep::Nothing);

    let events = link.on_snapshot(&snapshot(12), Ts::from_millis(5)).unwrap();
    assert_eq!(events.len(), 2);
    match &events[0] {
        MarketEvent::BookSnapshot { ts, bids, asks, sequence } => {
            assert_eq!(*ts, Ts::from_millis(5));
            assert_eq!(bids, &vec![(Price::from_units(99), Qty::from_units(1))]);
            assert_eq!(asks, &vec![(Price::from_units(101), Qty::from_units(1))]);
            assert_eq!(*sequence, 12);
        }
        other => panic!("{other:?}"),
    }
    assert!(matches!(&events[1], MarketEvent::BookDelta { sequence: 14, .. }));

    assert!(matches!(
        link.on_text(&depth(15, 15, "96")).unwrap(),
        LinkStep::Send(MarketEvent::BookDelta { sequence: 15, .. })
    ));
    assert_eq!(link.on_text(&depth(15, 15, "96")).unwrap(), LinkStep::Nothing);
}

#[test]
fn a_gap_resynchronises_and_the_next_update_fetches_again() {
    let mut link = BinanceLink::new();
    link.on_text(&depth(1, 1, "98")).unwrap();
    link.on_snapshot(&snapshot(1), Ts::epoch()).unwrap();
    assert_eq!(link.resyncs(), 0);
    assert_eq!(link.on_text(&depth(9, 9, "98")).unwrap(), LinkStep::Resynchronise);
    assert_eq!(link.resyncs(), 1);
    assert_eq!(link.on_text(&depth(10, 10, "98")).unwrap(), LinkStep::FetchSnapshot);
}

#[test]
fn an_old_snapshot_is_not_used_and_another_is_asked_for() {
    let mut link = BinanceLink::new();
    assert_eq!(link.on_text(&depth(50, 51, "98")).unwrap(), LinkStep::FetchSnapshot);
    let events = link.on_snapshot(&snapshot(10), Ts::epoch()).unwrap();
    assert!(events.is_empty());
    assert_eq!(link.on_text(&depth(52, 53, "98")).unwrap(), LinkStep::FetchSnapshot);
}

#[test]
fn a_snapshot_that_cannot_be_read_changes_nothing() {
    let mut link = BinanceLink::new();
    link.on_text(&depth(2, 2, "98")).unwrap();
    assert!(matches!(link.on_snapshot("nope", Ts::epoch()), Err(FeedError::Json(_))));
    assert!(matches!(
        link.on_snapshot("{}", Ts::epoch()),
        Err(FeedError::MissingField { field: "lastUpdateId", .. })
    ));
    assert_eq!(link.on_snapshot(&snapshot(1), Ts::epoch()).unwrap().len(), 2);
}

#[test]
fn decoded_messages_are_routed_like_frames() {
    let mut link = BinanceLink::new();
    let value = parse_json(&depth(3, 4, "98")).unwrap();
    assert_eq!(link.route(&value).unwrap(), LinkStep::FetchSnapshot);
    let snapshot = MarketEvent::BookSnapshot {
        ts: Ts::epoch(),
        bids: vec![],
        asks: vec![],
        sequence: 2,
    };
    let events = link.release(snapshot.clone());
    assert_eq!(events.len(), 2);
    assert_eq!(events[0], snapshot);
}

#[test]
fn unreadable_bybit_frames_give_no_events() {
    assert!(bybit_events("not json").is_empty());
    assert!(bybit_events(r#"{"op":"pong"}"#).is_empty());
    let frame = r#"{"topic":"publicTrade.BTCUSDT","type":"snapshot","ts":1,"data":[{"T":1700000000000,"s":"BTCUSDT","S":"Buy","v":"0.5","p":"100","i":"x"}]}"#;
    let events = bybit_events(frame);
    assert_eq!(events.len(), 1);
    assert!(matches!(&events[0], MarketEvent::Trade(t) if t.aggressor == Side::Buy));
}
