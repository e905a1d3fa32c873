//! One input for every error the library names, and exact values of its
//! formulas.

use atas::engine::aggregator::{Aggregator, BarSpec, SpecError};
use atas::engine::ladder::{LadderSpec, LadderSpecError};
use atas::feed::error::FeedError;
use atas::feed::json::{parse_json, price_field, str_field, uint_field};
use atas::feed::sync::{DepthSynchroniser, SyncError};
use atas::primitives::book::{BookError, OrderBook};
use atas::primitives::fixed::{
    clamp_wide, display_minor, format_minor, parse_minor, quotient, ParseFixedError, Price, Qty,
    Rounding,
};
use atas::primitives::instrument::{decimals_for, Instrument, Venue};
use atas::primitives::market::{Side, Trade};
use atas::primitives::ratio::Ratio;
use atas::primitives::time::Ts;
use atas::session::config::{ConfigError, SessionConfig};
use atas::session::state::Session;
use atas::store::error::StoreError;
use atas::store::record::{decode, encode, RecordError};
use atas::store::segment::{parse_segment_name, record_count, segment_name, whole_len, Segment};
use atas::store::tick_store::TickStore;
use atas::trading::engine::{PaperEngine, TradingConfig};
use atas::trading::order::{OrderRequest, RejectReason};
use atas::trading::position::weighted_average;

fn px(s: &str) -> Price {
    Price::parse(s).unwrap()
}
fn qty(s: &str) -> Qty {
    Qty::parse(s).unwrap()
}
fn instrument() -> Instrument {
    Instrument::spot("TEST", Venue::Sim, px("0.25"), qty("1"))
}
fn trade(nanos: i64) -> Trade {
    Trade::new(Ts(nanos), px("100"), qty("1"), Side::Buy, 1)
}

#[test]
fn every_parse_failure_is_told_apart() {
    assert_eq!(parse_minor("  "), Err(ParseFixedError::Empty));
    assert_eq!(parse_minor("-"), Err(ParseFixedError::Empty));
    assert_eq!(parse_minor("1a"), Err(ParseFixedError::InvalidChar('a')));
    assert_eq!(parse_minor("1.2.3"), Err(ParseFixedError::MultipleDecimalPoints));
    assert_eq!(parse_minor("92233720369"), Err(ParseFixedError::OutOfRange));
    assert_eq!(parse_minor("-1.5"), Ok(-150_000_000));
}

#[test]
fn text_forms_are_exact() {
    assert_eq!(display_minor(-150_000_000), "-1.5");
    assert_eq!(display_minor(10_000_000_000), "100.0");
    assert_eq!(display_minor(1), "0.00000001");
    assert_eq!(format_minor(-150_000_000, 2), "-1.50");
    assert_eq!(format_minor(199_999_999, 1), "1.9");
    assert_eq!(Ts(1_500_000_000).to_string(), "1.500000000");
}

#[test]
fn wide_results_clamp_and_divide_toward_zero() {
    assert_eq!(clamp_wide(i64::MAX as i128 + 1), i64::MAX);
    assert_eq!(clamp_wide(i64::MIN as i128 - 1), i64::MIN);
    assert_eq!(clamp_wide(-7), -7);
    assert_eq!(quotient(-7, 2), -3);
    assert_eq!(quotient(7, -2), -3);
}

#[test]
fn rounding_modes_differ_between_ticks() {
    let tick = px("0.25");
    assert_eq!(px("-0.3").round_to_tick(tick, Rounding::Down), px("-0.5"));
    assert_eq!(px("-0.3").round_to_tick(tick, Rounding::Up), px("-0.25"));
    assert_eq!(px("-0.3").round_to_tick(tick, Rounding::Nearest), px("-0.25"));
    assert_eq!(px("0.125").round_to_tick(tick, Rounding::Nearest), px("0.25"));
}

#[test]
fn precision_is_read_off_an_increment() {
    assert_eq!(decimals_for(1_000_000), 2);
    assert_eq!(decimals_for(25_000_000), 2);
    assert_eq!(decimals_for(100_000_000), 0);
    assert_eq!(decimals_for(1), 8);
}

#[test]
fn ratios_compare_exactly() {
    let three = Ratio::new(3, 1);
    assert!(three.reached_by(Qty(3), Qty(1)));
    assert!(!three.reached_by(Qty(2), Qty(1)));
    assert_eq!(Ratio::new(7, 10).share(Qty(10)), Qty(7));
}

#[test]
fn a_ladder_needs_a_tick_and_a_row() {
    assert_eq!(LadderSpec::new(Price(0), 1), Err(LadderSpecError::NonPositiveTick));
    assert_eq!(LadderSpec::new(Price(1), 0), Err(LadderSpecError::EmptyRow));
    assert_eq!(
        LadderSpec::new(Price(i64::MAX), 2),
        Err(LadderSpecError::RowOutOfRange)
    );
    let spec = LadderSpec::new(px("0.25"), 4).unwrap();
    assert_eq!(spec.row_size(), px("1"));
}

#[test]
fn a_degenerate_rule_is_named() {
    assert!(matches!(
        Aggregator::new(&instrument(), BarSpec::Tick { count: 0 }),
        Err(SpecError::NonPositive(_))
    ));
    let failed = Session::new(
        instrument(),
        SessionConfig { bar_spec: BarSpec::Range { ticks: 0 }, ..Default::default() },
    );
    assert!(matches!(failed, Err(ConfigError::BarSpec(SpecError::NonPositive(_)))));
    let failed = Session::new(
        instrument(),
        SessionConfig { ticks_per_row: 0, ..Default::default() },
    );
    assert!(matches!(failed, Err(ConfigError::Ladder(LadderSpecError::EmptyRow))));
}

#[test]
fn a_book_refuses_what_it_cannot_place() {
    let mut book = OrderBook::new();
    assert_eq!(
        book.apply_delta(Ts(1), &[], &[], 1),
        Err(BookError::NotInitialised)
    );
    book.apply_snapshot(Ts(1), &[(px("1"), qty("1"))], &[], 5);
    assert_eq!(
        book.apply_delta(Ts(2), &[], &[], 5),
        Err(BookError::StaleSequence { received: 5, current: 5 })
    );
    assert_eq!(book.apply_delta(Ts(2), &[(px("1"), qty("0"))], &[], 6), Ok(()));
    assert_eq!(book.level_count(), (0, 0));
}

#[test]
fn an_order_is_refused_for_each_reason() {
    let mut engine = PaperEngine::new(
        instrument(),
        TradingConfig {
            max_position: Some(qty("5")),
            max_working_orders: 1,
            ..Default::default()
        },
    );
    let mut book = OrderBook::new();
    let now = Ts(1);
    assert_eq!(
        engine.submit(OrderRequest::market(Side::Buy, qty("0")), &book, now).unwrap_err(),
        RejectReason::NonPositiveQty
    );
    assert_eq!(
        engine
            .submit(OrderRequest::limit(Side::Buy, qty("1"), px("0")), &book, now)
            .unwrap_err(),
        RejectReason::NonPositivePrice
    );
    assert_eq!(
        engine.submit(OrderRequest::market(Side::Buy, qty("1")), &book, now).unwrap_err(),
        RejectReason::NoMarket
    );
    assert_eq!(
        engine.submit(OrderRequest::market(Side::Buy, qty("6")), &book, now).unwrap_err(),
        RejectReason::PositionLimit { limit: qty("5") }
    );
    book.apply_snapshot(now, &[(px("99"), qty("1"))], &[(px("100"), qty("1"))], 1);
    let resting = OrderRequest::limit(Side::Buy, qty("1"), px("90"));
    assert!(engine.submit(resting, &book, now).is_ok());
    assert_eq!(
        engine
            .submit(OrderRequest::limit(Side::Buy, qty("1"), px("91")), &book, now)
            .unwrap_err(),
        RejectReason::TooManyOrders { limit: 1 }
    );
}

#[test]
fn an_average_weighs_its_quantities() {
    assert_eq!(
        weighted_average(px("100"), qty("1"), px("103"), qty("2")),
        px("102")
    );
}

#[test]
fn a_store_names_what_it_refuses() {
    let (mut store, removed) = TickStore::open_dir(&[]);
    assert!(removed.is_empty());
    let first = [trade(10)];
    assert_eq!(store.append_batch(&first), Ok(()));
    let write = store.next_write(0, 1);
    assert_eq!((write.index, write.create, write.from, write.to), (0, true, 0, 1));
    store.commit(&write, &first);
    assert_eq!(
        store.append_batch(&[trade(9)]),
        Err(StoreError::OutOfOrder { received: Ts(9), last: Ts(10) })
    );
    assert_eq!(TickStore::check_marker(None, false), Ok(true));
    assert_eq!(TickStore::check_marker(Some("1"), true), Ok(false));
    assert_eq!(TickStore::check_marker(None, true), Err(StoreError::NotAStore));
    assert_eq!(
        TickStore::check_marker(Some("7"), true),
        Err(StoreError::UnsupportedVersion { found: 7, expected: 1 })
    );
}

#[test]
fn an_unknown_flag_stops_a_scan() {
    let mut record = encode(&trade(3));
    record[32] = 8;
    assert_eq!(decode(&record), Err(RecordError::UnknownFlags(8)));
    let segment = Segment::open(0, 1, Ts(3), Ts(3));
    let mut scan = segment.scan_from(0, Ts(9));
    assert_eq!(scan.position(), Some(0));
    assert_eq!(
        scan.on_record(&record),
        Err(StoreError::Record(RecordError::UnknownFlags(8)))
    );
}

#[test]
fn segment_files_are_named_and_measured() {
    assert_eq!(segment_name(42), "seg-000042.tick");
    assert_eq!(parse_segment_name("seg-000042.tick"), Some(42));
    assert_eq!(parse_segment_name("seg-42.tock"), None);
    assert_eq!(record_count(119), 2);
    assert_eq!(whole_len(119), 80);
}

#[test]
fn a_snapshot_behind_the_buffer_is_named() {
    let mut sync: DepthSynchroniser<u8> = DepthSynchroniser::new();
    sync.on_delta(20, 21, 1);
    assert_eq!(
        sync.on_snapshot(5),
        Err(SyncError::SnapshotTooOld { snapshot: 5, first_buffered: 20 })
    );
}

#[test]
fn a_field_fails_by_absence_kind_or_value() {
    let value = parse_json(r#"{"s":1,"n":"x","p":"1..2"}"#).unwrap();
    assert!(matches!(
        str_field(&value, "absent", "test"),
        Err(FeedError::MissingField { field: "absent", context: "test" })
    ));
    match str_field(&value, "s", "test") {
        Err(FeedError::BadField { field, context, value }) => {
            assert_eq!((field, context, value.as_str()), ("s", "test", "1"));
        }
        other => panic!("{other:?}"),
    }
    assert!(matches!(
        uint_field(&value, "n", "test"),
        Err(FeedError::BadField { field: "n", .. })
    ));
    assert!(matches!(
        price_field(&value, "p", "test"),
        Err(FeedError::BadNumber { source: ParseFixedError::MultipleDecimalPoints, .. })
    ));
    assert!(matches!(parse_json("{"), Err(FeedError::Json(_))));
}
