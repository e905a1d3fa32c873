//! Promises that span calls, on concrete values.

use atas::engine::bar::Bar;
use atas::engine::cluster::ClusterLadder;
use atas::feed::error::FeedError;
use atas::feed::source::{drain, read_once, Feed};
use atas::feed::sync::{DepthSynchroniser, SyncAction, SyncError, SyncState};
use atas::indicators::tpo::TpoProfile;
use atas::primitives::book::{BookError, OrderBook};
use atas::primitives::fixed::{format_minor, parse_minor, ParseFixedError, Price, Qty};
use atas::primitives::instrument::{Instrument, Venue};
use atas::primitives::market::{MarketEvent, Side, Trade};
use atas::primitives::ratio::Ratio;
use atas::primitives::time::Ts;
use atas::engine::aggregator::{Aggregator, BarSpec};
use atas::session::config::SessionConfig;
use atas::session::driver::{CollectingSink, SessionDriver};
use atas::session::state::Session;
use atas::store::segment::{segment_name, Segment};
use atas::store::tick_store::TickStore;
use atas::trading::engine::{PaperEngine, TradingConfig};
use atas::trading::order::{OrderRequest, OrderStatus, OrderType, TimeInForce};

fn px(s: &str) -> Price {
    Price::parse(s).unwrap()
}
fn qty(s: &str) -> Qty {
    Qty::parse(s).unwrap()
}
fn instrument() -> Instrument {
    Instrument::spot("TEST", Venue::Sim, px("0.25"), qty("1"))
}
fn trade(ms: i64, price: &str, q: &str, side: Side) -> Trade {
    Trade::new(Ts::from_millis(ms), px(price), qty(q), side, ms as u64)
}

#[test]
fn a_hole_among_buffered_updates_refuses_the_snapshot() {
    let mut s = DepthSynchroniser::<&str>::new();
    s.on_delta(11, 12, "a");
    s.on_delta(20, 25, "b");
    assert_eq!(
        s.on_snapshot(10),
        Err(SyncError::SnapshotTooOld { snapshot: 10, first_buffered: 11 })
    );
    assert_eq!(s.state(), SyncState::AwaitingSnapshot);
    assert_eq!((s.resyncs(), s.buffered()), (1, 0));
}

#[test]
fn overlapping_buffered_updates_join_on() {
    let mut s = DepthSynchroniser::<&str>::new();
    s.on_delta(9, 14, "a");
    s.on_delta(12, 13, "b");
    s.on_delta(15, 18, "c");
    assert_eq!(s.on_snapshot(10), Ok(vec!["a", "b", "c"]));
    assert_eq!(s.state(), SyncState::Live);
    assert_eq!(s.last_applied(), 18);
}

#[test]
fn no_run_of_calls_outgrows_the_buffer() {
    let mut s = DepthSynchroniser::<u64>::new().with_buffer_limit(2);
    for id in 0..9u64 {
        let room = s.buffered() < 2;
        let resyncs = s.resyncs();
        let (action, applied) = s.on_delta(id, id, id);
        assert_eq!(applied, None);
        assert_eq!(action, if room { SyncAction::Buffer } else { SyncAction::Resync });
        assert_eq!(s.resyncs(), resyncs + u64::from(!room));
        assert!(s.buffered() <= 2);
    }
    s.restart();
    assert_eq!(s.buffered(), 0);
}

#[test]
fn a_reset_clears_flagged_prints_and_keeps_the_position() {
    let mut s = Session::new(
        instrument(),
        SessionConfig {
            bar_spec: BarSpec::Tick { count: 3 },
            big_trade_threshold: qty("50"),
            ..Default::default()
        },
    )
    .unwrap();
    s.on_market_event(&MarketEvent::Trade(trade(1, "100.00", "500", Side::Buy)));
    assert_eq!(s.big_trades().len(), 1);
    let held = s.engine().position().qty;
    s.reset_session();
    assert!(s.big_trades().is_empty());
    assert!(s.bars().is_empty());
    assert!(s.forming_bar().is_none());
    assert!(s.snapshot().tape.is_empty());
    assert_eq!(s.engine().position().qty, held);
}

#[test]
fn the_bracket_in_progress_counts() {
    let mut t = TpoProfile::new(px("0.25"), 60_000_000_000);
    assert_eq!(t.bracket_count(), 0);
    let first = trade(0, "100.00", "1", Side::Buy);
    t.add_bar(&Bar::open(first.ts, &first, px("0.25")));
    assert_eq!(t.bracket_count(), 1);
    let second = trade(60_000, "100.25", "1", Side::Buy);
    t.add_bar(&Bar::open(second.ts, &second, px("0.25")));
    assert_eq!(t.bracket_count(), 2);
    t.finish();
    assert_eq!(t.bracket_count(), 2);
}

#[test]
fn an_underscore_is_no_digit() {
    assert_eq!(parse_minor("1_000"), Err(ParseFixedError::InvalidChar('_')));
}

#[test]
fn all_places_read_back() {
    for minor in [0, 1, -1, 123_456_789, i64::MAX, i64::MIN] {
        assert_eq!(parse_minor(&format_minor(minor, 8)), Ok(minor));
    }
}

#[test]
fn the_book_sequence_is_the_largest_accepted() {
    let mut book = OrderBook::new();
    book.apply_snapshot(Ts(1), &[(px("99"), qty("1"))], &[], 10);
    assert_eq!(book.apply_delta(Ts(2), &[], &[], 12), Ok(()));
    assert_eq!(book.apply_delta(Ts(3), &[], &[], 0), Ok(()));
    assert_eq!(
        book.apply_delta(Ts(4), &[], &[], 11),
        Err(BookError::StaleSequence { received: 11, current: 12 })
    );
    assert_eq!(book.sequence(), 12);
}

#[test]
fn stacks_are_the_maximal_runs() {
    let mut ladder = ClusterLadder::new(px("1"));
    for (price, ask) in [("101", "9"), ("102", "9"), ("103", "9"), ("106", "9")] {
        ladder.add(px(price), qty(ask), Side::Buy);
    }
    for price in ["100", "101", "102", "104", "105"] {
        ladder.add(px(price), qty("1"), Side::Sell);
    }
    let ratio = Ratio::new(3, 1);
    let found = ladder.imbalances(ratio, qty("2"));
    let stacks = ladder.stacked_imbalances(ratio, qty("2"), 2);
    assert_eq!(stacks.len(), 1);
    let prices: Vec<Price> = stacks[0].iter().map(|i| i.price).collect();
    assert_eq!(prices, vec![px("101"), px("102"), px("103")]);
    assert!(found.iter().any(|i| i.price == px("106")));
}

#[test]
fn every_bar_holds_a_trade() {
    let mut aggregator =
        Aggregator::new(&instrument(), BarSpec::Volume { threshold: qty("5") }).unwrap();
    let mut bars = Vec::new();
    for i in 0..7 {
        let print = trade(i, "100.00", "3", Side::Buy);
        bars.extend(aggregator.on_trade(&print).iter().map(|b| (b.closed, b.trades)));
    }
    bars.extend(aggregator.flush().iter().map(|b| (b.closed, b.trades)));
    assert!(bars.iter().all(|(closed, trades)| *closed && *trades > 0));
    assert_eq!(bars.iter().map(|(_, trades)| trades).sum::<u32>(), 7);
}

#[test]
fn a_market_order_beyond_the_book_is_not_filled() {
    let mut engine = PaperEngine::new(instrument(), TradingConfig::default());
    let mut book = OrderBook::new();
    book.apply_snapshot(Ts(1), &[], &[(px("100"), qty("3")), (px("101"), qty("4"))], 1);
    let out = engine.submit(OrderRequest::market(Side::Buy, qty("10")), &book, Ts(2)).unwrap();
    assert_eq!(out.order.filled, qty("7"));
    assert_eq!(out.order.status, OrderStatus::Cancelled);
    assert_eq!(out.order.closed, Some(Ts(2)));
    assert_eq!(engine.position().qty, qty("7"));
    assert!(engine.working_orders().is_empty());

    let whole = engine.submit(OrderRequest::market(Side::Buy, qty("7")), &book, Ts(3)).unwrap();
    assert_eq!(whole.order.status, OrderStatus::Filled);
}

#[test]
fn a_session_told_to_keep_nothing_keeps_nothing() {
    let mut config = SessionConfig::default();
    config.bar_spec = BarSpec::Tick { count: 1 };
    config.tape_length = 0;
    config.bar_history = 0;
    let mut session = Session::new(instrument(), config).unwrap();
    for i in 0..3 {
        let events =
            session.on_market_event(&MarketEvent::Trade(trade(i, "100.00", "1", Side::Buy)));
        assert!(!events.is_empty(), "the print is still told of");
    }
    assert_eq!(session.bars().len(), 0);
    assert!(session.snapshot().tape.is_empty());
}

fn asks(levels: &[(Price, Qty)]) -> OrderBook {
    let mut book = OrderBook::new();
    book.apply_snapshot(Ts(1), &[], levels, 1);
    book
}

#[test]
fn a_fired_stop_does_not_rest() {
    let thin = asks(&[(px("101"), qty("2"))]);
    for (book, tif, filled) in [
        (OrderBook::new(), TimeInForce::Gtc, "0"),
        (thin.clone(), TimeInForce::Gtc, "2"),
        (thin.clone(), TimeInForce::Ioc, "2"),
        (thin.clone(), TimeInForce::Fok, "0"),
    ] {
        let mut engine = PaperEngine::new(instrument(), TradingConfig::default());
        let stop = OrderRequest::stop(Side::Buy, qty("5"), px("101")).with_tif(tif);
        let id = engine.submit(stop, &book, Ts(1)).unwrap().order.id;
        engine.on_trade(&trade(2, "101", "1", Side::Buy), &book);
        let order = engine.order(id).unwrap();
        assert_eq!(order.status, OrderStatus::Cancelled);
        assert_eq!(order.filled, qty(filled));
        assert_eq!(order.closed, Some(Ts::from_millis(2)));
        assert_eq!(engine.position().qty, qty(filled));
        assert!(engine.working_orders().is_empty());
    }
}

#[test]
fn a_fired_stop_that_the_book_holds_is_filled() {
    let book = asks(&[(px("101"), qty("2")), (px("102"), qty("9"))]);
    let mut engine = PaperEngine::new(instrument(), TradingConfig::default());
    let stop = OrderRequest::stop(Side::Buy, qty("5"), px("101")).with_tif(TimeInForce::Fok);
    let id = engine.submit(stop, &book, Ts(1)).unwrap().order.id;
    assert_eq!(engine.on_trade(&trade(2, "101", "1", Side::Buy), &book).len(), 2);
    assert_eq!(engine.order(id).unwrap().status, OrderStatus::Filled);
}

#[test]
fn a_stop_limit_that_may_not_rest_ends() {
    let book = OrderBook::new();
    for (tif, status, filled) in [
        (TimeInForce::Gtc, OrderStatus::PartiallyFilled, "3"),
        (TimeInForce::Ioc, OrderStatus::Cancelled, "3"),
        (TimeInForce::Fok, OrderStatus::Cancelled, "0"),
    ] {
        let mut engine = PaperEngine::new(instrument(), TradingConfig::default());
        let mut request = OrderRequest::limit(Side::Buy, qty("5"), px("102")).with_tif(tif);
        request.kind = OrderType::StopLimit { trigger: px("101"), limit: px("102") };
        let id = engine.submit(request, &book, Ts(1)).unwrap().order.id;
        engine.on_trade(&trade(2, "101", "3", Side::Buy), &book);
        let order = engine.order(id).unwrap();
        assert_eq!((order.status, order.filled), (status, qty(filled)));
    }
}

#[test]
fn a_partial_fill_clears_the_group() {
    let book = OrderBook::new();
    let mut engine = PaperEngine::new(instrument(), TradingConfig::default());
    let target = engine
        .submit(OrderRequest::limit(Side::Sell, qty("5"), px("102")).with_oco(7), &book, Ts(1))
        .unwrap()
        .order
        .id;
    let stop = engine
        .submit(OrderRequest::stop(Side::Sell, qty("5"), px("98")).with_oco(7), &book, Ts(1))
        .unwrap()
        .order
        .id;
    let fills = engine.on_trade(&trade(2, "103", "2", Side::Buy), &book);
    assert_eq!(fills.len(), 1);
    assert_eq!(engine.order(target).unwrap().status, OrderStatus::PartiallyFilled);
    assert_eq!(engine.order(stop).unwrap().status, OrderStatus::Cancelled);
}

#[test]
fn a_stop_that_fills_nothing_leaves_its_group() {
    let book = OrderBook::new();
    let mut engine = PaperEngine::new(instrument(), TradingConfig::default());
    let target = engine
        .submit(OrderRequest::limit(Side::Sell, qty("5"), px("102")).with_oco(7), &book, Ts(1))
        .unwrap()
        .order
        .id;
    engine
        .submit(OrderRequest::stop(Side::Sell, qty("5"), px("98")).with_oco(7), &book, Ts(1))
        .unwrap();
    assert!(engine.on_trade(&trade(2, "97", "2", Side::Sell), &book).is_empty());
    assert_eq!(engine.order(target).unwrap().status, OrderStatus::Working);
}

#[test]
fn an_emptied_segment_is_passed_over() {
    let (store, removed) = TickStore::open_dir(&[
        Segment::open(0, 0, Ts(0), Ts(0)),
        Segment::open(1, 2, Ts(-90), Ts(-80)),
    ]);
    assert!(removed.is_empty());
    assert_eq!(store.next_segment(0, Ts(-100), Ts(0)), Some(1));
    assert_eq!(store.next_segment(0, Ts(-100), Ts(-95)), None);
    assert_eq!(store.first_ts(), Some(Ts(-90)));
    assert_eq!(store.read_all(), Some((Ts(-90), Ts(-79))));
}

#[test]
fn segment_names_sort_in_order() {
    let names: Vec<String> = [0, 9, 10, 99_999, 100_000, 999_999].map(segment_name).to_vec();
    let mut sorted = names.clone();
    sorted.sort();
    assert_eq!(names, sorted);
}

/// Fails with one message after another.
struct Failing(Vec<&'static str>);

impl Feed for Failing {
    fn next_event(&mut self) -> Result<Option<MarketEvent>, FeedError> {
        match self.0.pop() {
            Some(message) => Err(FeedError::Unhandled(message.to_string())),
            None => Ok(None),
        }
    }
}

#[test]
fn the_last_error_is_that_of_the_last_failure() {
    let session = Session::new(instrument(), SessionConfig::default()).unwrap();
    let feed = Failing(vec!["last", "first"]);
    let mut driver = SessionDriver::new(session, feed, CollectingSink::default());
    for expected in ["first", "last", "last"] {
        driver.pump(1).unwrap();
        match driver.last_error() {
            Some(FeedError::Unhandled(kind)) => assert_eq!(kind, expected),
            other => panic!("{other:?}"),
        }
    }
}

#[test]
fn a_ladder_lies_within_its_bar() {
    let mut bar = Bar::open(Ts(0), &trade(1, "100.25", "1", Side::Buy), px("0.25"));
    for (i, price) in ["101.00", "99.50", "100.00"].iter().enumerate() {
        bar.apply(&trade(2 + i as i64, price, "1", Side::Sell));
    }
    assert_eq!(bar.clusters.low(), Some(bar.low));
    assert_eq!(bar.clusters.high(), Some(bar.high));
}

#[test]
fn a_copy_goes_its_own_way() {
    let book = asks(&[(px("101"), qty("2"))]);
    let mut copy = book.clone();
    copy.clear();
    assert_eq!((book.level_count(), copy.level_count()), ((0, 1), (0, 0)));
}

/// Prints numbered from one, with a failure in the place of some of them.
struct Numbered {
    calls: i64,
    end: i64,
    fails: Vec<i64>,
}

impl Feed for Numbered {
    fn next_event(&mut self) -> Result<Option<MarketEvent>, FeedError> {
        self.calls += 1;
        if self.fails.contains(&self.calls) {
            Err(FeedError::Unhandled(self.calls.to_string()))
        } else if self.calls > self.end {
            Ok(None)
        } else {
            Ok(Some(MarketEvent::Trade(trade(self.calls, "100.00", "1", Side::Buy))))
        }
    }
}

fn times(events: &[MarketEvent]) -> Vec<i64> {
    events.iter().map(|e| e.ts().millis()).collect()
}

#[test]
fn no_event_is_lost_between_two_readings() {
    for budget in [1, 3, 100] {
        let session = Session::new(instrument(), SessionConfig::default()).unwrap();
        let feed = Numbered { calls: 0, end: 10, fails: vec![4, 8] };
        let mut driver = SessionDriver::new(session, feed, CollectingSink::default());
        let mut taken = 0;
        loop {
            let report = driver.pump(budget).unwrap();
            taken += report.consumed;
            if report.drained {
                break;
            }
        }
        assert_eq!(taken, 10);
        assert_eq!((driver.stats().consumed, driver.stats().errors), (8, 2));
        let tape = driver.session().snapshot().tape;
        let shown: Vec<i64> = tape.iter().map(|row| row.ts / 1_000_000).collect();
        assert_eq!(shown, vec![1, 2, 3, 5, 6, 7, 9, 10]);
    }
}

#[test]
fn draining_takes_every_event_and_stops_at_a_failure() {
    let mut feed = Numbered { calls: 0, end: 5, fails: vec![] };
    assert_eq!(times(&drain(&mut feed).unwrap()), vec![1, 2, 3, 4, 5]);
    assert_eq!(feed.calls, 6, "one call more, which gave nothing");

    let mut failing = Numbered { calls: 0, end: 5, fails: vec![3] };
    match drain(&mut failing) {
        Err(FeedError::Unhandled(kind)) => assert_eq!(kind, "3"),
        other => panic!("{other:?}"),
    }
    assert_eq!(failing.calls, 3);
    assert_eq!(times(&drain(&mut failing).unwrap()), vec![4, 5]);
}

#[test]
fn one_reading_is_one_call() {
    let mut feed = Numbered { calls: 0, end: 1, fails: vec![] };
    assert!(matches!(read_once(&mut feed), Ok(Some(_))));
    assert_eq!(feed.calls, 1);
    assert!(matches!(read_once(&mut feed), Ok(None)));
}
