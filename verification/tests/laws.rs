//! What holds of the library as a whole, on concrete values.

use atas::engine::aggregator::{Aggregator, BarSpec};
use atas::engine::bar::Bar;
use atas::engine::cluster::{stack_runs, ClusterLadder, Imbalance};
use atas::feed::backoff::{next_state, Backoff};
use atas::feed::sync::{DepthSynchroniser, SyncAction};
use atas::feed::synthetic::{SyntheticFeed, SyntheticStep};
use atas::indicators::classic::{Atr, AtrStep, Ema, EmaStep, Rsi, RsiStep, Sma};
use atas::indicators::cvd::Cvd;
use atas::indicators::profile::SessionProfile;
use atas::indicators::scanners::{BigTrades, ClusterCriteria, ClusterSearch, SpeedOfTape};
use atas::indicators::traits::{BarIndicator, TradeIndicator};
use atas::indicators::vwap::Vwap;
use atas::primitives::book::OrderBook;
use atas::primitives::fixed::{display_minor, parse_minor, Price, Qty, Rounding};
use atas::primitives::instrument::{Instrument, InstrumentKind, Venue};
use atas::primitives::market::{MarketEvent, Side, Trade};
use atas::primitives::ratio::Ratio;
use atas::primitives::time::Ts;
use atas::session::config::SessionConfig;
use atas::session::dto::TapeRowDto;
use atas::session::events::AppEvent;
use atas::session::state::Session;
use atas::store::record::encode;
use atas::store::segment::{parse_segment_name, segment_name, Segment};
use atas::trading::engine::{PaperEngine, TradingConfig};
use atas::trading::order::{OrderRequest, OrderStatus};
use atas::trading::position::Position;

fn px(s: &str) -> Price {
    Price::parse(s).unwrap()
}
fn qty(s: &str) -> Qty {
    Qty::parse(s).unwrap()
}
fn instrument() -> Instrument {
    Instrument::spot("TEST", Venue::Sim, px("1"), qty("1"))
}
fn trade(nanos: i64, price: &str, q: &str, side: Side) -> Trade {
    Trade::new(Ts(nanos), px(price), qty(q), side, nanos as u64)
}
fn bar(prints: &[(&str, &str, Side)]) -> Bar {
    let first = trade(0, prints[0].0, prints[0].1, prints[0].2);
    let mut bar = Bar::open(Ts(0), &first, px("1"));
    for (i, (price, q, side)) in prints.iter().enumerate().skip(1) {
        bar.apply(&trade(i as i64, price, q, *side));
    }
    bar.close();
    bar
}

#[test]
fn a_written_number_reads_back() {
    for minor in [0, 1, -1, 150_000_000, i64::MAX, i64::MIN, 99_999_999] {
        assert_eq!(parse_minor(&display_minor(minor)), Ok(minor));
    }
}

#[test]
fn rows_and_ticks_invert_each_other() {
    let tick = px("0.25");
    for index in [-7, -1, 0, 3] {
        let price = Price::from_tick_index(index, tick);
        assert_eq!(price.tick_index(tick), index);
        for mode in [Rounding::Down, Rounding::Up, Rounding::Nearest] {
            assert_eq!(price.round_to_tick(tick, mode), price);
        }
    }
    assert_eq!(px("-0.01").tick_index(tick), -1);
    assert_eq!(px("0.24").tick_index(tick) + 1, px("0.49").tick_index(tick));
}

#[test]
fn times_of_one_interval_share_its_start() {
    assert_eq!(Ts(17).floor_to(10), Ts(10));
    assert_eq!(Ts(10).floor_to(10), Ts(10));
    assert_eq!(Ts(-3).floor_to(10), Ts(-10));
    assert_ne!(Ts(9).floor_to(10), Ts(10).floor_to(10));
}

#[test]
fn distinct_trades_have_distinct_records() {
    let a = trade(5, "100", "1", Side::Buy);
    let b = trade(5, "100", "1", Side::Sell);
    assert_ne!(encode(&a), encode(&b));
    assert_eq!(encode(&a), encode(&a));
}

#[test]
fn segment_numbers_survive_their_names() {
    for index in [0, 7, 999_999, 1_000_000, u32::MAX] {
        assert_eq!(parse_segment_name(&segment_name(index)), Some(index));
    }
}

#[test]
fn a_search_halves_until_it_finds_the_bound() {
    let times = [1, 3, 3, 8, 9];
    let segment = Segment::open(0, 5, Ts(1), Ts(9));
    let mut search = segment.lower_bound(Ts(3));
    let mut probes = 0;
    while let Some(at) = search.probe() {
        search.observe(Ts(times[at as usize]));
        probes += 1;
    }
    assert_eq!(search.found(), 1);
    assert!(probes <= 3);
}

#[test]
fn book_touch_is_the_best_of_each_side() {
    let mut book = OrderBook::new();
    book.apply_snapshot(
        Ts(1),
        &[(px("98"), qty("1")), (px("99"), qty("2"))],
        &[(px("102"), qty("3")), (px("101"), qty("4"))],
        1,
    );
    assert_eq!(book.best_bid().unwrap().price, px("99"));
    assert_eq!(book.best_ask().unwrap().price, px("101"));
}

#[test]
fn bars_keep_every_trade_in_order() {
    let mut aggregator = Aggregator::new(&instrument(), BarSpec::Tick { count: 2 }).unwrap();
    let mut volume = 0;
    let mut trades = 0;
    for (i, side) in [Side::Buy, Side::Sell, Side::Buy].iter().enumerate() {
        for closed in aggregator.on_trade(&trade(i as i64, "100", "2", *side)) {
            volume += closed.volume.minor();
            trades += closed.trades;
        }
    }
    aggregator.on_trade(&trade(0, "100", "9", Side::Buy));
    let forming = aggregator.current().unwrap();
    assert_eq!(volume + forming.volume.minor(), qty("6").minor());
    assert_eq!(trades + forming.trades, 3);
    assert_eq!(aggregator.cum_delta(), qty("2"));
    assert_eq!(aggregator.dropped_out_of_order(), 1);
}

#[test]
fn ladder_rows_are_one_tick_apart_and_sum_up() {
    let mut ladder = ClusterLadder::new(px("1"));
    ladder.add(px("100"), qty("1"), Side::Buy);
    ladder.add(px("103"), qty("2"), Side::Sell);
    let rows = ladder.rows();
    assert_eq!(rows.len(), 4);
    for pair in rows.windows(2) {
        assert_eq!(pair[1].price.minor() - pair[0].price.minor(), px("1").minor());
    }
    let ask: i64 = rows.iter().map(|r| r.cluster.ask.minor()).sum();
    let bid: i64 = rows.iter().map(|r| r.cluster.bid.minor()).sum();
    assert_eq!((bid, ask), (ladder.total_bid().minor(), ladder.total_ask().minor()));
}

#[test]
fn a_value_area_holds_what_was_asked() {
    let mut ladder = ClusterLadder::new(px("1"));
    for (price, q) in [("100", "1"), ("101", "8"), ("102", "1")] {
        ladder.add(px(price), qty(q), Side::Buy);
    }
    let area = ladder.value_area(Ratio::new(7, 10)).unwrap();
    assert_eq!((area.low, area.poc, area.high), (px("101"), px("101"), px("101")));
    assert_eq!(area.volume, qty("8"));
}

#[test]
fn runs_of_imbalances_are_contiguous() {
    let at = |price: &str, side: Side| Imbalance {
        price: px(price),
        side,
        dominant: qty("9"),
        opposing: qty("1"),
    };
    let found = vec![
        at("100", Side::Buy),
        at("101", Side::Buy),
        at("103", Side::Buy),
        at("104", Side::Sell),
    ];
    let stacks = stack_runs(&found, px("1"), 2);
    assert_eq!(stacks.len(), 1);
    assert_eq!(stacks[0].len(), 2);
}

#[test]
fn cumulative_delta_is_the_sum_of_deltas() {
    let mut cvd = Cvd::new();
    cvd.update(&bar(&[("100", "5", Side::Buy)]));
    cvd.update(&bar(&[("101", "2", Side::Sell)]));
    assert_eq!(cvd.total(), qty("3"));
    assert_eq!(cvd.bars(), 2);
}

#[test]
fn averages_stay_within_what_they_average() {
    let mut sma = Sma::new(2);
    sma.update(&bar(&[("100", "1", Side::Buy)]));
    sma.update(&bar(&[("103", "1", Side::Buy)]));
    assert_eq!(sma.value(), Some(Some(px("101.5"))));

    let mut vwap = Vwap::new();
    vwap.add(px("100"), qty("1"));
    vwap.add(px("103"), qty("2"));
    let point = BarIndicator::value(&vwap).unwrap().unwrap();
    assert_eq!(point.vwap, px("102"));
    assert_eq!(point.volume, qty("3"));
}

#[test]
fn prints_at_one_price_have_no_variance() {
    let mut vwap = Vwap::new();
    vwap.add(px("100.37"), qty("1"));
    vwap.add(px("100.37"), qty("7"));
    let point = BarIndicator::value(&vwap).unwrap().unwrap();
    assert_eq!((point.vwap, point.variance), (px("100.37"), 0));
}

#[test]
fn a_true_range_reaches_back_to_the_previous_close() {
    let mut atr = Atr::new(2);
    let first = bar(&[("100", "1", Side::Buy), ("101", "1", Side::Buy)]);
    let range = atr.true_range(&first).unwrap();
    assert_eq!(range, px("1").minor());
    assert_eq!(atr.record(first.close, range), AtrStep::Collect);
    let gapped = bar(&[("110", "1", Side::Buy), ("111", "1", Side::Buy)]);
    let range = atr.true_range(&gapped).unwrap();
    assert_eq!(range, px("10").minor());
    assert_eq!(
        atr.record(gapped.close, range),
        AtrStep::Seed { sum: px("11").minor() }
    );
    assert_eq!(atr.record(gapped.close, 0), AtrStep::Smooth);
}

#[test]
fn smoothing_follows_its_schedule() {
    let mut ema = Ema::new(3);
    assert_eq!(ema.update(&bar(&[("5", "1", Side::Buy)])), EmaStep::Seed(px("5")));
    assert_eq!(ema.update(&bar(&[("6", "1", Side::Buy)])), EmaStep::Smooth(px("6")));

    let mut rsi = Rsi::new(2);
    assert_eq!(rsi.update(&bar(&[("5", "1", Side::Buy)])), RsiStep::First);
    assert_eq!(rsi.update(&bar(&[("7", "1", Side::Buy)])), RsiStep::Collect);
    assert_eq!(
        rsi.update(&bar(&[("6", "1", Side::Buy)])),
        RsiStep::Seed(vec![px("2").minor(), px("-1").minor()])
    );
    assert_eq!(
        rsi.update(&bar(&[("9", "1", Side::Buy)])),
        RsiStep::Smooth(px("3").minor())
    );
}

#[test]
fn a_profile_counts_bars_not_trades() {
    let mut profile = SessionProfile::new(px("1"));
    profile.update(&bar(&[("100", "1", Side::Buy), ("100", "1", Side::Buy)]));
    profile.update(&bar(&[("101", "1", Side::Buy)]));
    assert_eq!(profile.single_prints(), vec![px("100"), px("101")]);
    profile.update(&bar(&[("100", "1", Side::Buy)]));
    assert_eq!(profile.single_prints(), vec![px("101")]);
}

#[test]
fn scanners_keep_what_is_recent() {
    let mut big = BigTrades::new(qty("5"), 2);
    for i in 0..4 {
        big.update(&trade(i, "100", "5", Side::Buy));
    }
    let kept: Vec<i64> = big.recent().iter().map(|b| b.ts.nanos()).collect();
    assert_eq!(kept, vec![2, 3]);
    assert_eq!(big.seen(), 4);

    let mut speed = SpeedOfTape::new(10);
    for at in [0, 4, 12] {
        speed.update(&trade(at, "100", "1", Side::Buy));
    }
    assert_eq!(speed.count(), 2);
}

#[test]
fn criteria_that_ask_nothing_find_nothing() {
    let heavy = bar(&[("100", "50", Side::Buy), ("101", "70", Side::Buy)]);
    let mut search = ClusterSearch::new(ClusterCriteria::new());
    assert!(search.scan(&heavy).is_none());
    let mut search = ClusterSearch::new(ClusterCriteria::new().min_volume(qty("1")));
    let hit = search.scan(&heavy).unwrap();
    assert_eq!(hit.volume, qty("120"));
    assert_eq!(search.scanned(), 1);
}

#[test]
fn opposite_sides_pay_opposite_amounts() {
    for kind in [InstrumentKind::Spot, InstrumentKind::InversePerp] {
        let of = |side: Side| {
            let contract = Instrument { kind, ..instrument() };
            let mut position = Position::new(&contract);
            position.apply_fill(side, px("100"), qty("2"), qty("0"));
            assert_eq!(position.unrealised(px("100")), qty("0"));
            position.unrealised(px("125")).minor()
        };
        assert!(of(Side::Buy) > 0);
        assert_eq!(of(Side::Buy), -of(Side::Sell));
    }
}

#[test]
fn a_refused_order_leaves_no_trace() {
    let mut engine = PaperEngine::new(instrument(), TradingConfig::default());
    let book = OrderBook::new();
    assert!(engine.submit(OrderRequest::market(Side::Buy, qty("1")), &book, Ts(1)).is_err());
    assert!(engine.fills().is_empty());
    assert!(engine.working_orders().is_empty());
    assert!(engine.position().is_flat());
}

#[test]
fn cancelling_everything_keeps_the_position() {
    let mut engine = PaperEngine::new(instrument(), TradingConfig::default());
    let mut book = OrderBook::new();
    book.apply_snapshot(Ts(1), &[(px("99"), qty("5"))], &[(px("101"), qty("5"))], 1);
    engine.submit(OrderRequest::market(Side::Buy, qty("1")), &book, Ts(1)).unwrap();
    for price in ["90", "91"] {
        engine
            .submit(OrderRequest::limit(Side::Buy, qty("1"), px(price)).with_oco(7), &book, Ts(2))
            .unwrap();
    }
    let held = engine.position().qty;
    let fills = engine.fills().len();
    assert_eq!(engine.cancel_all(Ts(3)), 2);
    assert!(engine.working_orders().is_empty());
    assert_eq!((engine.position().qty, engine.fills().len()), (held, fills));
}

#[test]
fn one_filled_leg_cancels_the_others() {
    let mut engine = PaperEngine::new(instrument(), TradingConfig::default());
    let mut book = OrderBook::new();
    book.apply_snapshot(Ts(1), &[(px("99"), qty("5"))], &[(px("101"), qty("5"))], 1);
    let near = engine
        .submit(OrderRequest::limit(Side::Buy, qty("1"), px("98")).with_oco(7), &book, Ts(1))
        .unwrap()
        .order
        .id;
    let far = engine
        .submit(OrderRequest::limit(Side::Buy, qty("1"), px("95")).with_oco(7), &book, Ts(1))
        .unwrap()
        .order
        .id;
    // At the limit nothing trades; through it the order fills at its own price.
    assert!(engine.on_trade(&trade(2, "98", "9", Side::Sell), &book).is_empty());
    let fills = engine.on_trade(&trade(3, "97", "9", Side::Sell), &book);
    assert_eq!(fills.len(), 1);
    assert_eq!((fills[0].price, fills[0].qty), (px("98"), qty("1")));
    assert_eq!(engine.order(near).unwrap().status, OrderStatus::Filled);
    assert_eq!(engine.order(far).unwrap().status, OrderStatus::Cancelled);
}

#[test]
fn delays_grow_within_their_ceiling_and_start_over() {
    let mut backoff = Backoff::new(100, 1_000).with_seed(7);
    for ceiling in [100, 200, 400, 800, 1_000, 1_000] {
        assert_eq!(backoff.ceiling(), ceiling);
        assert!(backoff.next_delay() <= ceiling);
    }
    backoff.reset();
    assert_eq!(backoff.ceiling(), 100);
    assert_ne!(next_state(1), 0);
    assert_eq!(next_state(1), 1_082_269_761);
}

#[test]
fn a_gap_latches_until_a_restart() {
    let mut sync: DepthSynchroniser<u8> = DepthSynchroniser::new();
    sync.on_snapshot(10).unwrap();
    assert_eq!(sync.on_delta(11, 12, 1), (SyncAction::Apply, Some(1)));
    assert_eq!(sync.on_delta(20, 21, 2).0, SyncAction::Resync);
    assert_eq!(sync.on_delta(13, 14, 3).0, SyncAction::Resync);
    sync.restart();
    assert_eq!(sync.on_delta(13, 14, 4).0, SyncAction::Buffer);
}

#[test]
fn generated_books_are_usable() {
    let mut feed = SyntheticFeed::new(&instrument(), 42, px("100")).with_book_every(1);
    match feed.next_step() {
        SyntheticStep::Book(MarketEvent::BookSnapshot { bids, asks, .. }) => {
            assert!(!bids.is_empty());
            assert_eq!(bids.len(), asks.len());
            for (bid, size) in &bids {
                assert!(size.is_positive());
                assert!(asks.iter().all(|(ask, size)| bid < ask && size.is_positive()));
            }
        }
        other => panic!("{other:?}"),
    }
}

#[test]
fn a_print_is_shown_before_what_it_causes() {
    let mut session = Session::new(
        instrument(),
        SessionConfig {
            bar_spec: BarSpec::Tick { count: 1 },
            big_trade_threshold: qty("1"),
            ..Default::default()
        },
    )
    .unwrap();
    let print = trade(5, "100", "3", Side::Buy);
    let shown = session.on_market_event(&MarketEvent::Trade(print));
    match &shown[0] {
        AppEvent::TapeRow(row) => assert_eq!(*row, TapeRowDto::from_trade(&print)),
        other => panic!("{other:?}"),
    }
    assert!(shown.len() > 1);
}

#[test]
fn shown_footprints_add_up_to_their_bar() {
    let mut session = Session::new(instrument(), SessionConfig::default()).unwrap();
    for (i, price) in ["100", "103", "101"].iter().enumerate() {
        let side = if i == 1 { Side::Sell } else { Side::Buy };
        session.on_market_event(&MarketEvent::Trade(trade(i as i64, price, "2", side)));
    }
    assert!(session.can_snapshot());
    let frame = session.snapshot();
    let bar = frame.bars.last().unwrap();
    let rows: i64 = bar.clusters.iter().map(|c| c.bid + c.ask).sum();
    assert_eq!(rows, bar.volume);
    assert_eq!((bar.low, bar.high), (px("100").minor(), px("103").minor()));
    assert_eq!((bar.open, bar.close), (px("100").minor(), px("101").minor()));
}
