//! Bar construction rules.

use atas::engine::aggregator::{Aggregator, BarSpec};
use atas::primitives::fixed::{Price, Qty};
use atas::primitives::instrument::{Instrument, Venue};
use atas::primitives::market::{Side, Trade};
use atas::primitives::ratio::Ratio;
use atas::primitives::time::{Ts, NANOS_PER_SEC};


fn px(s: &str) -> Price {
    Price::parse(s).unwrap()
}
fn qty(s: &str) -> Qty {
    Qty::parse(s).unwrap()
}
fn instrument() -> Instrument {
    Instrument::spot("TEST", Venue::Sim, px("0.25"), qty("1"))
}
fn trade(ms: i64, price: &str, q: &str, side: Side) -> Trade {
    Trade::new(Ts::from_millis(ms), px(price), qty(q), side, 0)
}
fn agg(spec: BarSpec) -> Aggregator {
    Aggregator::new(&instrument(), spec).unwrap()
}

#[test]
fn rejects_degenerate_specs() {
    assert!(BarSpec::Time { interval_nanos: 0 }.validate().is_err());
    assert!(BarSpec::Tick { count: 0 }.validate().is_err());
    assert!(BarSpec::Volume {
        threshold: Qty::zero()
    }
    .validate()
    .is_err());
    assert!(BarSpec::Range { ticks: -1 }.validate().is_err());
    assert!(BarSpec::minutes(1).validate().is_ok());
    assert!(Aggregator::new(&instrument(), BarSpec::Tick { count: 0 }).is_err());
}

#[test]
fn tick_bars_close_on_trade_count() {
    let mut a = agg(BarSpec::Tick { count: 3 });
    assert!(a.on_trade(&trade(1, "100.00", "1", Side::Buy)).is_empty());
    assert!(a.on_trade(&trade(2, "100.25", "1", Side::Buy)).is_empty());

    let closed = a.on_trade(&trade(3, "100.50", "1", Side::Sell));
    assert_eq!(closed.len(), 1);
    let bar = &closed[0];
    assert!(bar.closed);
    assert_eq!(bar.trades, 3);
    assert_eq!(bar.open, px("100.00"));
    assert_eq!(bar.close, px("100.50"));
    assert_eq!(bar.volume, qty("3"));
    // A fresh bar has not started until the next trade arrives.
    assert!(a.current().is_none());

    a.on_trade(&trade(4, "100.75", "1", Side::Buy));
    assert_eq!(a.current().unwrap().trades, 1);
}

#[test]
fn volume_bars_close_on_threshold() {
    let mut a = agg(BarSpec::Volume {
        threshold: qty("10"),
    });
    assert!(a.on_trade(&trade(1, "100.00", "4", Side::Buy)).is_empty());
    assert!(a.on_trade(&trade(2, "100.00", "5", Side::Buy)).is_empty());

    let closed = a.on_trade(&trade(3, "100.00", "3", Side::Buy));
    assert_eq!(closed.len(), 1);
    // Volume may overshoot: the trade that crosses the line is not split.
    assert_eq!(closed[0].volume, qty("12"));
}

#[test]
fn range_bars_close_on_tick_span() {
    let mut a = agg(BarSpec::Range { ticks: 4 }); // 4 * 0.25 = 1.00
    assert!(a.on_trade(&trade(1, "100.00", "1", Side::Buy)).is_empty());
    assert!(a.on_trade(&trade(2, "100.75", "1", Side::Buy)).is_empty());

    let closed = a.on_trade(&trade(3, "101.00", "1", Side::Buy));
    assert_eq!(closed.len(), 1);
    assert_eq!(closed[0].range(), px("1.00"));
}

#[test]
fn delta_bars_close_on_absolute_aggression() {
    let mut a = agg(BarSpec::Delta {
        threshold: qty("5"),
    });
    assert!(a.on_trade(&trade(1, "100.00", "3", Side::Buy)).is_empty());
    let closed = a.on_trade(&trade(2, "100.00", "3", Side::Buy));
    assert_eq!(closed.len(), 1);
    assert_eq!(closed[0].delta(), qty("6"));

    // Selling closes a bar just as readily as buying.
    let mut b = agg(BarSpec::Delta {
        threshold: qty("5"),
    });
    assert!(b.on_trade(&trade(1, "100.00", "2", Side::Sell)).is_empty());
    let closed = b.on_trade(&trade(2, "100.00", "4", Side::Sell));
    assert_eq!(closed.len(), 1);
    assert_eq!(closed[0].delta(), qty("-6"));
}

#[test]
fn delta_bars_do_not_close_when_flow_is_balanced() {
    let mut a = agg(BarSpec::Delta {
        threshold: qty("5"),
    });
    for i in 0..10 {
        let side = if i % 2 == 0 { Side::Buy } else { Side::Sell };
        assert!(a.on_trade(&trade(i, "100.00", "1", side)).is_empty());
    }
    // Ten trades, zero net delta, still one open bar.
    assert_eq!(a.current().unwrap().trades, 10);
    assert_eq!(a.current().unwrap().delta(), Qty::zero());
}

#[test]
fn time_bars_bucket_by_boundary() {
    let mut a = agg(BarSpec::seconds(1));
    // Two trades inside the same second.
    assert!(a.on_trade(&trade(1_000, "100.00", "1", Side::Buy)).is_empty());
    assert!(a.on_trade(&trade(1_500, "100.25", "1", Side::Buy)).is_empty());

    // A trade in the next second closes the first bar.
    let closed = a.on_trade(&trade(2_000, "100.50", "1", Side::Buy));
    assert_eq!(closed.len(), 1);
    let bar = &closed[0];
    assert_eq!(bar.trades, 2);
    // The bar opens on the bucket boundary, not the first trade's stamp.
    assert_eq!(bar.open_ts, Ts::from_millis(1_000));
    assert_eq!(bar.close_ts, Ts::from_millis(1_500));

    // The boundary-crossing trade belongs to the new bar only.
    let current = a.current().unwrap();
    assert_eq!(current.trades, 1);
    assert_eq!(current.open, px("100.50"));
    assert_eq!(current.open_ts, Ts::from_millis(2_000));
}

#[test]
fn time_bars_skip_empty_buckets() {
    let mut a = agg(BarSpec::seconds(1));
    a.on_trade(&trade(1_000, "100.00", "1", Side::Buy));
    // Nothing trades for five seconds. No phantom empty bars are emitted.
    let closed = a.on_trade(&trade(6_000, "100.00", "1", Side::Buy));
    assert_eq!(closed.len(), 1);
    assert_eq!(a.current().unwrap().open_ts, Ts::from_millis(6_000));
}

#[test]
fn first_time_bar_opens_on_its_bucket() {
    let mut a = agg(BarSpec::seconds(60));
    a.on_trade(&trade(1_700_000_077_500, "100.00", "1", Side::Buy));
    assert_eq!(
        a.current().unwrap().open_ts,
        Ts::from_millis(1_700_000_040_000)
    );
}

#[test]
fn out_of_order_trades_are_dropped_not_applied() {
    let mut a = agg(BarSpec::Tick { count: 100 });
    a.on_trade(&trade(5_000, "100.00", "1", Side::Buy));
    assert!(a.on_trade(&trade(4_000, "999.00", "50", Side::Buy)).is_empty());

    assert_eq!(a.dropped_out_of_order(), 1);
    let bar = a.current().unwrap();
    assert_eq!(bar.trades, 1, "the late trade must not be folded in");
    assert_eq!(bar.high, px("100.00"), "and must not move the high");
    assert_eq!(bar.volume, qty("1"));
}

#[test]
fn same_timestamp_trades_are_accepted() {
    // Venues routinely stamp a swept book with one millisecond.
    let mut a = agg(BarSpec::Tick { count: 100 });
    a.on_trade(&trade(5_000, "100.00", "1", Side::Buy));
    a.on_trade(&trade(5_000, "100.25", "1", Side::Buy));
    assert_eq!(a.dropped_out_of_order(), 0);
    assert_eq!(a.current().unwrap().trades, 2);
}

#[test]
fn cumulative_delta_runs_across_bars() {
    let mut a = agg(BarSpec::Tick { count: 2 });
    a.on_trade(&trade(1, "100.00", "5", Side::Buy));
    a.on_trade(&trade(2, "100.00", "2", Side::Sell)); // closes bar, +3
    assert_eq!(a.cum_delta(), qty("3"));

    a.on_trade(&trade(3, "100.00", "1", Side::Sell)); // -1
    assert_eq!(a.cum_delta(), qty("2"));
}

#[test]
fn flush_closes_the_forming_bar_once() {
    let mut a = agg(BarSpec::Tick { count: 100 });
    a.on_trade(&trade(1, "100.00", "1", Side::Buy));

    let bar = a.flush().unwrap();
    assert!(bar.closed);
    assert_eq!(bar.trades, 1);
    assert!(a.current().is_none());
    assert!(a.flush().is_none(), "flushing twice yields nothing");
}

#[test]
fn reset_clears_state_but_keeps_the_spec() {
    let mut a = agg(BarSpec::Tick { count: 3 });
    a.on_trade(&trade(1, "100.00", "1", Side::Buy));
    a.on_trade(&trade(0, "100.00", "1", Side::Buy)); // dropped
    a.reset();

    assert!(a.current().is_none());
    assert_eq!(a.cum_delta(), Qty::zero());
    assert_eq!(a.dropped_out_of_order(), 0);
    assert_eq!(a.spec(), BarSpec::Tick { count: 3 });
    // And an old timestamp is accepted again after the reset.
    assert!(a.on_trade(&trade(1, "100.00", "1", Side::Buy)).is_empty());
    assert_eq!(a.current().unwrap().trades, 1);
}

#[test]
fn bars_carry_their_cluster_ladder() {
    let mut a = agg(BarSpec::Tick { count: 3 });
    a.on_trade(&trade(1, "100.00", "10", Side::Sell));
    a.on_trade(&trade(2, "100.25", "40", Side::Buy));
    let closed = a.on_trade(&trade(3, "100.25", "5", Side::Buy));

    let bar = &closed[0];
    assert_eq!(bar.clusters.at(px("100.00")).bid, qty("10"));
    assert_eq!(bar.clusters.at(px("100.25")).ask, qty("45"));
    assert_eq!(bar.poc().unwrap(), px("100.25"));
    // 45 on the ask against 10 on the bid one tick below.
    let imb = bar.clusters.imbalances(Ratio::new(3, 1), Qty::zero());
    assert_eq!(imb.len(), 1);
    assert_eq!(imb[0].price, px("100.25"));
}

#[test]
fn helper_constructors_compute_the_right_interval() {
    assert_eq!(
        BarSpec::minutes(5),
        BarSpec::Time {
            interval_nanos: 300 * NANOS_PER_SEC
        }
    );
}
