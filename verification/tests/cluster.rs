//! Cluster ladders: accumulation, point of control, value area and imbalances.

use atas::engine::cluster::{ClusterLadder, Imbalance};
use atas::primitives::fixed::{Price, Qty};
use atas::primitives::market::Side;
use atas::primitives::ratio::Ratio;

fn ratio_of(i: &Imbalance) -> f64 {
    i.dominant.minor() as f64 / i.opposing.minor() as f64
}


fn px(s: &str) -> Price {
    Price::parse(s).unwrap()
}

fn qty(s: &str) -> Qty {
    Qty::parse(s).unwrap()
}

fn tick() -> Price {
    px("0.25")
}

/// Ladder with a clear POC at 100.50 and volume tapering away from it.
fn tapered() -> ClusterLadder {
    let mut l = ClusterLadder::new(tick());
    for (price, bid, ask) in [
        ("100.00", "10", "5"),
        ("100.25", "20", "15"),
        ("100.50", "60", "70"),
        ("100.75", "18", "12"),
        ("101.00", "8", "4"),
    ] {
        l.add(px(price), qty(bid), Side::Sell);
        l.add(px(price), qty(ask), Side::Buy);
    }
    l
}

#[test]
fn accumulates_by_aggressor_side() {
    let mut l = ClusterLadder::new(tick());
    l.add(px("100.00"), qty("3"), Side::Buy);
    l.add(px("100.00"), qty("2"), Side::Buy);
    l.add(px("100.00"), qty("4"), Side::Sell);

    let c = l.at(px("100.00"));
    assert_eq!(c.ask, qty("5"), "buy aggressor lifts the ask");
    assert_eq!(c.bid, qty("4"), "sell aggressor hits the bid");
    assert_eq!(c.total(), qty("9"));
    assert_eq!(c.delta(), qty("1"));
    assert_eq!(c.trades, 3);
    assert_eq!(l.trade_count(), 3);
}

#[test]
fn totals_and_delta_match_the_rows() {
    let l = tapered();
    let row_sum: Qty = l
        .rows()
        .iter()
        .fold(Qty::zero(), |sum, r| sum + r.cluster.total());
    assert_eq!(l.total_volume(), row_sum);
    assert_eq!(l.total_bid(), qty("116"));
    assert_eq!(l.total_ask(), qty("106"));
    assert_eq!(l.delta(), qty("-10"));
}

#[test]
fn grows_in_both_directions() {
    let mut l = ClusterLadder::new(tick());
    l.add(px("100.00"), qty("1"), Side::Buy);
    l.add(px("101.00"), qty("1"), Side::Buy); // upward
    l.add(px("99.00"), qty("1"), Side::Buy); // downward

    assert_eq!(l.low().unwrap(), px("99.00"));
    assert_eq!(l.high().unwrap(), px("101.00"));
    // 99.00..=101.00 at a 0.25 tick is 9 levels.
    assert_eq!(l.len(), 9);
    assert_eq!(l.at(px("100.00")).ask, qty("1"));
    assert_eq!(l.at(px("101.00")).ask, qty("1"));
    assert_eq!(l.at(px("99.00")).ask, qty("1"));
    // Untraded levels in between are present and empty.
    assert!(l.at(px("100.50")).is_empty());
}

#[test]
fn untouched_prices_read_as_empty() {
    let l = tapered();
    assert!(l.at(px("95.00")).is_empty());
    assert!(l.at(px("105.00")).is_empty());
    assert!(ClusterLadder::new(tick()).at(px("100.00")).is_empty());
}

#[test]
fn off_tick_prints_floor_onto_a_level() {
    let mut l = ClusterLadder::new(tick());
    l.add(px("100.13"), qty("5"), Side::Buy);
    assert_eq!(l.at(px("100.00")).ask, qty("5"));
    assert_eq!(l.len(), 1);
}

#[test]
fn finds_the_point_of_control() {
    assert_eq!(tapered().poc().unwrap(), px("100.50"));
    assert_eq!(ClusterLadder::new(tick()).poc(), None);
}

#[test]
fn poc_ties_resolve_toward_the_middle() {
    let mut l = ClusterLadder::new(tick());
    // Equal volume at the extremes and nothing between: the tie-break must
    // pick one deterministically rather than always the first row.
    l.add(px("100.00"), qty("10"), Side::Buy);
    l.add(px("100.25"), qty("1"), Side::Buy);
    l.add(px("100.50"), qty("10"), Side::Buy);
    let poc = l.poc().unwrap();
    assert!(poc == px("100.00") || poc == px("100.50"));
    // Deterministic across calls.
    assert_eq!(l.poc().unwrap(), poc);
}

#[test]
fn value_area_brackets_the_poc() {
    let l = tapered();
    let va = l.value_area(Ratio::new(7, 10)).unwrap();
    assert_eq!(va.poc, px("100.50"));
    assert!(va.low <= va.poc && va.poc <= va.high);
    // It must cover at least the requested share of volume.
    let target = (l.total_volume().minor() as f64 * 0.7) as i64;
    assert!(va.volume.minor() >= target, "{:?} < {target}", va.volume);
    // And it must not be the whole ladder for this shape.
    assert!(va.volume <= l.total_volume());
}

#[test]
fn value_area_of_a_single_level_is_that_level() {
    let mut l = ClusterLadder::new(tick());
    l.add(px("100.00"), qty("7"), Side::Buy);
    let va = l.value_area(Ratio::new(7, 10)).unwrap();
    assert_eq!(va.high, px("100.00"));
    assert_eq!(va.low, px("100.00"));
    assert_eq!(va.volume, qty("7"));
}

#[test]
fn full_value_area_covers_everything() {
    let l = tapered();
    let va = l.value_area(Ratio::new(1, 1)).unwrap();
    assert_eq!(va.low, l.low().unwrap());
    assert_eq!(va.high, l.high().unwrap());
    assert_eq!(va.volume, l.total_volume());
}

#[test]
fn imbalance_is_measured_diagonally() {
    let mut l = ClusterLadder::new(tick());
    // 100.00: bid 10. 100.25: ask 50.
    // Diagonally that is 50 vs 10 = 5.0, a buy imbalance at 100.25.
    // Horizontally 100.25 has no bid at all, which would be a different
    // and wrong answer.
    l.add(px("100.00"), qty("10"), Side::Sell);
    l.add(px("100.25"), qty("50"), Side::Buy);

    let found = l.imbalances(Ratio::new(3, 1), Qty::zero());
    let buys: Vec<_> = found.iter().filter(|i| i.side == Side::Buy).collect();
    assert_eq!(buys.len(), 1);
    assert_eq!(buys[0].price, px("100.25"));
    assert!((ratio_of(buys[0]) - 5.0).abs() < 1e-9);
}

#[test]
fn sell_imbalance_compares_against_the_level_above() {
    let mut l = ClusterLadder::new(tick());
    l.add(px("100.25"), qty("8"), Side::Buy); // ask above
    l.add(px("100.00"), qty("40"), Side::Sell); // bid below

    let found = l.imbalances(Ratio::new(3, 1), Qty::zero());
    let sells: Vec<_> = found.iter().filter(|i| i.side == Side::Sell).collect();
    assert_eq!(sells.len(), 1);
    assert_eq!(sells[0].price, px("100.00"));
    assert!((ratio_of(sells[0]) - 5.0).abs() < 1e-9);
}

#[test]
fn unopposed_volume_is_the_strongest_imbalance() {
    let mut l = ClusterLadder::new(tick());
    l.add(px("100.00"), qty("1"), Side::Buy); // establishes a lower row
    l.add(px("100.25"), qty("30"), Side::Buy); // nothing on the bid below

    let found = l.imbalances(Ratio::new(3, 1), Qty::zero());
    let buy = found.iter().find(|i| i.price == px("100.25")).unwrap();
    assert!(buy.is_unopposed());
}

#[test]
fn ratio_threshold_and_min_volume_filter() {
    let mut l = ClusterLadder::new(tick());
    l.add(px("100.00"), qty("10"), Side::Sell);
    l.add(px("100.25"), qty("20"), Side::Buy); // ratio 2.0

    assert!(!l.imbalances(Ratio::new(2, 1), Qty::zero()).is_empty(), "2.0 clears 2.0");
    assert!(l.imbalances(Ratio::new(3, 1), Qty::zero()).is_empty(), "2.0 misses 3.0");
    // Passes on ratio but is filtered out by size.
    assert!(l.imbalances(Ratio::new(2, 1), qty("100")).is_empty());
}

#[test]
fn detects_stacked_runs_and_ignores_short_ones() {
    let mut l = ClusterLadder::new(tick());
    // Four consecutive buy imbalances: each ask is 10x the bid below it.
    for i in 0..5 {
        let p = px("100.00") + tick() * i;
        l.add(p, qty("2"), Side::Sell);
        l.add(p, qty("20"), Side::Buy);
    }

    let runs = l.stacked_imbalances(Ratio::new(3, 1), Qty::zero(), 3);
    assert_eq!(runs.len(), 1);
    let run = &runs[0];
    assert!(run.len() >= 3);
    assert!(run.iter().all(|i| i.side == Side::Buy));
    // Contiguous and ascending.
    for pair in run.windows(2) {
        assert_eq!(pair[1].price - pair[0].price, tick());
    }

    // A stack requirement longer than the run finds nothing.
    assert!(l.stacked_imbalances(Ratio::new(3, 1), Qty::zero(), 20).is_empty());
}

#[test]
fn empty_ladder_reports_nothing() {
    let l = ClusterLadder::new(tick());
    assert!(l.is_empty());
    assert_eq!(l.len(), 0);
    assert_eq!(l.total_volume(), Qty::zero());
    assert_eq!(l.delta(), Qty::zero());
    assert_eq!(l.low(), None);
    assert_eq!(l.high(), None);
    assert_eq!(l.value_area(Ratio::new(7, 10)), None);
    assert!(l.imbalances(Ratio::new(2, 1), Qty::zero()).is_empty());
    assert_eq!(l.rows().len(), 0);
}

#[test]
fn rows_are_ordered_low_to_high() {
    let l = tapered();
    let prices: Vec<_> = l.rows().iter().map(|r| r.price).collect();
    assert_eq!(prices.first().copied(), l.low());
    assert_eq!(prices.last().copied(), l.high());
    assert!(prices.windows(2).all(|w| w[0] < w[1]));
}
