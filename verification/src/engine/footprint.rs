//! What a footprint shows, in terms of the volume that traded at each row.

use crate::engine::cluster::{Cluster, Imbalance};
use crate::primitives::fixed::{Price, Qty};
use crate::primitives::market::Side;
use crate::primitives::ratio::Ratio;
use vstd::prelude::*;

verus! {

use crate::engine::cluster::{
    band_holding, band_volume, is_poc_slot, lemma_row_price_fits, poc_slot, row_volume, stacks_of,
    widened, Band, LadderView,
};
use crate::engine::stacks::{
    are_blocks, lemma_mark_placed, lemma_place_marked, lemma_prices_apart, lemma_stacks,
};
use crate::primitives::fixed::{law_row_holds_its_price, tick_row};
use crate::primitives::ratio::{law_a_share_is_rounded_half_up, share_of};

/// A trade lands on the row that its price falls into, one tick high, on the ask
/// where a buyer was the aggressor and on the bid where a seller was. Every other
/// row keeps what it had, and the rows stay dense from the lowest to the highest
/// that traded.
pub proof fn law_a_trade_lands_on_its_row(
    v: LadderView,
    price: Price,
    qty: Qty,
    aggressor: Side,
    row: int,
)
    requires
        v.wf(),
        v.can_add(price, qty, aggressor),
    ensures
        ({
            let after = v.added(price, qty, aggressor);
            let here = row * v.tick.0 <= price.0 < (row + 1) * v.tick.0;
            let was = v.level(row);
            let is = after.level(row);
            &&& after.tick == v.tick
            &&& here ==> after.base <= row < after.base + after.rows.len()
            &&& is.ask.0 - was.ask.0 == if here && aggressor is Buy {
                qty.0 as int
            } else {
                0
            }
            &&& is.bid.0 - was.bid.0 == if here && aggressor is Sell {
                qty.0 as int
            } else {
                0
            }
            &&& is.trades - was.trades == if here {
                1int
            } else {
                0
            }
            &&& v.base <= row < v.base + v.rows.len() ==> after.base <= row < after.base
                + after.rows.len()
            &&& v.rows.len() == 0 ==> after.rows.len() == 1
            &&& v.rows.len() > 0 && (row == after.base || row == after.base + after.rows.len() - 1)
                ==> here || row == v.base || row == v.base + v.rows.len() - 1
        }),
{
    let tick = v.tick.0 as int;
    let at = tick_row(price.0 as int, tick);
    law_row_holds_its_price(price.0 as int, tick);
    assert(row * tick <= price.0 < (row + 1) * tick ==> row == at) by (nonlinear_arith)
        requires
            tick > 0,
            at * tick <= price.0 < (at + 1) * tick,
    ;
    let grown = v.grown(at);
    crate::engine::cluster::lemma_trades_fit(v, at);
    assert(grown.rows[at - grown.base] == v.level(at));
}

/// What a ladder holds at a tick index is the row of that index; outside the rows
/// nothing traded.
pub proof fn law_nothing_traded_outside_the_rows(v: LadderView, row: int)
    ensures
        v.base <= row < v.base + v.rows.len() ==> v.level(row) == v.rows[row - v.base],
        !(v.base <= row < v.base + v.rows.len()) ==> v.level(row).bid.0 == 0 && v.level(row).ask.0
            == 0 && v.level(row).trades == 0,
{
}

/// The rows are listed from the lowest up, each with the price it starts at.
pub proof fn law_rows_are_listed_upward(v: LadderView, slot: int)
    requires
        v.wf(),
        v.prices_fit(),
        0 <= slot < v.rows.len(),
    ensures
        v.row_list().len() == v.rows.len(),
        v.row_list()[slot].cluster == v.rows[slot],
        v.row_list()[slot].price.0 == (v.base + slot) * v.tick.0,
        v.row_list()[slot].price == v.row_price(slot),
{
    lemma_row_price_fits(v, slot);
}

/// How far a slot is from the middle of `n`, counted in half rows.
pub open spec fn half_rows_off(slot: int, n: int) -> int {
    let twice = 2 * slot - (n - 1);
    if twice < 0 {
        -twice
    } else {
        twice
    }
}

/// The point of control is the price of a row that traded as much as any other,
/// bought and sold together. Among rows that traded as much, it is no farther
/// from the middle than any, and the lower of two that are as far. There is one
/// exactly where some row traded a positive volume.
pub proof fn law_the_point_of_control_traded_most(v: LadderView) -> (slot: int)
    requires
        v.wf(),
        v.prices_fit(),
    ensures
        v.poc_price() is Some <==> exists|j: int|
            0 <= j < v.rows.len() && (#[trigger] v.rows[j]).bid.0 + v.rows[j].ask.0 > 0,
        v.poc_price() is Some ==> {
            let n = v.rows.len() as int;
            let most = v.rows[slot].bid.0 + v.rows[slot].ask.0;
            &&& 0 <= slot < n
            &&& (v.poc_price()->0).0 == (v.base + slot) * v.tick.0
            &&& most > 0
            &&& forall|j: int|
                0 <= j < n ==> (#[trigger] v.rows[j]).bid.0 + v.rows[j].ask.0 <= most
            &&& forall|j: int|
                0 <= j < n && (#[trigger] v.rows[j]).bid.0 + v.rows[j].ask.0 == most && j != slot
                    ==> {
                    ||| half_rows_off(slot, n) < half_rows_off(j, n)
                    ||| half_rows_off(slot, n) == half_rows_off(j, n) && slot < j
                }
        },
{
    if exists|j: int| 0 <= j < v.rows.len() && (#[trigger] v.rows[j]).bid.0 + v.rows[j].ask.0 > 0 {
        let best = lemma_some_poc(v.rows, v.rows.len() as int);
        assert(is_poc_slot(v.rows, best));
        let slot = poc_slot(v.rows)->0;
        assert(is_poc_slot(v.rows, slot));
        lemma_row_price_fits(v, slot);
        slot
    } else {
        if poc_slot(v.rows) is Some {
            let slot = poc_slot(v.rows)->0;
            assert(is_poc_slot(v.rows, slot));
            assert(v.rows[slot].bid.0 + v.rows[slot].ask.0 > 0);
        }
        0
    }
}

/// Whether slot `a` is taken for the point of control before slot `b`.
spec fn beats(rows: Seq<Cluster>, a: int, b: int) -> bool {
    let n = rows.len() as int;
    let (x, y) = (rows[a].bid.0 + rows[a].ask.0, rows[b].bid.0 + rows[b].ask.0);
    ||| x > y
    ||| x == y && half_rows_off(a, n) < half_rows_off(b, n)
    ||| x == y && half_rows_off(a, n) == half_rows_off(b, n) && a < b
}

proof fn lemma_some_poc(rows: Seq<Cluster>, n: int) -> (best: int)
    requires
        0 < n <= rows.len(),
        exists|j: int| 0 <= j < rows.len() && (#[trigger] rows[j]).bid.0 + rows[j].ask.0 > 0,
    ensures
        0 <= best < n,
        forall|j: int| 0 <= j < n && j != best ==> #[trigger] beats(rows, best, j),
        n == rows.len() ==> is_poc_slot(rows, best),
    decreases n,
{
    let best = if n == 1 {
        0
    } else {
        let best = lemma_some_poc(rows, n - 1);
        if beats(rows, n - 1, best) {
            assert forall|j: int| 0 <= j < n && j != n - 1 implies #[trigger] beats(
                rows,
                n - 1,
                j,
            ) by {
                if j != best {
                    assert(beats(rows, best, j));
                }
            }
            n - 1
        } else {
            assert forall|j: int| 0 <= j < n && j != best implies #[trigger] beats(
                rows,
                best,
                j,
            ) by {}
            best
        }
    };
    if n == rows.len() {
        let k = choose|k: int|
            0 <= k < rows.len() && (#[trigger] rows[k]).bid.0 + rows[k].ask.0 > 0;
        if k != best {
            assert(beats(rows, best, k));
        }
        assert forall|j: int| 0 <= j < rows.len() implies (#[trigger] rows[j]).size()
            <= rows[best].size() by {
            if j != best {
                assert(beats(rows, best, j));
            }
        }
        assert forall|j: int|
            0 <= j < rows.len() && (#[trigger] rows[j]).size() == rows[best].size() && j
                != best implies crate::engine::cluster::off_middle(best, rows.len() as int)
            < crate::engine::cluster::off_middle(j, rows.len() as int) || (
        crate::engine::cluster::off_middle(best, rows.len() as int)
            == crate::engine::cluster::off_middle(j, rows.len() as int) && best < j) by {
            assert(beats(rows, best, j));
        }
    }
    best
}

/// The volume that traded from row `low` to row `high`, bought and sold
/// together; rows outside the ladder hold none.
pub open spec fn traded_between(rows: Seq<Cluster>, low: int, high: int) -> int
    decreases high - low + 1,
{
    if high < low {
        0
    } else {
        traded_between(rows, low, high - 1) + if 0 <= high < rows.len() {
            rows[high].bid.0 + rows[high].ask.0
        } else {
            0
        }
    }
}

/// Whether a band of rows grew from one to the next as a value area does: by the
/// next two rows above, or by the next two below, or by the one that is left
/// there. Where both sides have rows left it took the two that traded more, and
/// the upper ones where they traded the same.
pub open spec fn grew(rows: Seq<Cluster>, from: (int, int), to: (int, int)) -> bool {
    let n = rows.len() as int;
    let above = traded_between(rows, from.1 + 1, from.1 + 2);
    let below = traded_between(rows, from.0 - 2, from.0 - 1);
    ||| {
        &&& to.0 == from.0
        &&& from.1 < n - 1
        &&& to.1 == from.1 + 2 || (to.1 == from.1 + 1 && to.1 == n - 1)
        &&& to.1 < n
        &&& from.0 > 0 ==> above >= below
    }
    ||| {
        &&& to.1 == from.1
        &&& from.0 > 0
        &&& to.0 == from.0 - 2 || (to.0 == from.0 - 1 && to.0 == 0)
        &&& to.0 >= 0
        &&& from.1 < n - 1 ==> below > above
    }
}

/// Whether bands are the growth of a value area: each from the one before, and
/// only while what it holds falls short of `target`.
pub open spec fn is_growth(rows: Seq<Cluster>, bands: Seq<(int, int)>, target: int) -> bool {
    &&& bands.len() > 0
    &&& forall|i: int, j: int|
        0 <= i && j == i + 1 && j < bands.len() ==> grew(
            rows,
            #[trigger] bands[i],
            #[trigger] bands[j],
        ) && traded_between(rows, bands[i].0, bands[i].1) < target
}

proof fn lemma_traded_band(rows: Seq<Cluster>, low: int, high: int)
    requires
        0 <= low,
        high < rows.len(),
    ensures
        traded_between(rows, low, high) == band_volume(rows, low, high),
    decreases high - low + 1,
{
    if low <= high {
        lemma_traded_band(rows, low, high - 1);
    }
}

proof fn lemma_growth(rows: Seq<Cluster>, band: Band, target: int) -> (bands: Seq<(int, int)>)
    requires
        0 <= band.lower <= band.upper < rows.len(),
    ensures
        is_growth(rows, bands, target),
        bands[0] == (band.lower, band.upper),
        bands.last() == (
            band_holding(rows, band, target).lower,
            band_holding(rows, band, target).upper,
        ),
        0 <= bands.last().0 <= band.lower,
        band.upper <= bands.last().1 < rows.len(),
        traded_between(rows, bands.last().0, bands.last().1) >= target || (bands.last().0 == 0
            && bands.last().1 == rows.len() - 1),
    decreases rows.len() - (band.upper - band.lower),
{
    lemma_traded_band(rows, band.lower, band.upper);
    let here = (band.lower, band.upper);
    if band_volume(rows, band.lower, band.upper) >= target || (band.lower == 0 && band.upper
        == rows.len() - 1) {
        seq![here]
    } else {
        let next = widened(rows, band);
        let rest = lemma_growth(rows, next, target);
        let bands = seq![here] + rest;
        reveal_with_fuel(traded_between, 3);
        assert(traded_between(rows, band.upper + 1, band.upper + 2) == row_volume(
            rows,
            band.upper + 1,
        ) + row_volume(rows, band.upper + 2));
        assert(traded_between(rows, band.lower - 2, band.lower - 1) == row_volume(
            rows,
            band.lower - 1,
        ) + row_volume(rows, band.lower - 2));
        assert(grew(rows, here, (next.lower, next.upper)));
        assert forall|i: int, j: int| 0 <= i && j == i + 1 && j < bands.len() implies grew(
            rows,
            #[trigger] bands[i],
            #[trigger] bands[j],
        ) && traded_between(rows, bands[i].0, bands[i].1) < target by {
            if i > 0 {
                assert(bands[i] == rest[i - 1]);
                assert(bands[j] == rest[j - 1]);
            } else {
                assert(bands[j] == rest[0]);
            }
        }
        bands
    }
}

/// How a value area comes about. It starts from the row of the point of control
/// and grows a pair of rows at a time, toward the side whose next pair traded
/// more, until it holds the asked share of all volume, rounded half up, or has
/// taken in the whole ladder; it never grows once the share is reached. What it
/// reports are the prices of its lowest and highest row and the volume in
/// between.
pub proof fn law_a_value_area_grows_toward_volume(v: LadderView, fraction: Ratio) -> (bands: Seq<
    (int, int),
>)
    requires
        v.wf(),
        v.prices_fit(),
        fraction.wf(),
        v.value_fits(fraction),
        v.value_area_of(fraction) is Some,
    ensures
        ({
            let area = v.value_area_of(fraction)->0;
            let total = v.total_bid + v.total_ask;
            let target = share_of(total, fraction);
            let (low, high) = bands.last();
            &&& is_growth(v.rows, bands, target)
            &&& bands[0].0 == bands[0].1
            &&& v.poc_price() == Some(area.poc)
            &&& area.poc.0 == (v.base + bands[0].0) * v.tick.0
            &&& 0 <= low <= bands[0].0 <= high < v.rows.len()
            &&& area.low.0 == (v.base + low) * v.tick.0
            &&& area.high.0 == (v.base + high) * v.tick.0
            &&& area.volume.0 == traded_between(v.rows, low, high)
            &&& area.volume.0 >= target || (low == 0 && high == v.rows.len() - 1)
            &&& fraction.num >= fraction.den ==> target == total
            &&& fraction.num < fraction.den ==> 2 * fraction.den * target <= 2 * total
                * fraction.num + fraction.den < 2 * fraction.den * (target + 1)
        }),
{
    let slot = poc_slot(v.rows)->0;
    assert(is_poc_slot(v.rows, slot));
    let target = share_of(v.total_bid + v.total_ask, fraction);
    let bands = lemma_growth(v.rows, Band { lower: slot, upper: slot }, target);
    let (low, high) = bands.last();
    lemma_row_price_fits(v, slot);
    lemma_row_price_fits(v, low);
    lemma_row_price_fits(v, high);
    lemma_traded_band(v.rows, low, high);
    law_a_share_is_rounded_half_up(v.total_bid + v.total_ask, fraction);
    bands
}

/// There is a value area exactly where there is a point of control and the
/// ladder holds a positive volume in all.
pub proof fn law_a_value_area_needs_volume(v: LadderView, fraction: Ratio)
    requires
        v.wf(),
    ensures
        v.value_area_of(fraction) is Some <==> v.poc_price() is Some && v.total_bid + v.total_ask
            > 0,
{
}

/// The first step of a value area. Where the point of control alone falls short
/// and both sides have rows, the area reaches below it if the two rows below
/// traded more than the two above, and above it otherwise.
pub proof fn law_a_value_area_first_takes_the_heavier_pair(
    v: LadderView,
    fraction: Ratio,
    slot: int,
)
    requires
        v.wf(),
        v.prices_fit(),
        fraction.wf(),
        v.value_fits(fraction),
        v.value_area_of(fraction) is Some,
        0 < slot < v.rows.len() - 1,
        v.value_area_of(fraction)->0.poc.0 == (v.base + slot) * v.tick.0,
        v.rows[slot].bid.0 + v.rows[slot].ask.0 < share_of(v.total_bid + v.total_ask, fraction),
    ensures
        ({
            let area = v.value_area_of(fraction)->0;
            let above = traded_between(v.rows, slot + 1, slot + 2);
            let below = traded_between(v.rows, slot - 2, slot - 1);
            &&& below > above ==> area.low.0 < area.poc.0
            &&& above >= below ==> area.high.0 > area.poc.0
            &&& area.volume.0 > v.rows[slot].bid.0 + v.rows[slot].ask.0 || (area.low.0 == v.base
                * v.tick.0 && area.high.0 == (v.base + v.rows.len() - 1) * v.tick.0)
        }),
{
    let bands = law_a_value_area_grows_toward_volume(v, fraction);
    let t = v.tick.0 as int;
    let at = bands[0].0;
    assert(at == slot) by (nonlinear_arith)
        requires
            t > 0,
            (v.base + at) * t == (v.base + slot) * t,
    ;
    reveal_with_fuel(traded_between, 2);
    let (low, high) = bands.last();
    assert(bands.len() > 1);
    assert(grew(v.rows, bands[0], bands[1]));
    lemma_only_outward(v.rows, bands, share_of(v.total_bid + v.total_ask, fraction), 1);
    assert(low < slot ==> (v.base + low) * t < (v.base + slot) * t) by (nonlinear_arith)
        requires
            t > 0,
    ;
    assert(high > slot ==> (v.base + high) * t > (v.base + slot) * t) by (nonlinear_arith)
        requires
            t > 0,
    ;
}

proof fn lemma_only_outward(rows: Seq<Cluster>, bands: Seq<(int, int)>, target: int, i: int)
    requires
        is_growth(rows, bands, target),
        0 <= i < bands.len(),
    ensures
        bands.last().0 <= bands[i].0,
        bands[i].1 <= bands.last().1,
    decreases bands.len() - i,
{
    if i + 1 < bands.len() {
        assert(grew(rows, bands[i], bands[i + 1]));
        lemma_only_outward(rows, bands, target, i + 1);
    }
}

/// Whether a side dominates a row against the cell across the diagonal: buyers
/// lifting the ask of the row against sellers hitting the bid one row below, and
/// sellers hitting its bid against buyers lifting the ask one row above. It
/// traded, and at least `min_volume`, and either nothing traded against it or it
/// is at least the ratio times that.
pub open spec fn is_dominated(
    v: LadderView,
    slot: int,
    side: Side,
    ratio: Ratio,
    min_volume: Qty,
) -> bool {
    let across = match side {
        Side::Buy => slot - 1,
        Side::Sell => slot + 1,
    };
    let (own, other) = match side {
        Side::Buy => (v.rows[slot].ask.0, v.rows[across].bid.0),
        Side::Sell => (v.rows[slot].bid.0, v.rows[across].ask.0),
    };
    &&& 0 <= slot < v.rows.len()
    &&& 0 <= across < v.rows.len()
    &&& own > 0
    &&& own >= min_volume.0
    &&& other == 0 || (other > 0 && own * ratio.den >= ratio.num * other)
}

/// What is reported of a row that a side dominates.
pub open spec fn report(v: LadderView, slot: int, side: Side) -> Imbalance {
    Imbalance {
        price: Price(((v.base + slot) * v.tick.0) as i64),
        side,
        dominant: match side {
            Side::Buy => v.rows[slot].ask,
            Side::Sell => v.rows[slot].bid,
        },
        opposing: match side {
            Side::Buy => v.rows[slot - 1].bid,
            Side::Sell => v.rows[slot + 1].ask,
        },
    }
}

/// Whether an imbalance is that of some row which a side dominates.
pub open spec fn is_of_some_row(
    v: LadderView,
    imbalance: Imbalance,
    ratio: Ratio,
    min_volume: Qty,
) -> bool {
    exists|slot: int, side: Side| #[trigger]
        is_dominated(v, slot, side, ratio, min_volume) && imbalance == report(v, slot, side)
}

/// The imbalances of a ladder are the rows that a side dominates across the
/// diagonal, every one of them and nothing else. They are listed from the lowest
/// price up, buyers before sellers at the same price, none twice.
pub proof fn law_imbalances_are_the_dominated_rows(v: LadderView, ratio: Ratio, min_volume: Qty)
    requires
        v.wf(),
        v.prices_fit(),
    ensures
        ({
            let found = v.all_imbalances(ratio, min_volume);
            &&& forall|slot: int, side: Side| #[trigger]
                is_dominated(v, slot, side, ratio, min_volume) ==> found.contains(
                    report(v, slot, side),
                )
            &&& forall|k: int|
                0 <= k < found.len() ==> is_of_some_row(
                    v,
                    #[trigger] found[k],
                    ratio,
                    min_volume,
                )
            &&& forall|i: int, j: int|
                0 <= i < j < found.len() ==> (#[trigger] found[i]).price.0 < (
                #[trigger] found[j]).price.0 || (found[i].price == found[j].price && found[i].side
                    is Buy && found[j].side is Sell)
        }),
{
    let found = v.all_imbalances(ratio, min_volume);
    let n = v.rows.len() as int;
    assert forall|slot: int, side: Side| #[trigger]
        is_dominated(v, slot, side, ratio, min_volume) implies found.contains(
        report(v, slot, side),
    ) by {
        assert(v.is_marked(slot, side, ratio, min_volume));
        lemma_mark_placed(v, n, slot, side, ratio, min_volume);
        let at = v.place_of(slot, side, ratio, min_volume);
        assert(found[at] == report(v, slot, side));
    }
    assert forall|k: int| 0 <= k < found.len() implies is_of_some_row(
        v,
        #[trigger] found[k],
        ratio,
        min_volume,
    ) by {
        let (slot, side) = lemma_place_marked(v, n, k, ratio, min_volume);
        assert(is_dominated(v, slot, side, ratio, min_volume));
        assert(found[k] == report(v, slot, side));
    }
    assert forall|i: int, j: int| 0 <= i < j < found.len() implies (#[trigger] found[i]).price.0 < (
    #[trigger] found[j]).price.0 || (found[i].price == found[j].price && found[i].side is Buy
        && found[j].side is Sell) by {
        let (a, one) = lemma_place_marked(v, n, i, ratio, min_volume);
        let (b, other) = lemma_place_marked(v, n, j, ratio, min_volume);
        let t = v.tick.0 as int;
        if a < b {
            lemma_prices_apart(v, a, b);
            assert((b - a) * t > 0) by (nonlinear_arith)
                requires
                    b > a,
                    t > 0,
            ;
        } else if a > b {
            lemma_below_grows(v, b + 1, a, ratio, min_volume);
        }
    }
}

proof fn lemma_below_grows(v: LadderView, low: int, high: int, ratio: Ratio, min_volume: Qty)
    requires
        0 <= low <= high,
    ensures
        v.imbalances_below(low, ratio, min_volume).len() <= v.imbalances_below(
            high,
            ratio,
            min_volume,
        ).len(),
    decreases high - low,
{
    if low < high {
        lemma_below_grows(v, low, high - 1, ratio, min_volume);
    }
}

/// Stacks are cut out of a list of imbalances where it goes on in no stack: each
/// is a stretch of the list in which every imbalance is of the same side as the
/// one before and one tick above it, and which goes on at neither end. Every such
/// stretch that is long enough is there, in the order of the list.
pub proof fn law_stacks_are_the_long_stretches(
    found: Seq<Imbalance>,
    tick: Price,
    min_run: int,
) -> (places: Seq<int>)
    requires
        min_run > 0,
    ensures
        are_blocks(
            found,
            tick,
            min_run,
            stacks_of(found, tick, min_run),
            places,
            found.len() as int,
        ),
{
    lemma_stacks(found, tick, min_run)
}

} // verus!
