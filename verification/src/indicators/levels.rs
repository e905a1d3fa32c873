//! What the profiles count at each price, in terms of the bars that went in.

use crate::engine::cluster::ClusterRow;
use crate::primitives::fixed::Price;
use crate::primitives::market::Side;
use vstd::prelude::*;

verus! {

use crate::engine::bar::BarView;
use crate::engine::cluster::lemma_row_price_fits;
use crate::engine::footprint::law_a_trade_lands_on_its_row;
use crate::indicators::profile::{
    law_a_bar_counts_once_per_level, lemma_rows_keep, trades_at, traded, ProfileView,
};
use crate::indicators::tpo::{fresh_tpo, TpoView};
use crate::primitives::fixed::{law_row_holds_its_price, tick_row};

/// Whether a price lies on a row.
pub open spec fn lies_on(price: Price, tick: Price, row: int) -> bool {
    row * tick.0 <= price.0 < (row + 1) * tick.0
}

/// How much the first `n` rows of a bar bought on a row of a profile.
pub open spec fn bought_on(rows: Seq<ClusterRow>, n: int, tick: Price, row: int) -> int
    decreases n,
{
    if n <= 0 {
        0
    } else {
        bought_on(rows, n - 1, tick, row) + if lies_on(rows[n - 1].price, tick, row)
            && rows[n - 1].cluster.ask.0 > 0 {
            rows[n - 1].cluster.ask.0 as int
        } else {
            0
        }
    }
}

/// How much the first `n` rows of a bar sold on a row of a profile.
pub open spec fn sold_on(rows: Seq<ClusterRow>, n: int, tick: Price, row: int) -> int
    decreases n,
{
    if n <= 0 {
        0
    } else {
        sold_on(rows, n - 1, tick, row) + if lies_on(rows[n - 1].price, tick, row)
            && rows[n - 1].cluster.bid.0 > 0 {
            rows[n - 1].cluster.bid.0 as int
        } else {
            0
        }
    }
}

/// Whether a bar traded on a row of a profile.
pub open spec fn is_hit(rows: Seq<ClusterRow>, tick: Price, row: int) -> bool {
    exists|k: int|
        0 <= k < rows.len() && ((#[trigger] rows[k]).cluster.bid.0 > 0 || rows[k].cluster.ask.0
            > 0) && lies_on(rows[k].price, tick, row)
}

proof fn lemma_sums_of_prefix(
    less: Seq<ClusterRow>,
    rows: Seq<ClusterRow>,
    n: int,
    tick: Price,
    row: int,
)
    requires
        n <= less.len() <= rows.len(),
        less == rows.take(less.len() as int),
    ensures
        bought_on(less, n, tick, row) == bought_on(rows, n, tick, row),
        sold_on(less, n, tick, row) == sold_on(rows, n, tick, row),
    decreases n,
{
    if n > 0 {
        lemma_sums_of_prefix(less, rows, n - 1, tick, row);
    }
}

proof fn lemma_row_added(v: ProfileView, from: ClusterRow, bar: u64, row: int)
    requires
        v.ladder.wf(),
        v.can_add_row(from),
    ensures
        ({
            let after = v.with_row(from, bar).ladder;
            let here = lies_on(from.price, v.ladder.tick, row);
            &&& after.tick == v.ladder.tick
            &&& after.level(row).ask.0 - v.ladder.level(row).ask.0 == if here && from.cluster.ask.0
                > 0 {
                from.cluster.ask.0 as int
            } else {
                0
            }
            &&& after.level(row).bid.0 - v.ladder.level(row).bid.0 == if here && from.cluster.bid.0
                > 0 {
                from.cluster.bid.0 as int
            } else {
                0
            }
        }),
{
    if from.cluster.bid.0 > 0 {
        law_a_trade_lands_on_its_row(v.ladder, from.price, from.cluster.bid, Side::Sell, row);
        crate::engine::cluster::lemma_added_wf(
            v.ladder,
            from.price,
            from.cluster.bid,
            Side::Sell,
        );
    }
    if from.cluster.ask.0 > 0 {
        law_a_trade_lands_on_its_row(v.with_bid(from), from.price, from.cluster.ask, Side::Buy, row);
    }
}

proof fn lemma_rows_added(v: ProfileView, rows: Seq<ClusterRow>, bar: u64, row: int)
    requires
        v.wf(),
        bar == v.bars + 1,
        v.can_add_rows(rows, bar),
    ensures
        ({
            let after = v.with_rows(rows, bar).ladder;
            let n = rows.len() as int;
            &&& after.tick == v.ladder.tick
            &&& after.level(row).ask.0 - v.ladder.level(row).ask.0 == bought_on(
                rows,
                n,
                v.ladder.tick,
                row,
            )
            &&& after.level(row).bid.0 - v.ladder.level(row).bid.0 == sold_on(
                rows,
                n,
                v.ladder.tick,
                row,
            )
        }),
    decreases rows.len(),
{
    if rows.len() > 0 {
        let less = rows.drop_last();
        lemma_rows_added(v, less, bar, row);
        lemma_rows_keep(v, less, bar);
        lemma_row_added(v.with_rows(less, bar), rows.last(), bar, row);
        lemma_sums_of_prefix(less, rows, less.len() as int, v.ladder.tick, row);
    }
}

proof fn lemma_row_of(price: Price, tick: Price, row: int)
    requires
        tick.0 > 0,
    ensures
        lies_on(price, tick, row) <==> tick_row(price.0 as int, tick.0 as int) == row,
{
    let (p, t) = (price.0 as int, tick.0 as int);
    law_row_holds_its_price(p, t);
    let q = tick_row(p, t);
    if row * t <= p < (row + 1) * t {
        assert(row == q) by (nonlinear_arith)
            requires
                t > 0,
                q * t <= p < (q + 1) * t,
                row * t <= p < (row + 1) * t,
        ;
    }
}

/// A session profile holds, at each row, what the bars bought and sold there, and
/// in how many bars the row traded: one more for a bar that traded there, however
/// much and at however many of its own rows. The session runs from the open of the
/// first bar to the close of the last.
pub proof fn law_a_profile_adds_up_its_bars(v: ProfileView, bar: BarView, row: int)
    requires
        v.wf(),
        v.can_take(bar),
    ensures
        ({
            let after = v.taken(bar);
            let rows = bar.ladder.row_list();
            let n = rows.len() as int;
            let tick = v.ladder.tick;
            &&& after.ladder.level(row).ask.0 - v.ladder.level(row).ask.0 == bought_on(
                rows,
                n,
                tick,
                row,
            )
            &&& after.ladder.level(row).bid.0 - v.ladder.level(row).bid.0 == sold_on(
                rows,
                n,
                tick,
                row,
            )
            &&& after.bars_at(row) - v.bars_at(row) == if is_hit(rows, tick, row) {
                1int
            } else {
                0
            }
            &&& after.start == if v.start is None {
                Some(bar.open_ts)
            } else {
                v.start
            }
            &&& after.end == Some(bar.close_ts)
            &&& after.bars == v.bars + 1
            &&& after.ladder.tick == tick
        }),
{
    let rows = bar.ladder.row_list();
    let tick = v.ladder.tick;
    let number = (v.bars + 1) as u64;
    lemma_rows_added(v, rows, number, row);
    lemma_rows_keep(v, rows, number);
    law_a_bar_counts_once_per_level(v, bar, row);
    assert(is_hit(rows, tick, row) <==> trades_at(rows, tick, row)) by {
        if is_hit(rows, tick, row) {
            let k = choose|k: int|
                0 <= k < rows.len() && ((#[trigger] rows[k]).cluster.bid.0 > 0
                    || rows[k].cluster.ask.0 > 0) && lies_on(rows[k].price, tick, row);
            lemma_row_of(rows[k].price, tick, row);
            assert(traded(rows[k]));
        }
        if trades_at(rows, tick, row) {
            let k = choose|k: int|
                0 <= k < rows.len() && traded(#[trigger] rows[k]) && tick_row(
                    rows[k].price.0 as int,
                    tick.0 as int,
                ) == row;
            lemma_row_of(rows[k].price, tick, row);
            assert(rows[k].cluster.bid.0 > 0 || rows[k].cluster.ask.0 > 0);
        }
    }
}

proof fn lemma_singles(v: ProfileView, n: int)
    requires
        v.ladder.wf(),
        v.ladder.prices_fit(),
        0 <= n <= v.ladder.rows.len(),
    ensures
        ({
            let found = v.singles_below(n);
            &&& forall|slot: int|
                0 <= slot < n && v.bars_at(v.ladder.base + slot) == 1 ==> found.contains(
                    #[trigger] v.ladder.row_price(slot),
                )
            &&& forall|i: int|
                0 <= i < found.len() ==> is_single(v, n, #[trigger] found[i])
            &&& forall|i: int, j: int|
                0 <= i < j < found.len() ==> (#[trigger] found[i]).0 < (#[trigger] found[j]).0
        }),
    decreases n,
{
    if n > 0 {
        lemma_singles(v, n - 1);
        let less = v.singles_below(n - 1);
        let found = v.singles_below(n);
        lemma_row_price_fits(v.ladder, n - 1);
        let price = v.ladder.row_price(n - 1);
        assert forall|i: int| 0 <= i < less.len() implies is_single(v, n, #[trigger] less[i])
            && less[i].0 < price.0 by {
            assert(is_single(v, n - 1, less[i]));
            let slot = choose|slot: int|
                0 <= slot < n - 1 && v.bars_at(v.ladder.base + slot) == 1 && less[i]
                    == #[trigger] v.ladder.row_price(slot);
            lemma_row_price_fits(v.ladder, slot);
            let (a, b, t) = (v.ladder.base + slot, v.ladder.base + n - 1, v.ladder.tick.0 as int);
            assert(a * t < b * t) by (nonlinear_arith)
                requires
                    a < b,
                    t > 0,
            ;
        }
        if v.bars_at(v.ladder.base + n - 1) == 1 {
            assert(found[less.len() as int] == price);
            assert(is_single(v, n, price));
            assert forall|slot: int|
                0 <= slot < n && v.bars_at(v.ladder.base + slot) == 1 implies found.contains(
                #[trigger] v.ladder.row_price(slot),
            ) by {
                if slot < n - 1 {
                    assert(less.contains(v.ladder.row_price(slot)));
                    let i = less.index_of(v.ladder.row_price(slot));
                    assert(found[i] == less[i]);
                }
            }
            assert forall|i: int| 0 <= i < found.len() implies is_single(
                v,
                n,
                #[trigger] found[i],
            ) by {
                if i < less.len() {
                    assert(found[i] == less[i]);
                }
            }
            assert forall|i: int, j: int| 0 <= i < j < found.len() implies (
            #[trigger] found[i]).0 < (#[trigger] found[j]).0 by {
                assert(found[i] == less[i]);
                if j < less.len() {
                    assert(found[j] == less[j]);
                }
            }
        }
    }
}

/// Whether a price is that of one of the first `n` rows that traded in one bar.
pub open spec fn is_single(v: ProfileView, n: int, price: Price) -> bool {
    exists|slot: int|
        0 <= slot < n && v.bars_at(v.ladder.base + slot) == 1 && price
            == #[trigger] v.ladder.row_price(slot)
}

/// Single prints are the rows that traded in exactly one bar, all of them, from
/// the lowest up.
pub proof fn law_single_prints_traded_in_one_bar(v: ProfileView)
    requires
        v.ladder.wf(),
        v.ladder.prices_fit(),
    ensures
        ({
            let n = v.ladder.rows.len() as int;
            let found = v.singles_below(n);
            &&& forall|slot: int|
                0 <= slot < n && v.bars_at(v.ladder.base + slot) == 1 ==> found.contains(
                    #[trigger] v.ladder.row_price(slot),
                )
            &&& forall|i: int|
                0 <= i < found.len() ==> is_single(v, n, #[trigger] found[i])
            &&& forall|i: int, j: int|
                0 <= i < j < found.len() ==> (#[trigger] found[i]).0 < (#[trigger] found[j]).0
        }),
{
    lemma_singles(v, v.ladder.rows.len() as int);
}

/// Whether a moment lies in a bracket.
pub open spec fn lies_in(moment: int, bracket: int, nanos: int) -> bool {
    bracket * nanos <= moment < (bracket + 1) * nanos
}

/// A bar that opens in the bracket in progress counts nothing. One that opens in
/// another counts the bracket before it, once at each level that it touched, and
/// starts afresh. Either way the levels touched then take in every row that the
/// bar's range reaches into, from low to high.
pub proof fn law_a_time_profile_counts_brackets(v: TpoView, bar: BarView, row: i64)
    requires
        v.wf(),
        v.can_take(bar),
        bar.low.0 <= bar.high.0,
    ensures
        ({
            let after = v.taken(bar);
            let goes_on = v.current is Some && lies_in(
                bar.open_ts.0 as int,
                v.current->0 as int,
                v.bracket_nanos as int,
            );
            let reached = row * v.tick.0 <= bar.high.0 && (row + 1) * v.tick.0 > bar.low.0;
            &&& after.current is Some
            &&& lies_in(bar.open_ts.0 as int, after.current->0 as int, v.bracket_nanos as int)
            &&& goes_on ==> after.current == v.current && after.brackets == v.brackets
                && after.count(row as int) == v.count(row as int)
            &&& goes_on ==> (after.levels.contains(row) <==> v.levels.contains(row) || reached)
            &&& !goes_on ==> (after.levels.contains(row) <==> reached)
            &&& !goes_on && v.current is Some ==> after.brackets == v.brackets + 1 && after.count(
                row as int,
            ) == v.count(row as int) + if v.levels.contains(row) {
                1int
            } else {
                0
            }
            &&& v.current is None ==> after.brackets == v.brackets && after.count(row as int)
                == v.count(row as int)
            &&& after.tick == v.tick
            &&& after.bracket_nanos == v.bracket_nanos
        }),
{
    let (a, b) = (bar.open_ts.0 as int, v.bracket_nanos as int);
    law_row_holds_its_price(a, b);
    let q = a / b;
    assert(i64::MIN <= q <= i64::MAX) by (nonlinear_arith)
        requires
            i64::MIN <= a <= i64::MAX,
            b > 0,
            q == a / b,
    ;
    if let Some(now) = v.current {
        let c = now as int;
        if c * b <= a < (c + 1) * b {
            assert(c == q) by (nonlinear_arith)
                requires
                    b > 0,
                    q * b <= a < (q + 1) * b,
                    c * b <= a < (c + 1) * b,
            ;
        }
    }
    lemma_reached(bar.low.0 as int, v.tick.0 as int, row as int);
    lemma_reached(bar.high.0 as int, v.tick.0 as int, row as int);
}

proof fn lemma_reached(price: int, tick: int, row: int)
    requires
        tick > 0,
    ensures
        tick_row(price, tick) <= row <==> price < (row + 1) * tick,
        row <= tick_row(price, tick) <==> row * tick <= price,
{
    law_row_holds_its_price(price, tick);
    let q = tick_row(price, tick);
    if q <= row {
        assert((q + 1) * tick <= (row + 1) * tick) by (nonlinear_arith)
            requires
                q <= row,
                tick > 0,
        ;
    } else {
        assert((row + 1) * tick <= q * tick) by (nonlinear_arith)
            requires
                row + 1 <= q,
                tick > 0,
        ;
    }
    if row <= q {
        assert(row * tick <= q * tick) by (nonlinear_arith)
            requires
                row <= q,
                tick > 0,
        ;
    } else {
        assert((q + 1) * tick <= row * tick) by (nonlinear_arith)
            requires
                q + 1 <= row,
                tick > 0,
        ;
    }
}

/// Finishing counts the bracket in progress as the next one would have, and
/// leaves none in progress; finishing again changes nothing.
pub proof fn law_finishing_counts_the_last_bracket(v: TpoView, row: i64)
    requires
        v.wf(),
        v.can_close(),
    ensures
        v.finished().current is None,
        v.finished().finished() == v.finished(),
        v.finished().count(row as int) == v.count(row as int) + if v.current is Some
            && v.levels.contains(row) {
            1int
        } else {
            0
        },
        v.finished().brackets == v.brackets + if v.current is Some {
            1int
        } else {
            0
        },
{
}

/// A level is the point of control exactly where it has a count, none has more,
/// and no higher one has as many.
pub proof fn law_the_time_point_of_control_has_the_most(v: TpoView, index: i64, other: i64)
    requires
        v.wf(),
        v.is_poc(index),
    ensures
        v.count(index as int) > 0,
        v.count(other as int) <= v.count(index as int),
        other > index ==> v.count(other as int) < v.count(index as int),
{
}

/// The rows listed are the levels with a count, each with its price and its count,
/// from the lowest up.
pub proof fn law_listed_levels_have_counts(v: TpoView, rows: Seq<(Price, u32)>, i: int, k: i64)
    requires
        v.wf(),
        v.prices_fit(),
        v.listed(rows),
    ensures
        v.count(k as int) > 0 ==> exists|j: int|
            0 <= j < rows.len() && (#[trigger] rows[j]).0.0 == k * v.tick.0 && rows[j].1 == v.count(
                k as int,
            ),
        0 <= i < rows.len() ==> rows[i].1 > 0 && exists|row: int|
            rows[i].0.0 == row * v.tick.0 && rows[i].1 == #[trigger] v.count(row),
        0 < i < rows.len() ==> rows[i - 1].0.0 < rows[i].0.0,
{
    if v.count(k as int) > 0 {
        let entry = (v.level_price(k as int), v.counts[k]);
        assert(rows.contains(entry));
        let j = rows.index_of(entry);
        assert(rows[j].0.0 == k * v.tick.0);
    }
    if 0 <= i < rows.len() {
        assert(v.is_row(rows[i]));
        let row = tick_row(rows[i].0.0 as int, v.tick.0 as int);
        assert(v.counts.contains_key(row as i64));
        assert(rows[i].1 == v.count(row));
        assert(rows[i].0.0 == row * v.tick.0);
    }
}

/// A time profile starts with nothing counted.
pub proof fn law_a_time_profile_starts_empty(tick: Price, nanos: i64, row: i64)
    ensures
        fresh_tpo(tick, nanos).count(row as int) == 0,
        fresh_tpo(tick, nanos).brackets == 0,
        fresh_tpo(tick, nanos).current is None,
        fresh_tpo(tick, nanos).tick == tick,
        fresh_tpo(tick, nanos).bracket_nanos == nanos,
{
}

} // verus!
