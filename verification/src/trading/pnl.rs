//! What a position earns, in terms of the prices and sizes that went into it.

use crate::primitives::fixed::{Price, Qty};
use crate::primitives::market::Side;
use crate::trading::position::Position;
use vstd::prelude::*;

verus! {

use crate::primitives::fixed::{law_division_cuts_off_toward_zero, truncated_div};
use crate::trading::desk::EngineView;
use crate::trading::matching::lemma_signed;
use crate::trading::position::{average_of, payoff_of, reciprocal};

/// Whether `r` is `a` over a positive `b` without its fraction.
pub open spec fn is_whole_part(r: int, a: int, b: int) -> bool {
    &&& a >= 0 ==> 0 <= r * b <= a < (r + 1) * b
    &&& a <= 0 ==> (r - 1) * b < a <= r * b <= 0
}

/// Whether `r` is what `gain` hundred-millionths come to, as far as 64 bits hold
/// it.
pub open spec fn is_paid(r: int, gain: int) -> bool {
    &&& i64::MIN <= r <= i64::MAX
    &&& i64::MIN < r < i64::MAX ==> is_whole_part(r, gain, 100_000_000)
    &&& r == i64::MAX ==> gain >= i64::MAX * 100_000_000
    &&& r == i64::MIN ==> gain <= i64::MIN * 100_000_000
}

/// How much a position holds, whichever side it is on.
pub open spec fn units(qty: Qty) -> int {
    if qty.0 < 0 {
        -qty.0
    } else {
        qty.0 as int
    }
}

proof fn lemma_paid(gain: int, r: int)
    requires
        r == crate::primitives::fixed::clamped(truncated_div(gain, 100_000_000)),
    ensures
        is_paid(r, gain),
{
    law_division_cuts_off_toward_zero(gain, 100_000_000);
}

/// A spot or linear position earns the move of the price per unit: the rise while
/// long, the fall while short. A contract that settles in the base currency earns
/// the change of one over the price instead.
pub proof fn law_a_position_earns_the_move(pos: Position, mark: Price, a: int, b: int)
    ensures
        pos.qty.0 == 0 ==> pos.open_pnl(mark) == 0,
        !(pos.kind is InversePerp) && pos.qty.0 > 0 ==> is_paid(
            pos.open_pnl(mark),
            (mark.0 - pos.avg_price.0) * units(pos.qty),
        ),
        !(pos.kind is InversePerp) && pos.qty.0 < 0 ==> is_paid(
            pos.open_pnl(mark),
            (pos.avg_price.0 - mark.0) * units(pos.qty),
        ),
        pos.kind is InversePerp && (pos.avg_price.0 == 0 || mark.0 == 0) ==> pos.open_pnl(mark)
            == 0,
        pos.kind is InversePerp && pos.avg_price.0 > 0 && mark.0 > 0 && is_whole_part(
            a,
            10_000_000_000_000_000,
            pos.avg_price.0 as int,
        ) && is_whole_part(b, 10_000_000_000_000_000, mark.0 as int) ==> {
            &&& pos.qty.0 > 0 ==> is_paid(pos.open_pnl(mark), (a - b) * units(pos.qty))
            &&& pos.qty.0 < 0 ==> is_paid(pos.open_pnl(mark), (b - a) * units(pos.qty))
        },
{
    let entry = pos.avg_price.0 as int;
    let exit = mark.0 as int;
    if pos.qty.0 != 0 {
        let side = pos.held()->0;
        let size = units(pos.qty);
        lemma_payoff(pos, side, exit, size, a, b);
    }
}

proof fn lemma_payoff(pos: Position, side: Side, exit: int, size: int, a: int, b: int)
    requires
        i64::MIN <= exit <= i64::MAX,
    ensures
        ({
            let entry = pos.avg_price.0 as int;
            let paid = payoff_of(pos.kind, side, entry, exit, size);
            &&& !(pos.kind is InversePerp) ==> is_paid(
                paid,
                match side {
                    Side::Buy => (exit - entry) * size,
                    Side::Sell => (entry - exit) * size,
                },
            )
            &&& pos.kind is InversePerp && (entry == 0 || exit == 0) ==> paid == 0
            &&& pos.kind is InversePerp && entry > 0 && exit > 0 && is_whole_part(
                a,
                10_000_000_000_000_000,
                entry,
            ) && is_whole_part(b, 10_000_000_000_000_000, exit) ==> is_paid(
                paid,
                match side {
                    Side::Buy => (a - b) * size,
                    Side::Sell => (b - a) * size,
                },
            )
        }),
{
    let entry = pos.avg_price.0 as int;
    let paid = payoff_of(pos.kind, side, entry, exit, size);
    if pos.kind is InversePerp {
        if entry > 0 && exit > 0 && is_whole_part(a, 10_000_000_000_000_000, entry)
            && is_whole_part(b, 10_000_000_000_000_000, exit) {
            lemma_one_whole_part(a, reciprocal(entry), 10_000_000_000_000_000, entry);
            lemma_one_whole_part(b, reciprocal(exit), 10_000_000_000_000_000, exit);
            lemma_signed(a - b, side);
            lemma_paid((a - b) * side.sign() * size, paid);
        }
    } else {
        lemma_signed(exit - entry, side);
        lemma_paid((exit - entry) * side.sign() * size, paid);
    }
}

proof fn lemma_one_whole_part(r: int, q: int, a: int, b: int)
    requires
        a >= 0,
        b > 0,
        is_whole_part(r, a, b),
        q == truncated_div(a, b),
    ensures
        r == q,
{
    law_division_cuts_off_toward_zero(a, b);
    assert(r == q) by (nonlinear_arith)
        requires
            b > 0,
            r * b <= a < (r + 1) * b,
            q * b <= a < (q + 1) * b,
    ;
}

/// A fill changes the size by its quantity, up for a buy and down for a sell, and
/// adds its commission. It banks nothing unless it is against the position, and
/// then what the closed units earned at the fill price; the units closed are as
/// many as the fill and the position have in common.
pub proof fn law_a_fill_banks_what_it_closes(
    pos: Position,
    side: Side,
    price: Price,
    qty: Qty,
    commission: Qty,
)
    requires
        pos.can_fill(side, price, qty, commission),
        qty.0 > 0,
    ensures
        ({
            let after = pos.filled(side, price, qty, commission);
            let banked = after.realised.0 - pos.realised.0;
            let against = match side {
                Side::Buy => pos.qty.0 < 0,
                Side::Sell => pos.qty.0 > 0,
            };
            let closed = if qty.0 < units(pos.qty) {
                qty.0 as int
            } else {
                units(pos.qty)
            };
            let share = Position {
                qty: Qty(
                    (if pos.qty.0 > 0 {
                        closed
                    } else {
                        -closed
                    }) as i64,
                ),
                ..pos
            };
            &&& after.qty.0 - pos.qty.0 == match side {
                Side::Buy => qty.0 as int,
                Side::Sell => -qty.0,
            }
            &&& after.commission.0 - pos.commission.0 == commission.0
            &&& after.kind == pos.kind
            &&& banked == pos.banked(side, price, qty)
            &&& banked == if against {
                share.open_pnl(price)
            } else {
                0
            }
        }),
{
    lemma_signed(qty.0 as int, side);
}

/// The entry price after a fill. From flat, and where the fill flips the
/// position, it is the fill's price; where units were closed and some are left, it
/// stays; where none are left, there is none. Where units were added it is the
/// average of the two prices by size, without its fraction.
pub proof fn law_the_entry_is_the_average_paid(
    pos: Position,
    side: Side,
    price: Price,
    qty: Qty,
    commission: Qty,
)
    requires
        pos.can_fill(side, price, qty, commission),
        qty.0 > 0,
    ensures
        ({
            let after = pos.filled(side, price, qty, commission);
            let entry = after.avg_price.0 as int;
            let against = match side {
                Side::Buy => pos.qty.0 < 0,
                Side::Sell => pos.qty.0 > 0,
            };
            let paid = pos.avg_price.0 * units(pos.qty) + price.0 * qty.0;
            &&& pos.qty.0 == 0 ==> after.avg_price == price
            &&& against && after.qty.0 == 0 ==> entry == 0
            &&& against && qty.0 < units(pos.qty) ==> after.avg_price == pos.avg_price
            &&& against && qty.0 > units(pos.qty) ==> after.avg_price == price
            &&& pos.qty.0 != 0 && !against ==> is_whole_part(
                entry,
                paid,
                units(pos.qty) + qty.0,
            )
        }),
{
    lemma_signed(qty.0 as int, side);
    let p = pos.avg_price.0 as int;
    let q = price.0 as int;
    let m = units(pos.qty);
    let n = qty.0 as int;
    if pos.qty.0 == 0 {
        crate::trading::position::law_opening_enters_at_the_fill_price(
            pos,
            side,
            price,
            qty,
            commission,
        );
    } else if (pos.qty.0 > 0) == (side is Buy) {
        lemma_average(p, m, q, n);
    }
}

pub proof fn lemma_average(p: int, m: int, q: int, n: int)
    requires
        i64::MIN <= p <= i64::MAX,
        i64::MIN <= q <= i64::MAX,
        m > 0,
        n > 0,
    ensures
        is_whole_part(average_of(p, m, q, n).0 as int, p * m + q * n, m + n),
{
    let total = p * m + q * n;
    let r = truncated_div(total, m + n);
    law_division_cuts_off_toward_zero(total, m + n);
    assert(i64::MIN <= r <= i64::MAX) by {
        let low = i64::MIN as int;
        let high = i64::MAX as int;
        assert(low * (m + n) <= p * m + q * n <= high * (m + n)) by (nonlinear_arith)
            requires
                low <= p <= high,
                low <= q <= high,
                m > 0,
                n > 0,
        ;
        if total >= 0 {
            assert(r <= high) by (nonlinear_arith)
                requires
                    r * (m + n) <= total,
                    total <= high * (m + n),
                    m + n > 0,
            ;
            assert(r >= 0) by (nonlinear_arith)
                requires
                    0 <= r * (m + n),
                    m + n > 0,
            ;
        } else {
            assert(r >= low) by (nonlinear_arith)
                requires
                    r * (m + n) >= total,
                    total >= low * (m + n),
                    m + n > 0,
            ;
            assert(r <= 0) by (nonlinear_arith)
                requires
                    0 >= r * (m + n),
                    m + n > 0,
            ;
        }
    }
}

/// A fill of positive size can be applied wherever the sums fit in 64 bits.
pub proof fn law_fills_are_taken_while_they_fit(
    pos: Position,
    side: Side,
    price: Price,
    qty: Qty,
    commission: Qty,
)
    requires
        qty.0 > 0,
        pos.qty.0 != i64::MIN,
        i64::MIN <= pos.commission.0 + commission.0 <= i64::MAX,
        i64::MIN <= pos.realised.0 + pos.banked(side, price, qty) <= i64::MAX,
        match side {
            Side::Buy => pos.qty.0 + qty.0 <= i64::MAX,
            Side::Sell => pos.qty.0 - qty.0 >= i64::MIN,
        },
    ensures
        pos.can_fill(side, price, qty, commission),
{
    lemma_signed(qty.0 as int, side);
}

/// A position is long with a positive size, short with a negative one, and on
/// neither side when flat.
pub proof fn law_the_sign_is_the_side(pos: Position)
    ensures
        pos.held() == Some(Side::Buy) <==> pos.qty.0 > 0,
        pos.held() == Some(Side::Sell) <==> pos.qty.0 < 0,
        pos.held() is None <==> pos.qty.0 == 0,
{
}

/// What an account is worth: what was banked, and what the position earns at the
/// last price where there is one, less all commission.
pub proof fn law_an_account_is_banked_and_open(desk: EngineView)
    ensures
        desk.last_price is None ==> desk.net_pnl() == desk.position.realised.0
            - desk.position.commission.0,
        desk.last_price matches Some(price) ==> desk.net_pnl() == desk.position.realised.0
            + desk.position.open_pnl(price) - desk.position.commission.0,
        desk.gross_pnl() == desk.net_pnl() + desk.position.commission.0,
{
}

} // verus!
