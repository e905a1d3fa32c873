//! Position and PnL tracking.
//!
//! PnL is reported in the quote currency for spot and linear contracts, and in
//! the base currency for inverse contracts. An inverse perpetual's payoff is
//! non-linear in price, so applying the linear formula to one misreports every
//! position: subtly at first, then badly as price moves.

use crate::primitives::fixed::{clamp_wide, quotient, Price, Qty, SCALE};
use crate::primitives::instrument::{Instrument, InstrumentKind};
use crate::primitives::market::Side;
use vstd::prelude::*;

verus! {

use crate::primitives::fixed::{
    clamped, in_range, lemma_product_fits, lemma_quotient_bound, magnitude_of, truncated_div,
};

/// A net position in one instrument.
#[derive(Debug, Clone, Copy, PartialEq, Eq, Structural)]
pub struct Position {
    /// Signed size: positive is long, negative is short, zero is flat.
    pub qty: Qty,
    /// Volume-weighted entry price of the open quantity.
    pub avg_price: Price,
    /// PnL banked by closing quantity.
    pub realised: Qty,
    /// Commission paid over the life of the position.
    pub commission: Qty,
    /// How the payoff is computed.
    pub kind: InstrumentKind,
}

/// The payoff of closing `qty` of a `side` position opened at `entry`.
///
/// Linear contracts pay `(exit - entry) * qty`; inverse contracts pay
/// `qty * (1/entry - 1/exit)`, each reciprocal cut off at sixteen places, and
/// nothing where a price is zero.
pub open spec fn payoff_of(kind: InstrumentKind, side: Side, entry: int, exit: int, qty: int) -> int {
    if kind is InversePerp {
        if entry == 0 || exit == 0 {
            0
        } else {
            let gain = (reciprocal(entry) - reciprocal(exit)) * side.sign();
            clamped(truncated_div(gain * qty, 100_000_000))
        }
    } else {
        clamped(truncated_div((exit - entry) * side.sign() * qty, 100_000_000))
    }
}

/// One over a fixed-point price, as a fixed-point number.
pub open spec fn reciprocal(price: int) -> int {
    truncated_div(10_000_000_000_000_000, price)
}

/// The volume-weighted average of two prices, rounded toward zero; the second
/// price where there is no volume.
pub open spec fn average_of(price_a: int, qty_a: int, price_b: int, qty_b: int) -> Price {
    if qty_a + qty_b <= 0 {
        Price(price_b as i64)
    } else {
        Price(truncated_div(price_a * qty_a + price_b * qty_b, qty_a + qty_b) as i64)
    }
}

impl Position {
    /// Whether a fill opens the position or adds to it.
    pub open spec fn adds(self, signed: int) -> bool {
        self.qty.0 == 0 || (self.qty.0 > 0) == (signed > 0)
    }

    /// The side that is held.
    pub open spec fn held(self) -> Option<Side> {
        if self.qty.0 > 0 {
            Some(Side::Buy)
        } else if self.qty.0 < 0 {
            Some(Side::Sell)
        } else {
            None
        }
    }

    /// How much of the position a fill closes.
    pub open spec fn closing(self, qty: int) -> int {
        if qty < magnitude_of(self.qty.0 as int) {
            qty
        } else {
            magnitude_of(self.qty.0 as int) as int
        }
    }

    /// The PnL that a fill banks.
    pub open spec fn banked(self, side: Side, price: Price, qty: Qty) -> int {
        if self.adds(qty.0 * side.sign()) {
            0
        } else {
            payoff_of(
                self.kind,
                self.held()->0,
                self.avg_price.0 as int,
                price.0 as int,
                self.closing(qty.0 as int),
            )
        }
    }

    /// Whether a fill can be applied without leaving 64 bits.
    pub open spec fn can_fill(self, side: Side, price: Price, qty: Qty, commission: Qty) -> bool {
        &&& self.qty.0 != i64::MIN
        &&& in_range(qty.0 * side.sign())
        &&& in_range(self.qty.0 + qty.0 * side.sign())
        &&& in_range(self.commission.0 + commission.0)
        &&& in_range(self.realised.0 + self.banked(side, price, qty))
    }

    /// The position after a fill.
    ///
    /// Adding re-averages the entry. Reducing banks PnL on the closed quantity
    /// and leaves the average alone. A fill that flips the position closes it,
    /// and the rest opens at the fill price.
    pub open spec fn filled(self, side: Side, price: Price, qty: Qty, commission: Qty) -> Position {
        let signed = qty.0 * side.sign();
        let after = self.qty.0 + signed;
        Position {
            qty: Qty(after as i64),
            avg_price: if self.adds(signed) {
                if after == 0 {
                    self.avg_price
                } else {
                    average_of(
                        self.avg_price.0 as int,
                        magnitude_of(self.qty.0 as int) as int,
                        price.0 as int,
                        qty.0 as int,
                    )
                }
            } else if after == 0 {
                Price(0)
            } else if qty.0 > self.closing(qty.0 as int) {
                price
            } else {
                self.avg_price
            },
            realised: Qty((self.realised.0 + self.banked(side, price, qty)) as i64),
            commission: Qty((self.commission.0 + commission.0) as i64),
            kind: self.kind,
        }
    }

    /// PnL of the open quantity at a mark price.
    pub open spec fn open_pnl(self, mark: Price) -> int {
        match self.held() {
            None => 0,
            Some(side) => payoff_of(
                self.kind,
                side,
                self.avg_price.0 as int,
                mark.0 as int,
                magnitude_of(self.qty.0 as int) as int,
            ),
        }
    }

    /// A flat position in an instrument.
    pub fn new(instrument: &Instrument) -> (r: Self)
        ensures
            r == flat_position(instrument.kind),
    {
        Position {
            qty: Qty(0),
            avg_price: Price(0),
            realised: Qty(0),
            commission: Qty(0),
            kind: instrument.kind,
        }
    }

    /// Whether the position is flat.
    pub fn is_flat(&self) -> (r: bool)
        ensures
            r == (self.qty.0 == 0),
    {
        self.qty.is_zero()
    }

    /// Whether the position is long.
    pub fn is_long(&self) -> (r: bool)
        ensures
            r == (self.qty.0 > 0),
    {
        self.qty.is_positive()
    }

    /// Whether the position is short.
    pub fn is_short(&self) -> (r: bool)
        ensures
            r == (self.qty.0 < 0),
    {
        self.qty.is_negative()
    }

    /// Absolute size held.
    pub fn size(&self) -> (r: Qty)
        requires
            self.qty.0 != i64::MIN,
        ensures
            r.0 == magnitude_of(self.qty.0 as int),
    {
        self.qty.abs()
    }

    /// Which side the position is on, or `None` when flat.
    pub fn side(&self) -> (r: Option<Side>)
        ensures
            r == self.held(),
    {
        if self.qty.0 > 0 {
            Some(Side::Buy)
        } else if self.qty.0 < 0 {
            Some(Side::Sell)
        } else {
            None
        }
    }

    /// Whether [`Position::apply_fill`] can apply this fill.
    pub fn accepts_fill(&self, side: Side, price: Price, qty: Qty, commission: Qty) -> (r: bool)
        ensures
            r == self.can_fill(side, price, qty, commission),
    {
        let signed: i128 = match side {
            Side::Buy => qty.0 as i128,
            Side::Sell => -(qty.0 as i128),
        };
        let after: i128 = self.qty.0 as i128 + signed;
        if self.qty.0 == i64::MIN || clamp_wide(signed) as i128 != signed || clamp_wide(after) as i128
            != after || self.commission.checked_add(commission).is_none() {
            return false;
        }
        let pnl = self.pnl_of(side, price, qty);
        self.realised.checked_add(pnl).is_some()
    }

    fn pnl_of(&self, side: Side, price: Price, qty: Qty) -> (r: Qty)
        requires
            self.qty.0 != i64::MIN,
            in_range(qty.0 * side.sign()),
        ensures
            r.0 == self.banked(side, price, qty),
    {
        let signed: i64 = qty.0 * side.signum();
        if self.qty.0 == 0 || (self.qty.0 > 0) == (signed > 0) {
            return Qty(0);
        }
        let closing = self.qty.abs().min(qty);
        let direction = if self.qty.0 > 0 {
            Side::Buy
        } else {
            Side::Sell
        };
        self.payoff(direction, self.avg_price, price, closing)
    }

    /// Apply a fill, returning the PnL it realised.
    ///
    /// Adding to a position re-averages the entry. Reducing one banks PnL on
    /// the closed quantity and leaves the average alone. A fill large enough
    /// to flip the position closes it fully, banks that, and opens the
    /// remainder at the fill price.
    pub fn apply_fill(&mut self, side: Side, price: Price, qty: Qty, commission: Qty) -> (r: Qty)
        requires
            old(self).can_fill(side, price, qty, commission),
        ensures
            *final(self) == old(self).filled(side, price, qty, commission),
            r.0 == old(self).banked(side, price, qty),
    {
        let pnl = self.pnl_of(side, price, qty);
        self.commission = Qty(self.commission.0 + commission.0);
        let signed: i64 = qty.0 * side.signum();
        // Opening from flat, or adding in the same direction.
        if self.qty.0 == 0 || (self.qty.0 > 0) == (signed > 0) {
            let new_qty: i64 = self.qty.0 + signed;
            if new_qty != 0 {
                self.avg_price = weighted_average(self.avg_price, self.qty.abs(), price, qty);
            }
            self.qty = Qty(new_qty);
            return pnl;
        }
        // Reducing, closing, or flipping.
        let closing = self.qty.abs().min(qty);
        self.realised = Qty(self.realised.0 + pnl.0);
        self.qty = Qty(self.qty.0 + signed);
        if self.qty.0 == 0 {
            self.avg_price = Price(0);
        } else if qty.0 > closing.0 {
            // Flipped: the new position starts fresh at this fill's price.
            self.avg_price = price;
        }
        pnl
    }

    /// Unrealised PnL if the position were marked at `mark`.
    pub fn unrealised(&self, mark: Price) -> (r: Qty)
        requires
            self.qty.0 != i64::MIN,
        ensures
            r.0 == self.open_pnl(mark),
    {
        match self.side() {
            None => Qty(0),
            Some(side) => self.payoff(side, self.avg_price, mark, self.qty.abs()),
        }
    }

    /// Realised plus unrealised, net of commission.
    pub fn total_pnl(&self, mark: Price) -> (r: Qty)
        requires
            self.qty.0 != i64::MIN,
            in_range(self.realised.0 + self.open_pnl(mark)),
            in_range(self.realised.0 + self.open_pnl(mark) - self.commission.0),
        ensures
            r.0 == self.realised.0 + self.open_pnl(mark) - self.commission.0,
            self.commission.0 > 0 ==> r.0 < self.realised.0 + self.open_pnl(mark),
    {
        Qty(self.realised.0 + self.unrealised(mark).0 - self.commission.0)
    }

    /// Payoff of closing `qty` of a `side` position opened at `entry`.
    fn payoff(&self, side: Side, entry: Price, exit: Price, qty: Qty) -> (r: Qty)
        ensures
            r.0 == payoff_of(self.kind, side, entry.0 as int, exit.0 as int, qty.0 as int),
    {
        match self.kind {
            InstrumentKind::Spot | InstrumentKind::LinearPerp => {
                // (exit - entry) * qty, in quote currency.
                let gain: i128 = toward(exit.0 as i128 - entry.0 as i128, side);
                proof {
                    lemma_gain_fits(gain as int, qty.0 as int);
                }
                Qty(clamp_wide(quotient(gain * qty.0 as i128, SCALE as i128)))
            },
            InstrumentKind::InversePerp => {
                // qty * (1/entry - 1/exit), in base currency. Non-linear in
                // price, which is why it cannot share the branch above.
                if entry.0 == 0 || exit.0 == 0 {
                    return Qty(0);
                }
                proof {
                    lemma_quotient_bound(10_000_000_000_000_000, entry.0 as int);
                    lemma_quotient_bound(10_000_000_000_000_000, exit.0 as int);
                }
                let inv_entry: i128 = quotient(10_000_000_000_000_000, entry.0 as i128);
                let inv_exit: i128 = quotient(10_000_000_000_000_000, exit.0 as i128);
                let gain: i128 = toward(inv_entry - inv_exit, side);
                proof {
                    lemma_gain_fits(gain as int, qty.0 as int);
                }
                Qty(clamp_wide(quotient(gain * qty.0 as i128, SCALE as i128)))
            },
        }
    }
}

/// A position that holds nothing.
pub open spec fn flat_position(kind: InstrumentKind) -> Position {
    Position { qty: Qty(0), avg_price: Price(0), realised: Qty(0), commission: Qty(0), kind }
}

/// A price move as a position on this side feels it.
fn toward(change: i128, side: Side) -> (r: i128)
    requires
        change != i128::MIN,
    ensures
        r == change * side.sign(),
        -magnitude_of(change as int) <= r <= magnitude_of(change as int),
{
    match side {
        Side::Buy => {
            assert(change * 1 == change);
            change
        },
        Side::Sell => {
            assert(change * -1 == -change);
            -change
        },
    }
}

proof fn lemma_gain_fits(gain: int, qty: int)
    requires
        -0xffff_ffff_ffff_ffff <= gain <= 0xffff_ffff_ffff_ffff,
        i64::MIN <= qty <= i64::MAX,
    ensures
        i128::MIN < gain * qty <= i128::MAX,
{
    assert(-(0xffff_ffff_ffff_ffff * 0x8000_0000_0000_0000) <= gain * qty <= 0xffff_ffff_ffff_ffff
        * 0x8000_0000_0000_0000) by (nonlinear_arith)
        requires
            -0xffff_ffff_ffff_ffff <= gain <= 0xffff_ffff_ffff_ffff,
            -0x8000_0000_0000_0000 <= qty <= 0x8000_0000_0000_0000,
    ;
}

/// Volume-weighted average of two prices.
pub fn weighted_average(price_a: Price, qty_a: Qty, price_b: Price, qty_b: Qty) -> (r: Price)
    requires
        qty_a.0 >= 0,
    ensures
        r == average_of(price_a.0 as int, qty_a.0 as int, price_b.0 as int, qty_b.0 as int),
{
    let total: i128 = qty_a.0 as i128 + qty_b.0 as i128;
    if total <= 0 {
        return price_b;
    }
    proof {
        lemma_weighted_fits(price_a.0, qty_a.0, price_b.0, qty_b.0);
    }
    let weighted: i128 = price_a.0 as i128 * qty_a.0 as i128 + price_b.0 as i128 * qty_b.0 as i128;
    Price(
        #[verifier::truncate]
        (quotient(weighted, total) as i64),
    )
}

proof fn lemma_weighted_fits(a: i64, p: i64, b: i64, q: i64)
    requires
        p >= 0,
    ensures
        i128::MIN < a * p + b * q <= i128::MAX,
        i128::MIN < a * p <= i128::MAX,
        i128::MIN < b * q <= i128::MAX,
{
    lemma_product_fits(b, q);
    let x = a as int;
    let y = p as int;
    assert(-0x8000_0000_0000_0000 * 0x7fff_ffff_ffff_ffff <= x * y <= 0x7fff_ffff_ffff_ffff
        * 0x7fff_ffff_ffff_ffff) by (nonlinear_arith)
        requires
            -0x8000_0000_0000_0000 <= x <= 0x7fff_ffff_ffff_ffff,
            0 <= y <= 0x7fff_ffff_ffff_ffff,
    ;
}

/// A fill in the direction of the position, or from flat, banks nothing and
/// keeps what was banked.
pub proof fn law_adding_banks_nothing(
    pos: Position,
    side: Side,
    price: Price,
    qty: Qty,
    commission: Qty,
)
    requires
        pos.can_fill(side, price, qty, commission),
        pos.adds(qty.0 * side.sign()),
    ensures
        pos.banked(side, price, qty) == 0,
        pos.filled(side, price, qty, commission).realised == pos.realised,
{
}

/// Opening from flat enters at the fill price.
pub proof fn law_opening_enters_at_the_fill_price(
    pos: Position,
    side: Side,
    price: Price,
    qty: Qty,
    commission: Qty,
)
    requires
        pos.can_fill(side, price, qty, commission),
        pos.qty.0 == 0,
        qty.0 > 0,
    ensures
        pos.filled(side, price, qty, commission).avg_price == price,
        pos.filled(side, price, qty, commission).held() == Some(side),
{
    let p = price.0 as int;
    let q = qty.0 as int;
    assert(pos.avg_price.0 * 0 == 0);
    lemma_exact_quotient(p, q);
}

proof fn lemma_exact_quotient(p: int, q: int)
    requires
        q > 0,
    ensures
        truncated_div(p * q, q) == p,
{
    let m = magnitude_of(p) as int;
    vstd::arithmetic::div_mod::lemma_div_multiples_vanish(m, q);
    assert(q * m == m * q) by (nonlinear_arith);
    if p >= 0 {
        assert(p * q >= 0) by (nonlinear_arith)
            requires
                p >= 0,
                q > 0,
        ;
        assert(magnitude_of(p * q) == m * q);
    } else {
        assert(p * q < 0) by (nonlinear_arith)
            requires
                p < 0,
                q > 0,
        ;
        assert(-(p * q) == (-p) * q) by (nonlinear_arith);
        assert(magnitude_of(p * q) == m * q);
    }
}

/// A smaller fill against the position leaves the entry price alone and the
/// side unchanged.
pub proof fn law_reducing_keeps_the_entry(
    pos: Position,
    side: Side,
    price: Price,
    qty: Qty,
    commission: Qty,
)
    requires
        pos.can_fill(side, price, qty, commission),
        pos.held() == Some(side.other()),
        0 < qty.0 < magnitude_of(pos.qty.0 as int),
    ensures
        pos.filled(side, price, qty, commission).avg_price == pos.avg_price,
        pos.filled(side, price, qty, commission).held() == pos.held(),
{
}

/// A fill of the whole size leaves the position flat, without an entry price.
pub proof fn law_closing_leaves_flat(
    pos: Position,
    side: Side,
    price: Price,
    qty: Qty,
    commission: Qty,
)
    requires
        pos.can_fill(side, price, qty, commission),
        pos.held() == Some(side.other()),
        qty.0 == magnitude_of(pos.qty.0 as int),
    ensures
        pos.filled(side, price, qty, commission).qty.0 == 0,
        pos.filled(side, price, qty, commission).avg_price.0 == 0,
{
}

/// A fill beyond the size closes all of it and opens the rest at the fill
/// price, on the other side.
pub proof fn law_flipping_starts_fresh(
    pos: Position,
    side: Side,
    price: Price,
    qty: Qty,
    commission: Qty,
)
    requires
        pos.can_fill(side, price, qty, commission),
        pos.held() == Some(side.other()),
        qty.0 > magnitude_of(pos.qty.0 as int),
    ensures
        pos.filled(side, price, qty, commission).avg_price == price,
        pos.filled(side, price, qty, commission).held() == Some(side),
        magnitude_of(pos.filled(side, price, qty, commission).qty.0 as int) == qty.0
            - magnitude_of(pos.qty.0 as int),
        pos.banked(side, price, qty) == payoff_of(
            pos.kind,
            side.other(),
            pos.avg_price.0 as int,
            price.0 as int,
            magnitude_of(pos.qty.0 as int) as int,
        ),
{
}

/// A linear position that is closed where it was opened pays nothing, and so
/// does an inverse one.
pub proof fn law_round_trip_at_one_price_pays_nothing(
    kind: InstrumentKind,
    side: Side,
    price: int,
    qty: int,
)
    ensures
        payoff_of(kind, side, price, price, qty) == 0,
{
    assert(0 * side.sign() == 0);
    assert(0 * qty == 0);
    assert((price - price) * side.sign() * qty == 0) by (nonlinear_arith);
    assert((reciprocal(price) - reciprocal(price)) * side.sign() * qty == 0) by (nonlinear_arith);
}

/// The two sides of one linear trade pay opposite amounts, as far as 64 bits
/// hold them.
pub proof fn law_sides_pay_opposite_amounts(
    kind: InstrumentKind,
    entry: int,
    exit: int,
    qty: int,
)
    requires
        payoff_of(kind, Side::Buy, entry, exit, qty) != i64::MIN,
        payoff_of(kind, Side::Sell, entry, exit, qty) != i64::MIN,
        payoff_of(kind, Side::Buy, entry, exit, qty) != i64::MAX,
        payoff_of(kind, Side::Sell, entry, exit, qty) != i64::MAX,
    ensures
        payoff_of(kind, Side::Sell, entry, exit, qty) == -payoff_of(
            kind,
            Side::Buy,
            entry,
            exit,
            qty,
        ),
{
    let gain = if kind is InversePerp {
        reciprocal(entry) - reciprocal(exit)
    } else {
        exit - entry
    };
    assert(gain * -1 * qty == -(gain * 1 * qty)) by (nonlinear_arith);
}

} // verus!
