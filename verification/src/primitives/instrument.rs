//! Instrument definitions: the contract metadata every price calculation needs.

use crate::primitives::fixed::{Price, Qty, DECIMALS};
use vstd::prelude::*;

verus! {

use crate::primitives::fixed::{formatted, in_range, pow10, tick_row};

/// A trading venue.
#[derive(Debug, Clone, Copy, PartialEq, Eq, PartialOrd, Ord, Hash, Structural)]
pub enum Venue {
    /// Binance spot and USD-M futures.
    Binance,
    /// Bybit spot and perpetuals.
    Bybit,
    /// The built-in simulator and replay feeds.
    Sim,
}

impl Venue {
    /// Stable lower-case identifier.
    pub open spec fn name(self) -> Seq<char> {
        match self {
            Venue::Binance => "binance"@,
            Venue::Bybit => "bybit"@,
            Venue::Sim => "sim"@,
        }
    }

    /// Stable lower-case identifier, used in storage paths and config files.
    pub fn as_str(self) -> (r: &'static str)
        ensures
            r@ == self.name(),
    {
        match self {
            Venue::Binance => "binance",
            Venue::Bybit => "bybit",
            Venue::Sim => "sim",
        }
    }
}

/// What kind of contract an instrument is.
///
/// This drives PnL: a linear perpetual settles in the quote currency, an
/// inverse contract settles in the base, and getting it wrong silently
/// misreports every position.
#[derive(Debug, Clone, Copy, PartialEq, Eq, Hash, Structural)]
pub enum InstrumentKind {
    /// Spot: PnL is `(exit - entry) * qty` in quote currency.
    Spot,
    /// Linear perpetual or future, quote-settled. Same PnL formula as spot.
    LinearPerp,
    /// Inverse perpetual, base-settled: PnL is `qty * (1/entry - 1/exit)`.
    InversePerp,
}

impl InstrumentKind {
    /// Whether PnL for this contract settles in the quote currency.
    pub fn is_quote_settled(self) -> (r: bool)
        ensures
            r == !(self is InversePerp),
    {
        !matches!(self, InstrumentKind::InversePerp)
    }
}

/// A tradable instrument and the metadata needed to price and size it.
#[derive(Debug, PartialEq, Eq)]
pub struct Instrument {
    /// Venue-native symbol, e.g. `BTCUSDT`.
    pub symbol: String,
    /// Where it trades.
    pub venue: Venue,
    /// Contract type, which selects the PnL formula.
    pub kind: InstrumentKind,
    /// Minimum price increment. Cluster ladder rows are one tick apart.
    pub tick_size: Price,
    /// Minimum quantity increment.
    pub qty_step: Qty,
    /// Decimal places to show for prices.
    pub price_decimals: u32,
    /// Decimal places to show for quantities.
    pub qty_decimals: u32,
    /// Units of the underlying per contract. `1` for spot and linear perps.
    pub contract_multiplier: i64,
}

impl Clone for Instrument {
    fn clone(&self) -> (r: Self)
        ensures
            r == *self,
    {
        Instrument {
            symbol: self.symbol.clone(),
            venue: self.venue,
            kind: self.kind,
            tick_size: self.tick_size,
            qty_step: self.qty_step,
            price_decimals: self.price_decimals,
            qty_decimals: self.qty_decimals,
            contract_multiplier: self.contract_multiplier,
        }
    }
}

/// The decimal places that an increment needs: the fewest that write every
/// multiple of it exactly, and all eight for an increment that is not positive.
pub open spec fn places_for(step: int) -> nat {
    if step <= 0 {
        8
    } else {
        places_left(step, 8)
    }
}

/// How many of `places` digits stay when the zeros at the end of `step` go.
pub open spec fn places_left(step: int, places: nat) -> nat
    decreases places,
{
    if places > 0 && step % 10 == 0 {
        places_left(step / 10, (places - 1) as nat)
    } else {
        places
    }
}

impl Instrument {
    /// A spot instrument with the given tick size and quantity step.
    pub fn spot(symbol: &str, venue: Venue, tick_size: Price, qty_step: Qty) -> (r: Self)
        ensures
            r.symbol@ == symbol@,
            r.venue == venue,
            r.kind is Spot,
            r.tick_size == tick_size,
            r.qty_step == qty_step,
            r.price_decimals == places_for(tick_size.0 as int),
            r.qty_decimals == places_for(qty_step.0 as int),
            r.contract_multiplier == 1,
    {
        Instrument {
            symbol: symbol.to_owned(),
            venue,
            kind: InstrumentKind::Spot,
            tick_size,
            qty_step,
            price_decimals: decimals_for(tick_size.0),
            qty_decimals: decimals_for(qty_step.0),
            contract_multiplier: 1,
        }
    }

    /// Stable key for storage paths and workspace files, e.g. `binance:BTCUSDT`.
    pub fn key(&self) -> (r: String)
        ensures
            r@ == self.venue.name() + ":"@ + self.symbol@,
    {
        let mut out = self.venue.as_str().to_owned();
        out.append(":");
        out.append(self.symbol.as_str());
        out
    }

    /// Ladder row index for a price, one row per tick.
    pub fn tick_index(&self, price: Price) -> (r: i64)
        requires
            self.tick_size.0 > 0,
        ensures
            r == tick_row(price.0 as int, self.tick_size.0 as int),
    {
        price.tick_index(self.tick_size)
    }

    /// Price at a ladder row index.
    pub fn price_at(&self, tick_index: i64) -> (r: Price)
        requires
            in_range(tick_index * self.tick_size.0),
        ensures
            r.0 == tick_index * self.tick_size.0,
    {
        Price::from_tick_index(tick_index, self.tick_size)
    }

    /// Format a price for display with this instrument's precision.
    pub fn format_price(&self, price: Price) -> (r: String)
        ensures
            r@ == formatted(
                price.0 as int,
                if self.price_decimals < DECIMALS {
                    self.price_decimals as nat
                } else {
                    DECIMALS as nat
                },
            ),
    {
        price.format(self.price_decimals)
    }

    /// Format a quantity for display with this instrument's precision.
    pub fn format_qty(&self, qty: Qty) -> (r: String)
        ensures
            r@ == formatted(
                qty.0 as int,
                if self.qty_decimals < DECIMALS {
                    self.qty_decimals as nat
                } else {
                    DECIMALS as nat
                },
            ),
    {
        qty.format(self.qty_decimals)
    }

    /// Whether a price sits exactly on a tick boundary.
    pub fn is_on_tick(&self, price: Price) -> (r: bool)
        requires
            self.tick_size.0 != 0,
        ensures
            r == (price.0 as int % self.tick_size.0 as int == 0),
    {
        match (price.0 as i128).checked_rem_euclid(self.tick_size.0 as i128) {
            Some(rem) => rem == 0,
            None => false,
        }
    }
}

/// Infer a sensible display precision from an increment's minor units.
///
/// A tick of `0.01` (1_000_000 minor units) should display 2 decimals.
pub fn decimals_for(step_minor: i64) -> (r: u32)
    ensures
        r == places_for(step_minor as int),
        r <= DECIMALS,
{
    if step_minor <= 0 {
        return DECIMALS;
    }
    let mut remaining: i64 = step_minor;
    let mut decimals: u32 = DECIMALS;
    while decimals > 0 && remaining % 10 == 0
        invariant
            remaining > 0,
            decimals <= 8,
            places_left(remaining as int, decimals as nat) == places_left(step_minor as int, 8),
        decreases decimals,
    {
        remaining = remaining / 10;
        decimals -= 1;
    }
    decimals
}

proof fn lemma_places(step: int, places: nat)
    requires
        step > 0,
    ensures
        places_left(step, places) <= places,
        step % pow10((places - places_left(step, places)) as nat) as int == 0,
        places_left(step, places) > 0 ==> step % pow10(
            (places - places_left(step, places) + 1) as nat,
        ) as int != 0,
    decreases places,
{
    let kept = places_left(step, places);
    if places > 0 && step % 10 == 0 {
        let tenth = step / 10;
        lemma_places(tenth, (places - 1) as nat);
        let k = (places - 1 - kept) as nat;
        let p = pow10(k) as int;
        lemma_pow10_positive(k);
        assert(step % (10 * p) == 10 * (tenth % p)) by {
            vstd::arithmetic::div_mod::lemma_truncate_middle(tenth, 10, p);
        }
        let q = pow10(k + 1) as int;
        lemma_pow10_positive(k + 1);
        assert(step % (10 * q) == 10 * (tenth % q)) by {
            vstd::arithmetic::div_mod::lemma_truncate_middle(tenth, 10, q);
        }
    } else {
        assert(step % 1 == 0);
        reveal_with_fuel(pow10, 2);
    }
}

proof fn lemma_pow10_positive(k: nat)
    ensures
        pow10(k) > 0,
    decreases k,
{
    if k > 0 {
        lemma_pow10_positive((k - 1) as nat);
    }
}

/// The inferred precision writes the increment exactly, and one place fewer
/// would not.
pub proof fn law_precision_is_exact_and_least(step: int)
    requires
        step > 0,
    ensures
        places_for(step) <= 8,
        step % pow10((8 - places_for(step)) as nat) as int == 0,
        places_for(step) > 0 ==> step % pow10((9 - places_for(step)) as nat) as int != 0,
{
    lemma_places(step, 8);
}

} // verus!
