//! The indicator surface.
//!
//! Indicators come in two shapes and the distinction is not cosmetic. Some
//! only make sense once a bar is complete (an average of closes); others must
//! see every print or they measure the wrong thing entirely (speed of tape,
//! large-print detection). Conflating them into one "update" hook is how
//! platforms end up with indicators that quietly recompute from stale bars.

use crate::engine::bar::Bar;
use crate::primitives::market::Trade;
use vstd::prelude::*;

verus! {

use crate::engine::bar::BarView;

/// An indicator driven by completed bars.
pub trait BarIndicator: Sized {
    /// What the indicator produces.
    type Value;

    /// Whether the state is one that updates lead to.
    spec fn valid(&self) -> bool;

    /// Whether a bar can be folded in without leaving the range of integers.
    spec fn accepts(&self, bar: BarView) -> bool;

    /// Human-readable name, for legends and workspace files.
    fn name(&self) -> &str;

    /// Whether [`BarIndicator::update`] can fold this bar in.
    fn can_update(&self, bar: &Bar) -> (r: bool)
        requires
            self.valid(),
            bar@.wf(),
        ensures
            r == self.accepts(bar@),
    ;

    /// Fold in a bar and return the updated value.
    fn update(&mut self, bar: &Bar) -> (r: Self::Value)
        requires
            old(self).valid(),
            bar@.wf(),
            old(self).accepts(bar@),
        ensures
            final(self).valid(),
    ;

    /// The most recent value, or `None` before enough input has arrived.
    fn value(&self) -> (r: Option<Self::Value>)
        requires
            self.valid(),
    ;

    /// Clear all state. Used at session boundaries and instrument changes.
    fn reset(&mut self)
        requires
            old(self).valid(),
        ensures
            final(self).valid(),
    ;

    /// Whether enough input has arrived for the value to be meaningful.
    ///
    /// A 20-period average has a value after one bar, but it is not yet a
    /// 20-period average, and plotting it as one is a lie.
    fn is_warm(&self) -> (r: bool)
        requires
            self.valid(),
    {
        self.value().is_some()
    }
}

/// An indicator driven by individual trades.
pub trait TradeIndicator: Sized {
    /// What the indicator produces.
    type Value;

    /// Whether the state is one that updates lead to.
    spec fn valid(&self) -> bool;

    /// Whether a trade can be folded in without leaving the range of integers.
    spec fn accepts(&self, trade: Trade) -> bool;

    /// Human-readable name.
    fn name(&self) -> &str;

    /// Whether [`TradeIndicator::update`] can fold this trade in.
    fn can_update(&self, trade: &Trade) -> (r: bool)
        requires
            self.valid(),
        ensures
            r == self.accepts(*trade),
    ;

    /// Fold in a trade.
    fn update(&mut self, trade: &Trade) -> (r: Self::Value)
        requires
            old(self).valid(),
            old(self).accepts(*trade),
        ensures
            final(self).valid(),
    ;

    /// The most recent value.
    fn value(&self) -> (r: Option<Self::Value>)
        requires
            self.valid(),
    ;

    /// Clear all state.
    fn reset(&mut self)
        requires
            old(self).valid(),
        ensures
            final(self).valid(),
    ;
}

} // verus!
