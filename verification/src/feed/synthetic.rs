//! A deterministic synthetic feed.
//!
//! Order-flow features are hard to develop against a live socket: the data is
//! different every run. This generator produces a reproducible stream (same
//! seed, same ticks, every time), so a rendering bug or an off-by-one in an
//! indicator is debuggable rather than a race with the market.

use crate::feed::backoff::next_state;
use crate::primitives::fixed::{Price, Qty};
use crate::primitives::instrument::Instrument;
use crate::primitives::market::{MarketEvent, Side, Trade};
use crate::primitives::time::Ts;
use vstd::prelude::*;

verus! {

use crate::feed::backoff::xorshift;
use crate::primitives::fixed::{in_range, tick_row, truncated_div};
use crate::primitives::market::EventView;

/// What a generator holds.
#[verifier::ext_equal]
pub struct SyntheticView {
    pub tick: Price,
    pub state: u64,
    pub price_index: int,
    pub anchor_index: int,
    pub ts: Ts,
    pub step_nanos: i64,
    pub emitted: u64,
    pub limit: Option<u64>,
    pub book_every: u64,
    pub depth: nat,
}

/// What a generator does next.
#[derive(Debug, PartialEq)]
pub enum SyntheticStep {
    /// It is exhausted.
    Done,
    /// It emits a book.
    Book(MarketEvent),
    /// It is about to emit a trade, whose size depends on this draw.
    Draw(u64),
}

/// The levels of a generated book, and the generator behind them.
pub struct GeneratedBook {
    pub bids: Seq<(Price, Qty)>,
    pub asks: Seq<(Price, Qty)>,
    pub state: u64,
}

/// One to five hundred units, out of a draw.
pub open spec fn drawn_size(draw: u64) -> Qty {
    Qty(((1 + draw as int % 500) * 100_000_000) as i64)
}

impl SyntheticView {
    /// The walk keeps within 128 ticks of its anchor.
    pub open spec fn wf(self) -> bool {
        &&& -128 <= self.price_index - self.anchor_index <= 128
        &&& in_range(self.price_index)
        &&& in_range(self.anchor_index)
        &&& self.step_nanos > 0
        &&& self.depth <= 10
    }

    /// Whether the generator is exhausted.
    pub open spec fn done(self) -> bool {
        self.limit matches Some(n) && self.emitted >= n
    }

    /// Whether the next event is a book.
    pub open spec fn book_next(self) -> bool {
        self.book_every > 0 && self.emitted as int % self.book_every as int == self.book_every - 1
    }

    /// The next step of the walk: up to two ticks either way, and a pull back
    /// toward the anchor that grows with the distance.
    pub open spec fn walked(self) -> int {
        self.price_index + (xorshift(self.state) as int % 5 - 2) + truncated_div(
            self.anchor_index - self.price_index,
            64,
        )
    }

    /// The first `n` levels of a book on each side.
    pub open spec fn book_levels(self, n: nat) -> GeneratedBook
        decreases n,
    {
        if n == 0 {
            GeneratedBook {
                bids: Seq::<(Price, Qty)>::empty(),
                asks: Seq::<(Price, Qty)>::empty(),
                state: self.state,
            }
        } else {
            let before = self.book_levels((n - 1) as nat);
            let bid_draw = xorshift(before.state);
            let ask_draw = xorshift(bid_draw);
            GeneratedBook {
                bids: before.bids.push(
                    (Price(((self.price_index - n) * self.tick.0) as i64), drawn_size(bid_draw)),
                ),
                asks: before.asks.push(
                    (Price(((self.price_index + n) * self.tick.0) as i64), drawn_size(ask_draw)),
                ),
                state: ask_draw,
            }
        }
    }

    /// Whether the next step stays within 64 bits.
    pub open spec fn can_step(self) -> bool {
        self.done() || if self.book_next() {
            &&& self.emitted < u64::MAX
            &&& in_range(self.price_index - self.depth)
            &&& in_range(self.price_index + self.depth)
            &&& in_range((self.price_index - self.depth) * self.tick.0)
            &&& in_range((self.price_index + self.depth) * self.tick.0)
            &&& in_range((self.price_index - 1) * self.tick.0)
            &&& in_range((self.price_index + 1) * self.tick.0)
        } else {
            &&& in_range(self.anchor_index - self.price_index)
            &&& in_range(self.walked())
        }
    }

    /// The book that comes next.
    pub open spec fn next_book(self) -> EventView {
        let book = self.book_levels(self.depth);
        EventView::BookSnapshot {
            ts: self.ts,
            bids: book.bids,
            asks: book.asks,
            sequence: (self.emitted + 1) as u64,
        }
    }

    /// The draw that the size of the next trade depends on.
    pub open spec fn draw(self) -> u64 {
        xorshift(xorshift(self.state))
    }

    /// The generator after its next step.
    pub open spec fn stepped(self) -> SyntheticView {
        if self.done() {
            self
        } else if self.book_next() {
            SyntheticView {
                state: self.book_levels(self.depth).state,
                emitted: (self.emitted + 1) as u64,
                ..self
            }
        } else {
            SyntheticView { state: self.draw(), price_index: self.walked(), ..self }
        }
    }

    /// The trade that a draw and its size make.
    pub open spec fn trade(self, draw: u64, size: i64) -> Trade {
        Trade {
            ts: self.ts,
            price: Price((self.price_index * self.tick.0) as i64),
            qty: Qty((size * 100_000_000) as i64),
            aggressor: if (draw >> 8) as int % 2 == 0 {
                Side::Buy
            } else {
                Side::Sell
            },
            id: self.emitted,
        }
    }

    /// Whether a trade of this size stays within 64 bits.
    pub open spec fn can_trade(self, size: i64) -> bool {
        &&& in_range(self.price_index * self.tick.0)
        &&& in_range(size * 100_000_000)
        &&& in_range(self.ts.0 + self.step_nanos)
        &&& self.emitted < u64::MAX
    }

    /// The generator after a trade.
    pub open spec fn traded(self) -> SyntheticView {
        SyntheticView {
            ts: Ts((self.ts.0 + self.step_nanos) as i64),
            emitted: (self.emitted + 1) as u64,
            ..self
        }
    }
}

/// The walk is mean-reverting: it never leaves the band of 128 ticks around its
/// anchor, however long it runs.
pub proof fn law_the_walk_stays_near_its_anchor(v: SyntheticView)
    requires
        v.wf(),
    ensures
        -128 <= v.walked() - v.anchor_index <= 128,
{
    assert(crate::primitives::fixed::magnitude_of(64) == 64);
}

pub proof fn lemma_levels(v: SyntheticView, n: nat, i: int)
    requires
        0 <= i < n,
    ensures
        v.book_levels(n).bids.len() == n,
        v.book_levels(n).asks.len() == n,
        v.book_levels(n).bids[i].0 == Price(((v.price_index - (i + 1)) * v.tick.0) as i64),
        v.book_levels(n).asks[i].0 == Price(((v.price_index + (i + 1)) * v.tick.0) as i64),
        v.book_levels(n).bids[i].1.0 > 0,
        v.book_levels(n).asks[i].1.0 > 0,
    decreases n,
{
    let before = v.book_levels((n - 1) as nat);
    let bid_draw = xorshift(before.state);
    let ask_draw = xorshift(bid_draw);
    assert(drawn_size(bid_draw).0 > 0);
    assert(drawn_size(ask_draw).0 > 0);
    if n == 1 {
        assert(v.book_levels(0).bids.len() == 0);
        assert(v.book_levels(0).asks.len() == 0);
    } else if i < n - 1 {
        lemma_levels(v, (n - 1) as nat, i);
    } else {
        lemma_levels(v, (n - 1) as nat, 0);
    }
}

/// Generated books are usable: every size is positive, and every bid lies below
/// every ask.
pub proof fn law_generated_books_do_not_cross(v: SyntheticView, i: int, j: int)
    requires
        v.wf(),
        v.tick.0 > 0,
        !v.done(),
        v.book_next(),
        v.can_step(),
        0 <= i < v.depth,
        0 <= j < v.depth,
    ensures
        v.book_levels(v.depth).bids.len() == v.depth,
        v.book_levels(v.depth).asks.len() == v.depth,
        v.book_levels(v.depth).bids[i].1.0 > 0,
        v.book_levels(v.depth).asks[j].1.0 > 0,
        v.book_levels(v.depth).bids[i].0.0 < v.book_levels(v.depth).asks[j].0.0,
{
    let p = v.price_index;
    let t = v.tick.0 as int;
    lemma_levels(v, v.depth, i);
    lemma_levels(v, v.depth, j);
    lemma_between(p - v.depth, p - (i + 1), p - 1, t);
    lemma_between(p + 1, p + (j + 1), p + v.depth, t);
    assert((p - (i + 1)) * t < (p + (j + 1)) * t) by (nonlinear_arith)
        requires
            t > 0,
            i >= 0,
            j >= 0,
    ;
}

/// Generates a reproducible trade and book stream.
#[derive(Debug, Clone, Copy, PartialEq, Eq, Structural)]
pub struct SyntheticFeed {
    tick_size: Price,
    state: u64,
    price_index: i64,
    anchor_index: i64,
    ts: Ts,
    step_nanos: i64,
    emitted: u64,
    limit: Option<u64>,
    book_every: u64,
    depth: usize,
}

impl View for SyntheticFeed {
    type V = SyntheticView;

    closed spec fn view(&self) -> SyntheticView {
        SyntheticView {
            tick: self.tick_size,
            state: self.state,
            price_index: self.price_index as int,
            anchor_index: self.anchor_index as int,
            ts: self.ts,
            step_nanos: self.step_nanos,
            emitted: self.emitted,
            limit: self.limit,
            book_every: self.book_every,
            depth: self.depth as nat,
        }
    }
}

impl SyntheticFeed {
    /// A feed for an instrument, seeded for reproducibility.
    pub fn new(instrument: &Instrument, seed: u64, start_price: Price) -> (r: Self)
        requires
            instrument.tick_size.0 > 0,
        ensures
            r@ == (SyntheticView {
                tick: instrument.tick_size,
                state: if seed == 0 {
                    0x9E37_79B9_7F4A_7C15
                } else {
                    seed
                },
                price_index: tick_row(start_price.0 as int, instrument.tick_size.0 as int),
                anchor_index: tick_row(start_price.0 as int, instrument.tick_size.0 as int),
                ts: Ts(1_700_000_000_000_000_000),
                step_nanos: 25_000_000,
                emitted: 0,
                limit: None,
                book_every: 20,
                depth: 10,
            }),
            r@.wf(),
    {
        let anchor: i64 = start_price.tick_index(instrument.tick_size);
        SyntheticFeed {
            tick_size: instrument.tick_size,
            // Zero is a fixed point of the xorshift step, so never seed with it.
            state: if seed == 0 {
                0x9E37_79B9_7F4A_7C15
            } else {
                seed
            },
            price_index: anchor,
            anchor_index: anchor,
            ts: Ts::from_millis(1_700_000_000_000),
            step_nanos: 25_000_000,
            emitted: 0,
            limit: None,
            book_every: 20,
            depth: 10,
        }
    }

    /// Stop after `count` events.
    pub fn with_limit(self, count: u64) -> (r: Self)
        ensures
            r@ == (SyntheticView { limit: Some(count), ..self@ }),
    {
        SyntheticFeed { limit: Some(count), ..self }
    }

    /// Set the nanoseconds between generated events.
    pub fn with_step_nanos(self, nanos: i64) -> (r: Self)
        requires
            nanos > 0,
        ensures
            r@ == (SyntheticView { step_nanos: nanos, ..self@ }),
    {
        SyntheticFeed { step_nanos: nanos, ..self }
    }

    /// Emit a book snapshot every `n` events. Zero disables book output.
    pub fn with_book_every(self, n: u64) -> (r: Self)
        ensures
            r@ == (SyntheticView { book_every: n, ..self@ }),
    {
        SyntheticFeed { book_every: n, ..self }
    }

    /// Set the first timestamp.
    pub fn starting_at(self, ts: Ts) -> (r: Self)
        ensures
            r@ == (SyntheticView { ts, ..self@ }),
    {
        SyntheticFeed { ts, ..self }
    }

    /// How many events have been produced.
    pub fn emitted(&self) -> (r: u64)
        ensures
            r == self@.emitted,
    {
        self.emitted
    }

    /// xorshift64: small, fast, and identical on every platform.
    fn next_u64(&mut self) -> (r: u64)
        ensures
            r == xorshift(old(self)@.state),
            final(self)@ == (SyntheticView { state: r, ..old(self)@ }),
    {
        self.state = next_state(self.state);
        self.state
    }

    fn price_at(&self, index: i64) -> (r: Price)
        requires
            in_range(index * self@.tick.0),
        ensures
            r.0 == index * self@.tick.0,
    {
        Price::from_tick_index(index, self.tick_size)
    }

    /// Mean-reverting random walk, so a long run cannot wander to absurd
    /// prices or to zero.
    fn step_price(&mut self)
        requires
            old(self)@.wf(),
            in_range(old(self)@.walked()),
        ensures
            final(self)@ == (SyntheticView {
                state: xorshift(old(self)@.state),
                price_index: old(self)@.walked(),
                ..old(self)@
            }),
    {
        let r: u64 = self.next_u64();
        let drift: i128 = (r % 5) as i128 - 2;
        let pull: i128 = crate::primitives::fixed::quotient(
            self.anchor_index as i128 - self.price_index as i128,
            64,
        );
        self.price_index = (self.price_index as i128 + drift + pull) as i64;
    }

    /// Whether [`SyntheticFeed::next_step`] can go on.
    pub fn can_step(&self) -> (r: bool)
        requires
            self@.wf(),
        ensures
            r == self@.can_step(),
    {
        if let Some(n) = self.limit {
            if self.emitted >= n {
                return true;
            }
        }
        if self.book_every > 0 && self.emitted % self.book_every == self.book_every - 1 {
            let p: i128 = self.price_index as i128;
            let d: i128 = self.depth as i128;
            let t: i128 = self.tick_size.0 as i128;
            self.emitted < u64::MAX && fits(p - d) && fits(p + d) && fits_times(p - d, t)
                && fits_times(p + d, t) && fits_times(p - 1, t) && fits_times(p + 1, t)
        } else {
            let r: u64 = next_state(self.state);
            let gap: i128 = self.anchor_index as i128 - self.price_index as i128;
            let next: i128 = self.price_index as i128 + ((r % 5) as i128 - 2)
                + crate::primitives::fixed::quotient(gap, 64);
            fits(gap) && fits(next)
        }
    }

    /// Take the next step: emit a book, or walk the price and draw for a trade.
    pub fn next_step(&mut self) -> (r: SyntheticStep)
        requires
            old(self)@.wf(),
            old(self)@.can_step(),
        ensures
            final(self)@ == old(self)@.stepped(),
            final(self)@.wf(),
            match r {
                SyntheticStep::Done => old(self)@.done(),
                SyntheticStep::Book(event) => !old(self)@.done() && old(self)@.book_next()
                    && event@ == old(self)@.next_book(),
                SyntheticStep::Draw(draw) => !old(self)@.done() && !old(self)@.book_next() && draw
                    == old(self)@.draw(),
            },
    {
        if let Some(n) = self.limit {
            if self.emitted >= n {
                return SyntheticStep::Done;
            }
        }
        if self.book_every > 0 && self.emitted % self.book_every == self.book_every - 1 {
            let event = self.make_book();
            self.emitted = self.emitted + 1;
            SyntheticStep::Book(event)
        } else {
            proof {
                law_the_walk_stays_near_its_anchor(self@);
            }
            self.step_price();
            SyntheticStep::Draw(self.next_u64())
        }
    }

    /// Whether [`SyntheticFeed::make_trade`] can make a trade of this size.
    pub fn can_trade(&self, size: i64) -> (r: bool)
        ensures
            r == self@.can_trade(size),
    {
        proof {
            crate::primitives::fixed::lemma_product_fits(self.price_index, self.tick_size.0);
        }
        fits(self.price_index as i128 * self.tick_size.0 as i128) && fits(
            size as i128 * 100_000_000,
        ) && fits(self.ts.0 as i128 + self.step_nanos as i128) && self.emitted < u64::MAX
    }

    /// Emit the trade for a draw, with `size` whole units.
    pub fn make_trade(&mut self, draw: u64, size: i64) -> (r: Trade)
        requires
            old(self)@.can_trade(size),
        ensures
            r == old(self)@.trade(draw, size),
            final(self)@ == old(self)@.traded(),
    {
        let trade = Trade {
            ts: self.ts,
            price: self.price_at(self.price_index),
            qty: Qty::from_units(size),
            aggressor: if (draw >> 8) % 2 == 0 {
                Side::Buy
            } else {
                Side::Sell
            },
            id: self.emitted,
        };
        self.ts = Ts(self.ts.0 + self.step_nanos);
        self.emitted = self.emitted + 1;
        trade
    }

    fn make_book(&mut self) -> (r: MarketEvent)
        requires
            old(self)@.wf(),
            old(self)@.can_step(),
            !old(self)@.done(),
            old(self)@.book_next(),
        ensures
            r@ == old(self)@.next_book(),
            final(self)@ == (SyntheticView {
                state: old(self)@.book_levels(old(self)@.depth).state,
                ..old(self)@
            }),
    {
        let ghost start = self@;
        let mut bids: Vec<(Price, Qty)> = Vec::new();
        let mut asks: Vec<(Price, Qty)> = Vec::new();
        let mut level: usize = 0;
        while level < self.depth
            invariant
                start.wf(),
                start.can_step(),
                !start.done(),
                start.book_next(),
                level <= start.depth,
                self.depth == start.depth,
                self.price_index == start.price_index,
                self@ == (SyntheticView {
                    state: start.book_levels(level as nat).state,
                    ..start
                }),
                bids@ == start.book_levels(level as nat).bids,
                asks@ == start.book_levels(level as nat).asks,
            decreases start.depth - level,
        {
            let offset: i64 = level as i64 + 1;
            proof {
                lemma_between(
                    start.price_index - start.depth,
                    start.price_index - offset,
                    start.price_index - 1,
                    start.tick.0 as int,
                );
                lemma_between(
                    start.price_index + 1,
                    start.price_index + offset,
                    start.price_index + start.depth,
                    start.tick.0 as int,
                );
            }
            let bid_size: i64 = 1 + (self.next_u64() % 500) as i64;
            bids.push((self.price_at(self.price_index - offset), Qty::from_units(bid_size)));
            let ask_size: i64 = 1 + (self.next_u64() % 500) as i64;
            asks.push((self.price_at(self.price_index + offset), Qty::from_units(ask_size)));
            level += 1;
        }
        MarketEvent::BookSnapshot { ts: self.ts, bids, asks, sequence: self.emitted + 1 }
    }
}

fn fits(v: i128) -> (r: bool)
    ensures
        r == in_range(v as int),
{
    i64::MIN as i128 <= v && v <= i64::MAX as i128
}

/// Whether a product fits, where the first factor may not fit itself.
fn fits_times(a: i128, t: i128) -> (r: bool)
    requires
        -0x1_0000_0000_0000_0000 <= a <= 0x1_0000_0000_0000_0000,
        i64::MIN <= t <= i64::MAX,
    ensures
        r == in_range(a * t),
{
    assert(-(0x1_0000_0000_0000_0000 * 0x8000_0000_0000_0000) <= a * t <= 0x1_0000_0000_0000_0000
        * 0x8000_0000_0000_0000) by (nonlinear_arith)
        requires
            -0x1_0000_0000_0000_0000 <= a <= 0x1_0000_0000_0000_0000,
            -0x8000_0000_0000_0000 <= t <= 0x8000_0000_0000_0000,
    ;
    match a.checked_mul(t) {
        Some(v) => fits(v),
        None => false,
    }
}

proof fn lemma_between(low: int, mid: int, high: int, t: int)
    requires
        low <= mid <= high,
        in_range(low),
        in_range(high),
        in_range(low * t),
        in_range(high * t),
    ensures
        in_range(mid),
        in_range(mid * t),
{
    if t >= 0 {
        assert(low * t <= mid * t <= high * t) by (nonlinear_arith)
            requires
                low <= mid <= high,
                t >= 0,
        ;
    } else {
        assert(high * t <= mid * t <= low * t) by (nonlinear_arith)
            requires
                low <= mid <= high,
                t < 0,
        ;
    }
}

} // verus!
