//! Level-2 order book maintenance.
//!
//! Each side is kept in price order and keyed by exact fixed-point price, so a
//! level updated a thousand times stays one level. Venue-specific gap rules
//! belong in the feed adapters; what this type enforces is the
//! venue-independent invariant that updates must not go backwards.

use crate::primitives::fixed::{quotient, Price, Qty};
use crate::primitives::time::Ts;
use vstd::prelude::*;

verus! {

use crate::primitives::fixed::{in_range, truncated_div};

/// Which side of the book a level sits on.
#[derive(Debug, Clone, Copy, PartialEq, Eq, Hash, Structural)]
pub enum BookSide {
    /// Resting buy orders. Best is the highest price.
    Bid,
    /// Resting sell orders. Best is the lowest price.
    Ask,
}

impl BookSide {
    /// The opposite side.
    pub fn opposite(self) -> (r: BookSide)
        ensures
            r == if self is Bid {
                BookSide::Ask
            } else {
                BookSide::Bid
            },
    {
        match self {
            BookSide::Bid => BookSide::Ask,
            BookSide::Ask => BookSide::Bid,
        }
    }
}

/// A price level with its resting size.
#[derive(Debug, Clone, Copy, PartialEq, Eq, Structural)]
pub struct BookLevel {
    /// Level price.
    pub price: Price,
    /// Total resting quantity at that price.
    pub qty: Qty,
}

/// Why a book update was rejected.
#[derive(Debug, Clone, Copy, PartialEq, Eq, Structural)]
pub enum BookError {
    /// An update arrived with a sequence at or below the one already applied.
    /// Usually a duplicate from REST/websocket overlap, safe to drop.
    StaleSequence {
        /// Sequence carried by the rejected update.
        received: u64,
        /// Sequence already applied.
        current: u64,
    },
    /// A delta arrived before any snapshot. The caller must snapshot first.
    NotInitialised,
}

/// Resting size on both sides of the book. The imbalance is the difference of
/// the two over their sum.
#[derive(Debug, Clone, Copy, PartialEq, Eq, Structural)]
pub struct DepthBalance {
    /// Total resting size on the bid.
    pub bid: Qty,
    /// Total resting size on the ask.
    pub ask: Qty,
}

/// What a book holds: both sides in ascending price order.
#[verifier::ext_equal]
pub struct BookView {
    pub bids: Seq<BookLevel>,
    pub asks: Seq<BookLevel>,
    pub ts: Ts,
    pub sequence: u64,
    pub initialised: bool,
}

/// Strictly ascending prices, and something resting at each of them.
pub open spec fn side_ok(levels: Seq<BookLevel>) -> bool {
    &&& forall|i: int, j: int|
        0 <= i < j < levels.len() ==> (#[trigger] levels[i]).price.0 < (
        #[trigger] levels[j]).price.0
    &&& forall|i: int| 0 <= i < levels.len() ==> (#[trigger] levels[i]).qty.0 > 0
}

/// Whether some level has this price.
pub open spec fn has_price(levels: Seq<BookLevel>, price: Price) -> bool {
    exists|i: int| 0 <= i < levels.len() && (#[trigger] levels[i]).price == price
}

/// The position of the level with this price.
pub open spec fn place_of(levels: Seq<BookLevel>, price: Price) -> int {
    choose|i: int| 0 <= i < levels.len() && (#[trigger] levels[i]).price == price
}

/// The resting size at each price of a side.
pub open spec fn resting(levels: Seq<BookLevel>) -> Map<Price, Qty> {
    Map::new(
        |p: Price| has_price(levels, p),
        |p: Price| levels[place_of(levels, p)].qty,
    )
}

/// A side after one level was inserted, resized or removed.
pub open spec fn with_level(m: Map<Price, Qty>, level: (Price, Qty)) -> Map<Price, Qty> {
    if level.1.0 > 0 {
        m.insert(level.0, level.1)
    } else {
        m.remove(level.0)
    }
}

/// A side after a sequence of such updates.
pub open spec fn with_levels(m: Map<Price, Qty>, levels: Seq<(Price, Qty)>) -> Map<Price, Qty>
    decreases levels.len(),
{
    if levels.len() == 0 {
        m
    } else {
        with_level(with_levels(m, levels.drop_last()), levels.last())
    }
}

/// A side filled from a snapshot: later levels replace earlier ones at the same
/// price, and levels without size are skipped.
pub open spec fn filled(levels: Seq<(Price, Qty)>) -> Map<Price, Qty>
    decreases levels.len(),
{
    if levels.len() == 0 {
        Map::empty()
    } else {
        let before = filled(levels.drop_last());
        if levels.last().1.0 > 0 {
            before.insert(levels.last().0, levels.last().1)
        } else {
            before
        }
    }
}

/// The total size of some levels.
pub open spec fn total_size(levels: Seq<BookLevel>) -> int
    decreases levels.len(),
{
    if levels.len() == 0 {
        0
    } else {
        total_size(levels.drop_last()) + levels.last().qty.0
    }
}

/// The first `depth` of `levels`, all of them where there are fewer.
pub open spec fn first_levels(levels: Seq<BookLevel>, depth: nat) -> Seq<BookLevel> {
    if depth < levels.len() {
        levels.take(depth as int)
    } else {
        levels
    }
}

impl BookView {
    /// The best `depth` levels of a side, best first.
    pub open spec fn best(self, side: BookSide, depth: nat) -> Seq<BookLevel> {
        match side {
            BookSide::Bid => first_levels(self.bids.reverse(), depth),
            BookSide::Ask => first_levels(self.asks, depth),
        }
    }

    /// The highest bid.
    pub open spec fn top_bid(self) -> Option<BookLevel> {
        if self.bids.len() == 0 {
            None
        } else {
            Some(self.bids.last())
        }
    }

    /// The lowest ask.
    pub open spec fn top_ask(self) -> Option<BookLevel> {
        if self.asks.len() == 0 {
            None
        } else {
            Some(self.asks.first())
        }
    }

    pub open spec fn wf(self) -> bool {
        side_ok(self.bids) && side_ok(self.asks)
    }
}

pub proof fn lemma_resting(levels: Seq<BookLevel>, i: int)
    requires
        side_ok(levels),
        0 <= i < levels.len(),
    ensures
        resting(levels).contains_key(levels[i].price),
        resting(levels)[levels[i].price] == levels[i].qty,
{
    let p = levels[i].price;
    assert(has_price(levels, p));
    let j = place_of(levels, p);
    assert(0 <= j < levels.len() && levels[j].price == p);
}

/// The first position whose price is not below `price`.
fn position(levels: &Vec<BookLevel>, price: Price) -> (r: usize)
    requires
        side_ok(levels@),
    ensures
        r <= levels@.len(),
        forall|i: int| 0 <= i < r ==> (#[trigger] levels@[i]).price.0 < price.0,
        forall|i: int| r <= i < levels@.len() ==> (#[trigger] levels@[i]).price.0 >= price.0,
{
    let mut lo: usize = 0;
    let mut hi: usize = levels.len();
    while lo < hi
        invariant
            lo <= hi <= levels@.len(),
            side_ok(levels@),
            forall|i: int| 0 <= i < lo ==> (#[trigger] levels@[i]).price.0 < price.0,
            forall|i: int| hi <= i < levels@.len() ==> (#[trigger] levels@[i]).price.0 >= price.0,
        decreases hi - lo,
    {
        let mid: usize = lo + (hi - lo) / 2;
        if levels[mid].price.0 < price.0 {
            lo = mid + 1;
        } else {
            hi = mid;
        }
    }
    lo
}

/// Insert, update or remove a level. Zero or negative quantity removes it.
pub fn update_level(levels: &mut Vec<BookLevel>, price: Price, qty: Qty)
    requires
        side_ok(old(levels)@),
    ensures
        side_ok(final(levels)@),
        resting(final(levels)@) == with_level(resting(old(levels)@), (price, qty)),
{
    let ghost before = levels@;
    let at: usize = position(levels, price);
    let found = at < levels.len() && levels[at].price.0 == price.0;
    if qty.0 > 0 {
        let level = BookLevel { price, qty };
        if found {
            levels.set(at, level);
            proof {
                let after = levels@;
                assert(after =~= before.update(at as int, level));
                lemma_updated(before, after, price, qty, at as int);
            }
        } else {
            levels.insert(at, level);
            proof {
                let after = levels@;
                assert(after =~= before.insert(at as int, level));
                lemma_inserted(before, after, price, qty, at as int);
            }
        }
    } else if found {
        levels.remove(at);
        proof {
            let after = levels@;
            assert(after =~= before.remove(at as int));
            lemma_removed(before, after, price, at as int);
        }
    } else {
        proof {
            assert(!has_price(before, price)) by {
                if has_price(before, price) {
                    let i = place_of(before, price);
                    assert(before[i].price == price);
                    if i > at {
                        assert(before[at as int].price.0 < before[i].price.0);
                    }
                }
            }
            assert(resting(before).remove(price) =~= resting(before));
        }
    }
}

proof fn lemma_updated(
    before: Seq<BookLevel>,
    after: Seq<BookLevel>,
    price: Price,
    qty: Qty,
    at: int,
)
    requires
        side_ok(before),
        0 <= at < before.len(),
        before[at].price == price,
        qty.0 > 0,
        after == before.update(at, BookLevel { price, qty }),
    ensures
        side_ok(after),
        resting(after) == resting(before).insert(price, qty),
{
    assert(side_ok(after));
    assert forall|p: Price| has_price(after, p) <==> (has_price(before, p) || p == price) by {
        if has_price(after, p) {
            let i = place_of(after, p);
            assert(after[i].price == p);
            assert(before[i].price == p);
        }
        if has_price(before, p) {
            let i = place_of(before, p);
            assert(before[i].price == p);
            assert(after[i].price == p);
        }
        if p == price {
            assert(after[at].price == p);
        }
    }
    assert forall|p: Price| #[trigger] has_price(after, p) implies resting(after)[p] == resting(
        before,
    ).insert(price, qty)[p] by {
        let i = place_of(after, p);
        lemma_resting(after, i);
        if p != price {
            assert(i != at);
            assert(before[i] == after[i]);
            lemma_resting(before, i);
        } else {
            lemma_resting(after, at);
        }
    }
    assert(resting(after) =~= resting(before).insert(price, qty));
}

proof fn lemma_inserted(
    before: Seq<BookLevel>,
    after: Seq<BookLevel>,
    price: Price,
    qty: Qty,
    at: int,
)
    requires
        side_ok(before),
        0 <= at <= before.len(),
        qty.0 > 0,
        forall|i: int| 0 <= i < at ==> (#[trigger] before[i]).price.0 < price.0,
        forall|i: int| at <= i < before.len() ==> (#[trigger] before[i]).price.0 > price.0,
        after == before.insert(at, BookLevel { price, qty }),
    ensures
        side_ok(after),
        resting(after) == resting(before).insert(price, qty),
{
    assert forall|i: int| 0 <= i < after.len() implies #[trigger] after[i] == (if i < at {
        before[i]
    } else if i == at {
        BookLevel { price, qty }
    } else {
        before[i - 1]
    }) by {}
    assert(side_ok(after)) by {
        assert forall|i: int, j: int| 0 <= i < j < after.len() implies (
        #[trigger] after[i]).price.0 < (#[trigger] after[j]).price.0 by {
            if i < at && j > at {
                assert(before[i].price.0 < price.0);
                assert(before[j - 1].price.0 > price.0);
            }
        }
    }
    assert forall|p: Price| has_price(after, p) <==> (has_price(before, p) || p == price) by {
        if has_price(after, p) {
            let i = place_of(after, p);
            assert(after[i].price == p);
            if i < at {
                assert(before[i].price == p);
            } else if i > at {
                assert(before[i - 1].price == p);
            }
        }
        if has_price(before, p) {
            let i = place_of(before, p);
            assert(before[i].price == p);
            if i < at {
                assert(after[i].price == p);
            } else {
                assert(after[i + 1].price == p);
            }
        }
        if p == price {
            assert(after[at].price == p);
        }
    }
    assert forall|p: Price| #[trigger] has_price(after, p) implies resting(after)[p] == resting(
        before,
    ).insert(price, qty)[p] by {
        let i = place_of(after, p);
        lemma_resting(after, i);
        if p != price {
            if i < at {
                lemma_resting(before, i);
            } else {
                assert(i != at);
                lemma_resting(before, i - 1);
            }
        } else {
            lemma_resting(after, at);
        }
    }
    assert(resting(after) =~= resting(before).insert(price, qty));
}

proof fn lemma_removed(before: Seq<BookLevel>, after: Seq<BookLevel>, price: Price, at: int)
    requires
        side_ok(before),
        0 <= at < before.len(),
        before[at].price == price,
        after == before.remove(at),
    ensures
        side_ok(after),
        resting(after) == resting(before).remove(price),
{
    assert forall|i: int| 0 <= i < after.len() implies #[trigger] after[i] == (if i < at {
        before[i]
    } else {
        before[i + 1]
    }) by {}
    assert(side_ok(after));
    assert forall|p: Price| has_price(after, p) <==> (has_price(before, p) && p != price) by {
        if has_price(after, p) {
            let i = place_of(after, p);
            assert(after[i].price == p);
            if i < at {
                assert(before[i].price == p);
            } else {
                assert(before[i + 1].price == p);
            }
        }
        if has_price(before, p) && p != price {
            let i = place_of(before, p);
            assert(before[i].price == p);
            if i < at {
                assert(after[i].price == p);
            } else {
                assert(after[i - 1].price == p);
            }
        }
    }
    assert forall|p: Price| #[trigger] has_price(after, p) implies resting(after)[p] == resting(
        before,
    )[p] by {
        let i = place_of(after, p);
        lemma_resting(after, i);
        if i < at {
            lemma_resting(before, i);
        } else {
            lemma_resting(before, i + 1);
        }
    }
    assert(resting(after) =~= resting(before).remove(price));
}

/// A level-2 order book for one instrument.
#[derive(Debug, Clone)]
pub struct OrderBook {
    bids: Vec<BookLevel>,
    asks: Vec<BookLevel>,
    ts: Ts,
    sequence: u64,
    initialised: bool,
}

impl View for OrderBook {
    type V = BookView;

    closed spec fn view(&self) -> BookView {
        BookView {
            bids: self.bids@,
            asks: self.asks@,
            ts: self.ts,
            sequence: self.sequence,
            initialised: self.initialised,
        }
    }
}

impl Default for OrderBook {
    fn default() -> (r: Self)
        ensures
            r@ == empty_book(),
            r@.wf(),
    {
        OrderBook::new()
    }
}

/// The book before its first snapshot.
pub open spec fn empty_book() -> BookView {
    BookView {
        bids: Seq::<BookLevel>::empty(),
        asks: Seq::<BookLevel>::empty(),
        ts: Ts(0),
        sequence: 0,
        initialised: false,
    }
}

/// Why a delta with this sequence is refused.
pub open spec fn delta_refusal(book: BookView, sequence: u64) -> Option<BookError> {
    if !book.initialised {
        Some(BookError::NotInitialised)
    } else if sequence != 0 && sequence <= book.sequence {
        Some(BookError::StaleSequence { received: sequence, current: book.sequence })
    } else {
        None
    }
}

/// What a snapshot makes of a book.
pub open spec fn is_snapshot(
    after: BookView,
    ts: Ts,
    bids: Seq<(Price, Qty)>,
    asks: Seq<(Price, Qty)>,
    sequence: u64,
) -> bool {
    &&& resting(after.bids) == filled(bids)
    &&& resting(after.asks) == filled(asks)
    &&& after.ts == ts
    &&& after.sequence == sequence
    &&& after.initialised
}

/// What an accepted delta makes of a book.
pub open spec fn is_delta(
    before: BookView,
    after: BookView,
    ts: Ts,
    bids: Seq<(Price, Qty)>,
    asks: Seq<(Price, Qty)>,
    sequence: u64,
) -> bool {
    &&& resting(after.bids) == with_levels(resting(before.bids), bids)
    &&& resting(after.asks) == with_levels(resting(before.asks), asks)
    &&& after.ts == ts
    &&& after.sequence == if sequence != 0 {
        sequence
    } else {
        before.sequence
    }
    &&& after.initialised
}

fn fill_side(levels: &[(Price, Qty)]) -> (r: Vec<BookLevel>)
    ensures
        side_ok(r@),
        resting(r@) == filled(levels@),
{
    let mut out: Vec<BookLevel> = Vec::new();
    let mut i: usize = 0;
    assert(resting(out@) =~= Map::<Price, Qty>::empty());
    assert(levels@.take(0) =~= Seq::<(Price, Qty)>::empty());
    while i < levels.len()
        invariant
            i <= levels@.len(),
            side_ok(out@),
            resting(out@) == filled(levels@.take(i as int)),
        decreases levels@.len() - i,
    {
        assert(levels@.take(i + 1).drop_last() =~= levels@.take(i as int));
        let (price, qty) = levels[i];
        if qty.0 > 0 {
            update_level(&mut out, price, qty);
        }
        i += 1;
    }
    assert(levels@.take(i as int) =~= levels@);
    out
}

fn update_side(side: &mut Vec<BookLevel>, levels: &[(Price, Qty)])
    requires
        side_ok(old(side)@),
    ensures
        side_ok(final(side)@),
        resting(final(side)@) == with_levels(resting(old(side)@), levels@),
{
    let ghost before = side@;
    let mut i: usize = 0;
    assert(levels@.take(0) =~= Seq::<(Price, Qty)>::empty());
    while i < levels.len()
        invariant
            i <= levels@.len(),
            side_ok(side@),
            resting(side@) == with_levels(resting(before), levels@.take(i as int)),
        decreases levels@.len() - i,
    {
        assert(levels@.take(i + 1).drop_last() =~= levels@.take(i as int));
        let (price, qty) = levels[i];
        update_level(side, price, qty);
        i += 1;
    }
    assert(levels@.take(i as int) =~= levels@);
}

impl OrderBook {
    /// An empty, uninitialised book.
    pub fn new() -> (r: Self)
        ensures
            r@ == empty_book(),
            r@.wf(),
    {
        OrderBook {
            bids: Vec::new(),
            asks: Vec::new(),
            ts: Ts(0),
            sequence: 0,
            initialised: false,
        }
    }

    /// Replace the entire book. This is the only way to initialise it, and the
    /// correct response to any detected gap.
    pub fn apply_snapshot(
        &mut self,
        ts: Ts,
        bids: &[(Price, Qty)],
        asks: &[(Price, Qty)],
        sequence: u64,
    )
        ensures
            final(self)@.wf(),
            is_snapshot(final(self)@, ts, bids@, asks@, sequence),
    {
        self.bids = fill_side(bids);
        self.asks = fill_side(asks);
        self.ts = ts;
        self.sequence = sequence;
        self.initialised = true;
    }

    /// Apply an incremental update. A quantity of zero removes the level.
    pub fn apply_delta(
        &mut self,
        ts: Ts,
        bids: &[(Price, Qty)],
        asks: &[(Price, Qty)],
        sequence: u64,
    ) -> (r: Result<(), BookError>)
        requires
            old(self)@.wf(),
        ensures
            final(self)@.wf(),
            match delta_refusal(old(self)@, sequence) {
                Some(e) => r == Err::<(), BookError>(e) && final(self)@ == old(self)@,
                None => r is Ok && is_delta(
                    old(self)@,
                    final(self)@,
                    ts,
                    bids@,
                    asks@,
                    sequence,
                ),
            },
    {
        if !self.initialised {
            return Err(BookError::NotInitialised);
        }
        // Sequence 0 means "venue supplies none"; skip the ordering check.
        if sequence != 0 && sequence <= self.sequence {
            return Err(
                BookError::StaleSequence { received: sequence, current: self.sequence },
            );
        }
        update_side(&mut self.bids, bids);
        update_side(&mut self.asks, asks);
        self.ts = ts;
        if sequence != 0 {
            self.sequence = sequence;
        }
        Ok(())
    }

    /// Whether a snapshot has been applied.
    pub fn is_initialised(&self) -> (r: bool)
        ensures
            r == self@.initialised,
    {
        self.initialised
    }

    /// Timestamp of the most recently applied update.
    pub fn ts(&self) -> (r: Ts)
        ensures
            r == self@.ts,
    {
        self.ts
    }

    /// Sequence of the most recently applied update.
    pub fn sequence(&self) -> (r: u64)
        ensures
            r == self@.sequence,
    {
        self.sequence
    }

    /// Highest bid.
    pub fn best_bid(&self) -> (r: Option<BookLevel>)
        ensures
            r == self@.top_bid(),
    {
        if self.bids.len() == 0 {
            None
        } else {
            Some(self.bids[self.bids.len() - 1])
        }
    }

    /// Lowest ask.
    pub fn best_ask(&self) -> (r: Option<BookLevel>)
        ensures
            r == self@.top_ask(),
    {
        if self.asks.len() == 0 {
            None
        } else {
            Some(self.asks[0])
        }
    }

    /// Ask minus bid. `None` until both sides have a level.
    pub fn spread(&self) -> (r: Option<Price>)
        requires
            self@.top_bid() is Some && self@.top_ask() is Some ==> in_range(
                self@.top_ask()->0.price.0 - self@.top_bid()->0.price.0,
            ),
        ensures
            r == match (self@.top_bid(), self@.top_ask()) {
                (Some(b), Some(a)) => Some(Price((a.price.0 - b.price.0) as i64)),
                _ => None,
            },
            r is Some <==> self@.bids.len() > 0 && self@.asks.len() > 0,
            self@.wf() ==> (r matches Some(spread) ==> forall|i: int, j: int|
                #![trigger self@.bids[i], self@.asks[j]]
                0 <= i < self@.bids.len() && 0 <= j < self@.asks.len() ==> self@.asks[j].price.0
                    - self@.bids[i].price.0 >= spread.0),
    {
        match (self.best_bid(), self.best_ask()) {
            (Some(b), Some(a)) => Some(Price(a.price.0 - b.price.0)),
            _ => None,
        }
    }

    /// Midpoint of the touch, rounded toward zero.
    pub fn mid(&self) -> (r: Option<Price>)
        requires
            self@.top_bid() is Some && self@.top_ask() is Some ==> in_range(
                self@.top_bid()->0.price.0 + self@.top_ask()->0.price.0,
            ),
        ensures
            r == match (self@.top_bid(), self@.top_ask()) {
                (Some(b), Some(a)) => Some(
                    Price(truncated_div(b.price.0 + a.price.0, 2) as i64),
                ),
                _ => None,
            },
            r matches Some(mid) ==> -2 < 2 * mid.0 - self@.bids.last().price.0
                - self@.asks[0].price.0 < 2,
    {
        proof {
            if self@.bids.len() > 0 && self@.asks.len() > 0 {
                crate::primitives::fixed::law_division_cuts_off_toward_zero(
                    self@.bids.last().price.0 + self@.asks[0].price.0,
                    2,
                );
            }
        }
        match (self.best_bid(), self.best_ask()) {
            (Some(b), Some(a)) => Some(
                Price(quotient(b.price.0 as i128 + a.price.0 as i128, 2) as i64),
            ),
            _ => None,
        }
    }

    /// A crossed or locked book means the feed is inconsistent, usually a
    /// dropped delta. Callers should re-snapshot rather than trust it.
    pub fn is_crossed(&self) -> (r: bool)
        ensures
            r == match (self@.top_bid(), self@.top_ask()) {
                (Some(b), Some(a)) => b.price.0 >= a.price.0,
                _ => false,
            },
            self@.wf() ==> (r <==> exists|i: int, j: int|
                #![trigger self@.bids[i], self@.asks[j]]
                0 <= i < self@.bids.len() && 0 <= j < self@.asks.len() && self@.bids[i].price.0
                    >= self@.asks[j].price.0),
    {
        match (self.best_bid(), self.best_ask()) {
            (Some(b), Some(a)) => b.price.0 >= a.price.0,
            _ => false,
        }
    }

    /// The best `depth` bid levels, highest price first.
    pub fn bids(&self, depth: usize) -> (r: Vec<BookLevel>)
        ensures
            r@ == self@.best(BookSide::Bid, depth as nat),
    {
        let n: usize = self.bids.len();
        let mut out: Vec<BookLevel> = Vec::new();
        let mut i: usize = 0;
        while i < n && i < depth
            invariant
                i <= n,
                i <= depth,
                n == self.bids@.len(),
                out@ == self.bids@.reverse().take(i as int),
            decreases n - i,
        {
            out.push(self.bids[n - 1 - i]);
            i += 1;
            assert(out@ =~= self.bids@.reverse().take(i as int));
        }
        assert(out@ =~= self@.best(BookSide::Bid, depth as nat));
        out
    }

    /// The best `depth` ask levels, lowest price first.
    pub fn asks(&self, depth: usize) -> (r: Vec<BookLevel>)
        ensures
            r@ == self@.best(BookSide::Ask, depth as nat),
    {
        let n: usize = self.asks.len();
        let mut out: Vec<BookLevel> = Vec::new();
        let mut i: usize = 0;
        while i < n && i < depth
            invariant
                i <= n,
                i <= depth,
                n == self.asks@.len(),
                out@ == self.asks@.take(i as int),
            decreases n - i,
        {
            out.push(self.asks[i]);
            i += 1;
            assert(out@ =~= self.asks@.take(i as int));
        }
        assert(out@ =~= self@.best(BookSide::Ask, depth as nat));
        out
    }

    /// Resting size at an exact price, zero if the level is absent.
    pub fn qty_at(&self, side: BookSide, price: Price) -> (r: Qty)
        requires
            self@.wf(),
        ensures
            r == ({
                let side_map = match side {
                    BookSide::Bid => resting(self@.bids),
                    BookSide::Ask => resting(self@.asks),
                };
                if side_map.contains_key(price) {
                    side_map[price]
                } else {
                    Qty(0)
                }
            }),
            ({
                let levels = match side {
                    BookSide::Bid => self@.bids,
                    BookSide::Ask => self@.asks,
                };
                &&& r.0 > 0 ==> levels.contains(BookLevel { price, qty: r })
                &&& r.0 <= 0 ==> r.0 == 0 && forall|i: int|
                    0 <= i < levels.len() ==> (#[trigger] levels[i]).price != price
            }),
    {
        let levels = match side {
            BookSide::Bid => &self.bids,
            BookSide::Ask => &self.asks,
        };
        let at: usize = position(levels, price);
        if at < levels.len() && levels[at].price.0 == price.0 {
            proof {
                lemma_resting(levels@, at as int);
            }
            assert(levels@[at as int] == BookLevel { price, qty: levels@[at as int].qty });
            levels[at].qty
        } else {
            proof {
                assert(forall|i: int|
                    0 <= i < levels@.len() && (#[trigger] levels@[i]).price == price ==> has_price(
                        levels@,
                        price,
                    ));
                if has_price(levels@, price) {
                    let i = place_of(levels@, price);
                    assert(levels@[i].price == price);
                    if i > at {
                        assert(levels@[at as int].price.0 < levels@[i].price.0);
                    }
                }
            }
            Qty(0)
        }
    }

    /// Total resting size across the best `depth` levels of one side.
    pub fn depth_qty(&self, side: BookSide, depth: usize) -> (r: Qty)
        requires
            self@.wf(),
            in_range(total_size(self@.best(side, depth as nat))),
        ensures
            r.0 == total_size(self@.best(side, depth as nat)),
    {
        let levels = match side {
            BookSide::Bid => self.bids(depth),
            BookSide::Ask => self.asks(depth),
        };
        let mut sum: i64 = 0;
        let mut i: usize = 0;
        assert(levels@.take(0) =~= Seq::<BookLevel>::empty());
        proof {
            lemma_best_is_positive(self@, side, depth as nat);
        }
        while i < levels.len()
            invariant
                i <= levels@.len(),
                in_range(total_size(levels@)),
                forall|j: int| 0 <= j < levels@.len() ==> (#[trigger] levels@[j]).qty.0 > 0,
                sum == total_size(levels@.take(i as int)),
            decreases levels@.len() - i,
        {
            assert(levels@.take(i + 1).drop_last() =~= levels@.take(i as int));
            proof {
                lemma_total_grows(levels@, i + 1);
                lemma_total_positive(levels@.take(i as int));
            }
            sum = sum + levels[i].qty.0;
            i += 1;
        }
        assert(levels@.take(i as int) =~= levels@);
        Qty(sum)
    }

    /// Resting size on both sides over `depth` levels, which gives the book
    /// imbalance. `None` when both sides are empty.
    pub fn imbalance(&self, depth: usize) -> (r: Option<DepthBalance>)
        requires
            self@.wf(),
            in_range(total_size(self@.best(BookSide::Bid, depth as nat))),
            in_range(total_size(self@.best(BookSide::Ask, depth as nat))),
        ensures
            r == ({
                let bid = total_size(self@.best(BookSide::Bid, depth as nat));
                let ask = total_size(self@.best(BookSide::Ask, depth as nat));
                if bid + ask <= 0 {
                    None
                } else {
                    Some(DepthBalance { bid: Qty(bid as i64), ask: Qty(ask as i64) })
                }
            }),
            r is None <==> depth == 0 || (self@.bids.len() == 0 && self@.asks.len() == 0),
    {
        proof {
            let bids = self@.best(BookSide::Bid, depth as nat);
            let asks = self@.best(BookSide::Ask, depth as nat);
            lemma_best_is_positive(self@, BookSide::Bid, depth as nat);
            lemma_best_is_positive(self@, BookSide::Ask, depth as nat);
            lemma_total_positive(bids);
            lemma_total_positive(asks);
            lemma_total_above_zero(bids);
            lemma_total_above_zero(asks);
        }
        let bid = self.depth_qty(BookSide::Bid, depth);
        let ask = self.depth_qty(BookSide::Ask, depth);
        if bid.0 as i128 + ask.0 as i128 <= 0 {
            None
        } else {
            Some(DepthBalance { bid, ask })
        }
    }

    /// Number of levels on each side, as `(bids, asks)`.
    pub fn level_count(&self) -> (r: (usize, usize))
        ensures
            r.0 == self@.bids.len(),
            r.1 == self@.asks.len(),
    {
        (self.bids.len(), self.asks.len())
    }

    /// Drop every level and mark the book uninitialised. Use on disconnect so
    /// stale depth is never shown as live.
    pub fn clear(&mut self)
        ensures
            final(self)@ == (BookView { ts: old(self)@.ts, ..empty_book() }),
            final(self)@.wf(),
    {
        self.bids.clear();
        self.asks.clear();
        self.initialised = false;
        self.sequence = 0;
    }
}

proof fn lemma_best_is_positive(book: BookView, side: BookSide, depth: nat)
    requires
        book.wf(),
    ensures
        forall|i: int|
            0 <= i < book.best(side, depth).len() ==> (#[trigger] book.best(
                side,
                depth,
            )[i]).qty.0 > 0,
{
}

proof fn lemma_total_positive(levels: Seq<BookLevel>)
    requires
        forall|j: int| 0 <= j < levels.len() ==> (#[trigger] levels[j]).qty.0 > 0,
    ensures
        total_size(levels) >= 0,
    decreases levels.len(),
{
    if levels.len() > 0 {
        lemma_total_positive(levels.drop_last());
    }
}

proof fn lemma_total_above_zero(levels: Seq<BookLevel>)
    requires
        forall|j: int| 0 <= j < levels.len() ==> (#[trigger] levels[j]).qty.0 > 0,
    ensures
        total_size(levels) > 0 <==> levels.len() > 0,
{
    if levels.len() > 0 {
        lemma_total_positive(levels.drop_last());
        assert(levels[levels.len() - 1].qty.0 > 0);
    }
}

proof fn lemma_total_grows(levels: Seq<BookLevel>, k: int)
    requires
        0 <= k <= levels.len(),
        forall|j: int| 0 <= j < levels.len() ==> (#[trigger] levels[j]).qty.0 > 0,
    ensures
        total_size(levels.take(k)) <= total_size(levels),
    decreases levels.len(),
{
    if k == levels.len() {
        assert(levels.take(k) =~= levels);
    } else {
        lemma_total_grows(levels.drop_last(), k);
        assert(levels.drop_last().take(k) =~= levels.take(k));
    }
}

/// The best bid is the highest price that rests on the bid, the best ask the
/// lowest on the ask, each with the size that rests there.
pub proof fn law_touch_is_extremal(book: BookView)
    requires
        book.wf(),
    ensures
        book.top_bid() is None <==> resting(book.bids) =~= Map::<Price, Qty>::empty(),
        book.top_bid() matches Some(b) ==> resting(book.bids).contains_pair(b.price, b.qty)
            && forall|p: Price| #[trigger]
            resting(book.bids).contains_key(p) ==> p.0 <= b.price.0,
        book.top_ask() is None <==> resting(book.asks) =~= Map::<Price, Qty>::empty(),
        book.top_ask() matches Some(a) ==> resting(book.asks).contains_pair(a.price, a.qty)
            && forall|p: Price| #[trigger]
            resting(book.asks).contains_key(p) ==> a.price.0 <= p.0,
{
    if book.bids.len() > 0 {
        let last = book.bids.len() - 1;
        lemma_resting(book.bids, last);
        assert forall|p: Price| #[trigger] resting(book.bids).contains_key(p) implies p.0
            <= book.bids[last].price.0 by {
            let i = place_of(book.bids, p);
            assert(book.bids[i].price == p);
        }
    }
    if book.asks.len() > 0 {
        lemma_resting(book.asks, 0);
        assert forall|p: Price| #[trigger] resting(book.asks).contains_key(p) implies
            book.asks[0].price.0 <= p.0 by {
            let i = place_of(book.asks, p);
            assert(book.asks[i].price == p);
        }
    }
}

/// The sizes at each price determine a side: two sides that agree on them are
/// the same side, in the same order.
pub proof fn law_sides_with_equal_sizes_are_equal(a: Seq<BookLevel>, b: Seq<BookLevel>)
    requires
        side_ok(a),
        side_ok(b),
        resting(a) == resting(b),
    ensures
        a == b,
    decreases a.len(),
{
    if a.len() == 0 {
        if b.len() > 0 {
            lemma_resting(b, 0);
            assert(resting(a).contains_key(b[0].price));
        }
    } else {
        lemma_resting(a, a.len() - 1);
        let p = a.last().price;
        assert(resting(b).contains_key(p));
        let at = place_of(b, p);
        assert(b[at].price == p);
        lemma_resting(b, b.len() - 1);
        let q = b.last().price;
        assert(resting(a).contains_key(q));
        let there = place_of(a, q);
        assert(a[there].price == q);
        assert(p == q);
        assert(at == b.len() - 1);
        lemma_resting(b, at);
        assert(a.last() == b.last());
        lemma_removed(a, a.drop_last(), p, a.len() - 1);
        lemma_removed(b, b.drop_last(), p, b.len() - 1);
        law_sides_with_equal_sizes_are_equal(a.drop_last(), b.drop_last());
        assert(a =~= a.drop_last().push(a.last()));
        assert(b =~= b.drop_last().push(b.last()));
    }
}

/// An incremental update.
pub struct Delta {
    pub ts: Ts,
    pub bids: Seq<(Price, Qty)>,
    pub asks: Seq<(Price, Qty)>,
    pub sequence: u64,
}

/// Whether offering an update leads from one book to another: to the same one
/// where it is refused.
pub open spec fn offers(before: BookView, delta: Delta, after: BookView) -> bool {
    match delta_refusal(before, delta.sequence) {
        Some(_) => after == before,
        None => is_delta(before, after, delta.ts, delta.bids, delta.asks, delta.sequence),
    }
}

/// Whether offering updates in turn leads through these books.
pub open spec fn is_run(books: Seq<BookView>, deltas: Seq<Delta>) -> bool {
    &&& books.len() == deltas.len() + 1
    &&& forall|i: int, j: int|
        0 <= i < deltas.len() && j == i + 1 ==> offers(
            #[trigger] books[i],
            deltas[i],
            #[trigger] books[j],
        )
}

/// Whether an update of a run was accepted.
pub open spec fn accepted(books: Seq<BookView>, deltas: Seq<Delta>, i: int) -> bool {
    0 <= i < deltas.len() && delta_refusal(books[i], deltas[i].sequence) is None
}

/// Updates do not go backwards: over any run of them, accepted or refused, the
/// sequence never falls, and ends as the largest of the first book's and those of
/// the accepted updates.
pub proof fn law_the_sequence_never_falls(books: Seq<BookView>, deltas: Seq<Delta>)
    requires
        is_run(books, deltas),
    ensures
        books[0].sequence <= books.last().sequence,
        forall|i: int| #[trigger]
            accepted(books, deltas, i) ==> deltas[i].sequence <= books.last().sequence,
        books.last().sequence == books[0].sequence || exists|i: int| #[trigger]
            accepted(books, deltas, i) && deltas[i].sequence == books.last().sequence,
    decreases deltas.len(),
{
    if deltas.len() > 0 {
        let n = deltas.len() - 1;
        let shorter = books.drop_last();
        let fewer = deltas.drop_last();
        assert forall|i: int, j: int| 0 <= i < fewer.len() && j == i + 1 implies offers(
            #[trigger] shorter[i],
            fewer[i],
            #[trigger] shorter[j],
        ) by {
            assert(shorter[i] == books[i] && shorter[j] == books[j]);
        }
        law_the_sequence_never_falls(shorter, fewer);
        assert(shorter.last() == books[n]);
        assert(offers(books[n], deltas[n], books[n + 1]));
        assert forall|i: int| #[trigger] accepted(books, deltas, i) implies deltas[i].sequence
            <= books.last().sequence by {
            if i < n {
                assert(accepted(shorter, fewer, i));
            }
        }
        if books.last().sequence != books[n].sequence {
            assert(accepted(books, deltas, n));
        } else if books[n].sequence != books[0].sequence {
            let i = choose|i: int| #[trigger]
                accepted(shorter, fewer, i) && fewer[i].sequence == shorter.last().sequence;
            assert(accepted(books, deltas, i));
        }
    }
}

} // verus!
