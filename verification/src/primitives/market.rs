//! Market events: the normalised stream every feed adapter produces.

use crate::primitives::fixed::{Price, Qty};
use crate::primitives::time::Ts;
use vstd::prelude::*;

verus! {

use crate::primitives::fixed::{in_range, notional_of};

/// Which side initiated a trade, or which side of the book a level sits on.
#[derive(Debug, Clone, Copy, PartialEq, Eq, Hash, Structural)]
pub enum Side {
    /// Buyer was the aggressor: the trade lifted the ask.
    Buy,
    /// Seller was the aggressor: the trade hit the bid.
    Sell,
}

impl Side {
    /// The other side.
    pub open spec fn other(self) -> Side {
        match self {
            Side::Buy => Side::Sell,
            Side::Sell => Side::Buy,
        }
    }

    /// `+1` for a buy, `-1` for a sell.
    pub open spec fn sign(self) -> int {
        match self {
            Side::Buy => 1,
            Side::Sell => -1,
        }
    }

    /// The opposite side.
    pub fn opposite(self) -> (r: Side)
        ensures
            r == self.other(),
    {
        match self {
            Side::Buy => Side::Sell,
            Side::Sell => Side::Buy,
        }
    }

    /// `+1` for a buy, `-1` for a sell. Multiply a size by this to get delta.
    pub fn signum(self) -> (r: i64)
        ensures
            r == self.sign(),
    {
        match self {
            Side::Buy => 1,
            Side::Sell => -1,
        }
    }

    /// Whether this is the buy side.
    pub fn is_buy(self) -> (r: bool)
        ensures
            r == (self is Buy),
    {
        matches!(self, Side::Buy)
    }

    /// Stable lower-case identifier.
    pub open spec fn label(self) -> &'static str {
        match self {
            Side::Buy => "buy",
            Side::Sell => "sell",
        }
    }

    /// Stable lower-case identifier.
    pub fn as_str(self) -> (r: &'static str)
        ensures
            r == self.label(),
    {
        match self {
            Side::Buy => "buy",
            Side::Sell => "sell",
        }
    }
}

/// The opposite of the opposite is the side itself, and never the side.
pub proof fn law_opposite_is_an_involution(side: Side)
    ensures
        side.other().other() == side,
        side.other() != side,
        side.other().sign() == -side.sign(),
{
}

/// A single executed trade.
///
/// `aggressor` is the whole point of the struct: without knowing which side
/// crossed the spread there is no delta, no imbalance and no footprint, just
/// volume. Feeds that report it as "buyer is maker" must invert it on the way
/// in, and adapters are responsible for that normalisation.
#[derive(Debug, Clone, Copy, PartialEq, Eq, Structural)]
pub struct Trade {
    /// Exchange timestamp.
    pub ts: Ts,
    /// Execution price.
    pub price: Price,
    /// Executed size.
    pub qty: Qty,
    /// The side that crossed the spread.
    pub aggressor: Side,
    /// Venue trade id, used to deduplicate across REST backfill and websocket
    /// overlap. Zero when the venue does not supply one.
    pub id: u64,
}

impl Trade {
    /// Positive when buyers were aggressive, negative when sellers were.
    pub open spec fn signed(self) -> int {
        self.qty.0 * self.aggressor.sign()
    }

    /// Construct a trade.
    pub fn new(ts: Ts, price: Price, qty: Qty, aggressor: Side, id: u64) -> (r: Self)
        ensures
            r == (Trade { ts, price, qty, aggressor, id }),
    {
        Trade { ts, price, qty, aggressor, id }
    }

    /// Signed size: positive when buyers were aggressive, negative when sellers
    /// were. Summing this across trades gives delta.
    pub fn signed_qty(&self) -> (r: Qty)
        requires
            in_range(self.signed()),
        ensures
            r.0 == self.signed(),
    {
        match self.aggressor {
            Side::Buy => self.qty,
            Side::Sell => Qty(-self.qty.0),
        }
    }

    /// Notional traded value.
    pub fn notional(&self) -> (r: Qty)
        ensures
            r.0 == notional_of(self.price.0 as int, self.qty.0 as int),
    {
        self.price.notional(self.qty)
    }
}

/// A normalised event from any feed.
///
/// Adapters translate venue-specific wire formats into this enum, so the
/// engine, storage and trading layers never learn what a venue's JSON looks
/// like.
#[derive(Debug, PartialEq)]
pub enum MarketEvent {
    /// A completed trade.
    Trade(Trade),
    /// A full order book replacement. Sent on connect and after any gap.
    BookSnapshot {
        /// Exchange timestamp.
        ts: Ts,
        /// Bid levels, any order.
        bids: Vec<(Price, Qty)>,
        /// Ask levels, any order.
        asks: Vec<(Price, Qty)>,
        /// Venue sequence number, if it supplies one.
        sequence: u64,
    },
    /// An incremental book update. A quantity of zero removes the level.
    BookDelta {
        /// Exchange timestamp.
        ts: Ts,
        /// Changed bid levels.
        bids: Vec<(Price, Qty)>,
        /// Changed ask levels.
        asks: Vec<(Price, Qty)>,
        /// Venue sequence number, if it supplies one.
        sequence: u64,
    },
    /// Connection state changed. The engine uses this to mark gaps in history
    /// rather than silently stitching across a disconnect.
    Status {
        /// When the change was observed.
        ts: Ts,
        /// Whether the feed is currently connected.
        connected: bool,
        /// Human-readable detail for the UI.
        detail: String,
    },
}

impl MarketEvent {
    /// Timestamp of any event variant.
    pub open spec fn time(self) -> Ts {
        match self {
            MarketEvent::Trade(t) => t.ts,
            MarketEvent::BookSnapshot { ts, .. } => ts,
            MarketEvent::BookDelta { ts, .. } => ts,
            MarketEvent::Status { ts, .. } => ts,
        }
    }

    /// Timestamp of any event variant.
    pub fn ts(&self) -> (r: Ts)
        ensures
            r == self.time(),
    {
        match self {
            MarketEvent::Trade(t) => t.ts,
            MarketEvent::BookSnapshot { ts, .. } => *ts,
            MarketEvent::BookDelta { ts, .. } => *ts,
            MarketEvent::Status { ts, .. } => *ts,
        }
    }

    /// Whether this event is a trade.
    pub fn is_trade(&self) -> (r: bool)
        ensures
            r == (self is Trade),
    {
        matches!(self, MarketEvent::Trade(_))
    }
}

/// What an event says.
#[verifier::ext_equal]
pub enum EventView {
    Trade(Trade),
    BookSnapshot { ts: Ts, bids: Seq<(Price, Qty)>, asks: Seq<(Price, Qty)>, sequence: u64 },
    BookDelta { ts: Ts, bids: Seq<(Price, Qty)>, asks: Seq<(Price, Qty)>, sequence: u64 },
    Status { ts: Ts, connected: bool, detail: Seq<char> },
}

impl View for MarketEvent {
    type V = EventView;

    open spec fn view(&self) -> EventView {
        match self {
            MarketEvent::Trade(trade) => EventView::Trade(*trade),
            MarketEvent::BookSnapshot { ts, bids, asks, sequence } => EventView::BookSnapshot {
                ts: *ts,
                bids: bids@,
                asks: asks@,
                sequence: *sequence,
            },
            MarketEvent::BookDelta { ts, bids, asks, sequence } => EventView::BookDelta {
                ts: *ts,
                bids: bids@,
                asks: asks@,
                sequence: *sequence,
            },
            MarketEvent::Status { ts, connected, detail } => EventView::Status {
                ts: *ts,
                connected: *connected,
                detail: detail@,
            },
        }
    }
}

fn copy_levels(levels: &Vec<(Price, Qty)>) -> (r: Vec<(Price, Qty)>)
    ensures
        r@ == levels@,
{
    let mut out: Vec<(Price, Qty)> = Vec::new();
    let mut i: usize = 0;
    while i < levels.len()
        invariant
            i <= levels@.len(),
            out@ == levels@.take(i as int),
        decreases levels@.len() - i,
    {
        out.push(levels[i]);
        i += 1;
        assert(out@ =~= levels@.take(i as int));
    }
    assert(out@ =~= levels@);
    out
}

impl Clone for MarketEvent {
    fn clone(&self) -> (r: Self)
        ensures
            r@ == self@,
    {
        match self {
            MarketEvent::Trade(trade) => MarketEvent::Trade(*trade),
            MarketEvent::BookSnapshot { ts, bids, asks, sequence } => MarketEvent::BookSnapshot {
                ts: *ts,
                bids: copy_levels(bids),
                asks: copy_levels(asks),
                sequence: *sequence,
            },
            MarketEvent::BookDelta { ts, bids, asks, sequence } => MarketEvent::BookDelta {
                ts: *ts,
                bids: copy_levels(bids),
                asks: copy_levels(asks),
                sequence: *sequence,
            },
            MarketEvent::Status { ts, connected, detail } => MarketEvent::Status {
                ts: *ts,
                connected: *connected,
                detail: detail.clone(),
            },
        }
    }
}

} // verus!
