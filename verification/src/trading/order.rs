//! Orders and fills.

use crate::primitives::fixed::{Price, Qty};
use crate::primitives::market::Side;
use crate::primitives::time::Ts;
use crate::text::push_decimal;
use vstd::prelude::*;

verus! {

use crate::primitives::fixed::in_range;
use crate::text::decimal;

/// Identifier assigned by the matching engine.
#[derive(Debug, Clone, Copy, PartialEq, Eq, PartialOrd, Ord, Hash, Structural)]
pub struct OrderId(pub u64);

impl OrderId {
    /// A hash sign and the number.
    pub fn to_string(&self) -> (r: String)
        ensures
            r@ == seq!['#'] + decimal(self.0 as nat),
    {
        let mut out = String::new();
        out.push('#');
        push_decimal(&mut out, self.0 as u128);
        assert(out@ =~= seq!['#'] + decimal(self.0 as nat));
        out
    }
}

/// What kind of order this is.
#[derive(Debug, Clone, Copy, PartialEq, Eq, Structural)]
pub enum OrderType {
    /// Cross the spread now, taking whatever the book offers.
    Market,
    /// Rest until the market trades through `price`.
    Limit {
        /// The limit price.
        price: Price,
    },
    /// Become a market order once the market trades at or through `trigger`.
    Stop {
        /// The trigger price.
        trigger: Price,
    },
    /// Become a limit order once the market trades at or through `trigger`.
    StopLimit {
        /// The trigger price.
        trigger: Price,
        /// The limit price applied after triggering.
        limit: Price,
    },
}

impl OrderType {
    /// The price this order rests at, if it rests.
    pub open spec fn limit_of(self) -> Option<Price> {
        match self {
            OrderType::Limit { price } => Some(price),
            OrderType::StopLimit { limit, .. } => Some(limit),
            _ => None,
        }
    }

    /// The price this order triggers at, if it triggers.
    pub open spec fn trigger_of(self) -> Option<Price> {
        match self {
            OrderType::Stop { trigger } => Some(trigger),
            OrderType::StopLimit { trigger, .. } => Some(trigger),
            _ => None,
        }
    }

    /// The price this order rests at, if it rests.
    pub fn limit_price(&self) -> (r: Option<Price>)
        ensures
            r == self.limit_of(),
    {
        match self {
            OrderType::Limit { price } => Some(*price),
            OrderType::StopLimit { limit, .. } => Some(*limit),
            _ => None,
        }
    }

    /// The price this order triggers at, if it triggers.
    pub fn trigger_price(&self) -> (r: Option<Price>)
        ensures
            r == self.trigger_of(),
    {
        match self {
            OrderType::Stop { trigger } => Some(*trigger),
            OrderType::StopLimit { trigger, .. } => Some(*trigger),
            _ => None,
        }
    }
}

/// How long an order stays live.
#[derive(Debug, Clone, Copy, PartialEq, Eq, Structural)]
pub enum TimeInForce {
    /// Rest until filled or cancelled.
    Gtc,
    /// Fill whatever is available immediately, cancel the rest.
    Ioc,
    /// Fill completely and immediately, or cancel entirely.
    Fok,
}

impl Default for TimeInForce {
    fn default() -> (r: Self)
        ensures
            r is Gtc,
    {
        TimeInForce::Gtc
    }
}

/// Where an order is in its life.
#[derive(Debug, Clone, Copy, PartialEq, Eq, Structural)]
pub enum OrderStatus {
    /// Waiting for its trigger price.
    Pending,
    /// Live and eligible to fill.
    Working,
    /// Some quantity filled, the rest still working.
    PartiallyFilled,
    /// Completely filled.
    Filled,
    /// Cancelled before completing.
    Cancelled,
    /// Refused at submission.
    Rejected,
}

impl OrderStatus {
    /// Whether the order can still trade.
    pub open spec fn live(self) -> bool {
        self is Pending || self is Working || self is PartiallyFilled
    }

    /// Whether the order can still trade.
    pub fn is_live(self) -> (r: bool)
        ensures
            r == self.live(),
    {
        matches!(
            self,
            OrderStatus::Pending | OrderStatus::Working | OrderStatus::PartiallyFilled
        )
    }

    /// Whether the order has reached a final state.
    pub fn is_done(self) -> (r: bool)
        ensures
            r == !self.live(),
    {
        !self.is_live()
    }
}

/// A submitted order.
#[derive(Debug, PartialEq)]
pub struct Order {
    /// Engine-assigned identifier.
    pub id: OrderId,
    /// Buy or sell.
    pub side: Side,
    /// Order type and its prices.
    pub kind: OrderType,
    /// Requested quantity.
    pub qty: Qty,
    /// Quantity filled so far.
    pub filled: Qty,
    /// Volume-weighted average fill price, once anything has filled.
    pub avg_fill_price: Option<Price>,
    /// Current status.
    pub status: OrderStatus,
    /// Time in force.
    pub tif: TimeInForce,
    /// When it was submitted.
    pub created: Ts,
    /// When it reached a final state.
    pub closed: Option<Ts>,
    /// OCO group; filling any member cancels the others.
    pub oco_group: Option<u64>,
    /// Why it was rejected, when it was.
    pub reject_reason: Option<String>,
}

impl Clone for Order {
    fn clone(&self) -> (r: Self)
        ensures
            r == *self,
    {
        Order {
            id: self.id,
            side: self.side,
            kind: self.kind,
            qty: self.qty,
            filled: self.filled,
            avg_fill_price: self.avg_fill_price,
            status: self.status,
            tif: self.tif,
            created: self.created,
            closed: self.closed,
            oco_group: self.oco_group,
            reject_reason: match &self.reject_reason {
                Some(reason) => Some(reason.clone()),
                None => None,
            },
        }
    }
}

impl Order {
    /// Quantity still working.
    pub fn remaining(&self) -> (r: Qty)
        requires
            in_range(self.qty.0 - self.filled.0),
        ensures
            r.0 == self.qty.0 - self.filled.0,
            r.0 > 0 <==> self.filled.0 < self.qty.0,
    {
        Qty(self.qty.0 - self.filled.0)
    }

    /// Whether every unit has filled.
    pub fn is_complete(&self) -> (r: bool)
        ensures
            r == (self.filled.0 >= self.qty.0),
    {
        self.filled.0 >= self.qty.0
    }
}

/// A request to place an order.
#[derive(Debug, Clone, Copy, PartialEq, Eq, Structural)]
pub struct OrderRequest {
    /// Buy or sell.
    pub side: Side,
    /// Order type and prices.
    pub kind: OrderType,
    /// Quantity.
    pub qty: Qty,
    /// Time in force.
    pub tif: TimeInForce,
    /// OCO group to join.
    pub oco_group: Option<u64>,
}

/// A market order.
pub open spec fn market_request(side: Side, qty: Qty) -> OrderRequest {
    OrderRequest { side, kind: OrderType::Market, qty, tif: TimeInForce::Gtc, oco_group: None }
}

/// A resting limit order.
pub open spec fn limit_request(side: Side, qty: Qty, price: Price) -> OrderRequest {
    OrderRequest {
        side,
        kind: OrderType::Limit { price },
        qty,
        tif: TimeInForce::Gtc,
        oco_group: None,
    }
}

impl OrderRequest {
    /// A market order.
    pub fn market(side: Side, qty: Qty) -> (r: Self)
        ensures
            r == market_request(side, qty),
    {
        OrderRequest {
            side,
            kind: OrderType::Market,
            qty,
            tif: TimeInForce::Gtc,
            oco_group: None,
        }
    }

    /// A resting limit order.
    pub fn limit(side: Side, qty: Qty, price: Price) -> (r: Self)
        ensures
            r == limit_request(side, qty, price),
    {
        OrderRequest {
            side,
            kind: OrderType::Limit { price },
            qty,
            tif: TimeInForce::Gtc,
            oco_group: None,
        }
    }

    /// A stop order that becomes a market order when triggered.
    pub fn stop(side: Side, qty: Qty, trigger: Price) -> (r: Self)
        ensures
            r == (OrderRequest {
                side,
                kind: OrderType::Stop { trigger },
                qty,
                tif: TimeInForce::Gtc,
                oco_group: None,
            }),
    {
        OrderRequest {
            side,
            kind: OrderType::Stop { trigger },
            qty,
            tif: TimeInForce::Gtc,
            oco_group: None,
        }
    }

    /// Set the time in force.
    pub fn with_tif(self, tif: TimeInForce) -> (r: Self)
        ensures
            r == (OrderRequest { tif, ..self }),
    {
        OrderRequest { tif, ..self }
    }

    /// Join an OCO group.
    pub fn with_oco(self, group: u64) -> (r: Self)
        ensures
            r == (OrderRequest { oco_group: Some(group), ..self }),
    {
        OrderRequest { oco_group: Some(group), ..self }
    }
}

/// An execution against an order.
#[derive(Debug, Clone, Copy, PartialEq, Eq, Structural)]
pub struct Fill {
    /// Which order filled.
    pub order_id: OrderId,
    /// When.
    pub ts: Ts,
    /// At what price.
    pub price: Price,
    /// How much.
    pub qty: Qty,
    /// Which side the filling order was.
    pub side: Side,
    /// Commission charged, in quote currency.
    pub commission: Qty,
}

/// Why an order was refused.
#[allow(inconsistent_fields)]
#[derive(Debug, Clone, Copy, PartialEq, Eq, Structural)]
pub enum RejectReason {
    /// Quantity was zero or negative.
    NonPositiveQty,
    /// A limit or stop price was zero or negative.
    NonPositivePrice,
    /// The order would exceed the configured position limit.
    PositionLimit {
        /// The configured limit.
        limit: Qty,
    },
    /// There were already too many working orders.
    TooManyOrders {
        /// The configured limit.
        limit: usize,
    },
    /// No book was available to price against.
    NoMarket,
}

} // verus!
