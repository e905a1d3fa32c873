//! Views of session state, shaped for the UI.
//!
//! # Why prices cross the boundary as integers
//!
//! Every price and quantity is sent as its fixed-point minor-unit count, not
//! as a decimal. JavaScript numbers are IEEE doubles, which represent integers
//! exactly up to 2^53 (about 9.0e15); minor units at 8 decimal places put a
//! six-figure price at roughly 9.5e12, four orders of magnitude inside that
//! bound. So the integer arrives exact, and the UI divides by the scale only
//! at the moment it draws or formats.
//!
//! These types travel one way: the library builds them, the UI renders them.
//! Commands coming back have their own request types rather than
//! round-tripping a view model, so the UI can never hand back a mutated
//! snapshot and have it treated as truth.

use crate::engine::bar::Bar;
use crate::engine::cluster::{ClusterRow, Imbalance};
use crate::primitives::book::{BookLevel, OrderBook};
use crate::primitives::fixed::{Price, Qty};
use crate::primitives::market::Trade;
use crate::primitives::ratio::Ratio;
use crate::primitives::time::Ts;
use crate::trading::order::{Fill, Order, OrderStatus, OrderType};
use crate::trading::position::Position;
use vstd::prelude::*;

verus! {

use crate::engine::bar::BarView;
use crate::primitives::book::{BookSide, BookView};
use crate::primitives::fixed::in_range;

/// Minor units per whole unit, so the UI can convert without hard-coding it.
pub const PRICE_SCALE: i64 = 100_000_000;

/// One price level of a footprint.
#[derive(Debug, Clone, Copy, PartialEq, Eq, Structural)]
pub struct ClusterDto {
    /// Price, in minor units.
    pub price: i64,
    /// Volume traded on the bid, in minor units.
    pub bid: i64,
    /// Volume traded on the ask, in minor units.
    pub ask: i64,
    /// Trades at this level.
    pub trades: u32,
}

impl ClusterDto {
    /// A row as the UI sees it.
    pub open spec fn of(row: ClusterRow) -> ClusterDto {
        ClusterDto {
            price: row.price.0,
            bid: row.cluster.bid.0,
            ask: row.cluster.ask.0,
            trades: row.cluster.trades,
        }
    }

    /// Build from a ladder row.
    pub fn from_row(row: &ClusterRow) -> (r: Self)
        ensures
            r == ClusterDto::of(*row),
    {
        ClusterDto {
            price: row.price.0,
            bid: row.cluster.bid.0,
            ask: row.cluster.ask.0,
            trades: row.cluster.trades,
        }
    }
}

/// An imbalance marker for the renderer.
#[derive(Debug, Clone, Copy, PartialEq, Eq)]
pub struct ImbalanceDto {
    /// Price, in minor units.
    pub price: i64,
    /// `"buy"` or `"sell"`.
    pub side: &'static str,
    /// Dominant volume, in minor units. The ratio shown is this over
    /// `opposing`.
    pub dominant: i64,
    /// Opposing volume, in minor units; zero when the opposing side was empty,
    /// and there is then no ratio to show.
    pub opposing: i64,
}

impl ImbalanceDto {
    /// An imbalance as the UI sees it.
    pub open spec fn of(i: Imbalance) -> ImbalanceDto {
        ImbalanceDto {
            price: i.price.0,
            side: i.side.label(),
            dominant: i.dominant.0,
            opposing: i.opposing.0,
        }
    }

    /// Build from an imbalance.
    pub fn from_imbalance(i: &Imbalance) -> (r: Self)
        ensures
            r == ImbalanceDto::of(*i),
    {
        ImbalanceDto {
            price: i.price.0,
            side: i.side.as_str(),
            dominant: i.dominant.0,
            opposing: i.opposing.0,
        }
    }
}

/// A bar with everything the chart needs to draw it.
#[derive(Debug, PartialEq)]
pub struct BarDto {
    /// Bar open time, nanoseconds since the epoch.
    pub open_ts: i64,
    /// Last trade time in the bar.
    pub close_ts: i64,
    /// Open price, minor units.
    pub open: i64,
    /// High price, minor units.
    pub high: i64,
    /// Low price, minor units.
    pub low: i64,
    /// Close price, minor units.
    pub close: i64,
    /// Total volume, minor units.
    pub volume: i64,
    /// Ask minus bid volume, minor units.
    pub delta: i64,
    /// Trade count.
    pub trades: u32,
    /// Whether the bar is finished.
    pub closed: bool,
    /// Point of control, minor units, if any volume traded.
    pub poc: Option<i64>,
    /// The footprint ladder, low price to high.
    pub clusters: Vec<ClusterDto>,
    /// Diagonal imbalances detected in this bar.
    pub imbalances: Vec<ImbalanceDto>,
}

/// What a published bar holds.
#[verifier::ext_equal]
pub struct BarDtoView {
    pub open_ts: i64,
    pub close_ts: i64,
    pub open: i64,
    pub high: i64,
    pub low: i64,
    pub close: i64,
    pub volume: i64,
    pub delta: i64,
    pub trades: u32,
    pub closed: bool,
    pub poc: Option<i64>,
    pub clusters: Seq<ClusterDto>,
    pub imbalances: Seq<ImbalanceDto>,
}

impl View for BarDto {
    type V = BarDtoView;

    open spec fn view(&self) -> BarDtoView {
        BarDtoView {
            open_ts: self.open_ts,
            close_ts: self.close_ts,
            open: self.open,
            high: self.high,
            low: self.low,
            close: self.close,
            volume: self.volume,
            delta: self.delta,
            trades: self.trades,
            closed: self.closed,
            poc: self.poc,
            clusters: self.clusters@,
            imbalances: self.imbalances@,
        }
    }
}

/// The minor units of a price, where there is one.
pub open spec fn minor_of(price: Option<Price>) -> Option<i64> {
    match price {
        Some(p) => Some(p.0),
        None => None,
    }
}

fn minor(price: Option<Price>) -> (r: Option<i64>)
    ensures
        r == minor_of(price),
{
    match price {
        Some(p) => Some(p.0),
        None => None,
    }
}

/// A bar as the UI sees it.
pub open spec fn shown_bar(bar: BarView, ratio: Ratio, min_volume: Qty) -> BarDtoView {
    BarDtoView {
        open_ts: bar.open_ts.0,
        close_ts: bar.close_ts.0,
        open: bar.open.0,
        high: bar.high.0,
        low: bar.low.0,
        close: bar.close.0,
        volume: bar.volume.0,
        delta: bar.net() as i64,
        trades: bar.trades,
        closed: bar.closed,
        poc: minor_of(bar.ladder.poc_price()),
        clusters: bar.ladder.row_list().map_values(|row: ClusterRow| ClusterDto::of(row)),
        imbalances: bar.ladder.all_imbalances(ratio, min_volume).map_values(
            |i: Imbalance| ImbalanceDto::of(i),
        ),
    }
}

/// Whether a bar can be shown: its delta and its prices are representable.
pub open spec fn can_show(bar: BarView) -> bool {
    bar.ladder.prices_fit() && in_range(bar.net())
}

/// Whether a bar can be shown.
pub fn is_showable(bar: &Bar) -> (r: bool)
    requires
        bar@.wf(),
    ensures
        r == can_show(bar@),
{
    bar.clusters.has_prices() && bar.clusters.total_ask().checked_sub(
        bar.clusters.total_bid(),
    ).is_some()
}

impl BarDto {
    /// Build from a bar, detecting imbalances at the given ratio.
    pub fn from_bar(bar: &Bar, imbalance_ratio: Ratio, min_imbalance_volume: Qty) -> (r: Self)
        requires
            bar@.wf(),
            can_show(bar@),
            imbalance_ratio.wf(),
            imbalance_ratio.num > 0,
        ensures
            r@ == shown_bar(bar@, imbalance_ratio, min_imbalance_volume),
    {
        let rows = bar.clusters.rows();
        let mut clusters: Vec<ClusterDto> = Vec::new();
        let mut i: usize = 0;
        while i < rows.len()
            invariant
                i <= rows@.len(),
                clusters@ == rows@.take(i as int).map_values(
                    |row: ClusterRow| ClusterDto::of(row),
                ),
            decreases rows@.len() - i,
        {
            clusters.push(ClusterDto::from_row(&rows[i]));
            i += 1;
            assert(clusters@ =~= rows@.take(i as int).map_values(
                |row: ClusterRow| ClusterDto::of(row),
            ));
        }
        assert(rows@.take(i as int) =~= rows@);
        let found = bar.clusters.imbalances(imbalance_ratio, min_imbalance_volume);
        let mut imbalances: Vec<ImbalanceDto> = Vec::new();
        let mut k: usize = 0;
        while k < found.len()
            invariant
                k <= found@.len(),
                imbalances@ == found@.take(k as int).map_values(
                    |i: Imbalance| ImbalanceDto::of(i),
                ),
            decreases found@.len() - k,
        {
            imbalances.push(ImbalanceDto::from_imbalance(&found[k]));
            k += 1;
            assert(imbalances@ =~= found@.take(k as int).map_values(
                |i: Imbalance| ImbalanceDto::of(i),
            ));
        }
        assert(found@.take(k as int) =~= found@);
        BarDto {
            open_ts: bar.open_ts.0,
            close_ts: bar.close_ts.0,
            open: bar.open.0,
            high: bar.high.0,
            low: bar.low.0,
            close: bar.close.0,
            volume: bar.volume.0,
            delta: bar.delta().0,
            trades: bar.trades,
            closed: bar.closed,
            poc: minor(bar.poc()),
            clusters,
            imbalances,
        }
    }
}

/// A depth-of-market level.
#[derive(Debug, Clone, Copy, PartialEq, Eq, Structural)]
pub struct LevelDto {
    /// Price, minor units.
    pub price: i64,
    /// Resting size, minor units.
    pub qty: i64,
}

impl LevelDto {
    /// A level as the UI sees it.
    pub open spec fn of(level: BookLevel) -> LevelDto {
        LevelDto { price: level.price.0, qty: level.qty.0 }
    }
}

/// A snapshot of the order book.
#[derive(Debug, PartialEq)]
pub struct BookDto {
    /// Bid levels, best first.
    pub bids: Vec<LevelDto>,
    /// Ask levels, best first.
    pub asks: Vec<LevelDto>,
    /// Best ask minus best bid, minor units, when both sides exist.
    pub spread: Option<i64>,
    /// Whether the book is crossed, meaning the feed is inconsistent.
    pub crossed: bool,
}

/// What a published book holds.
#[verifier::ext_equal]
pub struct BookDtoView {
    pub bids: Seq<LevelDto>,
    pub asks: Seq<LevelDto>,
    pub spread: Option<i64>,
    pub crossed: bool,
}

impl View for BookDto {
    type V = BookDtoView;

    open spec fn view(&self) -> BookDtoView {
        BookDtoView {
            bids: self.bids@,
            asks: self.asks@,
            spread: self.spread,
            crossed: self.crossed,
        }
    }
}

/// A book as the UI sees it, `depth` levels deep.
pub open spec fn shown_book(book: BookView, depth: nat) -> BookDtoView {
    BookDtoView {
        bids: book.best(BookSide::Bid, depth).map_values(|level: BookLevel| LevelDto::of(level)),
        asks: book.best(BookSide::Ask, depth).map_values(|level: BookLevel| LevelDto::of(level)),
        spread: match (book.top_bid(), book.top_ask()) {
            (Some(b), Some(a)) => Some((a.price.0 - b.price.0) as i64),
            _ => None,
        },
        crossed: match (book.top_bid(), book.top_ask()) {
            (Some(b), Some(a)) => b.price.0 >= a.price.0,
            _ => false,
        },
    }
}

/// Whether the spread of a book is representable.
pub open spec fn spread_fits(book: BookView) -> bool {
    match (book.top_bid(), book.top_ask()) {
        (Some(b), Some(a)) => in_range(a.price.0 - b.price.0),
        _ => true,
    }
}

/// Whether the spread of a book is representable.
pub fn has_spread(book: &OrderBook) -> (r: bool)
    ensures
        r == spread_fits(book@),
{
    match (book.best_bid(), book.best_ask()) {
        (Some(b), Some(a)) => a.price.checked_sub(b.price).is_some(),
        _ => true,
    }
}

fn level_dtos(levels: &Vec<BookLevel>) -> (r: Vec<LevelDto>)
    ensures
        r@ == levels@.map_values(|level: BookLevel| LevelDto::of(level)),
{
    let mut out: Vec<LevelDto> = Vec::new();
    let mut i: usize = 0;
    while i < levels.len()
        invariant
            i <= levels@.len(),
            out@ == levels@.take(i as int).map_values(|level: BookLevel| LevelDto::of(level)),
        decreases levels@.len() - i,
    {
        out.push(LevelDto { price: levels[i].price.0, qty: levels[i].qty.0 });
        i += 1;
        assert(out@ =~= levels@.take(i as int).map_values(
            |level: BookLevel| LevelDto::of(level),
        ));
    }
    assert(levels@.take(i as int) =~= levels@);
    out
}

impl BookDto {
    /// Build from a book, `depth` levels deep.
    pub fn from_book(book: &OrderBook, depth: usize) -> (r: Self)
        requires
            spread_fits(book@),
        ensures
            r@ == shown_book(book@, depth as nat),
    {
        BookDto {
            bids: level_dtos(&book.bids(depth)),
            asks: level_dtos(&book.asks(depth)),
            spread: minor(book.spread()),
            crossed: book.is_crossed(),
        }
    }
}

/// A time-and-sales row.
#[derive(Debug, Clone, Copy, PartialEq, Eq)]
pub struct TapeRowDto {
    /// Trade time, nanoseconds.
    pub ts: i64,
    /// Price, minor units.
    pub price: i64,
    /// Size, minor units.
    pub qty: i64,
    /// `"buy"` or `"sell"`, the aggressor.
    pub side: &'static str,
}

impl TapeRowDto {
    /// A trade as the UI sees it.
    pub open spec fn of(t: Trade) -> TapeRowDto {
        TapeRowDto { ts: t.ts.0, price: t.price.0, qty: t.qty.0, side: t.aggressor.label() }
    }

    /// Build from a trade.
    pub fn from_trade(t: &Trade) -> (r: Self)
        ensures
            r == TapeRowDto::of(*t),
    {
        TapeRowDto { ts: t.ts.0, price: t.price.0, qty: t.qty.0, side: t.aggressor.as_str() }
    }
}

/// Indicator readings at the current moment.
#[derive(Debug, Clone, Copy, PartialEq, Eq)]
pub struct IndicatorsDto {
    /// Cumulative volume delta, minor units.
    pub cvd: i64,
    /// `"bearish"`, `"bullish"` or nothing.
    pub divergence: Option<&'static str>,
    /// Session VWAP, minor units.
    pub vwap: Option<i64>,
    /// The variance around VWAP, whose root after scaling by one whole unit is
    /// the standard deviation in minor units.
    pub vwap_variance: Option<i128>,
    /// Session point of control, minor units.
    pub session_poc: Option<i64>,
    /// Value area high, minor units.
    pub value_area_high: Option<i64>,
    /// Value area low, minor units.
    pub value_area_low: Option<i64>,
    /// Trades in the rolling window; with `tape_window_nanos` their rate.
    pub tape_trades: usize,
    /// Length of the rolling window, nanoseconds.
    pub tape_window_nanos: i64,
}

/// Position and PnL for the UI.
#[derive(Debug, Clone, Copy, PartialEq, Eq)]
pub struct PositionDto {
    /// Signed size, minor units. Positive is long.
    pub qty: i64,
    /// Average entry, minor units.
    pub avg_price: i64,
    /// Realised PnL, minor units.
    pub realised: i64,
    /// Unrealised PnL at the last trade, minor units.
    pub unrealised: i64,
    /// Commission paid, minor units.
    pub commission: i64,
    /// `"buy"`, `"sell"` or nothing when flat.
    pub side: Option<&'static str>,
}

impl PositionDto {
    /// A position as the UI sees it, marked at `mark`.
    pub open spec fn of(position: Position, mark: Option<Price>) -> PositionDto {
        PositionDto {
            qty: position.qty.0,
            avg_price: position.avg_price.0,
            realised: position.realised.0,
            unrealised: match mark {
                Some(p) => position.open_pnl(p) as i64,
                None => 0,
            },
            commission: position.commission.0,
            side: match position.held() {
                Some(side) => Some(side.label()),
                None => None,
            },
        }
    }

    /// Build from a position, marked at `mark`.
    pub fn from_position(position: &Position, mark: Option<Price>) -> (r: Self)
        requires
            mark is Some ==> position.qty.0 != i64::MIN,
        ensures
            r == PositionDto::of(*position, mark),
    {
        PositionDto {
            qty: position.qty.0,
            avg_price: position.avg_price.0,
            realised: position.realised.0,
            unrealised: match mark {
                Some(p) => position.unrealised(p).0,
                None => 0,
            },
            commission: position.commission.0,
            side: match position.side() {
                Some(side) => Some(side.as_str()),
                None => None,
            },
        }
    }
}

/// A working or completed order.
#[derive(Debug, Clone, Copy, PartialEq, Eq)]
pub struct OrderDto {
    /// Engine-assigned id.
    pub id: u64,
    /// `"buy"` or `"sell"`.
    pub side: &'static str,
    /// `"market"`, `"limit"`, `"stop"` or `"stop_limit"`.
    pub kind: &'static str,
    /// Requested size, minor units.
    pub qty: i64,
    /// Filled size, minor units.
    pub filled: i64,
    /// Resting price, minor units, when the order has one.
    pub limit_price: Option<i64>,
    /// Trigger price, minor units, when the order has one.
    pub trigger_price: Option<i64>,
    /// Lower-case status name.
    pub status: &'static str,
}

/// The name of an order type.
pub open spec fn kind_label(kind: OrderType) -> &'static str {
    match kind {
        OrderType::Market => "market",
        OrderType::Limit { .. } => "limit",
        OrderType::Stop { .. } => "stop",
        OrderType::StopLimit { .. } => "stop_limit",
    }
}

/// The name of a status.
pub open spec fn status_label(status: OrderStatus) -> &'static str {
    match status {
        OrderStatus::Pending => "pending",
        OrderStatus::Working => "working",
        OrderStatus::PartiallyFilled => "partially_filled",
        OrderStatus::Filled => "filled",
        OrderStatus::Cancelled => "cancelled",
        OrderStatus::Rejected => "rejected",
    }
}

impl OrderDto {
    /// An order as the UI sees it.
    pub open spec fn of(o: Order) -> OrderDto {
        OrderDto {
            id: o.id.0,
            side: o.side.label(),
            kind: kind_label(o.kind),
            qty: o.qty.0,
            filled: o.filled.0,
            limit_price: minor_of(o.kind.limit_of()),
            trigger_price: minor_of(o.kind.trigger_of()),
            status: status_label(o.status),
        }
    }

    /// Build from an order.
    pub fn from_order(o: &Order) -> (r: Self)
        ensures
            r == OrderDto::of(*o),
    {
        OrderDto {
            id: o.id.0,
            side: o.side.as_str(),
            kind: match o.kind {
                OrderType::Market => "market",
                OrderType::Limit { .. } => "limit",
                OrderType::Stop { .. } => "stop",
                OrderType::StopLimit { .. } => "stop_limit",
            },
            qty: o.qty.0,
            filled: o.filled.0,
            limit_price: minor(o.kind.limit_price()),
            trigger_price: minor(o.kind.trigger_price()),
            status: match o.status {
                OrderStatus::Pending => "pending",
                OrderStatus::Working => "working",
                OrderStatus::PartiallyFilled => "partially_filled",
                OrderStatus::Filled => "filled",
                OrderStatus::Cancelled => "cancelled",
                OrderStatus::Rejected => "rejected",
            },
        }
    }
}

/// A fill, for the executions blotter.
#[derive(Debug, Clone, Copy, PartialEq, Eq)]
pub struct FillDto {
    /// Which order filled.
    pub order_id: u64,
    /// When, nanoseconds.
    pub ts: i64,
    /// At what price, minor units.
    pub price: i64,
    /// How much, minor units.
    pub qty: i64,
    /// `"buy"` or `"sell"`.
    pub side: &'static str,
}

impl FillDto {
    /// A fill as the UI sees it.
    pub open spec fn of(f: Fill) -> FillDto {
        FillDto {
            order_id: f.order_id.0,
            ts: f.ts.0,
            price: f.price.0,
            qty: f.qty.0,
            side: f.side.label(),
        }
    }

    /// Build from a fill.
    pub fn from_fill(f: &Fill) -> (r: Self)
        ensures
            r == FillDto::of(*f),
    {
        FillDto {
            order_id: f.order_id.0,
            ts: f.ts.0,
            price: f.price.0,
            qty: f.qty.0,
            side: f.side.as_str(),
        }
    }
}

/// Everything the UI needs to render a full frame.
#[derive(Debug, Clone, PartialEq)]
pub struct SnapshotDto {
    /// Venue-qualified instrument key.
    pub instrument: String,
    /// Minor units per whole unit.
    pub scale: i64,
    /// The instrument's minimum price increment, minor units.
    pub tick_size: i64,
    /// Height of one footprint row, minor units. May span several ticks.
    pub row_size: i64,
    /// Instrument ticks per footprint row.
    pub ticks_per_row: u32,
    /// Decimal places to show for prices.
    pub price_decimals: u32,
    /// Completed bars, oldest first, then the forming bar last.
    pub bars: Vec<BarDto>,
    /// Current book.
    pub book: BookDto,
    /// Recent tape, newest last.
    pub tape: Vec<TapeRowDto>,
    /// Indicator readings.
    pub indicators: IndicatorsDto,
    /// Current position.
    pub position: PositionDto,
    /// Live orders.
    pub orders: Vec<OrderDto>,
    /// Last traded price, minor units.
    pub last_price: Option<i64>,
    /// Timestamp of the most recent event, nanoseconds.
    pub last_ts: i64,
    /// Whether the feed currently reports itself connected.
    ///
    /// In the snapshot rather than only in events because the connection can
    /// fail before the UI has subscribed, which is precisely when a feed that
    /// cannot reach its venue does fail, and those events are then lost.
    pub connected: bool,
    /// The most recent connection message, empty if there has been none.
    pub connection_detail: String,
}

/// What a frame holds.
#[verifier::ext_equal]
pub struct SnapshotView {
    pub instrument: Seq<char>,
    pub scale: i64,
    pub tick_size: i64,
    pub row_size: i64,
    pub ticks_per_row: u32,
    pub price_decimals: u32,
    pub bars: Seq<BarDtoView>,
    pub book: BookDtoView,
    pub tape: Seq<TapeRowDto>,
    pub indicators: IndicatorsDto,
    pub position: PositionDto,
    pub orders: Seq<OrderDto>,
    pub last_price: Option<i64>,
    pub last_ts: i64,
    pub connected: bool,
    pub connection_detail: Seq<char>,
}

/// The contents of some published bars.
pub open spec fn bar_dtos_view(bars: Seq<BarDto>) -> Seq<BarDtoView> {
    Seq::new(bars.len(), |i: int| bars[i]@)
}

impl View for SnapshotDto {
    type V = SnapshotView;

    open spec fn view(&self) -> SnapshotView {
        SnapshotView {
            instrument: self.instrument@,
            scale: self.scale,
            tick_size: self.tick_size,
            row_size: self.row_size,
            ticks_per_row: self.ticks_per_row,
            price_decimals: self.price_decimals,
            bars: bar_dtos_view(self.bars@),
            book: self.book@,
            tape: self.tape@,
            indicators: self.indicators,
            position: self.position,
            orders: self.orders@,
            last_price: self.last_price,
            last_ts: self.last_ts,
            connected: self.connected,
            connection_detail: self.connection_detail@,
        }
    }
}

/// Convert a timestamp for the UI.
pub fn ts_nanos(ts: Ts) -> (r: i64)
    ensures
        r == ts.0,
{
    ts.0
}

} // verus!
