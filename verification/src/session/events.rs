//! What the UI should react to.
//!
//! Deliberately coarse. A UI told "the forming bar changed" can redraw the
//! last column; a UI told about every field that moved has to reassemble the
//! state itself, which is how two sources of truth get created.

use crate::session::dto::{
    BarDto, BookDto, FillDto, PositionDto, TapeRowDto,
};
use vstd::prelude::*;

verus! {

use crate::session::dto::{BarDtoView, BookDtoView};

/// Something the UI should react to.
#[derive(Debug, PartialEq)]
pub enum AppEvent {
    /// A bar closed. Carries the finished bar.
    BarClosed(Box<BarDto>),
    /// The forming bar changed.
    BarUpdated(Box<BarDto>),
    /// The book changed.
    BookUpdated(BookDto),
    /// A trade printed.
    TapeRow(TapeRowDto),
    /// A print at or above the big-trade threshold.
    BigTrade {
        /// When, nanoseconds.
        ts: i64,
        /// Price, minor units.
        price: i64,
        /// Size, minor units.
        qty: i64,
        /// `"buy"` or `"sell"`.
        side: &'static str,
    },
    /// The scanner matched a bar.
    ScannerHit {
        /// Bar open time, nanoseconds.
        open_ts: i64,
        /// Bar volume, minor units.
        volume: i64,
        /// Bar delta, minor units.
        delta: i64,
        /// How many stacked-imbalance runs were found.
        stacks: usize,
    },
    /// An order filled.
    Filled(FillDto),
    /// Position or PnL changed.
    PositionChanged(PositionDto),
    /// Feed connection state changed.
    ConnectionChanged {
        /// Whether the feed is connected.
        connected: bool,
        /// Human-readable detail.
        detail: String,
    },
}

/// What an event says.
#[verifier::ext_equal]
pub enum AppEventView {
    BarClosed(BarDtoView),
    BarUpdated(BarDtoView),
    BookUpdated(BookDtoView),
    TapeRow(TapeRowDto),
    BigTrade { ts: i64, price: i64, qty: i64, side: &'static str },
    ScannerHit { open_ts: i64, volume: i64, delta: i64, stacks: nat },
    Filled(FillDto),
    PositionChanged(PositionDto),
    ConnectionChanged { connected: bool, detail: Seq<char> },
}

impl View for AppEvent {
    type V = AppEventView;

    open spec fn view(&self) -> AppEventView {
        match self {
            AppEvent::BarClosed(bar) => AppEventView::BarClosed((*bar)@),
            AppEvent::BarUpdated(bar) => AppEventView::BarUpdated((*bar)@),
            AppEvent::BookUpdated(book) => AppEventView::BookUpdated(book@),
            AppEvent::TapeRow(row) => AppEventView::TapeRow(*row),
            AppEvent::BigTrade { ts, price, qty, side } => AppEventView::BigTrade {
                ts: *ts,
                price: *price,
                qty: *qty,
                side: *side,
            },
            AppEvent::ScannerHit { open_ts, volume, delta, stacks } => AppEventView::ScannerHit {
                open_ts: *open_ts,
                volume: *volume,
                delta: *delta,
                stacks: *stacks as nat,
            },
            AppEvent::Filled(fill) => AppEventView::Filled(*fill),
            AppEvent::PositionChanged(position) => AppEventView::PositionChanged(*position),
            AppEvent::ConnectionChanged { connected, detail } => AppEventView::ConnectionChanged {
                connected: *connected,
                detail: detail@,
            },
        }
    }
}

/// What a list of events says.
pub open spec fn events_view(events: Seq<AppEvent>) -> Seq<AppEventView> {
    Seq::new(events.len(), |i: int| events[i]@)
}

/// A copy of a list.
fn copied<T: Copy>(items: &Vec<T>) -> (r: Vec<T>)
    ensures
        r@ == items@,
{
    let mut out: Vec<T> = Vec::new();
    let mut i: usize = 0;
    while i < items.len()
        invariant
            i <= items@.len(),
            out@ == items@.take(i as int),
        decreases items@.len() - i,
    {
        out.push(items[i]);
        i += 1;
        assert(out@ =~= items@.take(i as int));
    }
    assert(out@ =~= items@);
    out
}

impl Clone for BarDto {
    fn clone(&self) -> (r: Self)
        ensures
            r@ == self@,
    {
        BarDto {
            open_ts: self.open_ts,
            close_ts: self.close_ts,
            open: self.open,
            high: self.high,
            low: self.low,
            close: self.close,
            volume: self.volume,
            delta: self.delta,
            trades: self.trades,
            closed: self.closed,
            poc: self.poc,
            clusters: copied(&self.clusters),
            imbalances: copied(&self.imbalances),
        }
    }
}

impl Clone for BookDto {
    fn clone(&self) -> (r: Self)
        ensures
            r@ == self@,
    {
        BookDto {
            bids: copied(&self.bids),
            asks: copied(&self.asks),
            spread: self.spread,
            crossed: self.crossed,
        }
    }
}

impl Clone for AppEvent {
    fn clone(&self) -> (r: Self)
        ensures
            r@ == self@,
    {
        match self {
            AppEvent::BarClosed(bar) => {
                let copy: BarDto = (**bar).clone();
                AppEvent::BarClosed(Box::new(copy))
            },
            AppEvent::BarUpdated(bar) => {
                let copy: BarDto = (**bar).clone();
                AppEvent::BarUpdated(Box::new(copy))
            },
            AppEvent::BookUpdated(book) => AppEvent::BookUpdated(book.clone()),
            AppEvent::TapeRow(row) => AppEvent::TapeRow(*row),
            AppEvent::BigTrade { ts, price, qty, side } => AppEvent::BigTrade {
                ts: *ts,
                price: *price,
                qty: *qty,
                side: *side,
            },
            AppEvent::ScannerHit { open_ts, volume, delta, stacks } => AppEvent::ScannerHit {
                open_ts: *open_ts,
                volume: *volume,
                delta: *delta,
                stacks: *stacks,
            },
            AppEvent::Filled(fill) => AppEvent::Filled(*fill),
            AppEvent::PositionChanged(position) => AppEvent::PositionChanged(*position),
            AppEvent::ConnectionChanged { connected, detail } => AppEvent::ConnectionChanged {
                connected: *connected,
                detail: detail.clone(),
            },
        }
    }
}

} // verus!
