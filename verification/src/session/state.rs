//! The application session: one instrument, fully wired.
//!
//! Plain state and no I/O. The shell around it only moves bytes: it hands
//! [`Session::on_market_event`] whatever the feed produced and ships the
//! resulting [`AppEvent`]s to the UI. Keeping the state machine free of the
//! framework is what makes it testable at all; the alternative is logic that
//! can only be exercised by launching a window.

use crate::engine::aggregator::{Aggregator, BarSpec, SpecError};
use crate::engine::bar::Bar;
use crate::engine::ladder::LadderSpec;
use crate::indicators::cvd::{Cvd, Divergence};
use crate::indicators::profile::{default_value_area, SessionProfile};
use crate::indicators::scanners::{
    BigTrade, BigTrades, ClusterCriteria, ClusterHit, ClusterSearch, SpeedOfTape,
};
use crate::indicators::traits::{BarIndicator, TradeIndicator};
use crate::indicators::vwap::Vwap;
use crate::primitives::book::OrderBook;
use crate::primitives::fixed::{Price, Qty};
use crate::primitives::instrument::Instrument;
use crate::primitives::market::{MarketEvent, Side, Trade};
use crate::primitives::time::Ts;
use crate::session::config::{ConfigError, SessionConfig};
use crate::session::dto::{
    has_spread, is_showable, BarDto, BookDto, FillDto, IndicatorsDto, OrderDto, PositionDto,
    SnapshotDto, TapeRowDto, PRICE_SCALE,
};
use crate::session::events::AppEvent;
use crate::trading::engine::{PaperEngine, SubmitOutcome};
use crate::trading::order::{Fill, OrderId, OrderRequest, RejectReason};
use std::collections::VecDeque;
use vstd::prelude::*;

verus! {

use crate::engine::aggregator::{bars_view, fresh_aggregator, lemma_taken_wf, spec_refusal};
use crate::engine::bar::BarView;
use crate::engine::ladder::ladder_refusal;
use crate::indicators::cvd::fresh_cvd;
use crate::indicators::profile::{fresh_profile, usual_share};
use crate::indicators::scanners::{fresh_search, hits_view, kept, BigTradesView, SpeedView};
use crate::indicators::vwap::fresh_vwap;
use crate::primitives::book::{empty_book, is_delta, is_snapshot, BookView};
use crate::primitives::market::EventView;
use crate::session::dto::{bar_dtos_view, can_show, shown_book, spread_fits};
use crate::session::events::{events_view, AppEventView};
use crate::session::model::{
    aggregated, bar_closed, bars_closed, can_frame, chart, event_fits, event_taken, fill_events,
    forming_shown, frame, lemma_bars_closed_ok, lemma_bars_closed_wf, lemma_book_is_determined,
    matched, printed, readings, session_traded, recharted, restarted, SessionView, Step,
};
use crate::trading::desk::{cancel_count, cancel_each, cancelled, is_live, submission, traded};
use crate::trading::engine::{flattened, fresh_engine, matches_submission};
use crate::trading::matching::law_a_submitted_order_is_on_record;
use crate::trading::order::{limit_request, market_request, OrderType};

/// A session that has seen nothing.
pub open spec fn fresh_session(
    instrument: Instrument,
    config: SessionConfig,
    ladder: LadderSpec,
) -> SessionView {
    SessionView {
        instrument,
        config,
        aggregator: fresh_aggregator(ladder, config.bar_spec),
        book: empty_book(),
        bars: Seq::<BarView>::empty(),
        tape: Seq::<Trade>::empty(),
        cvd: fresh_cvd(),
        vwap: fresh_vwap(),
        profile: fresh_profile(ladder.row()),
        big_trades: BigTradesView {
            threshold: config.big_trade_threshold,
            capacity: 100,
            recent: Seq::<BigTrade>::empty(),
            seen: 0,
        },
        speed: SpeedView {
            window_nanos: config.speed_window_nanos,
            times: Seq::<Ts>::empty(),
            last: None,
        },
        scanner: fresh_search(config.scanner),
        engine: fresh_engine(instrument, config.trading),
        last_ts: Ts(0),
        connected: false,
        detail: Seq::<char>::empty(),
    }
}

/// One instrument's live state.
#[derive(Debug)]
pub struct Session {
    instrument: Instrument,
    config: SessionConfig,
    aggregator: Aggregator,
    book: OrderBook,
    bars: VecDeque<Bar>,
    tape: VecDeque<Trade>,
    cvd: Cvd,
    vwap: Vwap,
    profile: SessionProfile,
    big_trades: BigTrades,
    speed: SpeedOfTape,
    scanner: ClusterSearch,
    engine: PaperEngine,
    events: Vec<AppEvent>,
    last_ts: Ts,
    connected: bool,
    connection_detail: String,
}

impl View for Session {
    type V = SessionView;

    closed spec fn view(&self) -> SessionView {
        SessionView {
            instrument: self.instrument,
            config: self.config,
            aggregator: self.aggregator@,
            book: self.book@,
            bars: bars_view(self.bars@),
            tape: self.tape@,
            cvd: self.cvd@,
            vwap: self.vwap@,
            profile: self.profile@,
            big_trades: self.big_trades@,
            speed: self.speed@,
            scanner: self.scanner@,
            engine: self.engine@,
            last_ts: self.last_ts,
            connected: self.connected,
            detail: self.connection_detail@,
        }
    }
}

fn copy_bars(bars: &[Bar]) -> (r: Vec<Bar>)
    ensures
        bars_view(r@) == bars_view(bars@),
{
    let mut out: Vec<Bar> = Vec::new();
    let mut i: usize = 0;
    while i < bars.len()
        invariant
            i <= bars@.len(),
            out@.len() == i,
            forall|k: int| 0 <= k < i ==> (#[trigger] out@[k])@ == bars@[k]@,
        decreases bars@.len() - i,
    {
        out.push(bars[i].clone());
        i += 1;
    }
    assert(bars_view(out@) =~= bars_view(bars@));
    out
}

impl Session {
    /// Build a session for an instrument.
    pub fn new(instrument: Instrument, config: SessionConfig) -> (r: Result<Self, ConfigError>)
        requires
            ladder_refusal(instrument.tick_size, config.ticks_per_row) is None && spec_refusal(
                config.bar_spec,
            ) is None ==> config.wf(),
        ensures
            match r {
                Ok(session) => {
                    &&& ladder_refusal(instrument.tick_size, config.ticks_per_row) is None
                    &&& spec_refusal(config.bar_spec) is None
                    &&& session@ == fresh_session(instrument, config, session@.aggregator.ladder)
                    &&& session@.wf()
                },
                Err(ConfigError::Ladder(e)) => ladder_refusal(
                    instrument.tick_size,
                    config.ticks_per_row,
                ) == Some(e),
                Err(ConfigError::BarSpec(e)) => ladder_refusal(
                    instrument.tick_size,
                    config.ticks_per_row,
                ) is None && spec_refusal(config.bar_spec) == Some(e.what()),
            },
    {
        let ladder = match LadderSpec::new(instrument.tick_size, config.ticks_per_row) {
            Ok(ladder) => ladder,
            Err(e) => {
                return Err(ConfigError::Ladder(e));
            },
        };
        let aggregator = match Aggregator::with_ladder(ladder, config.bar_spec) {
            Ok(aggregator) => aggregator,
            Err(e) => {
                return Err(ConfigError::BarSpec(e));
            },
        };
        let session = Session {
            // The session profile shares the chart's row height, or its POC
            // would mark a price the footprint has no row for.
            profile: SessionProfile::with_spec(ladder),
            big_trades: BigTrades::new(config.big_trade_threshold, 100),
            speed: SpeedOfTape::new(config.speed_window_nanos),
            scanner: ClusterSearch::new(config.scanner),
            cvd: Cvd::new(),
            vwap: Vwap::new(),
            bars: VecDeque::new(),
            tape: VecDeque::new(),
            aggregator,
            book: OrderBook::new(),
            engine: PaperEngine::new(instrument.clone(), config.trading),
            events: Vec::new(),
            last_ts: Ts(0),
            connected: false,
            connection_detail: String::new(),
            instrument,
            config,
        };
        assert(session@ =~= fresh_session(instrument, config, ladder));
        Ok(session)
    }

    /// The instrument this session tracks.
    pub fn instrument(&self) -> (r: &Instrument)
        ensures
            *r == self@.instrument,
    {
        &self.instrument
    }

    /// Completed bars, oldest first.
    pub fn bars(&self) -> (r: &VecDeque<Bar>)
        ensures
            bars_view(r@) == self@.bars,
    {
        &self.bars
    }

    /// The bar currently forming.
    pub fn forming_bar(&self) -> (r: Option<&Bar>)
        ensures
            match r {
                Some(bar) => self@.aggregator.current == Some(bar@),
                None => self@.aggregator.current is None,
            },
    {
        self.aggregator.current()
    }

    /// The current book.
    pub fn book(&self) -> (r: &OrderBook)
        ensures
            r@ == self@.book,
    {
        &self.book
    }

    /// The paper trading engine.
    pub fn engine(&self) -> (r: &PaperEngine)
        ensures
            r@ == self@.engine,
    {
        &self.engine
    }

    /// Scanner hits so far.
    pub fn scanner_hits(&self) -> (r: &[ClusterHit])
        ensures
            hits_view(r@) == self@.scanner.hits,
    {
        self.scanner.hits()
    }

    /// Big trades seen recently.
    pub fn big_trades(&self) -> (r: Vec<BigTrade>)
        ensures
            r@ == self@.big_trades.recent,
    {
        self.big_trades.recent()
    }

    /// Whether the feed reports itself connected.
    pub fn is_connected(&self) -> (r: bool)
        ensures
            r == self@.connected,
    {
        self.connected
    }

    /// The most recent connection message.
    pub fn connection_detail(&self) -> (r: &str)
        ensures
            r@ == self@.detail,
    {
        self.connection_detail.as_str()
    }

    /// The footprint row mapping in use.
    pub fn ladder(&self) -> (r: LadderSpec)
        ensures
            r == self@.aggregator.ladder,
    {
        self.aggregator.ladder()
    }
}

impl Session {
    /// The session on its way through an event.
    closed spec fn so_far(&self) -> Step {
        Step { session: self@, events: events_view(self.events@), ok: true }
    }

    /// Tell the UI.
    fn tell(&mut self, event: AppEvent)
        ensures
            final(self)@ == old(self)@,
            final(self).so_far() == (Step {
                events: old(self).so_far().events.push(event@),
                ..old(self).so_far()
            }),
    {
        let ghost before = events_view(self.events@);
        self.events.push(event);
        assert(events_view(self.events@) =~= before.push(event@));
        assert(self@ =~= old(self)@);
    }

    /// The tape and the trade-level indicators see every print.
    fn print(&mut self, trade: &Trade) -> (r: bool)
        requires
            old(self)@.wf(),
            old(self).so_far().events == Seq::<AppEventView>::empty(),
        ensures
            r == printed(old(self)@, *trade).ok,
            r ==> final(self).so_far() == printed(old(self)@, *trade),
    {
        if !self.speed.can_update(trade) || !self.big_trades.can_update(trade) {
            return false;
        }
        let ghost before = self@;
        self.last_ts = trade.ts;
        if self.config.tape_length > 0 {
            if self.tape.len() == self.config.tape_length {
                let _ = self.tape.pop_front();
            }
            self.tape.push_back(*trade);
        }
        assert(self@.tape =~= kept(before.tape, *trade, before.config.tape_length as nat));
        self.speed.update(trade);
        let big = self.big_trades.update(trade);
        self.tell(AppEvent::TapeRow(TapeRowDto::from_trade(trade)));
        if let Some(big) = big {
            self.tell(
                AppEvent::BigTrade {
                    ts: big.ts.0,
                    price: big.price.0,
                    qty: big.qty.0,
                    side: big.aggressor.as_str(),
                },
            );
        }
        assert(self.so_far() =~= printed(before, *trade));
        true
    }

    /// Paper fills happen against the same print the chart sees.
    fn match_orders(&mut self, trade: &Trade) -> (r: bool)
        requires
            old(self)@.wf(),
        ensures
            r == matched(old(self).so_far(), *trade).ok,
            r ==> final(self).so_far() == matched(old(self).so_far(), *trade),
            r ==> final(self)@.wf(),
    {
        let ghost start = self.so_far();
        let ghost t = traded(self@.engine, *trade, self@.book);
        let fills = match self.engine.try_on_trade(trade, &self.book) {
            Some(fills) => fills,
            None => {
                return false;
            },
        };
        let ghost engaged = self.so_far();
        let mut i: usize = 0;
        while i < fills.len()
            invariant
                i <= fills@.len(),
                self.so_far() == (Step {
                    events: start.events + fill_events(fills@.take(i as int)),
                    ..engaged
                }),
            decreases fills@.len() - i,
        {
            self.tell(AppEvent::Filled(FillDto::from_fill(&fills[i])));
            i += 1;
            assert(start.events + fill_events(fills@.take(i as int)) =~= (start.events
                + fill_events(fills@.take(i - 1))).push(
                AppEventView::Filled(FillDto::of(fills@[i - 1])),
            ));
        }
        assert(fills@.take(i as int) =~= fills@);
        assert(self@ == engaged.session);
        if fills.len() > 0 {
            if self.engine.position().qty.0 == i64::MIN {
                return false;
            }
            let position = self.position_dto();
            self.tell(AppEvent::PositionChanged(position));
        }
        assert(self.so_far() =~= matched(start, *trade));
        true
    }

    fn position_dto(&self) -> (r: PositionDto)
        requires
            self@.engine.last_price is Some ==> self@.engine.position.qty.0 != i64::MIN,
        ensures
            r == PositionDto::of(self@.engine.position, self@.engine.last_price),
    {
        PositionDto::from_position(self.engine.position(), self.engine.last_price())
    }

    fn bar_dto(&self, bar: &Bar) -> (r: BarDto)
        requires
            self@.config.wf(),
            bar@.wf(),
            can_show(bar@),
        ensures
            r@ == self@.shown(bar@),
    {
        BarDto::from_bar(bar, self.config.imbalance_ratio, self.config.imbalance_min_volume)
    }

    /// A bar closes.
    fn close_bar(&mut self, bar: Bar) -> (r: bool)
        requires
            old(self)@.wf(),
            bar@.wf(),
        ensures
            r == bar_closed(old(self).so_far(), bar@).ok,
            r ==> final(self).so_far() == bar_closed(old(self).so_far(), bar@),
    {
        let ghost start = self.so_far();
        if !(self.cvd.can_update(&bar) && self.vwap.can_update(&bar) && self.profile.can_update(
            &bar,
        ) && self.scanner.can_scan(&bar) && is_showable(&bar)) {
            return false;
        }
        self.cvd.update(&bar);
        self.vwap.update(&bar);
        self.profile.update(&bar);
        let hit = self.scanner.scan(&bar);
        let ghost scanned = self.so_far();
        if let Some(hit) = hit {
            self.tell(
                AppEvent::ScannerHit {
                    open_ts: hit.open_ts.0,
                    volume: hit.volume.0,
                    delta: hit.delta.0,
                    stacks: hit.stacks.len(),
                },
            );
        }
        let dto = self.bar_dto(&bar);
        let ghost shown = bar@;
        let ghost bars = self.bars@;
        if self.config.bar_history > 0 {
            if self.bars.len() == self.config.bar_history {
                let _ = self.bars.pop_front();
            }
            self.bars.push_back(bar);
        }
        assert(bars_view(self.bars@) =~= kept(
            bars_view(bars),
            shown,
            self.config.bar_history as nat,
        ));
        self.tell(AppEvent::BarClosed(Box::new(dto)));
        assert(self.so_far() =~= bar_closed(start, shown));
        true
    }

    /// Aggregation last, so a bar closing sees a book and tape already updated
    /// by the same trade.
    fn aggregate(&mut self, trade: &Trade) -> (r: bool)
        requires
            old(self)@.wf(),
        ensures
            r == aggregated(old(self).so_far(), *trade).ok,
            r ==> final(self).so_far() == aggregated(old(self).so_far(), *trade),
            r ==> final(self)@.wf(),
    {
        let ghost before = self.so_far();
        let ghost v = self@;
        let ghost all = v.aggregator.closed_by(*trade);
        let ghost start = Step {
            session: SessionView { aggregator: v.aggregator.taken(*trade), ..v },
            ok: v.aggregator.can_take(*trade),
            ..before
        };
        if !self.aggregator.can_take(trade) {
            proof {
                if aggregated(before, *trade).ok {
                    lemma_bars_closed_ok(start, all, 0);
                    assert(all.take(0) =~= Seq::<BarView>::empty());
                }
            }
            return false;
        }
        proof {
            lemma_taken_wf(v.aggregator, *trade);
        }
        let mut closed = copy_bars(self.aggregator.on_trade(trade));
        assert(self.so_far() =~= start);
        assert(bars_view(closed@) == all);
        assert(all.skip(0) =~= all);
        assert(all.take(0) =~= Seq::<BarView>::empty());
        let n: usize = closed.len();
        let mut i: usize = 0;
        while i < n
            invariant
                i <= n,
                n == all.len(),
                before == old(self).so_far(),
                start.session.wf(),
                start.ok,
                forall|k: int| 0 <= k < all.len() ==> (#[trigger] all[k]).wf(),
                bars_view(closed@) == all.skip(i as int),
                aggregated(before, *trade) == bars_closed(start, all),
                self.so_far() == bars_closed(start, all.take(i as int)),
                self@.wf(),
            decreases n - i,
        {
            assert(closed@.len() == bars_view(closed@).len());
            assert(all.take(i + 1).drop_last() =~= all.take(i as int));
            let ghost rest = closed@;
            let bar = closed.remove(0);
            assert(bar@ == bars_view(rest)[0]);
            assert forall|k: int| 0 <= k < closed@.len() implies bars_view(closed@)[k] == all.skip(
                i + 1,
            )[k] by {
                assert(closed@[k] == rest[k + 1]);
                assert(bars_view(rest)[k + 1] == all.skip(i as int)[k + 1]);
            }
            assert(bars_view(closed@) =~= all.skip(i + 1));
            if !self.close_bar(bar) {
                proof {
                    if bars_closed(start, all).ok {
                        lemma_bars_closed_ok(start, all, i + 1);
                    }
                }
                return false;
            }
            i += 1;
            proof {
                assert forall|k: int| 0 <= k < all.take(i as int).len() implies (
                #[trigger] all.take(i as int)[k]).wf() by {
                    assert(all.take(i as int)[k] == all[k]);
                }
                lemma_bars_closed_wf(start, all.take(i as int));
            }
        }
        assert(all.take(i as int) =~= all);
        true
    }

    /// The UI is shown the bar that is forming.
    fn show_forming(&mut self) -> (r: bool)
        requires
            old(self)@.wf(),
        ensures
            r == forming_shown(old(self).so_far()).ok,
            r ==> final(self).so_far() == forming_shown(old(self).so_far()),
            r ==> final(self)@ == old(self)@,
    {
        let dto = match self.aggregator.current() {
            Some(forming) => {
                if !is_showable(forming) {
                    return false;
                }
                self.bar_dto(forming)
            },
            None => {
                return true;
            },
        };
        self.tell(AppEvent::BarUpdated(Box::new(dto)));
        true
    }

    fn on_trade(&mut self, trade: &Trade) -> (r: bool)
        requires
            old(self)@.wf(),
            old(self).so_far().events == Seq::<AppEventView>::empty(),
        ensures
            r == session_traded(old(self)@, *trade).ok,
            r ==> final(self).so_far() == session_traded(old(self)@, *trade),
            r ==> final(self)@.wf(),
    {
        let ghost v = self@;
        let ghost first = printed(v, *trade);
        let ghost second = matched(first, *trade);
        let ghost third = aggregated(second, *trade);
        proof {
            lemma_not_ok_stays(first, *trade);
        }
        if !self.print(trade) {
            return false;
        }
        assert(self@.wf());
        if !self.match_orders(trade) {
            return false;
        }
        if !self.aggregate(trade) {
            return false;
        }
        self.show_forming()
    }
}

impl Session {
    /// Whether an event led from `before` to this state, and to these events.
    closed spec fn came_from(&self, before: SessionView, event: EventView) -> bool {
        event_taken(before, event, self@, events_view(self.events@))
    }

    /// Take an event in. `false` where the numbers would leave 64 bits.
    fn take(&mut self, event: &MarketEvent) -> (r: bool)
        requires
            old(self)@.wf(),
        ensures
            r == event_fits(old(self)@, event@),
            r ==> final(self).came_from(old(self)@, event@),
            r ==> final(self)@.wf(),
    {
        let ghost before = self@;
        self.events.clear();
        assert(events_view(self.events@) =~= Seq::<AppEventView>::empty());
        assert(self@ =~= before);
        match event {
            MarketEvent::Trade(trade) => self.on_trade(trade),
            MarketEvent::BookSnapshot { ts, bids, asks, sequence } => self.take_snapshot(
                *ts,
                bids,
                asks,
                *sequence,
            ),
            MarketEvent::BookDelta { ts, bids, asks, sequence } => self.take_delta(
                *ts,
                bids,
                asks,
                *sequence,
            ),
            MarketEvent::Status { ts, connected, detail } => {
                self.take_status(*ts, *connected, detail);
                true
            },
        }
    }

    fn take_snapshot(
        &mut self,
        ts: Ts,
        bids: &Vec<(Price, Qty)>,
        asks: &Vec<(Price, Qty)>,
        sequence: u64,
    ) -> (r: bool)
        requires
            old(self)@.wf(),
            old(self).so_far().events == Seq::<AppEventView>::empty(),
        ensures
            ({
                let event = EventView::BookSnapshot { ts, bids: bids@, asks: asks@, sequence };
                &&& r == event_fits(old(self)@, event)
                &&& r ==> final(self).came_from(old(self)@, event)
                &&& r ==> final(self)@.wf()
            }),
    {
        let ghost before = self@;
        self.last_ts = ts;
        self.book.apply_snapshot(ts, bids.as_slice(), asks.as_slice(), sequence);
        assert(is_snapshot(self@.book, ts, bids@, asks@, sequence));
        if !has_spread(&self.book) {
            return false;
        }
        proof {
            assert forall|book: BookView|
                book.wf() && #[trigger] is_snapshot(
                    book,
                    ts,
                    bids@,
                    asks@,
                    sequence,
                ) implies spread_fits(book) by {
                lemma_book_is_determined(book, self@.book);
            }
        }
        self.show_book();
        assert(self@ =~= SessionView { book: self@.book, last_ts: ts, ..before });
        true
    }

    fn take_delta(
        &mut self,
        ts: Ts,
        bids: &Vec<(Price, Qty)>,
        asks: &Vec<(Price, Qty)>,
        sequence: u64,
    ) -> (r: bool)
        requires
            old(self)@.wf(),
            old(self).so_far().events == Seq::<AppEventView>::empty(),
        ensures
            ({
                let event = EventView::BookDelta { ts, bids: bids@, asks: asks@, sequence };
                &&& r == event_fits(old(self)@, event)
                &&& r ==> final(self).came_from(old(self)@, event)
                &&& r ==> final(self)@.wf()
            }),
    {
        let ghost before = self@;
        self.last_ts = ts;
        // A refused delta is not an error to surface: a stale sequence is the
        // normal consequence of REST and websocket overlapping during startup.
        if self.book.apply_delta(ts, bids.as_slice(), asks.as_slice(), sequence).is_err() {
            assert(self@ =~= SessionView { last_ts: ts, ..before });
            return true;
        }
        assert(is_delta(before.book, self@.book, ts, bids@, asks@, sequence));
        if !has_spread(&self.book) {
            return false;
        }
        proof {
            assert forall|book: BookView|
                book.wf() && #[trigger] is_delta(
                    before.book,
                    book,
                    ts,
                    bids@,
                    asks@,
                    sequence,
                ) implies spread_fits(book) by {
                lemma_book_is_determined(book, self@.book);
            }
        }
        self.show_book();
        assert(self@ =~= SessionView { book: self@.book, last_ts: ts, ..before });
        true
    }

    fn take_status(&mut self, ts: Ts, connected: bool, detail: &String)
        requires
            old(self)@.wf(),
            old(self).so_far().events == Seq::<AppEventView>::empty(),
        ensures
            final(self).came_from(old(self)@, EventView::Status { ts, connected, detail: detail@ }),
            final(self)@.wf(),
    {
        self.last_ts = ts;
        self.connected = connected;
        self.connection_detail = detail.clone();
        if !connected {
            // Stale depth must never be shown as live.
            self.book.clear();
        }
        self.tell(AppEvent::ConnectionChanged { connected, detail: detail.clone() });
    }

    /// Tell the UI what the book looks like.
    fn show_book(&mut self)
        requires
            spread_fits(old(self)@.book),
        ensures
            final(self)@ == old(self)@,
            final(self).so_far().events == old(self).so_far().events.push(
                AppEventView::BookUpdated(
                    shown_book(old(self)@.book, old(self)@.config.book_depth as nat),
                ),
            ),
    {
        let book = BookDto::from_book(&self.book, self.config.book_depth);
        self.tell(AppEvent::BookUpdated(book));
    }

    /// Feed one normalised market event in, returning what the UI should do.
    ///
    /// The returned slice is valid until the next call.
    pub fn on_market_event(&mut self, event: &MarketEvent) -> (r: &[AppEvent])
        requires
            old(self)@.wf(),
            event_fits(old(self)@, event@),
        ensures
            event_taken(old(self)@, event@, final(self)@, events_view(r@)),
            final(self)@.wf(),
    {
        self.take(event);
        self.events.as_slice()
    }

    /// Feed one normalised market event in. `None` where the numbers would
    /// leave 64 bits; the session must not be used after that.
    pub fn try_on_market_event(&mut self, event: &MarketEvent) -> (r: Option<&[AppEvent]>)
        requires
            old(self)@.wf(),
        ensures
            match r {
                Some(events) => {
                    &&& event_fits(old(self)@, event@)
                    &&& event_taken(old(self)@, event@, final(self)@, events_view(events@))
                    &&& final(self)@.wf()
                },
                None => !event_fits(old(self)@, event@),
            },
    {
        if self.take(event) {
            Some(self.events.as_slice())
        } else {
            None
        }
    }
}

impl Session {
    /// Submit an order against the current book.
    pub fn submit_order(&mut self, request: OrderRequest) -> (r: Result<
        SubmitOutcome,
        RejectReason,
    >)
        requires
            old(self)@.wf(),
            submission(old(self)@.engine, request, old(self)@.book, old(self)@.last_ts).ok,
        ensures
            ({
                let s = submission(
                    old(self)@.engine,
                    request,
                    old(self)@.book,
                    old(self)@.last_ts,
                );
                &&& final(self)@ == (SessionView { engine: s.desk, ..old(self)@ })
                &&& matches_submission(r, s.result)
            }),
            final(self)@.wf(),
    {
        let ghost before = self@;
        let outcome = self.engine.submit(request, &self.book, self.last_ts);
        assert(self@ =~= SessionView { engine: self@.engine, ..before });
        outcome
    }

    /// Submit an order against the current book. `None` where the numbers would
    /// leave 64 bits; the session must not be used after that.
    pub fn try_submit_order(&mut self, request: OrderRequest) -> (r: Option<
        Result<SubmitOutcome, RejectReason>,
    >)
        requires
            old(self)@.wf(),
        ensures
            ({
                let s = submission(
                    old(self)@.engine,
                    request,
                    old(self)@.book,
                    old(self)@.last_ts,
                );
                match r {
                    Some(result) => {
                        &&& s.ok
                        &&& final(self)@ == (SessionView { engine: s.desk, ..old(self)@ })
                        &&& matches_submission(result, s.result)
                        &&& final(self)@.wf()
                    },
                    None => !s.ok,
                }
            }),
    {
        let ghost before = self@;
        let outcome = self.engine.try_submit(request, &self.book, self.last_ts);
        assert(self@ =~= SessionView { engine: self@.engine, ..before });
        outcome
    }

    /// Cancel a working order.
    pub fn cancel_order(&mut self, id: OrderId) -> (r: bool)
        requires
            old(self)@.wf(),
        ensures
            r == is_live(old(self)@.engine.orders, id),
            final(self)@ == (SessionView {
                engine: cancelled(old(self)@.engine, id, old(self)@.last_ts),
                ..old(self)@
            }),
            final(self)@.wf(),
    {
        let ghost before = self@;
        let done = self.engine.cancel(id, self.last_ts);
        assert(self@ =~= SessionView { engine: self@.engine, ..before });
        done
    }

    /// Cancel every working order.
    pub fn cancel_all_orders(&mut self) -> (r: usize)
        requires
            old(self)@.wf(),
        ensures
            r == cancel_count(
                old(self)@.engine,
                old(self)@.engine.working,
                old(self)@.last_ts,
            ),
            final(self)@ == (SessionView {
                engine: cancel_each(
                    old(self)@.engine,
                    old(self)@.engine.working,
                    old(self)@.last_ts,
                ),
                ..old(self)@
            }),
            final(self)@.wf(),
    {
        let ghost before = self@;
        let count: usize = self.engine.cancel_all(self.last_ts);
        assert(self@ =~= SessionView { engine: self@.engine, ..before });
        count
    }

    /// Cancel everything and close the position at market.
    pub fn flatten(&mut self) -> (r: Result<Vec<Fill>, RejectReason>)
        requires
            old(self)@.wf(),
            flattened(old(self)@.engine, old(self)@.book, old(self)@.last_ts).ok,
        ensures
            ({
                let s = flattened(old(self)@.engine, old(self)@.book, old(self)@.last_ts);
                &&& final(self)@ == (SessionView { engine: s.desk, ..old(self)@ })
                &&& match s.fills {
                    Ok(fills) => r matches Ok(made) && made@ == fills,
                    Err(reason) => r == Err::<Vec<Fill>, RejectReason>(reason),
                }
            }),
            final(self)@.wf(),
    {
        let ghost before = self@;
        let outcome = self.engine.flatten(&self.book, self.last_ts);
        assert(self@ =~= SessionView { engine: self@.engine, ..before });
        outcome
    }

    /// Cancel everything and close the position at market. `None` where the
    /// numbers would leave 64 bits; the session must not be used after that.
    pub fn try_flatten(&mut self) -> (r: Option<Result<Vec<Fill>, RejectReason>>)
        requires
            old(self)@.wf(),
        ensures
            ({
                let s = flattened(old(self)@.engine, old(self)@.book, old(self)@.last_ts);
                match r {
                    Some(result) => {
                        &&& s.ok
                        &&& final(self)@ == (SessionView { engine: s.desk, ..old(self)@ })
                        &&& match s.fills {
                            Ok(fills) => result matches Ok(made) && made@ == fills,
                            Err(reason) => result == Err::<Vec<Fill>, RejectReason>(reason),
                        }
                        &&& final(self)@.wf()
                    },
                    None => !s.ok,
                }
            }),
    {
        let ghost before = self@;
        let outcome = self.engine.try_flatten(&self.book, self.last_ts);
        assert(self@ =~= SessionView { engine: self@.engine, ..before });
        outcome
    }

    /// Buy at market.
    pub fn buy_market(&mut self, qty: Qty) -> (r: Result<SubmitOutcome, RejectReason>)
        requires
            old(self)@.wf(),
            submission(
                old(self)@.engine,
                market_request(Side::Buy, qty),
                old(self)@.book,
                old(self)@.last_ts,
            ).ok,
        ensures
            ({
                let s = submission(
                    old(self)@.engine,
                    market_request(Side::Buy, qty),
                    old(self)@.book,
                    old(self)@.last_ts,
                );
                &&& final(self)@ == (SessionView { engine: s.desk, ..old(self)@ })
                &&& matches_submission(r, s.result)
            }),
            final(self)@.wf(),
            r matches Ok(outcome) ==> outcome.order.side is Buy && outcome.order.kind is Market
                && outcome.order.qty == qty,
    {
        proof {
            let before = old(self)@;
            let request = market_request(Side::Buy, qty);
            if submission(before.engine, request, before.book, before.last_ts).result is Ok {
                law_a_submitted_order_is_on_record(
                    before.engine,
                    request,
                    before.book,
                    before.last_ts,
                );
            }
        }
        self.submit_order(OrderRequest::market(Side::Buy, qty))
    }

    /// Sell at market.
    pub fn sell_market(&mut self, qty: Qty) -> (r: Result<SubmitOutcome, RejectReason>)
        requires
            old(self)@.wf(),
            submission(
                old(self)@.engine,
                market_request(Side::Sell, qty),
                old(self)@.book,
                old(self)@.last_ts,
            ).ok,
        ensures
            ({
                let s = submission(
                    old(self)@.engine,
                    market_request(Side::Sell, qty),
                    old(self)@.book,
                    old(self)@.last_ts,
                );
                &&& final(self)@ == (SessionView { engine: s.desk, ..old(self)@ })
                &&& matches_submission(r, s.result)
            }),
            final(self)@.wf(),
            r matches Ok(outcome) ==> outcome.order.side is Sell && outcome.order.kind is Market
                && outcome.order.qty == qty,
    {
        proof {
            let before = old(self)@;
            let request = market_request(Side::Sell, qty);
            if submission(before.engine, request, before.book, before.last_ts).result is Ok {
                law_a_submitted_order_is_on_record(
                    before.engine,
                    request,
                    before.book,
                    before.last_ts,
                );
            }
        }
        self.submit_order(OrderRequest::market(Side::Sell, qty))
    }

    /// Place a resting limit order.
    pub fn place_limit(&mut self, side: Side, qty: Qty, price: Price) -> (r: Result<
        SubmitOutcome,
        RejectReason,
    >)
        requires
            old(self)@.wf(),
            submission(
                old(self)@.engine,
                limit_request(side, qty, price),
                old(self)@.book,
                old(self)@.last_ts,
            ).ok,
        ensures
            ({
                let s = submission(
                    old(self)@.engine,
                    limit_request(side, qty, price),
                    old(self)@.book,
                    old(self)@.last_ts,
                );
                &&& final(self)@ == (SessionView { engine: s.desk, ..old(self)@ })
                &&& matches_submission(r, s.result)
            }),
            final(self)@.wf(),
            r matches Ok(outcome) ==> outcome.order.side == side && outcome.order.qty == qty
                && outcome.order.kind == (OrderType::Limit { price }),
    {
        proof {
            let before = old(self)@;
            let request = limit_request(side, qty, price);
            if submission(before.engine, request, before.book, before.last_ts).result is Ok {
                law_a_submitted_order_is_on_record(
                    before.engine,
                    request,
                    before.book,
                    before.last_ts,
                );
            }
        }
        self.submit_order(OrderRequest::limit(side, qty, price))
    }

    /// Change the bar rule, discarding chart history.
    ///
    /// History is discarded rather than rebuilt because bars under the old
    /// rule cannot be reinterpreted under the new one: only a replay from
    /// stored ticks can do that, and that is the caller's decision to make.
    pub fn set_bar_spec(&mut self, spec: BarSpec) -> (r: Result<(), SpecError>)
        requires
            old(self)@.wf(),
        ensures
            final(self)@.wf(),
            match r {
                Ok(_) => spec_refusal(spec) is None && final(self)@ == recharted(
                    old(self)@,
                    old(self)@.aggregator.ladder,
                    spec,
                ),
                Err(e) => spec_refusal(spec) == Some(e.what()) && final(self)@ == old(self)@,
            },
    {
        let ghost before = self@;
        self.aggregator = match Aggregator::with_ladder(self.aggregator.ladder(), spec) {
            Ok(aggregator) => aggregator,
            Err(e) => {
                return Err(e);
            },
        };
        self.config.bar_spec = spec;
        self.bars.clear();
        assert(bars_view(self.bars@) =~= Seq::<BarView>::empty());
        self.cvd.reset();
        self.vwap.reset();
        self.profile.reset();
        assert(self@ =~= recharted(before, before.aggregator.ladder, spec));
        Ok(())
    }

    /// Change how many instrument ticks a footprint row spans.
    ///
    /// Chart history is discarded: existing bars were bucketed at the old row
    /// height and re-bucketing them would need the ticks they were built from,
    /// which the bars no longer carry.
    pub fn set_ticks_per_row(&mut self, ticks_per_row: u32) -> (r: Result<(), ConfigError>)
        requires
            old(self)@.wf(),
        ensures
            final(self)@.wf(),
            match r {
                Ok(_) => {
                    &&& ladder_refusal(old(self)@.instrument.tick_size, ticks_per_row) is None
                    &&& final(self)@.aggregator.ladder.tick() == old(self)@.instrument.tick_size
                    &&& final(self)@.aggregator.ladder.per_row() == ticks_per_row
                    &&& final(self)@ == recharted(
                        old(self)@,
                        final(self)@.aggregator.ladder,
                        old(self)@.config.bar_spec,
                    )
                },
                Err(ConfigError::Ladder(e)) => ladder_refusal(
                    old(self)@.instrument.tick_size,
                    ticks_per_row,
                ) == Some(e) && final(self)@ == old(self)@,
                Err(_) => false,
            },
    {
        let ghost before = self@;
        let ladder = match LadderSpec::new(self.instrument.tick_size, ticks_per_row) {
            Ok(ladder) => ladder,
            Err(e) => {
                return Err(ConfigError::Ladder(e));
            },
        };
        self.aggregator = match Aggregator::with_ladder(ladder, self.config.bar_spec) {
            Ok(aggregator) => aggregator,
            Err(e) => {
                return Err(ConfigError::BarSpec(e));
            },
        };
        self.config.ticks_per_row = ticks_per_row;
        self.bars.clear();
        assert(bars_view(self.bars@) =~= Seq::<BarView>::empty());
        self.cvd.reset();
        self.vwap.reset();
        self.profile = SessionProfile::with_spec(ladder);
        assert(self@ =~= recharted(before, ladder, before.config.bar_spec));
        Ok(())
    }

    /// Replace the scanner criteria and clear previous hits.
    pub fn set_scanner(&mut self, criteria: ClusterCriteria)
        requires
            old(self)@.wf(),
            criteria.wf(),
        ensures
            final(self)@ == (SessionView {
                config: SessionConfig { scanner: criteria, ..old(self)@.config },
                scanner: fresh_search(criteria),
                ..old(self)@
            }),
            final(self)@.wf(),
    {
        let ghost before = self@;
        self.config.scanner = criteria;
        self.scanner = ClusterSearch::new(criteria);
        assert(self@ =~= SessionView {
            config: SessionConfig { scanner: criteria, ..before.config },
            scanner: fresh_search(criteria),
            ..before
        });
    }

    /// Start a fresh session: clears indicators, chart and tape, and keeps the
    /// position, because a session boundary is not a reason to abandon a live
    /// trade.
    pub fn reset_session(&mut self)
        requires
            old(self)@.wf(),
        ensures
            final(self)@ == restarted(old(self)@),
            final(self)@.wf(),
    {
        let ghost before = self@;
        self.aggregator.reset();
        self.bars.clear();
        assert(bars_view(self.bars@) =~= Seq::<BarView>::empty());
        self.tape.clear();
        self.cvd.reset();
        self.vwap.reset();
        self.profile.reset();
        self.big_trades.reset();
        self.speed.reset();
        self.scanner.reset();
        assert(self@ =~= restarted(before));
    }
}

impl Session {
    /// Whether [`Session::snapshot`] can show a full frame.
    pub fn can_snapshot(&self) -> (r: bool)
        requires
            self@.wf(),
        ensures
            r == can_frame(self@),
    {
        let mut i: usize = 0;
        while i < self.bars.len()
            invariant
                self@.wf(),
                i <= self.bars@.len(),
                forall|k: int| 0 <= k < i ==> can_show(#[trigger] self@.bars[k]),
            decreases self.bars@.len() - i,
        {
            assert(self@.bars[i as int] == self.bars@[i as int]@);
            if !is_showable(&self.bars[i]) {
                assert(!can_show(chart(self@)[i as int]));
                return false;
            }
            i += 1;
        }
        let forming = match self.aggregator.current() {
            Some(bar) => is_showable(bar),
            None => true,
        };
        if !forming {
            assert(!can_show(chart(self@)[self@.bars.len() as int]));
            return false;
        }
        assert forall|k: int| 0 <= k < chart(self@).len() implies can_show(
            #[trigger] chart(self@)[k],
        ) by {
            if k < self@.bars.len() {
                assert(chart(self@)[k] == self@.bars[k]);
            }
        }
        has_spread(&self.book) && self.profile.ladder().has_prices()
            && self.profile.ladder().has_value_area(default_value_area()) && (
        self.engine.last_price().is_none() || self.engine.position().qty.0 != i64::MIN)
    }

    fn chart_dtos(&self) -> (r: Vec<BarDto>)
        requires
            self@.wf(),
            can_frame(self@),
        ensures
            bar_dtos_view(r@) == chart(self@).map_values(|bar: BarView| self@.shown(bar)),
    {
        let ghost all = chart(self@);
        let mut out: Vec<BarDto> = Vec::new();
        let mut i: usize = 0;
        while i < self.bars.len()
            invariant
                self@.wf(),
                can_frame(self@),
                all == chart(self@),
                i <= self.bars@.len(),
                out@.len() == i,
                forall|k: int| 0 <= k < i ==> (#[trigger] out@[k])@ == self@.shown(all[k]),
            decreases self.bars@.len() - i,
        {
            assert(self@.bars[i as int] == self.bars@[i as int]@);
            assert(all[i as int] == self@.bars[i as int]);
            assert(can_show(all[i as int]));
            out.push(self.bar_dto(&self.bars[i]));
            i += 1;
        }
        if let Some(forming) = self.aggregator.current() {
            assert(all[self@.bars.len() as int] == forming@);
            assert(can_show(all[self@.bars.len() as int]));
            out.push(self.bar_dto(forming));
        }
        assert(bar_dtos_view(out@) =~= all.map_values(|bar: BarView| self@.shown(bar)));
        out
    }

    fn tape_dtos(&self) -> (r: Vec<TapeRowDto>)
        ensures
            r@ == self@.tape.map_values(|trade: Trade| TapeRowDto::of(trade)),
    {
        let mut out: Vec<TapeRowDto> = Vec::new();
        let mut i: usize = 0;
        while i < self.tape.len()
            invariant
                i <= self.tape@.len(),
                out@.len() == i,
                forall|k: int| 0 <= k < i ==> #[trigger] out@[k] == TapeRowDto::of(self.tape@[k]),
            decreases self.tape@.len() - i,
        {
            out.push(TapeRowDto::from_trade(&self.tape[i]));
            i += 1;
        }
        assert(out@ =~= self@.tape.map_values(|trade: Trade| TapeRowDto::of(trade)));
        out
    }

    fn order_dtos(&self) -> (r: Vec<OrderDto>)
        requires
            self@.wf(),
        ensures
            r@ == frame(self@).orders,
    {
        let orders = self.engine.working_orders();
        let mut out: Vec<OrderDto> = Vec::new();
        let mut i: usize = 0;
        while i < orders.len()
            invariant
                i <= orders@.len(),
                out@.len() == i,
                forall|k: int| 0 <= k < i ==> #[trigger] out@[k] == OrderDto::of(orders@[k]),
            decreases orders@.len() - i,
        {
            out.push(OrderDto::from_order(&orders[i]));
            i += 1;
        }
        assert(out@ =~= frame(self@).orders);
        out
    }

    fn indicators_dto(&self) -> (r: IndicatorsDto)
        requires
            self@.wf(),
            self@.profile.ladder.prices_fit(),
            self@.profile.ladder.value_fits(usual_share()),
        ensures
            r == readings(self@),
    {
        let point = match self.vwap.value() {
            Some(point) => point,
            None => None,
        };
        let area = self.profile.value_area();
        IndicatorsDto {
            cvd: self.cvd.total().0,
            divergence: match self.cvd.divergence() {
                Some(Divergence::Bearish) => Some("bearish"),
                Some(Divergence::Bullish) => Some("bullish"),
                None => None,
            },
            vwap: match point {
                Some(point) => Some(point.vwap.0),
                None => None,
            },
            vwap_variance: match point {
                Some(point) => Some(point.variance),
                None => None,
            },
            session_poc: match self.profile.poc() {
                Some(price) => Some(price.0),
                None => None,
            },
            value_area_high: match area {
                Some(area) => Some(area.high.0),
                None => None,
            },
            value_area_low: match area {
                Some(area) => Some(area.low.0),
                None => None,
            },
            tape_trades: match self.speed.value() {
                Some(speed) => speed.trades,
                None => 0,
            },
            tape_window_nanos: self.config.speed_window_nanos,
        }
    }

    /// A complete frame for the UI.
    ///
    /// Used on connect and on reconnect. Steady-state updates go through
    /// [`AppEvent`]s instead, so a busy instrument does not re-serialise
    /// hundreds of bars on every print.
    pub fn snapshot(&self) -> (r: SnapshotDto)
        requires
            self@.wf(),
            can_frame(self@),
        ensures
            r@ == frame(self@),
    {
        let snapshot = SnapshotDto {
            instrument: self.instrument.key(),
            scale: PRICE_SCALE,
            tick_size: self.instrument.tick_size.0,
            row_size: self.ladder().row_size().0,
            ticks_per_row: self.ladder().ticks_per_row(),
            price_decimals: self.instrument.price_decimals,
            bars: self.chart_dtos(),
            book: BookDto::from_book(&self.book, self.config.book_depth),
            tape: self.tape_dtos(),
            indicators: self.indicators_dto(),
            position: self.position_dto(),
            orders: self.order_dtos(),
            last_price: match self.engine.last_price() {
                Some(price) => Some(price.0),
                None => None,
            },
            last_ts: self.last_ts.0,
            connected: self.connected,
            connection_detail: self.connection_detail.clone(),
        };
        assert(snapshot@ =~= frame(self@));
        snapshot
    }
}

proof fn lemma_not_ok_stays(first: Step, trade: Trade)
    ensures
        ({
            let second = matched(first, trade);
            let third = aggregated(second, trade);
            &&& forming_shown(third).ok ==> third.ok
            &&& third.ok ==> second.ok
            &&& second.ok ==> first.ok
        }),
{
    let second = matched(first, trade);
    let v = second.session;
    let start = Step {
        session: SessionView { aggregator: v.aggregator.taken(trade), ..v },
        ok: second.ok && v.aggregator.can_take(trade),
        ..second
    };
    let all = v.aggregator.closed_by(trade);
    if aggregated(second, trade).ok {
        lemma_bars_closed_ok(start, all, 0);
        assert(all.take(0) =~= Seq::<BarView>::empty());
    }
}

} // verus!
