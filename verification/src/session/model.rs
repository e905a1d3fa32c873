//! What a session holds, and what a print does to it.

use crate::engine::aggregator::BarSpec;
use crate::engine::ladder::LadderSpec;
use crate::primitives::fixed::{Price, Qty};
use crate::primitives::instrument::Instrument;
use crate::primitives::market::Trade;
use crate::primitives::time::Ts;
use crate::session::config::SessionConfig;
use vstd::prelude::*;

verus! {

use crate::engine::aggregator::{fresh_aggregator, AggregatorView};
use crate::engine::bar::BarView;
use crate::engine::cluster::{sum_part, ClusterRow, LadderView, Part};
use crate::indicators::cvd::{fresh_cvd, CvdView, Divergence};
use crate::indicators::profile::{fresh_profile, usual_share, ProfileView};
use crate::indicators::scanners::{fresh_search, kept, BigTradesView, SearchView, SpeedView};
use crate::indicators::vwap::{fresh_vwap, VwapView};
use crate::primitives::book::{
    delta_refusal, empty_book, is_delta, is_snapshot, law_sides_with_equal_sizes_are_equal,
    BookView,
};
use crate::primitives::market::EventView;
use crate::session::dto::{
    can_show, minor_of, shown_bar, shown_book, spread_fits, BarDtoView, ClusterDto, FillDto,
    IndicatorsDto, OrderDto, PositionDto, SnapshotView, TapeRowDto, PRICE_SCALE,
};
use crate::session::events::AppEventView;
use crate::trading::desk::{traded, EngineView};
use crate::trading::order::Fill;

/// What a session holds.
#[verifier::ext_equal]
pub struct SessionView {
    pub instrument: Instrument,
    pub config: SessionConfig,
    pub aggregator: AggregatorView,
    pub book: BookView,
    pub bars: Seq<BarView>,
    pub tape: Seq<Trade>,
    pub cvd: CvdView,
    pub vwap: VwapView,
    pub profile: ProfileView,
    pub big_trades: BigTradesView,
    pub speed: SpeedView,
    pub scanner: SearchView,
    pub engine: EngineView,
    pub last_ts: Ts,
    pub connected: bool,
    pub detail: Seq<char>,
}

impl SessionView {
    /// Every part is well formed, the parts are configured as the session is,
    /// and the profile shares the chart's row height.
    pub open spec fn wf(self) -> bool {
        &&& self.config.wf()
        &&& self.aggregator.wf()
        &&& self.aggregator.spec == self.config.bar_spec
        &&& self.aggregator.ladder.tick() == self.instrument.tick_size
        &&& self.aggregator.ladder.per_row() == self.config.ticks_per_row
        &&& self.book.wf()
        &&& forall|i: int| 0 <= i < self.bars.len() ==> (#[trigger] self.bars[i]).wf()
        &&& self.cvd.wf()
        &&& self.vwap.wf()
        &&& self.profile.wf()
        &&& self.profile.ladder.tick == self.aggregator.ladder.row()
        &&& self.big_trades.wf()
        &&& self.speed.wf()
        &&& self.speed.window_nanos == self.config.speed_window_nanos
        &&& self.scanner.wf()
        &&& self.scanner.criteria == self.config.scanner
        &&& self.engine.wf()
    }

    /// A bar as this session shows it.
    pub open spec fn shown(self, bar: BarView) -> BarDtoView {
        shown_bar(bar, self.config.imbalance_ratio, self.config.imbalance_min_volume)
    }
}

/// A session on its way through an event: what it holds, what the UI is told,
/// and whether all numbers stayed in range so far.
#[verifier::ext_equal]
pub struct Step {
    pub session: SessionView,
    pub events: Seq<AppEventView>,
    pub ok: bool,
}

/// The tape and the trade-level indicators see every print.
pub open spec fn printed(v: SessionView, trade: Trade) -> Step {
    let row = AppEventView::TapeRow(TapeRowDto::of(trade));
    Step {
        session: SessionView {
            tape: kept(v.tape, trade, v.config.tape_length as nat),
            speed: v.speed.taken(trade),
            big_trades: v.big_trades.taken(trade),
            last_ts: trade.ts,
            ..v
        },
        events: if v.big_trades.flags(trade) {
            seq![
                row,
                AppEventView::BigTrade {
                    ts: trade.ts.0,
                    price: trade.price.0,
                    qty: trade.qty.0,
                    side: trade.aggressor.label(),
                },
            ]
        } else {
            seq![row]
        },
        ok: v.speed.can_take(trade) && v.big_trades.can_take(trade),
    }
}

/// What the UI is told of some fills.
pub open spec fn fill_events(fills: Seq<Fill>) -> Seq<AppEventView> {
    Seq::new(fills.len(), |i: int| AppEventView::Filled(FillDto::of(fills[i])))
}

/// Paper fills happen against the same print the chart sees.
pub open spec fn matched(s: Step, trade: Trade) -> Step {
    let t = traded(s.session.engine, trade, s.session.book);
    let events = s.events + fill_events(t.made);
    Step {
        session: SessionView { engine: t.desk, ..s.session },
        events: if t.made.len() > 0 {
            events.push(
                AppEventView::PositionChanged(
                    PositionDto::of(t.desk.position, t.desk.last_price),
                ),
            )
        } else {
            events
        },
        ok: s.ok && t.ok && (t.made.len() > 0 ==> t.desk.position.qty.0 != i64::MIN),
    }
}

/// A bar closes: the bar indicators take it, the scanner tests it, and it goes
/// to the chart history.
pub open spec fn bar_closed(s: Step, bar: BarView) -> Step {
    let v = s.session;
    let hit = if v.scanner.criteria.matches(bar) {
        let hit = v.scanner.criteria.hit(bar);
        seq![
            AppEventView::ScannerHit {
                open_ts: hit.open_ts.0,
                volume: hit.volume.0,
                delta: hit.delta.0,
                stacks: hit.stacks.len(),
            },
        ]
    } else {
        Seq::<AppEventView>::empty()
    };
    Step {
        session: SessionView {
            cvd: v.cvd.taken(bar),
            vwap: v.vwap.taken(bar),
            profile: v.profile.taken(bar),
            scanner: v.scanner.taken(bar),
            bars: kept(v.bars, bar, v.config.bar_history as nat),
            ..v
        },
        events: (s.events + hit).push(AppEventView::BarClosed(v.shown(bar))),
        ok: s.ok && v.cvd.can_take(bar) && v.vwap.can_take(bar) && v.profile.can_take(bar)
            && v.scanner.can_take(bar) && can_show(bar),
    }
}

/// Bars close one after the other.
pub open spec fn bars_closed(s: Step, bars: Seq<BarView>) -> Step
    decreases bars.len(),
{
    if bars.len() == 0 {
        s
    } else {
        bar_closed(bars_closed(s, bars.drop_last()), bars.last())
    }
}

/// Aggregation comes last, so a bar closing sees a book and tape already
/// updated by the same trade.
pub open spec fn aggregated(s: Step, trade: Trade) -> Step {
    let v = s.session;
    let start = Step {
        session: SessionView { aggregator: v.aggregator.taken(trade), ..v },
        ok: s.ok && v.aggregator.can_take(trade),
        ..s
    };
    bars_closed(start, v.aggregator.closed_by(trade))
}

/// The UI is shown the bar that is forming.
pub open spec fn forming_shown(s: Step) -> Step {
    match s.session.aggregator.current {
        Some(bar) => Step {
            events: s.events.push(AppEventView::BarUpdated(s.session.shown(bar))),
            ok: s.ok && can_show(bar),
            ..s
        },
        None => s,
    }
}

/// What a trade does to a session.
pub open spec fn session_traded(v: SessionView, trade: Trade) -> Step {
    forming_shown(aggregated(matched(printed(v, trade), trade), trade))
}

proof fn lemma_bar_closed_wf(s: Step, bar: BarView)
    requires
        s.session.wf(),
        bar.wf(),
        bar_closed(s, bar).ok,
    ensures
        bar_closed(s, bar).session.wf(),
{
    let after = bar_closed(s, bar).session;
    crate::indicators::profile::lemma_taken_wf(s.session.profile, bar);
    lemma_vwap_taken_wf(s.session.vwap, bar);
    assert forall|i: int| 0 <= i < after.bars.len() implies (#[trigger] after.bars[i]).wf() by {
        let bars = s.session.bars;
        if s.session.config.bar_history == 0 {
            assert(after.bars[i] == bars[i]);
        } else if i < after.bars.len() - 1 {
            if bars.len() == s.session.config.bar_history {
                assert(after.bars[i] == bars[i + 1]);
            } else {
                assert(after.bars[i] == bars[i]);
            }
        }
    }
}

proof fn lemma_vwap_taken_wf(v: VwapView, bar: BarView)
    requires
        v.wf(),
        v.can_take(bar),
    ensures
        v.taken(bar).wf(),
{
    lemma_vwap_rows_wf(v, bar.ladder.row_list());
}

proof fn lemma_vwap_rows_wf(v: VwapView, rows: Seq<ClusterRow>)
    requires
        v.wf(),
        v.can_add_rows(rows),
    ensures
        v.with_rows(rows).wf(),
    decreases rows.len(),
{
    if rows.len() > 0 {
        lemma_vwap_rows_wf(v, rows.drop_last());
    }
}

/// Closing bars keeps a session well formed.
pub proof fn lemma_bars_closed_wf(s: Step, bars: Seq<BarView>)
    requires
        s.session.wf(),
        forall|i: int| 0 <= i < bars.len() ==> (#[trigger] bars[i]).wf(),
        bars_closed(s, bars).ok,
    ensures
        s.ok,
        bars_closed(s, bars).session.wf(),
        bars_closed(s, bars).session.aggregator == s.session.aggregator,
    decreases bars.len(),
{
    if bars.len() > 0 {
        let less = bars.drop_last();
        assert forall|i: int| 0 <= i < less.len() implies (#[trigger] less[i]).wf() by {
            assert(less[i] == bars[i]);
        }
        lemma_bars_closed_wf(s, less);
        assert(bars[bars.len() - 1].wf());
        lemma_bar_closed_wf(bars_closed(s, less), bars.last());
    }
}

/// Once a number left its range, it stays so.
pub proof fn lemma_bars_closed_ok(s: Step, bars: Seq<BarView>, n: int)
    requires
        0 <= n <= bars.len(),
        bars_closed(s, bars).ok,
    ensures
        bars_closed(s, bars.take(n)).ok,
    decreases bars.len() - n,
{
    if n == bars.len() {
        assert(bars.take(n) =~= bars);
    } else {
        lemma_bars_closed_ok(s, bars, n + 1);
        assert(bars.take(n + 1).drop_last() =~= bars.take(n));
    }
}

/// Readings that the UI is shown.
pub open spec fn readings(v: SessionView) -> IndicatorsDto {
    let area = v.profile.ladder.value_area_of(usual_share());
    IndicatorsDto {
        cvd: v.cvd.total as i64,
        divergence: match v.cvd.divergence {
            Some(Divergence::Bearish) => Some("bearish"),
            Some(Divergence::Bullish) => Some("bullish"),
            None => None,
        },
        vwap: match v.vwap.point() {
            Some(point) => Some(point.vwap.0),
            None => None,
        },
        vwap_variance: match v.vwap.point() {
            Some(point) => Some(point.variance),
            None => None,
        },
        session_poc: minor_of(v.profile.ladder.poc_price()),
        value_area_high: match area {
            Some(area) => Some(area.high.0),
            None => None,
        },
        value_area_low: match area {
            Some(area) => Some(area.low.0),
            None => None,
        },
        tape_trades: match v.speed.last {
            Some(speed) => speed.trades,
            None => 0,
        },
        tape_window_nanos: v.speed.window_nanos,
    }
}

/// The bars on the chart: those completed, then the one forming.
pub open spec fn chart(v: SessionView) -> Seq<BarView> {
    match v.aggregator.current {
        Some(bar) => v.bars.push(bar),
        None => v.bars,
    }
}

/// Whether a full frame can be shown.
pub open spec fn can_frame(v: SessionView) -> bool {
    &&& forall|i: int| 0 <= i < chart(v).len() ==> can_show(#[trigger] chart(v)[i])
    &&& spread_fits(v.book)
    &&& v.profile.ladder.prices_fit()
    &&& v.profile.ladder.value_fits(usual_share())
    &&& v.engine.last_price is Some ==> v.engine.position.qty.0 != i64::MIN
}

/// A complete frame for the UI.
pub open spec fn frame(v: SessionView) -> SnapshotView {
    SnapshotView {
        instrument: v.instrument.venue.name() + ":"@ + v.instrument.symbol@,
        scale: PRICE_SCALE,
        tick_size: v.instrument.tick_size.0,
        row_size: v.aggregator.ladder.row().0,
        ticks_per_row: v.aggregator.ladder.per_row(),
        price_decimals: v.instrument.price_decimals,
        bars: chart(v).map_values(|bar: BarView| v.shown(bar)),
        book: shown_book(v.book, v.config.book_depth as nat),
        tape: v.tape.map_values(|trade: Trade| TapeRowDto::of(trade)),
        indicators: readings(v),
        position: PositionDto::of(v.engine.position, v.engine.last_price),
        orders: Seq::new(
            v.engine.working.len(),
            |i: int| OrderDto::of(v.engine.orders[v.engine.working[i].0]),
        ),
        last_price: minor_of(v.engine.last_price),
        last_ts: v.last_ts.0,
        connected: v.connected,
        connection_detail: v.detail,
    }
}

/// The session with a new book, which the UI is shown.
pub open spec fn book_shown(
    before: SessionView,
    ts: Ts,
    after: SessionView,
    events: Seq<AppEventView>,
) -> bool {
    &&& after == (SessionView { book: after.book, last_ts: ts, ..before })
    &&& after.book.wf()
    &&& events == seq![
        AppEventView::BookUpdated(shown_book(after.book, before.config.book_depth as nat)),
    ]
}

/// Whether an event leads from one state of a session to another, and to these
/// events for the UI.
pub open spec fn event_taken(
    before: SessionView,
    event: EventView,
    after: SessionView,
    events: Seq<AppEventView>,
) -> bool {
    match event {
        EventView::Trade(trade) => {
            &&& after == session_traded(before, trade).session
            &&& events == session_traded(before, trade).events
        },
        EventView::BookSnapshot { ts, bids, asks, sequence } => {
            &&& book_shown(before, ts, after, events)
            &&& is_snapshot(after.book, ts, bids, asks, sequence)
        },
        // A refused delta is not worth surfacing: a stale sequence is the
        // normal consequence of REST and websocket overlapping during startup.
        EventView::BookDelta { ts, bids, asks, sequence } => if delta_refusal(
            before.book,
            sequence,
        ) is Some {
            &&& after == (SessionView { last_ts: ts, ..before })
            &&& events == Seq::<AppEventView>::empty()
        } else {
            &&& book_shown(before, ts, after, events)
            &&& is_delta(before.book, after.book, ts, bids, asks, sequence)
        },
        EventView::Status { ts, connected, detail } => {
            &&& after == (SessionView {
                connected,
                detail,
                last_ts: ts,
                book: if connected {
                    before.book
                } else {
                    BookView { ts: before.book.ts, ..empty_book() }
                },
                ..before
            })
            &&& events == seq![AppEventView::ConnectionChanged { connected, detail }]
        },
    }
}

/// Whether the spread of the book that a snapshot makes is representable.
pub open spec fn snapshot_fits(
    ts: Ts,
    bids: Seq<(Price, Qty)>,
    asks: Seq<(Price, Qty)>,
    sequence: u64,
) -> bool {
    forall|book: BookView|
        book.wf() && #[trigger] is_snapshot(book, ts, bids, asks, sequence) ==> spread_fits(book)
}

/// Whether the spread of the book that a delta makes is representable.
pub open spec fn delta_fits(
    before: BookView,
    ts: Ts,
    bids: Seq<(Price, Qty)>,
    asks: Seq<(Price, Qty)>,
    sequence: u64,
) -> bool {
    forall|book: BookView|
        book.wf() && #[trigger] is_delta(before, book, ts, bids, asks, sequence) ==> spread_fits(
            book,
        )
}

/// Whether an event can be taken without leaving 64 bits.
pub open spec fn event_fits(before: SessionView, event: EventView) -> bool {
    match event {
        EventView::Trade(trade) => session_traded(before, trade).ok,
        EventView::BookSnapshot { ts, bids, asks, sequence } => snapshot_fits(
            ts,
            bids,
            asks,
            sequence,
        ),
        EventView::BookDelta { ts, bids, asks, sequence } => delta_refusal(
            before.book,
            sequence,
        ) is None ==> delta_fits(before.book, ts, bids, asks, sequence),
        EventView::Status { .. } => true,
    }
}

/// The book that an event leads to is the only one that it can lead to.
pub proof fn lemma_book_is_determined(a: BookView, b: BookView)
    requires
        a.wf(),
        b.wf(),
        crate::primitives::book::resting(a.bids) == crate::primitives::book::resting(b.bids),
        crate::primitives::book::resting(a.asks) == crate::primitives::book::resting(b.asks),
        a.ts == b.ts,
        a.sequence == b.sequence,
        a.initialised == b.initialised,
    ensures
        a == b,
{
    law_sides_with_equal_sizes_are_equal(a.bids, b.bids);
    law_sides_with_equal_sizes_are_equal(a.asks, b.asks);
}

/// What an event does to a session is determined: the same state and the same
/// event lead to the same state and to the same events for the UI.
pub proof fn law_events_are_deterministic(
    before: SessionView,
    event: EventView,
    a: SessionView,
    shown_a: Seq<AppEventView>,
    b: SessionView,
    shown_b: Seq<AppEventView>,
)
    requires
        event_taken(before, event, a, shown_a),
        event_taken(before, event, b, shown_b),
    ensures
        a == b,
        shown_a == shown_b,
{
    match event {
        EventView::BookSnapshot { .. } => {
            lemma_book_is_determined(a.book, b.book);
        },
        EventView::BookDelta { sequence, .. } => {
            if delta_refusal(before.book, sequence) is None {
                lemma_book_is_determined(a.book, b.book);
            }
        },
        _ => {},
    }
}

/// A disconnect clears the book: stale depth is never shown as live.
pub proof fn law_a_disconnect_clears_the_book(
    before: SessionView,
    ts: Ts,
    detail: Seq<char>,
    after: SessionView,
    events: Seq<AppEventView>,
)
    requires
        event_taken(
            before,
            EventView::Status { ts, connected: false, detail },
            after,
            events,
        ),
    ensures
        !after.book.initialised,
        after.book.bids.len() == 0,
        after.book.asks.len() == 0,
        !after.connected,
{
}

proof fn lemma_kept_bound<T>(items: Seq<T>, item: T, capacity: nat)
    requires
        items.len() <= capacity,
    ensures
        kept(items, item, capacity).len() <= capacity,
{
}

proof fn lemma_bars_closed_history(s: Step, bars: Seq<BarView>)
    requires
        s.session.bars.len() <= s.session.config.bar_history,
    ensures
        bars_closed(s, bars).session.bars.len() <= s.session.config.bar_history,
        bars_closed(s, bars).session.config == s.session.config,
        bars_closed(s, bars).session.tape == s.session.tape,
    decreases bars.len(),
{
    if bars.len() > 0 {
        lemma_bars_closed_history(s, bars.drop_last());
        let before = bars_closed(s, bars.drop_last());
        lemma_kept_bound(
            before.session.bars,
            bars.last(),
            s.session.config.bar_history as nat,
        );
    }
}

/// Chart history and tape never hold more than the session was told to keep.
pub proof fn law_history_is_bounded(v: SessionView, trade: Trade)
    requires
        v.bars.len() <= v.config.bar_history,
        v.tape.len() <= v.config.tape_length,
    ensures
        session_traded(v, trade).session.bars.len() <= v.config.bar_history,
        session_traded(v, trade).session.tape.len() <= v.config.tape_length,
        session_traded(v, trade).session.config == v.config,
{
    let second = matched(printed(v, trade), trade);
    let w = second.session;
    let start = Step {
        session: SessionView { aggregator: w.aggregator.taken(trade), ..w },
        ok: second.ok && w.aggregator.can_take(trade),
        ..second
    };
    lemma_bars_closed_history(start, w.aggregator.closed_by(trade));
}

/// A session whose chart starts over under another rule or row height.
pub open spec fn recharted(v: SessionView, ladder: LadderSpec, spec: BarSpec) -> SessionView {
    SessionView {
        aggregator: fresh_aggregator(ladder, spec),
        config: SessionConfig { bar_spec: spec, ticks_per_row: ladder.per_row(), ..v.config },
        bars: Seq::<BarView>::empty(),
        cvd: fresh_cvd(),
        vwap: fresh_vwap(),
        profile: fresh_profile(ladder.row()),
        ..v
    }
}

/// A session whose chart, tape and indicators start over.
pub open spec fn restarted(v: SessionView) -> SessionView {
    SessionView {
        aggregator: fresh_aggregator(v.aggregator.ladder, v.aggregator.spec),
        bars: Seq::<BarView>::empty(),
        tape: Seq::<Trade>::empty(),
        cvd: fresh_cvd(),
        vwap: fresh_vwap(),
        profile: fresh_profile(v.profile.ladder.tick),
        big_trades: v.big_trades.cleared(),
        speed: v.speed.cleared(),
        scanner: fresh_search(v.scanner.criteria),
        ..v
    }
}

/// A session boundary keeps the position, the orders and the book.
pub proof fn law_a_restart_keeps_the_trade(v: SessionView)
    ensures
        restarted(v).engine == v.engine,
        restarted(v).book == v.book,
        restarted(v).bars.len() == 0,
        restarted(v).tape.len() == 0,
        restarted(v).big_trades.recent.len() == 0,
        restarted(v).speed.times.len() == 0,
        restarted(v).cvd == fresh_cvd(),
        restarted(v).vwap == fresh_vwap(),
        restarted(v).scanner.hits.len() == 0,
        restarted(v).aggregator.current is None,
{
}

proof fn lemma_bars_closed_events(s: Step, bars: Seq<BarView>)
    requires
        s.events.len() > 0,
    ensures
        bars_closed(s, bars).events.len() > 0,
        bars_closed(s, bars).events[0] == s.events[0],
        bars_closed(s, bars).session.tape == s.session.tape,
        bars_closed(s, bars).session.last_ts == s.session.last_ts,
    decreases bars.len(),
{
    if bars.len() > 0 {
        lemma_bars_closed_events(s, bars.drop_last());
    }
}

/// Every print reaches the tape, first of all: whatever else a trade leads to,
/// the UI is told of the print before anything it caused. A session that keeps
/// tape rows keeps it as the newest.
pub proof fn law_every_print_reaches_the_tape(v: SessionView, trade: Trade)
    ensures
        session_traded(v, trade).events.len() > 0,
        session_traded(v, trade).events[0] == AppEventView::TapeRow(TapeRowDto::of(trade)),
        v.config.tape_length > 0 ==> session_traded(v, trade).session.tape.last() == trade,
        session_traded(v, trade).session.last_ts == trade.ts,
{
    let second = matched(printed(v, trade), trade);
    let w = second.session;
    let start = Step {
        session: SessionView { aggregator: w.aggregator.taken(trade), ..w },
        ok: second.ok && w.aggregator.can_take(trade),
        ..second
    };
    lemma_bars_closed_events(start, w.aggregator.closed_by(trade));
}

/// The volume that the rows of a footprint show.
pub open spec fn shown_volume(clusters: Seq<ClusterDto>) -> int
    decreases clusters.len(),
{
    if clusters.len() == 0 {
        0
    } else {
        shown_volume(clusters.drop_last()) + clusters.last().bid + clusters.last().ask
    }
}

proof fn lemma_shown_volume(v: LadderView, n: int)
    requires
        0 <= n <= v.rows.len(),
    ensures
        shown_volume(
            v.row_list().take(n).map_values(|row: ClusterRow| ClusterDto::of(row)),
        ) == sum_part(v.rows.take(n), Part::Bid) + sum_part(v.rows.take(n), Part::Ask),
    decreases n,
{
    let shown = v.row_list().take(n).map_values(|row: ClusterRow| ClusterDto::of(row));
    if n > 0 {
        lemma_shown_volume(v, n - 1);
        assert(shown.drop_last() =~= v.row_list().take(n - 1).map_values(
            |row: ClusterRow| ClusterDto::of(row),
        ));
        assert(v.rows.take(n).drop_last() =~= v.rows.take(n - 1));
        assert(shown.last() == ClusterDto::of(v.row_list()[n - 1]));
    }
}

/// Every bar that is published agrees with its footprint: the rows add up to
/// the volume of the bar, and its prices lie within its range.
pub proof fn law_published_bars_are_consistent(v: SessionView, bar: BarView)
    requires
        bar.wf(),
    ensures
        shown_volume(v.shown(bar).clusters) == v.shown(bar).volume,
        v.shown(bar).low <= v.shown(bar).open <= v.shown(bar).high,
        v.shown(bar).low <= v.shown(bar).close <= v.shown(bar).high,
{
    let n = bar.ladder.rows.len() as int;
    lemma_shown_volume(bar.ladder, n);
    assert(bar.ladder.row_list().take(n) =~= bar.ladder.row_list());
    assert(bar.ladder.rows.take(n) =~= bar.ladder.rows);
}

} // verus!
