//! Decisions of a live connection.
//!
//! The sockets and the clock are the caller's. What is decided here is where to
//! connect, what a frame leads to, when the depth snapshot has to be fetched,
//! and how long to wait before the next attempt.

use crate::feed::backoff::Backoff;
use crate::feed::binance::{
    agg_trade_stream, depth_stream, depth_update_first_id, parse_depth_snapshot,
    parse_depth_update, parse_trade, unwrap_stream,
};
use crate::feed::bybit;
use crate::feed::error::FeedError;
use crate::feed::json::{parse_json, Json};
use crate::feed::sync::{DepthSynchroniser, SyncAction};
use crate::primitives::market::MarketEvent;
use crate::primitives::time::Ts;
use crate::text::{push_decimal, same_text};
use vstd::prelude::*;

verus! {

use crate::feed::backoff::BackoffView;
use crate::feed::binance::{depth_update_in, kind_of, payload_of, snapshot_in, trade_in};

use crate::feed::json::{json_of, uint_in};
use crate::feed::sync::{fresh_sync, payloads, pending_after, SyncView};
use crate::primitives::market::EventView;
use crate::text::{decimal, lowercase, uppercase};

/// Binance's market-data-only websocket host.
///
/// Deliberately not `stream.binance.com`. The trading hosts are geo-restricted
/// and answer 451 from several jurisdictions. The `.vision` hosts serve the
/// same public market data with no trading capability attached, so they are
/// both the correct endpoint for a client that never places an order here and
/// the one that is actually reachable.
pub const BINANCE_WS_DATA: &'static str = "wss://data-stream.binance.vision/stream?streams=";

/// Binance's market-data-only REST host. See [`BINANCE_WS_DATA`].
pub const BINANCE_REST_DATA: &'static str = "https://data-api.binance.vision";

/// Binance's trading websocket host. Geo-restricted; use only where the
/// client genuinely needs the trading endpoints.
pub const BINANCE_WS_TRADE: &'static str = "wss://stream.binance.com:9443/stream?streams=";

/// Binance's trading REST host. Geo-restricted; see [`BINANCE_WS_TRADE`].
pub const BINANCE_REST_TRADE: &'static str = "https://api.binance.com";

/// Connection tuning shared by the venue drivers.
#[derive(Debug, Clone)]
pub struct LiveOptions {
    /// Websocket base URL, ending in whatever prefix the venue expects before
    /// the stream list.
    pub ws_base: String,
    /// REST base URL, with no trailing slash.
    pub rest_base: String,
    /// Depth levels to request in the REST snapshot.
    pub snapshot_depth: u32,
    /// How long to wait for a websocket message before treating the
    /// connection as dead, in nanoseconds.
    ///
    /// A TCP connection can stay open long after it stops delivering data, so
    /// waiting for the socket to report an error can mean waiting for ever.
    pub read_timeout_nanos: u64,
    /// Bound on the event channel, so that a slow consumer cannot grow the
    /// queue without limit.
    pub channel_capacity: usize,
    /// Backoff used between reconnect attempts.
    pub backoff: Backoff,
}

impl Default for LiveOptions {
    fn default() -> (r: Self)
        ensures
            r.ws_base@ == BINANCE_WS_DATA@,
            r.rest_base@ == BINANCE_REST_DATA@,
            r.snapshot_depth == 1_000,
            r.read_timeout_nanos == 30_000_000_000,
            r.channel_capacity == 65_536,
            r.backoff@ == (BackoffView {
                base: 500_000_000,
                max: 60_000_000_000,
                attempt: 0,
                state: 0x2545_F491_4F6C_DD1D,
            }),
    {
        LiveOptions {
            ws_base: BINANCE_WS_DATA.to_owned(),
            rest_base: BINANCE_REST_DATA.to_owned(),
            snapshot_depth: 1_000,
            read_timeout_nanos: 30_000_000_000,
            channel_capacity: 65_536,
            backoff: Backoff::default(),
        }
    }
}

/// Where to open the trade and depth streams of a Binance symbol.
pub fn stream_url(options: &LiveOptions, symbol: &str) -> (r: String)
    ensures
        r@ == options.ws_base@ + lowercase(lowercase(symbol@)) + "@aggTrade"@ + "/"@ + lowercase(
            lowercase(symbol@),
        ) + "@depth@100ms"@,
{
    let lower = symbol.to_lowercase();
    let mut url = options.ws_base.clone();
    url.append(agg_trade_stream(lower.as_str()).as_str());
    url.append("/");
    url.append(depth_stream(lower.as_str()).as_str());
    assert(url@ =~= options.ws_base@ + lowercase(lowercase(symbol@)) + "@aggTrade"@ + "/"@
        + lowercase(lowercase(symbol@)) + "@depth@100ms"@);
    url
}

/// Where to fetch the depth snapshot of a Binance symbol.
pub fn snapshot_url(options: &LiveOptions, symbol: &str) -> (r: String)
    ensures
        r@ == options.rest_base@ + "/api/v3/depth?symbol="@ + uppercase(symbol@) + "&limit="@
            + decimal(options.snapshot_depth as nat),
{
    let mut url = options.rest_base.clone();
    url.append("/api/v3/depth?symbol=");
    url.append(symbol.to_uppercase().as_str());
    url.append("&limit=");
    push_decimal(&mut url, options.snapshot_depth as u128);
    url
}

/// How long to wait before the next attempt, after a connection that lived for
/// `lived_nanos`.
///
/// A connection that survived a while was healthy; the next failure counts as
/// the first one rather than compounding an old streak.
pub fn reconnect_delay(backoff: &mut Backoff, lived_nanos: u64) -> (r: u64)
    requires
        old(backoff)@.wf(),
    ensures
        ({
            let start = if lived_nanos > 60_000_000_000 {
                BackoffView { attempt: 0, ..old(backoff)@ }
            } else {
                old(backoff)@
            };
            r == start.delay() && final(backoff)@ == start.advanced()
        }),
        final(backoff)@.wf(),
        lived_nanos > 60_000_000_000 ==> r <= old(backoff)@.base && final(backoff)@.attempt == 1,
        lived_nanos <= 60_000_000_000 && old(backoff)@.attempt < u32::MAX ==> r
            <= old(backoff)@.ceiling() && final(backoff)@.attempt == old(backoff)@.attempt + 1,
{
    proof {
        let fresh = BackoffView { attempt: 0, ..old(backoff)@ };
        crate::feed::laws::law_a_wait_is_drawn_below_its_ceiling(fresh);
        crate::feed::laws::law_a_wait_is_drawn_below_its_ceiling(old(backoff)@);
    }
    if lived_nanos > 60_000_000_000 {
        backoff.reset();
    }
    backoff.next_delay()
}

/// Whether a quiet Bybit connection has to be pinged. Bybit closes idle
/// connections, so the client pings rather than waiting to be disconnected.
pub fn ping_is_due(nanos_since_ping: u64) -> (r: bool)
    ensures
        r == (nanos_since_ping > 20_000_000_000),
{
    nanos_since_ping > 20_000_000_000
}

/// The events of a Bybit frame; none where it cannot be read. Subscription
/// acknowledgements and pongs are unhandled, which is expected traffic rather
/// than an error.
pub fn bybit_events(text: &str) -> (r: Vec<MarketEvent>)
    ensures
        bybit::events_view(r@) == match json_of(text@) {
            Some(value) => match bybit::message_in(value) {
                Ok(events) => events,
                Err(_) => Seq::<EventView>::empty(),
            },
            None => Seq::<EventView>::empty(),
        },
{
    match bybit::parse_message(text) {
        Ok(events) => events,
        Err(_) => {
            let none: Vec<MarketEvent> = Vec::new();
            assert(bybit::events_view(none@) =~= Seq::<EventView>::empty());
            none
        },
    }
}

/// What a frame leads to.
#[derive(Debug, PartialEq)]
pub enum LinkStep {
    /// Nothing to do.
    Nothing,
    /// Hand this event to the consumer.
    Send(MarketEvent),
    /// Fetch a depth snapshot.
    FetchSnapshot,
    /// The depth stream has a gap; report that it is being synchronised again.
    Resynchronise,
}

/// What a Binance link holds.
#[verifier::ext_equal]
pub struct LinkView {
    pub sync: SyncView<MarketEvent>,
    /// Whether a snapshot is still to be fetched.
    pub snapshot_pending: bool,
}

impl LinkView {
    /// The link after a depth update.
    pub open spec fn updated(self, first: u64, last: u64, event: MarketEvent) -> LinkView {
        let sync = self.sync.offered(first, last, event);
        match self.sync.action(first, last) {
            SyncAction::Apply | SyncAction::Discard => LinkView { sync, ..self },
            SyncAction::Buffer => LinkView { sync, snapshot_pending: false },
            SyncAction::Resync => LinkView { sync: sync.begun_again(), snapshot_pending: true },
        }
    }

    /// What a depth update leads to.
    pub open spec fn step(self, first: u64, last: u64, event: MarketEvent) -> LinkStep {
        match self.sync.action(first, last) {
            SyncAction::Apply => LinkStep::Send(event),
            SyncAction::Discard => LinkStep::Nothing,
            SyncAction::Buffer => if self.snapshot_pending {
                LinkStep::FetchSnapshot
            } else {
                LinkStep::Nothing
            },
            SyncAction::Resync => LinkStep::Resynchronise,
        }
    }

    /// The link after a snapshot with this sequence. One that does not join on
    /// to the buffered updates would leave a hole, so a fresh one is fetched.
    pub open spec fn snapped(self, sequence: u64) -> LinkView {
        let sync = self.sync.snapped(sequence);
        if self.sync.has_hole(sequence) {
            LinkView { sync: sync.begun_again(), snapshot_pending: true }
        } else {
            LinkView { sync, ..self }
        }
    }
}

/// Whether a decoded message leads from one state of a link to another, and to
/// this step.
pub open spec fn routed(
    before: LinkView,
    value: Json,
    after: LinkView,
    r: Result<LinkStep, FeedError>,
) -> bool {
    let payload = payload_of(value);
    let kind = kind_of(payload);
    if kind == "aggTrade"@ || kind == "trade"@ {
        &&& after == before
        &&& match trade_in(payload) {
            Ok(trade) => r == Ok::<LinkStep, FeedError>(
                LinkStep::Send(MarketEvent::Trade(trade)),
            ),
            Err(fault) => r matches Err(e) && e@ == fault,
        }
    } else if kind == "depthUpdate"@ {
        match (uint_in(payload, "U"@, "binance depthUpdate"@), depth_update_in(payload)) {
            (Err(fault), _) => after == before && (r matches Err(e) && e@ == fault),
            (Ok(_), Err(fault)) => after == before && (r matches Err(e) && e@ == fault),
            (Ok(first), Ok(update)) => exists|event: MarketEvent| #[trigger]
                is_update(event, update) && after == before.updated(
                    first,
                    update->BookDelta_sequence,
                    event,
                ) && r == Ok::<LinkStep, FeedError>(
                    before.step(first, update->BookDelta_sequence, event),
                ),
        }
    } else {
        after == before && r == Ok::<LinkStep, FeedError>(LinkStep::Nothing)
    }
}

/// Whether an event says this.
pub open spec fn is_update(event: MarketEvent, update: EventView) -> bool {
    event@ == update
}

/// The depth handshake of one Binance connection: open the stream, buffer
/// updates, fetch a REST snapshot, discard what the snapshot already covers,
/// and check that the remainder joins on.
#[derive(Debug)]
pub struct BinanceLink {
    sync: DepthSynchroniser<MarketEvent>,
    snapshot_pending: bool,
}

impl View for BinanceLink {
    type V = LinkView;

    closed spec fn view(&self) -> LinkView {
        LinkView { sync: self.sync@, snapshot_pending: self.snapshot_pending }
    }
}

impl BinanceLink {
    /// A link whose stream was just opened. The snapshot is fetched only after
    /// that, so no update between the two can be missed.
    pub fn new() -> (r: Self)
        ensures
            r@ == (LinkView { sync: fresh_sync(), snapshot_pending: true }),
    {
        BinanceLink { sync: DepthSynchroniser::new(), snapshot_pending: true }
    }

    /// How often the depth handshake started over.
    pub fn resyncs(&self) -> (r: u64)
        ensures
            r == self@.sync.resyncs,
    {
        self.sync.resyncs()
    }

    /// Route one text frame.
    pub fn on_text(&mut self, text: &str) -> (r: Result<LinkStep, FeedError>)
        requires
            old(self)@.sync.resyncs < u64::MAX,
        ensures
            match json_of(text@) {
                Some(value) => routed(old(self)@, value, final(self)@, r),
                None => final(self)@ == old(self)@ && (r matches Err(e) && e@ is Json),
            },
    {
        match parse_json(text) {
            Ok(value) => self.route(&value),
            Err(e) => Err(e),
        }
    }

    /// Route one decoded message.
    pub fn route(&mut self, value: &Json) -> (r: Result<LinkStep, FeedError>)
        requires
            old(self)@.sync.resyncs < u64::MAX,
        ensures
            routed(old(self)@, *value, final(self)@, r),
    {
        let payload = unwrap_stream(value);
        let kind = match payload.get("e") {
            Some(kind) => match kind.as_str() {
                Some(s) => s,
                None => "",
            },
            None => "",
        };
        proof {
            reveal_strlit("");
            assert(""@ =~= Seq::<char>::empty());
        }
        if same_text(kind, "aggTrade") || same_text(kind, "trade") {
            match parse_trade(payload) {
                Ok(trade) => Ok(LinkStep::Send(MarketEvent::Trade(trade))),
                Err(e) => Err(e),
            }
        } else if same_text(kind, "depthUpdate") {
            let first: u64 = match depth_update_first_id(value) {
                Ok(first) => first,
                Err(e) => {
                    return Err(e);
                },
            };
            match parse_depth_update(payload) {
                Ok(event) => Ok(self.update(first, event)),
                Err(e) => Err(e),
            }
        } else {
            Ok(LinkStep::Nothing)
        }
    }

    /// Take a depth update.
    fn update(&mut self, first: u64, event: MarketEvent) -> (r: LinkStep)
        requires
            old(self)@.sync.resyncs < u64::MAX,
            event@ is BookDelta,
        ensures
            final(self)@ == old(self)@.updated(first, event@->BookDelta_sequence, event),
            r == old(self)@.step(first, event@->BookDelta_sequence, event),
            is_update(event, event@),
    {
        let last: u64 = match &event {
            MarketEvent::BookDelta { sequence, .. } => *sequence,
            _ => 0,
        };
        let (action, applied) = self.sync.on_delta(first, last, event);
        match action {
            SyncAction::Apply => match applied {
                Some(event) => LinkStep::Send(event),
                None => LinkStep::Nothing,
            },
            SyncAction::Discard => LinkStep::Nothing,
            SyncAction::Buffer => {
                let fetch = self.snapshot_pending;
                self.snapshot_pending = false;
                if fetch {
                    LinkStep::FetchSnapshot
                } else {
                    LinkStep::Nothing
                }
            },
            SyncAction::Resync => {
                self.sync.restart();
                self.snapshot_pending = true;
                LinkStep::Resynchronise
            },
        }
    }

    /// Take the body of a depth snapshot that was fetched, giving the events to
    /// hand to the consumer.
    pub fn on_snapshot(&mut self, body: &str, now: Ts) -> (r: Result<Vec<MarketEvent>, FeedError>)
        requires
            old(self)@.sync.resyncs < u64::MAX,
        ensures
            match json_of(body@) {
                Some(value) => match snapshot_in(value, now) {
                    Ok(snapshot) => r matches Ok(events) && released(
                        old(self)@,
                        snapshot,
                        final(self)@,
                        events@,
                    ),
                    Err(fault) => final(self)@ == old(self)@ && (r matches Err(e) && e@ == fault),
                },
                None => final(self)@ == old(self)@ && (r matches Err(e) && e@ is Json),
            },
    {
        match parse_depth_snapshot(body, now) {
            Ok(snapshot) => Ok(self.release(snapshot)),
            Err(e) => Err(e),
        }
    }

    /// Take a depth snapshot: it and the buffered updates behind it go to the
    /// consumer, unless they do not join on.
    pub fn release(&mut self, snapshot: MarketEvent) -> (r: Vec<MarketEvent>)
        requires
            old(self)@.sync.resyncs < u64::MAX,
            snapshot@ is BookSnapshot,
        ensures
            released(old(self)@, snapshot@, final(self)@, r@),
    {
        let ghost before = self@;
        let ghost said = snapshot@;
        let sequence: u64 = match &snapshot {
            MarketEvent::BookSnapshot { sequence, .. } => *sequence,
            _ => 0,
        };
        match self.sync.on_snapshot(sequence) {
            Ok(pending) => {
                let ghost updates = pending@;
                let mut events: Vec<MarketEvent> = Vec::new();
                events.push(snapshot);
                let mut pending = pending;
                events.append(&mut pending);
                assert(events@.drop_first() =~= updates);
                assert(self@ =~= before.snapped(sequence));
                events
            },
            Err(_) => {
                self.sync.restart();
                self.snapshot_pending = true;
                assert(self@ =~= before.snapped(sequence));
                Vec::new()
            },
        }
    }
}

/// Whether a snapshot leads from one state of a link to another, and to these
/// events: the snapshot and the updates behind it in sequence, or none.
pub open spec fn released(
    before: LinkView,
    snapshot: EventView,
    after: LinkView,
    events: Seq<MarketEvent>,
) -> bool {
    let sequence = snapshot->BookSnapshot_sequence;
    &&& after == before.snapped(sequence)
    &&& if before.sync.has_hole(sequence) {
        events.len() == 0
    } else {
        &&& events.len() > 0
        &&& events[0]@ == snapshot
        &&& events.drop_first() == payloads(pending_after(before.sync.buffer, sequence))
    }
}

/// A gap is never papered over: after one, nothing is applied before another
/// snapshot was fetched.
pub proof fn law_a_gap_asks_for_a_snapshot(v: LinkView, first: u64, last: u64, event: MarketEvent)
    requires
        v.sync.action(first, last) is Resync,
    ensures
        v.step(first, last, event) is Resynchronise,
        v.updated(first, last, event).snapshot_pending,
        v.updated(first, last, event).sync.state is AwaitingSnapshot,
        v.updated(first, last, event).sync.buffer.len() == 0,
{
}

/// A snapshot that the buffered updates do not join on to is not used, and
/// another one is asked for.
pub proof fn law_an_old_snapshot_is_fetched_again(v: LinkView, sequence: u64)
    requires
        v.sync.has_hole(sequence),
    ensures
        v.snapped(sequence).snapshot_pending,
        v.snapped(sequence).sync.state is AwaitingSnapshot,
{
}

} // verus!
