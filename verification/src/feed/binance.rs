//! Binance wire format.
//!
//! # The aggressor inversion
//!
//! Binance trade messages carry `m`: *"was the buyer the market maker?"*. When
//! `m` is true the buyer was resting, so the **seller** crossed the spread and
//! the aggressor is [`Side::Sell`]. Reading `m` as "is buy" inverts delta,
//! every imbalance, and the sign of CVD across the entire platform, while
//! still producing plausible-looking charts. So it is isolated in
//! [`aggressor_from_maker_flag`] and tested directly.

use crate::feed::error::FeedError;
use crate::feed::json::{
    int_field, level_array, parse_json, price_field, qty_field, str_field, uint_field, Json,
    JsonKind,
};
use crate::primitives::fixed::{Price, Qty};
use crate::primitives::market::{MarketEvent, Side, Trade};
use crate::primitives::time::Ts;
use crate::text::same_text;
use vstd::prelude::*;

verus! {

use crate::feed::error::{seen, Fault};
use crate::feed::json::{bad, int_in, json_of, levels_in, minor_in, str_in, uint_in};
use crate::primitives::fixed::clamped;
use crate::primitives::market::EventView;
use crate::primitives::time::NANOS_PER_MILLI;
use crate::text::lowercase;

/// The side that crossed the spread.
pub open spec fn maker_flag_side(is_buyer_maker: bool) -> Side {
    if is_buyer_maker {
        Side::Sell
    } else {
        Side::Buy
    }
}

/// Translate Binance's `m` flag into the aggressor side.
///
/// `is_buyer_maker == true` means the buyer was resting and the seller lifted
/// into them, so the aggressor is the seller.
pub fn aggressor_from_maker_flag(is_buyer_maker: bool) -> (r: Side)
    ensures
        r == maker_flag_side(is_buyer_maker),
{
    if is_buyer_maker {
        Side::Sell
    } else {
        Side::Buy
    }
}

/// The payload of a message, out of its envelope if it has one.
pub open spec fn payload_of(value: Json) -> Json {
    match value.entry("data"@) {
        Some(data) => if value.entry("stream"@) is Some {
            data
        } else {
            value
        },
        None => value,
    }
}

/// Unwrap the `{"stream":..,"data":..}` envelope of a combined stream.
///
/// Single-stream connections send the payload bare, so this is a no-op there.
pub fn unwrap_stream(value: &Json) -> (r: &Json)
    ensures
        *r == payload_of(*value),
{
    match value.get("data") {
        Some(data) => if value.get("stream").is_some() {
            data
        } else {
            value
        },
        None => value,
    }
}

/// A time in milliseconds.
pub open spec fn millis_ts(millis: i64) -> Ts {
    Ts(clamped(millis * NANOS_PER_MILLI) as i64)
}

/// The trade id: the aggregate one, else the raw one, else none.
pub open spec fn trade_id(payload: Json) -> u64 {
    match uint_in(payload, "a"@, "binance trade"@) {
        Ok(id) => id,
        Err(_) => match uint_in(payload, "t"@, "binance trade"@) {
            Ok(id) => id,
            Err(_) => 0,
        },
    }
}

/// The trade that an `aggTrade` or `trade` message reports.
pub open spec fn trade_in(payload: Json) -> Result<Trade, Fault> {
    let context = "binance trade"@;
    match payload.entry("m"@) {
        Some(Json { kind: JsonKind::Bool(is_buyer_maker), .. }) => match int_in(
            payload,
            "T"@,
            context,
        ) {
            Err(e) => Err(e),
            Ok(millis) => match minor_in(payload, "p"@, context) {
                Err(e) => Err(e),
                Ok(price) => match minor_in(payload, "q"@, context) {
                    Err(e) => Err(e),
                    Ok(qty) => Ok(
                        Trade {
                            ts: millis_ts(millis),
                            price: Price(price),
                            qty: Qty(qty),
                            aggressor: maker_flag_side(is_buyer_maker),
                            id: trade_id(payload),
                        },
                    ),
                },
            },
        },
        _ => Err(Fault::Missing { field: "m"@, context }),
    }
}

/// The book delta that a `depthUpdate` message reports.
pub open spec fn depth_update_in(payload: Json) -> Result<EventView, Fault> {
    let context = "binance depthUpdate"@;
    match int_in(payload, "E"@, context) {
        Err(e) => Err(e),
        Ok(millis) => match levels_in(payload, "b"@, context) {
            Err(e) => Err(e),
            Ok(bids) => match levels_in(payload, "a"@, context) {
                Err(e) => Err(e),
                Ok(asks) => match uint_in(payload, "u"@, context) {
                    Err(e) => Err(e),
                    Ok(sequence) => Ok(
                        EventView::BookDelta { ts: millis_ts(millis), bids, asks, sequence },
                    ),
                },
            },
        },
    }
}

/// The kind of a message, empty where it has none.
pub open spec fn kind_of(payload: Json) -> Seq<char> {
    match payload.entry("e"@) {
        Some(kind) => match kind.string() {
            Some(s) => s,
            None => Seq::<char>::empty(),
        },
        None => Seq::<char>::empty(),
    }
}

/// The event that a decoded message reports.
pub open spec fn message_in(value: Json) -> Result<EventView, Fault> {
    let payload = payload_of(value);
    let kind = kind_of(payload);
    if kind == "aggTrade"@ || kind == "trade"@ {
        match trade_in(payload) {
            Ok(trade) => Ok(EventView::Trade(trade)),
            Err(e) => Err(e),
        }
    } else if kind == "depthUpdate"@ {
        depth_update_in(payload)
    } else {
        Err(Fault::Unhandled(kind))
    }
}

/// The book that a depth snapshot holds.
pub open spec fn snapshot_in(value: Json, ts: Ts) -> Result<EventView, Fault> {
    let context = "binance depth snapshot"@;
    match levels_in(value, "bids"@, context) {
        Err(e) => Err(e),
        Ok(bids) => match levels_in(value, "asks"@, context) {
            Err(e) => Err(e),
            Ok(asks) => match uint_in(value, "lastUpdateId"@, context) {
                Err(e) => Err(e),
                Ok(sequence) => Ok(EventView::BookSnapshot { ts, bids, asks, sequence }),
            },
        },
    }
}

/// The trades of some messages; the first that fails decides.
pub open spec fn trades_in(items: Seq<Json>) -> Result<Seq<Trade>, Fault>
    decreases items.len(),
{
    if items.len() == 0 {
        Ok(Seq::<Trade>::empty())
    } else {
        match trades_in(items.drop_last()) {
            Err(e) => Err(e),
            Ok(trades) => match trade_in(items.last()) {
                Err(e) => Err(e),
                Ok(trade) => Ok(trades.push(trade)),
            },
        }
    }
}

/// The trades of a backfill page.
pub open spec fn page_in(value: Json) -> Result<Seq<Trade>, Fault> {
    match value.kind {
        JsonKind::Array(items) => trades_in(items@),
        _ => Err(bad("body"@, "binance aggTrades"@, value)),
    }
}

/// An event, as it reads.
pub open spec fn event_seen(r: Result<MarketEvent, FeedError>) -> Result<EventView, Fault> {
    match r {
        Ok(event) => Ok(event@),
        Err(e) => Err(e@),
    }
}

/// Trades, as they read.
pub open spec fn trades_seen(r: Result<Vec<Trade>, FeedError>) -> Result<Seq<Trade>, Fault> {
    match r {
        Ok(trades) => Ok(trades@),
        Err(e) => Err(e@),
    }
}

/// Parse any Binance market message into a normalised event.
pub fn parse_message(raw: &str) -> (r: Result<MarketEvent, FeedError>)
    ensures
        event_seen(r) == match json_of(raw@) {
            Some(value) => message_in(value),
            None => Err(Fault::Json),
        },
{
    match parse_json(raw) {
        Ok(value) => parse_value(&value),
        Err(e) => Err(e),
    }
}

/// Parse an already-decoded Binance message.
pub fn parse_value(value: &Json) -> (r: Result<MarketEvent, FeedError>)
    ensures
        event_seen(r) == message_in(*value),
{
    let payload = unwrap_stream(value);
    let kind = match payload.get("e") {
        Some(kind) => match kind.as_str() {
            Some(s) => s,
            None => "",
        },
        None => "",
    };
    proof {
        reveal_strlit("");
        assert(""@ =~= Seq::<char>::empty());
    }
    if same_text(kind, "aggTrade") || same_text(kind, "trade") {
        match parse_trade(payload) {
            Ok(trade) => Ok(MarketEvent::Trade(trade)),
            Err(e) => Err(e),
        }
    } else if same_text(kind, "depthUpdate") {
        parse_depth_update(payload)
    } else {
        Err(FeedError::Unhandled(kind.to_owned()))
    }
}

/// Parse an `aggTrade` or `trade` message.
pub fn parse_trade(payload: &Json) -> (r: Result<Trade, FeedError>)
    ensures
        seen(r) == trade_in(*payload),
{
    let context = "binance trade";
    let is_buyer_maker = match payload.get("m") {
        Some(Json { kind: JsonKind::Bool(flag), .. }) => *flag,
        _ => {
            return Err(FeedError::MissingField { field: "m", context });
        },
    };
    // aggTrade carries the aggregate id in `a`; a raw trade carries `t`.
    let id: u64 = match uint_field(payload, "a", context) {
        Ok(id) => id,
        Err(_) => match uint_field(payload, "t", context) {
            Ok(id) => id,
            Err(_) => 0,
        },
    };
    // `T` is the trade time; `E` is when the server emitted the event.
    // Bar boundaries must follow the trade, not the transmission.
    let ts = match int_field(payload, "T", context) {
        Ok(millis) => Ts::from_millis(millis),
        Err(e) => {
            return Err(e);
        },
    };
    let price = match price_field(payload, "p", context) {
        Ok(price) => price,
        Err(e) => {
            return Err(e);
        },
    };
    let qty = match qty_field(payload, "q", context) {
        Ok(qty) => qty,
        Err(e) => {
            return Err(e);
        },
    };
    Ok(Trade { ts, price, qty, aggressor: aggressor_from_maker_flag(is_buyer_maker), id })
}

/// Parse a `depthUpdate` message into a book delta.
///
/// Binance labels each update with the range `[U, u]` of sequence ids it
/// covers. The final id is what the book stores, and the adapter's gap check
/// uses `U` against the previously applied `u`.
pub fn parse_depth_update(payload: &Json) -> (r: Result<MarketEvent, FeedError>)
    ensures
        event_seen(r) == depth_update_in(*payload),
{
    let context = "binance depthUpdate";
    let ts = match int_field(payload, "E", context) {
        Ok(millis) => Ts::from_millis(millis),
        Err(e) => {
            return Err(e);
        },
    };
    let bids = match level_array(payload, "b", context) {
        Ok(levels) => levels,
        Err(e) => {
            return Err(e);
        },
    };
    let asks = match level_array(payload, "a", context) {
        Ok(levels) => levels,
        Err(e) => {
            return Err(e);
        },
    };
    match uint_field(payload, "u", context) {
        Ok(sequence) => Ok(MarketEvent::BookDelta { ts, bids, asks, sequence }),
        Err(e) => Err(e),
    }
}

/// First sequence id covered by a `depthUpdate`.
///
/// A delta may be applied only if this is at most one past the book's current
/// sequence; a larger value is a gap and requires a fresh REST snapshot.
pub fn depth_update_first_id(payload: &Json) -> (r: Result<u64, FeedError>)
    ensures
        seen(r) == uint_in(payload_of(*payload), "U"@, "binance depthUpdate"@),
{
    uint_field(unwrap_stream(payload), "U", "binance depthUpdate")
}

/// Parse a REST `/api/v3/depth` snapshot.
pub fn parse_depth_snapshot(raw: &str, ts: Ts) -> (r: Result<MarketEvent, FeedError>)
    ensures
        event_seen(r) == match json_of(raw@) {
            Some(value) => snapshot_in(value, ts),
            None => Err(Fault::Json),
        },
{
    match parse_json(raw) {
        Ok(value) => depth_snapshot(&value, ts),
        Err(e) => Err(e),
    }
}

/// Parse an already-decoded depth snapshot.
pub fn depth_snapshot(value: &Json, ts: Ts) -> (r: Result<MarketEvent, FeedError>)
    ensures
        event_seen(r) == snapshot_in(*value, ts),
{
    let context = "binance depth snapshot";
    let bids = match level_array(value, "bids", context) {
        Ok(levels) => levels,
        Err(e) => {
            return Err(e);
        },
    };
    let asks = match level_array(value, "asks", context) {
        Ok(levels) => levels,
        Err(e) => {
            return Err(e);
        },
    };
    match uint_field(value, "lastUpdateId", context) {
        Ok(sequence) => Ok(MarketEvent::BookSnapshot { ts, bids, asks, sequence }),
        Err(e) => Err(e),
    }
}

/// Parse a REST `/api/v3/aggTrades` backfill page.
pub fn parse_agg_trades(raw: &str) -> (r: Result<Vec<Trade>, FeedError>)
    ensures
        trades_seen(r) == match json_of(raw@) {
            Some(value) => page_in(value),
            None => Err(Fault::Json),
        },
{
    match parse_json(raw) {
        Ok(value) => agg_trades(&value),
        Err(e) => Err(e),
    }
}

/// Parse an already-decoded backfill page.
pub fn agg_trades(value: &Json) -> (r: Result<Vec<Trade>, FeedError>)
    ensures
        trades_seen(r) == page_in(*value),
{
    match &value.kind {
        JsonKind::Array(items) => {
            let mut out: Vec<Trade> = Vec::new();
            let mut i: usize = 0;
            assert(items@.take(0) =~= Seq::<Json>::empty());
            while i < items.len()
                invariant
                    i <= items@.len(),
                    value.kind == JsonKind::Array(*items),
                    trades_in(items@.take(i as int)) == Ok::<Seq<Trade>, Fault>(out@),
                decreases items@.len() - i,
            {
                let ghost next = items@.take(i + 1);
                assert(next.drop_last() =~= items@.take(i as int));
                assert(next.last() == items@[i as int]);
                match parse_trade(&items[i]) {
                    Ok(trade) => {
                        out.push(trade);
                    },
                    Err(e) => {
                        proof {
                            lemma_failure_is_kept(items@, i + 1);
                        }
                        return Err(e);
                    },
                }
                i += 1;
            }
            assert(items@.take(i as int) =~= items@);
            Ok(out)
        },
        _ => Err(
            FeedError::BadField {
                field: "body",
                context: "binance aggTrades",
                value: value.text.clone(),
            },
        ),
    }
}

proof fn lemma_failure_is_kept(items: Seq<Json>, k: int)
    requires
        0 <= k <= items.len(),
        trades_in(items.take(k)) is Err,
    ensures
        trades_in(items) == trades_in(items.take(k)),
    decreases items.len() - k,
{
    if k == items.len() {
        assert(items.take(k) =~= items);
    } else {
        assert(items.take(k + 1).drop_last() =~= items.take(k));
        lemma_failure_is_kept(items, k + 1);
    }
}

/// Stream name for an instrument's aggregate trades.
pub fn agg_trade_stream(symbol: &str) -> (r: String)
    ensures
        r@ == lowercase(symbol@) + "@aggTrade"@,
{
    let mut out = symbol.to_lowercase();
    out.append("@aggTrade");
    out
}

/// Stream name for an instrument's incremental depth at 100ms.
pub fn depth_stream(symbol: &str) -> (r: String)
    ensures
        r@ == lowercase(symbol@) + "@depth@100ms"@,
{
    let mut out = symbol.to_lowercase();
    out.append("@depth@100ms");
    out
}

/// Symbol carried by a message, when it has one.
pub fn symbol_of(value: &Json) -> (r: Option<&str>)
    ensures
        match r {
            Some(s) => str_in(payload_of(*value), "s"@, "binance message"@) == Ok::<
                Seq<char>,
                Fault,
            >(s@),
            None => str_in(payload_of(*value), "s"@, "binance message"@) is Err,
        },
{
    match str_field(unwrap_stream(value), "s", "binance message") {
        Ok(s) => Some(s),
        Err(_) => None,
    }
}

/// A trade whose buyer was resting counts as sold, one whose seller was resting
/// as bought: the flag is inverted, whatever else the message says.
pub proof fn law_maker_flag_is_inverted(payload: Json)
    requires
        trade_in(payload) is Ok,
    ensures
        payload.entry("m"@) is Some,
        payload.entry("m"@)->0.kind matches JsonKind::Bool(is_buyer_maker) && (trade_in(
            payload,
        )->Ok_0.aggressor is Sell <==> is_buyer_maker),
{
}

} // verus!
