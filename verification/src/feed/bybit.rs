//! Bybit v5 wire format.
//!
//! Unlike Binance, Bybit reports the taker side directly in `S`, so no
//! inversion is needed, which is exactly why the two adapters must not share
//! a "side" helper. Bybit also distinguishes snapshot from delta with a `type`
//! field on the message rather than by endpoint.

use crate::feed::error::FeedError;
use crate::feed::json::{
    int_field, level_array, parse_json, price_field, qty_field, str_field, uint_field, Json,
    JsonKind,
};
use crate::primitives::fixed::{Price, Qty};
use crate::primitives::market::{MarketEvent, Side, Trade};
use crate::primitives::time::Ts;
use crate::text::{chars_of, push_decimal, same_text, stands_at};
use vstd::prelude::*;

verus! {

use crate::feed::binance::{event_seen, millis_ts, trades_seen};
use crate::feed::error::{seen, Fault};
use crate::feed::json::{int_in, json_of, levels_in, minor_in, str_in, uint_in};
use crate::primitives::market::EventView;
use crate::text::{decimal, starts, uppercase};

/// The side that a taker-side field names.
pub open spec fn taker_side(s: Seq<char>) -> Result<Side, Fault> {
    if s == "Buy"@ {
        Ok(Side::Buy)
    } else if s == "Sell"@ {
        Ok(Side::Sell)
    } else {
        Err(Fault::Bad { field: "S"@, context: "bybit publicTrade"@, value: s })
    }
}

/// Parse Bybit's taker-side field.
///
/// `S` is the side of the **taker**, so it maps straight through with no
/// inversion. Compare with Binance, where the equivalent field is inverted.
pub fn aggressor_from_taker_side(s: &str) -> (r: Result<Side, FeedError>)
    ensures
        seen(r) == taker_side(s@),
{
    proof {
        reveal_strlit("Buy");
        reveal_strlit("Sell");
    }
    if same_text(s, "Buy") {
        Ok(Side::Buy)
    } else if same_text(s, "Sell") {
        Ok(Side::Sell)
    } else {
        Err(
            FeedError::BadField { field: "S", context: "bybit publicTrade", value: s.to_owned() },
        )
    }
}

/// The trade that one entry reports.
pub open spec fn entry_trade(entry: Json) -> Result<Trade, Fault> {
    let context = "bybit publicTrade"@;
    match int_in(entry, "T"@, context) {
        Err(e) => Err(e),
        Ok(millis) => match minor_in(entry, "p"@, context) {
            Err(e) => Err(e),
            Ok(price) => match minor_in(entry, "v"@, context) {
                Err(e) => Err(e),
                Ok(qty) => match str_in(entry, "S"@, context) {
                    Err(e) => Err(e),
                    Ok(side) => match taker_side(side) {
                        Err(e) => Err(e),
                        Ok(aggressor) => Ok(
                            Trade {
                                ts: millis_ts(millis),
                                price: Price(price),
                                qty: Qty(qty),
                                aggressor,
                                id: 0,
                            },
                        ),
                    },
                },
            },
        },
    }
}

/// The trades of some entries; the first that fails decides.
pub open spec fn entry_trades(items: Seq<Json>) -> Result<Seq<Trade>, Fault>
    decreases items.len(),
{
    if items.len() == 0 {
        Ok(Seq::<Trade>::empty())
    } else {
        match entry_trades(items.drop_last()) {
            Err(e) => Err(e),
            Ok(trades) => match entry_trade(items.last()) {
                Err(e) => Err(e),
                Ok(trade) => Ok(trades.push(trade)),
            },
        }
    }
}

/// The trades of a `publicTrade` message.
pub open spec fn trades_in(value: Json) -> Result<Seq<Trade>, Fault> {
    match value.entry("data"@) {
        Some(Json { kind: JsonKind::Array(items), .. }) => entry_trades(items@),
        _ => Err(Fault::Missing { field: "data"@, context: "bybit publicTrade"@ }),
    }
}

/// The book update of an `orderbook` message.
pub open spec fn orderbook_in(value: Json) -> Result<EventView, Fault> {
    let context = "bybit orderbook"@;
    match str_in(value, "type"@, context) {
        Err(e) => Err(e),
        Ok(kind) => match int_in(value, "ts"@, context) {
            Err(e) => Err(e),
            Ok(millis) => match value.entry("data"@) {
                None => Err(Fault::Missing { field: "data"@, context }),
                Some(data) => match levels_in(data, "b"@, context) {
                    Err(e) => Err(e),
                    Ok(bids) => match levels_in(data, "a"@, context) {
                        Err(e) => Err(e),
                        Ok(asks) => match uint_in(data, "u"@, context) {
                            Err(e) => Err(e),
                            Ok(sequence) => {
                                let ts = millis_ts(millis);
                                if kind == "snapshot"@ {
                                    Ok(EventView::BookSnapshot { ts, bids, asks, sequence })
                                } else if kind == "delta"@ {
                                    Ok(EventView::BookDelta { ts, bids, asks, sequence })
                                } else {
                                    Err(Fault::Bad { field: "type"@, context, value: kind })
                                }
                            },
                        },
                    },
                },
            },
        },
    }
}

/// The events that a decoded message reports.
pub open spec fn message_in(value: Json) -> Result<Seq<EventView>, Fault> {
    match value.entry("topic"@) {
        Some(Json { kind: JsonKind::Text(topic), .. }) => if starts(topic@, "publicTrade"@) {
            match trades_in(value) {
                Ok(trades) => Ok(
                    Seq::new(trades.len(), |i: int| EventView::Trade(trades[i])),
                ),
                Err(e) => Err(e),
            }
        } else if starts(topic@, "orderbook"@) {
            match orderbook_in(value) {
                Ok(event) => Ok(seq![event]),
                Err(e) => Err(e),
            }
        } else {
            Err(Fault::Unhandled(topic@))
        },
        _ => Err(Fault::Unhandled("no topic"@)),
    }
}

/// Events, as they read.
pub open spec fn events_view(events: Seq<MarketEvent>) -> Seq<EventView> {
    Seq::new(events.len(), |i: int| events[i]@)
}

/// Events, as they read.
pub open spec fn events_seen(r: Result<Vec<MarketEvent>, FeedError>) -> Result<
    Seq<EventView>,
    Fault,
> {
    match r {
        Ok(events) => Ok(events_view(events@)),
        Err(e) => Err(e@),
    }
}

/// Parse any Bybit v5 public message into normalised events.
///
/// A single message can carry many trades, so this returns a vector.
pub fn parse_message(raw: &str) -> (r: Result<Vec<MarketEvent>, FeedError>)
    ensures
        events_seen(r) == match json_of(raw@) {
            Some(value) => message_in(value),
            None => Err(Fault::Json),
        },
{
    match parse_json(raw) {
        Ok(value) => parse_value(&value),
        Err(e) => Err(e),
    }
}

fn starts_with(s: &str, prefix: &str) -> (r: bool)
    ensures
        r == starts(s@, prefix@),
{
    let chars = chars_of(s);
    assert(chars@.len() >= prefix@.len() ==> chars@.subrange(0, prefix@.len() as int) =~= s@.take(
        prefix@.len() as int,
    ));
    stands_at(&chars, 0, prefix)
}

/// Parse an already-decoded Bybit message.
pub fn parse_value(value: &Json) -> (r: Result<Vec<MarketEvent>, FeedError>)
    ensures
        events_seen(r) == message_in(*value),
{
    // Subscription acknowledgements have no topic and carry no market data.
    let topic = match value.get("topic") {
        Some(Json { kind: JsonKind::Text(topic), .. }) => topic,
        _ => {
            return Err(FeedError::Unhandled("no topic".to_owned()));
        },
    };
    if starts_with(topic.as_str(), "publicTrade") {
        return match parse_trades(value) {
            Ok(trades) => {
                let ghost all = Seq::new(trades@.len(), |i: int| EventView::Trade(trades@[i]));
                let mut events: Vec<MarketEvent> = Vec::new();
                let mut i: usize = 0;
                assert(events_view(events@) =~= all.take(0));
                while i < trades.len()
                    invariant
                        i <= trades@.len(),
                        all == Seq::new(trades@.len(), |i: int| EventView::Trade(trades@[i])),
                        events_view(events@) == all.take(i as int),
                    decreases trades@.len() - i,
                {
                    let ghost before = events@;
                    events.push(MarketEvent::Trade(trades[i]));
                    assert(events_view(events@) =~= events_view(before).push(
                        EventView::Trade(trades@[i as int]),
                    ));
                    i += 1;
                    assert(events_view(events@) =~= all.take(i as int));
                }
                assert(events_view(events@) =~= all);
                Ok(events)
            },
            Err(e) => Err(e),
        };
    }
    if starts_with(topic.as_str(), "orderbook") {
        return match parse_orderbook(value) {
            Ok(event) => {
                let ghost view = event@;
                let mut events: Vec<MarketEvent> = Vec::new();
                events.push(event);
                assert(events_view(events@) =~= seq![view]);
                Ok(events)
            },
            Err(e) => Err(e),
        };
    }
    Err(FeedError::Unhandled(topic.clone()))
}

fn parse_entry(entry: &Json) -> (r: Result<Trade, FeedError>)
    ensures
        seen(r) == entry_trade(*entry),
{
    let context = "bybit publicTrade";
    let ts = match int_field(entry, "T", context) {
        Ok(millis) => Ts::from_millis(millis),
        Err(e) => {
            return Err(e);
        },
    };
    let price = match price_field(entry, "p", context) {
        Ok(price) => price,
        Err(e) => {
            return Err(e);
        },
    };
    let qty = match qty_field(entry, "v", context) {
        Ok(qty) => qty,
        Err(e) => {
            return Err(e);
        },
    };
    let side = match str_field(entry, "S", context) {
        Ok(side) => side,
        Err(e) => {
            return Err(e);
        },
    };
    match aggressor_from_taker_side(side) {
        // Bybit trade ids are UUIDs, which do not fit a u64. The store
        // keeps zero rather than a truncated id that could collide;
        // dedup for this venue keys on (ts, price, qty) instead.
        Ok(aggressor) => Ok(Trade { ts, price, qty, aggressor, id: 0 }),
        Err(e) => Err(e),
    }
}

/// Parse a `publicTrade` message's `data` array.
pub fn parse_trades(value: &Json) -> (r: Result<Vec<Trade>, FeedError>)
    ensures
        trades_seen(r) == trades_in(*value),
{
    let items = match value.get("data") {
        Some(Json { kind: JsonKind::Array(items), .. }) => items,
        _ => {
            return Err(
                FeedError::MissingField { field: "data", context: "bybit publicTrade" },
            );
        },
    };
    let mut out: Vec<Trade> = Vec::new();
    let mut i: usize = 0;
    assert(items@.take(0) =~= Seq::<Json>::empty());
    while i < items.len()
        invariant
            i <= items@.len(),
            trades_in(*value) == entry_trades(items@),
            entry_trades(items@.take(i as int)) == Ok::<Seq<Trade>, Fault>(out@),
        decreases items@.len() - i,
    {
        let ghost next = items@.take(i + 1);
        assert(next.drop_last() =~= items@.take(i as int));
        assert(next.last() == items@[i as int]);
        match parse_entry(&items[i]) {
            Ok(trade) => {
                out.push(trade);
            },
            Err(e) => {
                proof {
                    lemma_failure_is_kept(items@, i + 1);
                }
                return Err(e);
            },
        }
        i += 1;
    }
    assert(items@.take(i as int) =~= items@);
    Ok(out)
}

proof fn lemma_failure_is_kept(items: Seq<Json>, k: int)
    requires
        0 <= k <= items.len(),
        entry_trades(items.take(k)) is Err,
    ensures
        entry_trades(items) == entry_trades(items.take(k)),
    decreases items.len() - k,
{
    if k == items.len() {
        assert(items.take(k) =~= items);
    } else {
        assert(items.take(k + 1).drop_last() =~= items.take(k));
        lemma_failure_is_kept(items, k + 1);
    }
}

/// Parse an `orderbook.N.SYMBOL` message.
///
/// The message's `type` selects snapshot or delta. Bybit sends a snapshot on
/// subscribe and after any internal gap, so honouring this field is what keeps
/// the local book from drifting.
pub fn parse_orderbook(value: &Json) -> (r: Result<MarketEvent, FeedError>)
    ensures
        event_seen(r) == orderbook_in(*value),
{
    let context = "bybit orderbook";
    let kind = match str_field(value, "type", context) {
        Ok(kind) => kind,
        Err(e) => {
            return Err(e);
        },
    };
    let ts = match int_field(value, "ts", context) {
        Ok(millis) => Ts::from_millis(millis),
        Err(e) => {
            return Err(e);
        },
    };
    let data = match value.get("data") {
        Some(data) => data,
        None => {
            return Err(FeedError::MissingField { field: "data", context });
        },
    };
    let bids = match level_array(data, "b", context) {
        Ok(levels) => levels,
        Err(e) => {
            return Err(e);
        },
    };
    let asks = match level_array(data, "a", context) {
        Ok(levels) => levels,
        Err(e) => {
            return Err(e);
        },
    };
    let sequence: u64 = match uint_field(data, "u", context) {
        Ok(sequence) => sequence,
        Err(e) => {
            return Err(e);
        },
    };
    if same_text(kind, "snapshot") {
        Ok(MarketEvent::BookSnapshot { ts, bids, asks, sequence })
    } else if same_text(kind, "delta") {
        Ok(MarketEvent::BookDelta { ts, bids, asks, sequence })
    } else {
        Err(FeedError::BadField { field: "type", context, value: kind.to_owned() })
    }
}

/// Topic name for an instrument's public trades.
pub fn trade_topic(symbol: &str) -> (r: String)
    ensures
        r@ == "publicTrade."@ + uppercase(symbol@),
{
    let mut out = "publicTrade.".to_owned();
    out.append(symbol.to_uppercase().as_str());
    out
}

/// Topic name for an instrument's order book at a given depth.
pub fn orderbook_topic(symbol: &str, depth: u32) -> (r: String)
    ensures
        r@ == "orderbook."@ + decimal(depth as nat) + "."@ + uppercase(symbol@),
{
    let mut out = "orderbook.".to_owned();
    push_decimal(&mut out, depth as u128);
    out.append(".");
    out.append(symbol.to_uppercase().as_str());
    out
}

} // verus!
