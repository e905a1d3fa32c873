//! What the venues' messages say, field by field.

use crate::feed::json::{Json, JsonKind};
use crate::primitives::fixed::{Price, Qty};
use crate::primitives::market::Trade;
use crate::primitives::time::Ts;
use vstd::prelude::*;

verus! {

use crate::feed::binance;
use crate::feed::bybit;
use crate::feed::error::Fault;
use crate::feed::json::{field_place, level_of, levels_in, levels_of};
use crate::primitives::fixed::parsed;
use crate::primitives::market::EventView;
use crate::text::{signed_text, starts, unsigned_text};

/// Whether place `i` is where an object first holds a name.
pub open spec fn stands_first(fields: Seq<(String, Json)>, name: Seq<char>, i: int) -> bool {
    &&& 0 <= i < fields.len()
    &&& fields[i].0@ == name
    &&& forall|j: int| 0 <= j < i ==> (#[trigger] fields[j]).0@ != name
}

/// Whether a message holds a value under a name.
pub open spec fn holds(message: Json, name: Seq<char>, value: Json) -> bool {
    message.kind matches JsonKind::Object(fields) && exists|i: int| #[trigger]
        stands_first(fields@, name, i) && fields@[i].1 == value
}

/// Whether a value is a decimal, quoted or not, of so many minor units.
pub open spec fn is_decimal(value: Json, minor: i64) -> bool {
    match value.kind {
        JsonKind::Text(s) => parsed(s@) == Ok::<i64, crate::primitives::fixed::ParseFixedError>(
            minor,
        ),
        JsonKind::Number { .. } => parsed(value.text@) == Ok::<
            i64,
            crate::primitives::fixed::ParseFixedError,
        >(minor),
        _ => false,
    }
}

/// Whether a value is a whole number, quoted or not.
pub open spec fn is_integer(value: Json, n: int) -> bool {
    match value.kind {
        JsonKind::Text(s) => signed_text(s@) == Some(n),
        JsonKind::Number { int: whole, .. } => whole matches Some(m) && m == n,
        _ => false,
    }
}

/// Whether a value is a whole number that is not negative, quoted or not.
pub open spec fn is_natural(value: Json, n: nat) -> bool {
    match value.kind {
        JsonKind::Text(s) => unsigned_text(s@, u64::MAX as nat) == Some(n),
        JsonKind::Number { uint: whole, .. } => whole matches Some(m) && m == n,
        _ => false,
    }
}

/// Whether a message holds a decimal of so many minor units under a name.
pub open spec fn holds_decimal(message: Json, name: Seq<char>, minor: i64) -> bool {
    exists|value: Json| #[trigger] holds(message, name, value) && is_decimal(value, minor)
}

/// Whether a message holds a whole number under a name.
pub open spec fn holds_integer(message: Json, name: Seq<char>, n: int) -> bool {
    exists|value: Json| #[trigger] holds(message, name, value) && is_integer(value, n)
}

/// Whether a message holds a whole number that is not negative under a name.
pub open spec fn holds_natural(message: Json, name: Seq<char>, n: nat) -> bool {
    exists|value: Json| #[trigger] holds(message, name, value) && is_natural(value, n)
}

/// Whether a message holds a string under a name.
pub open spec fn holds_text(message: Json, name: Seq<char>, s: Seq<char>) -> bool {
    exists|value: Json| #[trigger]
        holds(message, name, value) && (value.kind matches JsonKind::Text(t) && t@ == s)
}

/// Whether a message holds a flag under a name.
pub open spec fn holds_flag(message: Json, name: Seq<char>, flag: bool) -> bool {
    exists|value: Json| #[trigger]
        holds(message, name, value) && (value.kind matches JsonKind::Bool(b) && b == flag)
}

/// Whether a time is so many milliseconds after the start of the epoch, as far as
/// it can be told.
pub open spec fn is_moment(ts: Ts, millis: int) -> bool {
    &&& i64::MIN <= millis * 1_000_000 <= i64::MAX ==> ts.0 == millis * 1_000_000
    &&& millis * 1_000_000 > i64::MAX ==> ts.0 == i64::MAX
    &&& millis * 1_000_000 < i64::MIN ==> ts.0 == i64::MIN
}

/// Whether a message holds a moment under a name.
pub open spec fn holds_moment(message: Json, name: Seq<char>, ts: Ts) -> bool {
    exists|millis: int| #[trigger] holds_integer(message, name, millis) && is_moment(ts, millis)
}

/// Whether a level is what a pair of decimals says: first the price, then the
/// size.
pub open spec fn is_pair(value: Json, level: (Price, Qty)) -> bool {
    value.kind matches JsonKind::Array(parts) && parts@.len() >= 2 && is_decimal(
        parts@[0],
        level.0.0,
    ) && is_decimal(parts@[1], level.1.0)
}

/// Whether levels are what a message holds under a name: none where there is
/// nothing, else one for each pair, in order.
pub open spec fn holds_levels(
    message: Json,
    name: Seq<char>,
    levels: Seq<(Price, Qty)>,
) -> bool {
    if exists|value: Json| #[trigger] holds(message, name, value) && !(value.kind is Null) {
        exists|value: Json| #[trigger]
            holds(message, name, value) && are_pairs(value, levels)
    } else {
        levels.len() == 0
    }
}

/// Whether levels are what a list of pairs says.
pub open spec fn are_pairs(value: Json, levels: Seq<(Price, Qty)>) -> bool {
    value.kind matches JsonKind::Array(items) && items@.len() == levels.len() && forall|i: int|
        0 <= i < levels.len() ==> is_pair(items@[i], #[trigger] levels[i])
}

proof fn lemma_place(fields: Seq<(String, Json)>, name: Seq<char>)
    ensures
        match field_place(fields, name) {
            Some(i) => stands_first(fields, name, i),
            None => forall|j: int| 0 <= j < fields.len() ==> (#[trigger] fields[j]).0@ != name,
        },
    decreases fields.len(),
{
    if fields.len() > 0 {
        let less = fields.drop_last();
        lemma_place(less, name);
        match field_place(less, name) {
            Some(i) => {
                assert(less[i] == fields[i]);
                assert forall|j: int| 0 <= j < i implies (#[trigger] fields[j]).0@ != name by {
                    assert(less[j] == fields[j]);
                }
            },
            None => {
                assert forall|j: int| 0 <= j < less.len() implies (#[trigger] fields[j]).0@
                    != name by {
                    assert(less[j] == fields[j]);
                }
            },
        }
    }
}

/// A field is looked up by its name; of several with one name the first counts.
pub proof fn law_fields_are_found_by_name(message: Json, name: Seq<char>, value: Json)
    ensures
        message.entry(name) == Some(value) <==> holds(message, name, value),
{
    if let JsonKind::Object(fields) = message.kind {
        lemma_place(fields@, name);
        if holds(message, name, value) {
            let i = choose|i: int| #[trigger]
                stands_first(fields@, name, i) && fields@[i].1 == value;
            match field_place(fields@, name) {
                Some(j) => {
                    if i < j {
                        assert(fields@[i].0@ != name);
                    }
                    if j < i {
                        assert(fields@[j].0@ != name);
                    }
                },
                None => {
                    assert(fields@[i].0@ != name);
                },
            }
        }
    }
}

proof fn lemma_found(message: Json, name: Seq<char>)
    ensures
        forall|value: Json| #[trigger]
            holds(message, name, value) <==> message.entry(name) == Some(value),
        message.entry(name) matches Some(value) ==> holds(message, name, value),
{
    assert forall|value: Json| #[trigger] holds(message, name, value) <==> message.entry(name)
        == Some(value) by {
        law_fields_are_found_by_name(message, name, value);
    }
}

proof fn lemma_levels(items: Seq<Json>, context: Seq<char>)
    ensures
        levels_of(items, context) matches Ok(levels) ==> items.len() == levels.len()
            && forall|i: int|
            0 <= i < levels.len() ==> is_pair(items[i], #[trigger] levels[i]),
    decreases items.len(),
{
    if items.len() > 0 {
        let less = items.drop_last();
        lemma_levels(less, context);
        if let Ok(levels) = levels_of(items, context) {
            let before = levels_of(less, context)->Ok_0;
            assert forall|i: int| 0 <= i < levels.len() implies is_pair(
                items[i],
                #[trigger] levels[i],
            ) by {
                if i < before.len() {
                    assert(levels[i] == before[i]);
                    assert(less[i] == items[i]);
                } else {
                    assert(level_of(items.last(), context) == Ok::<(Price, Qty), Fault>(levels[i]));
                }
            }
        }
    }
}

proof fn lemma_levels_held(message: Json, name: Seq<char>, context: Seq<char>)
    ensures
        levels_in(message, name, context) matches Ok(levels) ==> holds_levels(
            message,
            name,
            levels,
        ),
{
    lemma_found(message, name);
    if let Ok(levels) = levels_in(message, name, context) {
        if let Some(raw) = message.entry(name) {
            assert(holds(message, name, raw));
            if let JsonKind::Array(items) = raw.kind {
                lemma_levels(items@, context);
                assert(are_pairs(raw, levels));
            }
        }
    }
}

/// A Binance trade is read from its fields: the price from `p`, the size from `q`,
/// the time from `T` in milliseconds. Where `m` says that the buyer was resting,
/// the seller was the aggressor, and the other way round. The id is that of the
/// aggregate where there is one, else that of the trade. A message that has all of
/// them is a trade.
pub proof fn law_a_binance_trade_is_its_fields(message: Json)
    ensures
        binance::trade_in(message) matches Ok(trade) ==> {
            &&& holds_decimal(message, "p"@, trade.price.0)
            &&& holds_decimal(message, "q"@, trade.qty.0)
            &&& holds_moment(message, "T"@, trade.ts)
            &&& trade.aggressor is Sell ==> holds_flag(message, "m"@, true)
            &&& trade.aggressor is Buy ==> holds_flag(message, "m"@, false)
            &&& forall|id: nat| #[trigger] holds_natural(message, "a"@, id) ==> trade.id == id
            &&& forall|id: nat| #[trigger]
                holds_natural(message, "t"@, id) && !(exists|other: nat| #[trigger]
                    holds_natural(message, "a"@, other)) ==> trade.id == id
        },
        forall|flag: bool, millis: int, price: i64, qty: i64|
            #![trigger holds_flag(message, "m"@, flag), holds_integer(message, "T"@, millis), holds_decimal(message, "p"@, price), holds_decimal(message, "q"@, qty)]
            holds_flag(message, "m"@, flag) && holds_integer(message, "T"@, millis)
                && holds_decimal(message, "p"@, price) && holds_decimal(message, "q"@, qty)
                ==> binance::trade_in(message) is Ok,
{
    lemma_found(message, "m"@);
    lemma_found(message, "T"@);
    lemma_found(message, "p"@);
    lemma_found(message, "q"@);
    lemma_found(message, "a"@);
    lemma_found(message, "t"@);
    if let Ok(trade) = binance::trade_in(message) {
        let moment = message.entry("T"@)->0;
        let millis = crate::feed::json::int_of(moment)->0;
        assert(is_integer(moment, millis));
        assert(holds_integer(message, "T"@, millis));
        lemma_millis_fit(moment);
        assert(is_moment(trade.ts, millis));
        assert(is_decimal(message.entry("p"@)->0, trade.price.0));
        assert(is_decimal(message.entry("q"@)->0, trade.qty.0));
        if let Some(a) = message.entry("a"@) {
            if crate::feed::json::uint_of(a) is Some {
                assert(holds_natural(message, "a"@, crate::feed::json::uint_of(a)->0));
                lemma_natural_fits(a);
            }
        }
        if let Some(t) = message.entry("t"@) {
            if crate::feed::json::uint_of(t) is Some {
                assert(holds_natural(message, "t"@, crate::feed::json::uint_of(t)->0));
                lemma_natural_fits(t);
            }
        }
    }
}

proof fn lemma_millis_fit(value: Json)
    ensures
        crate::feed::json::int_of(value) matches Some(n) ==> i64::MIN <= n <= i64::MAX,
{
}

proof fn lemma_natural_fits(value: Json)
    ensures
        crate::feed::json::uint_of(value) matches Some(n) ==> n <= u64::MAX,
{
}

/// A Binance depth update is read from its fields: bids from `b`, asks from `a`,
/// the time from `E`, and the last id that it covers from `u`.
pub proof fn law_a_binance_depth_update_is_its_fields(message: Json)
    ensures
        binance::depth_update_in(message) matches Ok(event) ==> (event matches EventView::BookDelta {
            ts,
            bids,
            asks,
            sequence,
        } && holds_levels(message, "b"@, bids) && holds_levels(message, "a"@, asks)
            && holds_moment(message, "E"@, ts) && holds_natural(message, "u"@, sequence as nat)),
{
    lemma_found(message, "E"@);
    lemma_found(message, "u"@);
    lemma_levels_held(message, "b"@, "binance depthUpdate"@);
    lemma_levels_held(message, "a"@, "binance depthUpdate"@);
    if let Ok(event) = binance::depth_update_in(message) {
        let moment = message.entry("E"@)->0;
        let millis = crate::feed::json::int_of(moment)->0;
        assert(holds_integer(message, "E"@, millis));
        lemma_millis_fit(moment);
        lemma_natural_fits(message.entry("u"@)->0);
        assert(is_moment(event->BookDelta_ts, millis));
        assert(holds_natural(message, "u"@, event->BookDelta_sequence as nat));
    }
}

/// A Binance snapshot is read from its fields: bids, asks and the last id that it
/// contains. Its time is the one given.
pub proof fn law_a_binance_snapshot_is_its_fields(message: Json, now: Ts)
    ensures
        binance::snapshot_in(message, now) matches Ok(event) ==> (
        event matches EventView::BookSnapshot { ts, bids, asks, sequence } && ts == now
            && holds_levels(message, "bids"@, bids) && holds_levels(message, "asks"@, asks)
            && holds_natural(message, "lastUpdateId"@, sequence as nat)),
{
    lemma_found(message, "lastUpdateId"@);
    lemma_levels_held(message, "bids"@, "binance depth snapshot"@);
    lemma_levels_held(message, "asks"@, "binance depth snapshot"@);
    if let Ok(event) = binance::snapshot_in(message, now) {
        lemma_natural_fits(message.entry("lastUpdateId"@)->0);
        assert(holds_natural(message, "lastUpdateId"@, event->BookSnapshot_sequence as nat));
    }
}

/// A page of trades is read one by one, in order; one that fails fails the page.
pub proof fn law_a_page_is_read_in_order(items: Seq<Json>)
    ensures
        binance::trades_in(items) is Ok <==> forall|i: int|
            0 <= i < items.len() ==> binance::trade_in(#[trigger] items[i]) is Ok,
        binance::trades_in(items) matches Ok(trades) ==> trades.len() == items.len() && forall|
            i: int,
        |
            0 <= i < items.len() ==> binance::trade_in(items[i]) == Ok::<Trade, Fault>(
                #[trigger] trades[i],
            ),
    decreases items.len(),
{
    if items.len() > 0 {
        let less = items.drop_last();
        let n = less.len() as int;
        law_a_page_is_read_in_order(less);
        assert forall|i: int| 0 <= i < n implies #[trigger] less[i] == items[i] by {}
        if forall|i: int| 0 <= i < items.len() ==> binance::trade_in(#[trigger] items[i]) is Ok {
            assert(binance::trade_in(items[n]) is Ok);
            assert forall|i: int| 0 <= i < less.len() implies binance::trade_in(
                #[trigger] less[i],
            ) is Ok by {
                assert(binance::trade_in(items[i]) is Ok);
            }
        }
        if binance::trades_in(items) is Ok {
            let before = binance::trades_in(less)->Ok_0;
            let trades = binance::trades_in(items)->Ok_0;
            assert forall|i: int| 0 <= i < items.len() implies binance::trade_in(items[i]) == Ok::<
                Trade,
                Fault,
            >(#[trigger] trades[i]) by {
                if i < n {
                    assert(trades[i] == before[i]);
                    assert(less[i] == items[i]);
                }
            }
            assert forall|i: int| 0 <= i < items.len() implies binance::trade_in(
                #[trigger] items[i],
            ) is Ok by {
                assert(binance::trade_in(items[i]) == Ok::<Trade, Fault>(trades[i]));
            }
        }
    }
}

/// A Binance message is handled by its kind: trades of either kind as trades,
/// depth updates as such, and nothing else. One that came in an envelope is taken
/// out of it.
pub proof fn law_binance_messages_are_told_apart(message: Json, kind: Seq<char>)
    requires
        !(message.entry("stream"@) is Some && message.entry("data"@) is Some),
        holds_text(message, "e"@, kind),
    ensures
        binance::payload_of(message) == message,
        kind == "aggTrade"@ || kind == "trade"@ ==> (binance::message_in(message) is Ok
            <==> binance::trade_in(message) is Ok) && (binance::message_in(message) matches Ok(event)
            ==> event == EventView::Trade(binance::trade_in(message)->Ok_0)),
        kind == "depthUpdate"@ ==> binance::message_in(message) == binance::depth_update_in(
            message,
        ),
        kind != "aggTrade"@ && kind != "trade"@ && kind != "depthUpdate"@ ==> binance::message_in(
            message,
        ) == Err::<EventView, Fault>(Fault::Unhandled(kind)),
{
    lemma_found(message, "e"@);
    reveal_strlit("aggTrade");
    reveal_strlit("trade");
    reveal_strlit("depthUpdate");
    assert("aggTrade"@.len() == 8 && "trade"@.len() == 5 && "depthUpdate"@.len() == 11);
}

/// A message in an envelope says what its payload says.
pub proof fn law_envelopes_are_opened(message: Json, data: Json, stream: Json)
    requires
        holds(message, "data"@, data),
        holds(message, "stream"@, stream),
    ensures
        binance::payload_of(message) == data,
{
    lemma_found(message, "data"@);
    lemma_found(message, "stream"@);
}

/// A Bybit trade is read from its fields: the price from `p`, the size from `v`,
/// the time from `T` in milliseconds, and the aggressor from `S` as it stands. A
/// message that has all of them is a trade.
pub proof fn law_a_bybit_trade_is_its_fields(entry: Json)
    ensures
        bybit::entry_trade(entry) matches Ok(trade) ==> {
            &&& holds_decimal(entry, "p"@, trade.price.0)
            &&& holds_decimal(entry, "v"@, trade.qty.0)
            &&& holds_moment(entry, "T"@, trade.ts)
            &&& trade.aggressor is Buy ==> holds_text(entry, "S"@, "Buy"@)
            &&& trade.aggressor is Sell ==> holds_text(entry, "S"@, "Sell"@)
            &&& trade.id == 0
        },
        forall|side: Seq<char>, millis: int, price: i64, qty: i64|
            #![trigger holds_text(entry, "S"@, side), holds_integer(entry, "T"@, millis), holds_decimal(entry, "p"@, price), holds_decimal(entry, "v"@, qty)]
            holds_text(entry, "S"@, side) && holds_integer(entry, "T"@, millis) && holds_decimal(
                entry,
                "p"@,
                price,
            ) && holds_decimal(entry, "v"@, qty) ==> (bybit::entry_trade(entry) is Ok <==> side
                == "Buy"@ || side == "Sell"@),
{
    lemma_found(entry, "S"@);
    lemma_found(entry, "T"@);
    lemma_found(entry, "p"@);
    lemma_found(entry, "v"@);
    if let Ok(trade) = bybit::entry_trade(entry) {
        let moment = entry.entry("T"@)->0;
        let millis = crate::feed::json::int_of(moment)->0;
        assert(holds_integer(entry, "T"@, millis));
        lemma_millis_fit(moment);
        assert(is_moment(trade.ts, millis));
        assert(is_decimal(entry.entry("p"@)->0, trade.price.0));
        assert(is_decimal(entry.entry("v"@)->0, trade.qty.0));
    }
}

/// A Bybit book message is read from its fields: `type` tells a snapshot from a
/// delta, `ts` is its time, and its data holds bids in `b`, asks in `a` and the id
/// in `u`.
pub proof fn law_a_bybit_book_is_its_fields(message: Json, data: Json)
    requires
        holds(message, "data"@, data),
    ensures
        bybit::orderbook_in(message) matches Ok(event) ==> match event {
            EventView::BookSnapshot { ts, bids, asks, sequence } => holds_text(
                message,
                "type"@,
                "snapshot"@,
            ) && holds_moment(message, "ts"@, ts) && holds_levels(data, "b"@, bids)
                && holds_levels(data, "a"@, asks) && holds_natural(data, "u"@, sequence as nat),
            EventView::BookDelta { ts, bids, asks, sequence } => holds_text(
                message,
                "type"@,
                "delta"@,
            ) && holds_moment(message, "ts"@, ts) && holds_levels(data, "b"@, bids)
                && holds_levels(data, "a"@, asks) && holds_natural(data, "u"@, sequence as nat),
            _ => false,
        },
{
    lemma_found(message, "data"@);
    lemma_found(message, "type"@);
    lemma_found(message, "ts"@);
    lemma_found(data, "u"@);
    lemma_levels_held(data, "b"@, "bybit orderbook"@);
    lemma_levels_held(data, "a"@, "bybit orderbook"@);
    if let Ok(event) = bybit::orderbook_in(message) {
        let moment = message.entry("ts"@)->0;
        let millis = crate::feed::json::int_of(moment)->0;
        assert(holds_integer(message, "ts"@, millis));
        lemma_millis_fit(moment);
        assert(is_moment(binance::millis_ts(millis as i64), millis));
        let id = data.entry("u"@)->0;
        lemma_natural_fits(id);
        assert(holds_natural(data, "u"@, crate::feed::json::uint_of(id)->0));
    }
}

/// Whether a text begins with a word.
pub open spec fn begins(s: Seq<char>, word: Seq<char>) -> bool {
    exists|rest: Seq<char>| #[trigger] (word + rest) == s
}

/// A Bybit message is handled by its topic: public trades as one event for each of
/// its data, order books as one event, and nothing else.
pub proof fn law_bybit_messages_are_told_apart(message: Json, topic: Seq<char>)
    requires
        holds_text(message, "topic"@, topic),
    ensures
        begins(topic, "publicTrade"@) ==> (bybit::message_in(message) is Ok <==> bybit::trades_in(
            message,
        ) is Ok) && (bybit::message_in(message) matches Ok(events) ==> {
            let trades = bybit::trades_in(message)->Ok_0;
            events.len() == trades.len() && forall|i: int|
                0 <= i < events.len() ==> #[trigger] events[i] == EventView::Trade(trades[i])
        }),
        begins(topic, "orderbook"@) ==> (bybit::message_in(message) is Ok <==> bybit::orderbook_in(
            message,
        ) is Ok) && (bybit::message_in(message) matches Ok(events) ==> events.len() == 1 && events[0]
            == bybit::orderbook_in(message)->Ok_0),
        !begins(topic, "publicTrade"@) && !begins(topic, "orderbook"@) ==> bybit::message_in(message)
            == Err::<Seq<EventView>, Fault>(Fault::Unhandled(topic)),
{
    lemma_found(message, "topic"@);
    lemma_begins(topic, "publicTrade"@);
    lemma_begins(topic, "orderbook"@);
    reveal_strlit("publicTrade");
    reveal_strlit("orderbook");
    if starts(topic, "publicTrade"@) && starts(topic, "orderbook"@) {
        assert(topic.take(11)[0] == topic[0]);
        assert(topic.take(9)[0] == topic[0]);
    }
}

pub proof fn lemma_begins(s: Seq<char>, word: Seq<char>)
    ensures
        begins(s, word) <==> starts(s, word),
{
    if begins(s, word) {
        let rest = choose|rest: Seq<char>| #[trigger] (word + rest) == s;
        assert((word + rest).take(word.len() as int) =~= word);
    }
    if starts(s, word) {
        let rest = s.skip(word.len() as int);
        assert(word + rest =~= s);
    }
}

/// The data of a Bybit message are its trades.
pub proof fn law_bybit_trades_are_the_data(message: Json, data: Json, items: Vec<Json>)
    requires
        holds(message, "data"@, data),
        data.kind == JsonKind::Array(items),
    ensures
        bybit::trades_in(message) == bybit::entry_trades(items@),
{
    lemma_found(message, "data"@);
}

/// The trades of a Bybit message are read one by one, in order; one that fails
/// fails the message.
pub proof fn law_bybit_trades_are_read_in_order(items: Seq<Json>)
    ensures
        bybit::entry_trades(items) matches Ok(trades) ==> trades.len() == items.len() && forall|
            i: int,
        |
            0 <= i < items.len() ==> bybit::entry_trade(items[i]) == Ok::<Trade, Fault>(
                #[trigger] trades[i],
            ),
        (forall|i: int|
            0 <= i < items.len() ==> bybit::entry_trade(#[trigger] items[i]) is Ok)
            ==> bybit::entry_trades(items) is Ok,
    decreases items.len(),
{
    if items.len() > 0 {
        let less = items.drop_last();
        let n = less.len() as int;
        law_bybit_trades_are_read_in_order(less);
        assert forall|i: int| 0 <= i < n implies #[trigger] less[i] == items[i] by {}
        if forall|i: int| 0 <= i < items.len() ==> bybit::entry_trade(#[trigger] items[i]) is Ok {
            assert(bybit::entry_trade(items[n]) is Ok);
            assert forall|i: int| 0 <= i < less.len() implies bybit::entry_trade(
                #[trigger] less[i],
            ) is Ok by {
                assert(bybit::entry_trade(items[i]) is Ok);
            }
        }
        if bybit::entry_trades(items) is Ok {
            let before = bybit::entry_trades(less)->Ok_0;
            let trades = bybit::entry_trades(items)->Ok_0;
            assert forall|i: int| 0 <= i < items.len() implies bybit::entry_trade(items[i]) == Ok::<
                Trade,
                Fault,
            >(#[trigger] trades[i]) by {
                if i < n {
                    assert(trades[i] == before[i]);
                    assert(less[i] == items[i]);
                }
            }
        }
    }
}

} // verus!
