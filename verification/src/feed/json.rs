//! Shared helpers for pulling typed values out of venue JSON.
//!
//! Every accessor names the field and the message it came from, so a feed that
//! changes shape produces an error that says exactly what moved.

use crate::feed::error::FeedError;
use crate::primitives::fixed::{Price, Qty};
use crate::text::{chars_of, parse_signed, parse_unsigned, same_text};
use vstd::prelude::*;

verus! {

use crate::feed::error::{seen, Fault};
use crate::primitives::fixed::parsed;
use crate::text::{signed_text, unsigned_text};

/// A JSON value, as far as the adapters look at it.
#[derive(Debug)]
pub struct Json {
    /// The value written out as compact JSON.
    pub text: String,
    /// What the value is.
    pub kind: JsonKind,
}

/// What a JSON value is.
#[derive(Debug)]
pub enum JsonKind {
    /// `null`.
    Null,
    /// `true` or `false`.
    Bool(bool),
    /// A number, as the integers it fits into.
    Number {
        /// The number, if it is a 64-bit signed integer.
        int: Option<i64>,
        /// The number, if it is a 64-bit unsigned integer.
        uint: Option<u64>,
    },
    /// A string.
    Text(String),
    /// An array.
    Array(Vec<Json>),
    /// An object, every name once.
    Object(Vec<(String, Json)>),
}

/// `serde_json::Value`, handed straight on to be converted.
#[verifier::external_type_specification]
#[verifier::external_body]
pub struct ExJsonValue(serde_json::Value);

/// What `serde_json` makes of a text, nothing where it is not JSON.
pub uninterp spec fn json_of(raw: Seq<char>) -> Option<Json>;

/// Calls `serde_json::from_str` for a `serde_json::Value` and hands the value
/// out as a [`Json`], node for node. Claims only that the outcome depends on
/// the text alone.
#[verifier::external_body]
fn read_json(raw: &str) -> (r: Result<Json, serde_json::Error>)
    ensures
        match r {
            Ok(value) => json_of(raw@) == Some(value),
            Err(_) => json_of(raw@) is None,
        },
{
    serde_json::from_str::<serde_json::Value>(raw).map(from_value)
}

/// Converts a `serde_json::Value` to a [`Json`], node for node: the text of a
/// node is what `Value::to_string` writes, a number keeps what `as_i64` and
/// `as_u64` give.
#[verifier::external_body]
fn from_value(value: serde_json::Value) -> (r: Json) {
    let text = value.to_string();
    let kind = match value {
        serde_json::Value::Null => JsonKind::Null,
        serde_json::Value::Bool(b) => JsonKind::Bool(b),
        serde_json::Value::Number(n) => JsonKind::Number { int: n.as_i64(), uint: n.as_u64() },
        serde_json::Value::String(s) => JsonKind::Text(s),
        serde_json::Value::Array(a) => JsonKind::Array(a.into_iter().map(from_value).collect()),
        serde_json::Value::Object(o) => JsonKind::Object(
            o.into_iter().map(|(name, v)| (name, from_value(v))).collect(),
        ),
    };
    Json { text, kind }
}

/// Parse a JSON text.
pub fn parse_json(raw: &str) -> (r: Result<Json, FeedError>)
    ensures
        match json_of(raw@) {
            Some(value) => r == Ok::<Json, FeedError>(value),
            None => r matches Err(e) && e@ is Json,
        },
{
    match read_json(raw) {
        Ok(value) => Ok(value),
        Err(e) => Err(FeedError::Json(e)),
    }
}

/// The position of the first field with this name.
pub open spec fn field_place(fields: Seq<(String, Json)>, name: Seq<char>) -> Option<int>
    decreases fields.len(),
{
    if fields.len() == 0 {
        None
    } else {
        match field_place(fields.drop_last(), name) {
            Some(i) => Some(i),
            None => if fields.last().0@ == name {
                Some(fields.len() - 1)
            } else {
                None
            },
        }
    }
}

impl Json {
    /// The value of a field, if this is an object that has it.
    pub open spec fn entry(self, name: Seq<char>) -> Option<Json> {
        match self.kind {
            JsonKind::Object(fields) => match field_place(fields@, name) {
                Some(i) => Some(fields@[i].1),
                None => None,
            },
            _ => None,
        }
    }

    /// The characters of a string.
    pub open spec fn string(self) -> Option<Seq<char>> {
        match self.kind {
            JsonKind::Text(s) => Some(s@),
            _ => None,
        }
    }

    /// The value of a field, if this is an object that has it.
    pub fn get(&self, name: &str) -> (r: Option<&Json>)
        ensures
            match r {
                Some(v) => self.entry(name@) == Some(*v),
                None => self.entry(name@) is None,
            },
    {
        match &self.kind {
            JsonKind::Object(fields) => {
                let mut i: usize = 0;
                assert(fields@.take(0) =~= Seq::<(String, Json)>::empty());
                while i < fields.len()
                    invariant
                        i <= fields@.len(),
                        self.kind == JsonKind::Object(*fields),
                        field_place(fields@.take(i as int), name@) is None,
                    decreases fields@.len() - i,
                {
                    let ghost next = fields@.take(i + 1);
                    assert(next.drop_last() =~= fields@.take(i as int));
                    assert(next.last() == fields@[i as int]);
                    if same_text(fields[i].0.as_str(), name) {
                        proof {
                            lemma_place_is_kept(fields@, name@, i + 1);
                        }
                        return Some(&fields[i].1);
                    }
                    i += 1;
                }
                assert(fields@.take(i as int) =~= fields@);
                None
            },
            _ => None,
        }
    }

    /// The characters of a string.
    pub fn as_str(&self) -> (r: Option<&str>)
        ensures
            match r {
                Some(s) => self.string() == Some(s@),
                None => self.string() is None,
            },
    {
        match &self.kind {
            JsonKind::Text(s) => Some(s.as_str()),
            _ => None,
        }
    }
}

proof fn lemma_place_is_kept(fields: Seq<(String, Json)>, name: Seq<char>, k: int)
    requires
        0 <= k <= fields.len(),
        field_place(fields.take(k), name) is Some,
    ensures
        field_place(fields, name) == field_place(fields.take(k), name),
    decreases fields.len() - k,
{
    if k == fields.len() {
        assert(fields.take(k) =~= fields);
    } else {
        assert(fields.take(k + 1).drop_last() =~= fields.take(k));
        lemma_place_is_kept(fields, name, k + 1);
    }
}

/// A field, or which one was missing.
pub open spec fn field_in(v: Json, name: Seq<char>, context: Seq<char>) -> Result<Json, Fault> {
    match v.entry(name) {
        Some(value) => Ok(value),
        None => Err(Fault::Missing { field: name, context }),
    }
}

/// A field whose value cannot be used.
pub open spec fn bad(name: Seq<char>, context: Seq<char>, value: Json) -> Fault {
    Fault::Bad { field: name, context, value: value.text@ }
}

/// A string field.
pub open spec fn str_in(v: Json, name: Seq<char>, context: Seq<char>) -> Result<Seq<char>, Fault> {
    match field_in(v, name, context) {
        Err(e) => Err(e),
        Ok(raw) => match raw.string() {
            Some(s) => Ok(s),
            None => Err(bad(name, context, raw)),
        },
    }
}

/// The signed integer that a number or a numeric string stands for.
pub open spec fn int_of(raw: Json) -> Option<int> {
    match raw.kind {
        JsonKind::Number { int: Some(n), .. } => Some(n as int),
        JsonKind::Text(s) => signed_text(s@),
        _ => None,
    }
}

/// The unsigned integer that a number or a numeric string stands for.
pub open spec fn uint_of(raw: Json) -> Option<nat> {
    match raw.kind {
        JsonKind::Number { uint: Some(n), .. } => Some(n as nat),
        JsonKind::Text(s) => unsigned_text(s@, u64::MAX as nat),
        _ => None,
    }
}

/// A signed integer field.
pub open spec fn int_in(v: Json, name: Seq<char>, context: Seq<char>) -> Result<i64, Fault> {
    match field_in(v, name, context) {
        Err(e) => Err(e),
        Ok(raw) => match int_of(raw) {
            Some(n) => Ok(n as i64),
            None => Err(bad(name, context, raw)),
        },
    }
}

/// An unsigned integer field.
pub open spec fn uint_in(v: Json, name: Seq<char>, context: Seq<char>) -> Result<u64, Fault> {
    match field_in(v, name, context) {
        Err(e) => Err(e),
        Ok(raw) => match uint_of(raw) {
            Some(n) => Ok(n as u64),
            None => Err(bad(name, context, raw)),
        },
    }
}

/// A decimal as text, whether it is quoted or not.
pub open spec fn decimal_of(raw: Json) -> Option<Seq<char>> {
    match raw.kind {
        JsonKind::Text(s) => Some(s@),
        JsonKind::Number { .. } => Some(raw.text@),
        _ => None,
    }
}

/// A decimal value, in minor units.
pub open spec fn minor_of(raw: Json, name: Seq<char>, context: Seq<char>) -> Result<i64, Fault> {
    match decimal_of(raw) {
        None => Err(bad(name, context, raw)),
        Some(text) => match parsed(text) {
            Ok(minor) => Ok(minor),
            Err(source) => Err(Fault::Number { field: name, context, source }),
        },
    }
}

/// A decimal field, in minor units.
pub open spec fn minor_in(v: Json, name: Seq<char>, context: Seq<char>) -> Result<i64, Fault> {
    match field_in(v, name, context) {
        Err(e) => Err(e),
        Ok(raw) => minor_of(raw, name, context),
    }
}

/// A `["price", "qty"]` pair.
pub open spec fn level_of(v: Json, context: Seq<char>) -> Result<(Price, Qty), Fault> {
    match v.kind {
        JsonKind::Array(items) => if items@.len() < 2 {
            Err(bad("level"@, context, v))
        } else {
            match minor_of(items@[0], "level price"@, context) {
                Err(e) => Err(e),
                Ok(price) => match minor_of(items@[1], "level qty"@, context) {
                    Err(e) => Err(e),
                    Ok(qty) => Ok((Price(price), Qty(qty))),
                },
            }
        },
        _ => Err(bad("level"@, context, v)),
    }
}

/// Several such pairs; the first that fails decides.
pub open spec fn levels_of(items: Seq<Json>, context: Seq<char>) -> Result<
    Seq<(Price, Qty)>,
    Fault,
>
    decreases items.len(),
{
    if items.len() == 0 {
        Ok(Seq::<(Price, Qty)>::empty())
    } else {
        match levels_of(items.drop_last(), context) {
            Err(e) => Err(e),
            Ok(levels) => match level_of(items.last(), context) {
                Err(e) => Err(e),
                Ok(level) => Ok(levels.push(level)),
            },
        }
    }
}

/// A field of such pairs. One that is absent or null has none.
pub open spec fn levels_in(v: Json, name: Seq<char>, context: Seq<char>) -> Result<
    Seq<(Price, Qty)>,
    Fault,
> {
    match v.entry(name) {
        None => Ok(Seq::<(Price, Qty)>::empty()),
        Some(raw) => match raw.kind {
            JsonKind::Null => Ok(Seq::<(Price, Qty)>::empty()),
            JsonKind::Array(items) => levels_of(items@, context),
            _ => Err(bad(name, context, raw)),
        },
    }
}

/// Fetch a field or report which one was missing.
pub fn field<'a>(v: &'a Json, name: &'static str, context: &'static str) -> (r: Result<
    &'a Json,
    FeedError,
>)
    ensures
        match r {
            Ok(value) => field_in(*v, name@, context@) == Ok::<Json, Fault>(*value),
            Err(e) => field_in(*v, name@, context@) == Err::<Json, Fault>(e@),
        },
{
    match v.get(name) {
        Some(value) => Ok(value),
        None => Err(FeedError::MissingField { field: name, context }),
    }
}

fn bad_field(name: &'static str, context: &'static str, value: &Json) -> (r: FeedError)
    ensures
        r@ == bad(name@, context@, *value),
{
    FeedError::BadField { field: name, context, value: value.text.clone() }
}

/// Read a string field.
pub fn str_field<'a>(v: &'a Json, name: &'static str, context: &'static str) -> (r: Result<
    &'a str,
    FeedError,
>)
    ensures
        match r {
            Ok(s) => str_in(*v, name@, context@) == Ok::<Seq<char>, Fault>(s@),
            Err(e) => str_in(*v, name@, context@) == Err::<Seq<char>, Fault>(e@),
        },
{
    let raw = match field(v, name, context) {
        Ok(raw) => raw,
        Err(e) => {
            return Err(e);
        },
    };
    match raw.as_str() {
        Some(s) => Ok(s),
        None => Err(bad_field(name, context, raw)),
    }
}

/// Read an integer field, accepting a JSON number or a numeric string.
///
/// Venues are inconsistent about this even between their own endpoints, so
/// accepting both is the actual contract.
pub fn int_field(v: &Json, name: &'static str, context: &'static str) -> (r: Result<i64, FeedError>)
    ensures
        seen(r) == int_in(*v, name@, context@),
{
    let raw = match field(v, name, context) {
        Ok(raw) => raw,
        Err(e) => {
            return Err(e);
        },
    };
    match &raw.kind {
        JsonKind::Number { int: Some(n), .. } => {
            return Ok(*n);
        },
        JsonKind::Text(s) => {
            let chars = chars_of(s.as_str());
            if let Some(n) = parse_signed(&chars) {
                return Ok(n);
            }
        },
        _ => {},
    }
    Err(bad_field(name, context, raw))
}

/// Read an unsigned integer field, accepting a number or numeric string.
pub fn uint_field(v: &Json, name: &'static str, context: &'static str) -> (r: Result<
    u64,
    FeedError,
>)
    ensures
        seen(r) == uint_in(*v, name@, context@),
{
    let raw = match field(v, name, context) {
        Ok(raw) => raw,
        Err(e) => {
            return Err(e);
        },
    };
    match &raw.kind {
        JsonKind::Number { uint: Some(n), .. } => {
            return Ok(*n);
        },
        JsonKind::Text(s) => {
            let chars = chars_of(s.as_str());
            if let Some(n) = parse_unsigned(&chars, u64::MAX as u128) {
                return Ok(n as u64);
            }
        },
        _ => {},
    }
    Err(bad_field(name, context, raw))
}

/// A decimal value, whether the venue quoted it or not, in minor units.
///
/// Venues send prices as strings precisely so clients do not route them
/// through a float; the text is parsed directly into fixed point.
fn decimal_minor(raw: &Json, name: &'static str, context: &'static str) -> (r: Result<
    i64,
    FeedError,
>)
    ensures
        seen(r) == minor_of(*raw, name@, context@),
{
    let text = match &raw.kind {
        JsonKind::Text(s) => s.as_str(),
        JsonKind::Number { .. } => raw.text.as_str(),
        _ => {
            return Err(bad_field(name, context, raw));
        },
    };
    match crate::primitives::fixed::parse_minor(text) {
        Ok(minor) => Ok(minor),
        Err(source) => Err(FeedError::BadNumber { field: name, context, source }),
    }
}

/// Read a decimal field into a [`Price`].
pub fn price_field(v: &Json, name: &'static str, context: &'static str) -> (r: Result<
    Price,
    FeedError,
>)
    ensures
        match r {
            Ok(price) => minor_in(*v, name@, context@) == Ok::<i64, Fault>(price.0),
            Err(e) => minor_in(*v, name@, context@) == Err::<i64, Fault>(e@),
        },
{
    match field(v, name, context) {
        Ok(raw) => match decimal_minor(raw, name, context) {
            Ok(minor) => Ok(Price(minor)),
            Err(e) => Err(e),
        },
        Err(e) => Err(e),
    }
}

/// Read a decimal field into a [`Qty`].
pub fn qty_field(v: &Json, name: &'static str, context: &'static str) -> (r: Result<
    Qty,
    FeedError,
>)
    ensures
        match r {
            Ok(qty) => minor_in(*v, name@, context@) == Ok::<i64, Fault>(qty.0),
            Err(e) => minor_in(*v, name@, context@) == Err::<i64, Fault>(e@),
        },
{
    match field(v, name, context) {
        Ok(raw) => match decimal_minor(raw, name, context) {
            Ok(minor) => Ok(Qty(minor)),
            Err(e) => Err(e),
        },
        Err(e) => Err(e),
    }
}

/// Parse a `["price", "qty"]` book level pair.
pub fn level_pair(v: &Json, context: &'static str) -> (r: Result<(Price, Qty), FeedError>)
    ensures
        seen(r) == level_of(*v, context@),
{
    match &v.kind {
        JsonKind::Array(items) => {
            if items.len() < 2 {
                return Err(bad_field("level", context, v));
            }
            let price = match decimal_minor(&items[0], "level price", context) {
                Ok(minor) => Price(minor),
                Err(e) => {
                    return Err(e);
                },
            };
            let qty = match decimal_minor(&items[1], "level qty", context) {
                Ok(minor) => Qty(minor),
                Err(e) => {
                    return Err(e);
                },
            };
            Ok((price, qty))
        },
        _ => Err(bad_field("level", context, v)),
    }
}

/// Parse an array of `["price", "qty"]` pairs.
pub fn level_array(v: &Json, name: &'static str, context: &'static str) -> (r: Result<
    Vec<(Price, Qty)>,
    FeedError,
>)
    ensures
        match r {
            Ok(levels) => levels_in(*v, name@, context@) == Ok::<Seq<(Price, Qty)>, Fault>(
                levels@,
            ),
            Err(e) => levels_in(*v, name@, context@) == Err::<Seq<(Price, Qty)>, Fault>(e@),
        },
{
    let mut out: Vec<(Price, Qty)> = Vec::new();
    let raw = match v.get(name) {
        Some(raw) => raw,
        None => {
            // An absent side simply means no updates for it in this message.
            return Ok(out);
        },
    };
    match &raw.kind {
        JsonKind::Null => Ok(out),
        JsonKind::Array(items) => {
            let mut i: usize = 0;
            assert(items@.take(0) =~= Seq::<Json>::empty());
            while i < items.len()
                invariant
                    i <= items@.len(),
                    v.entry(name@) == Some(*raw),
                    raw.kind == JsonKind::Array(*items),
                    levels_of(items@.take(i as int), context@) == Ok::<
                        Seq<(Price, Qty)>,
                        Fault,
                    >(out@),
                decreases items@.len() - i,
            {
                let ghost next = items@.take(i + 1);
                assert(next.drop_last() =~= items@.take(i as int));
                assert(next.last() == items@[i as int]);
                match level_pair(&items[i], context) {
                    Ok(level) => {
                        out.push(level);
                    },
                    Err(e) => {
                        proof {
                            lemma_failure_is_kept(items@, context@, i + 1);
                        }
                        return Err(e);
                    },
                }
                i += 1;
            }
            assert(items@.take(i as int) =~= items@);
            Ok(out)
        },
        _ => Err(bad_field(name, context, raw)),
    }
}

proof fn lemma_failure_is_kept(items: Seq<Json>, context: Seq<char>, k: int)
    requires
        0 <= k <= items.len(),
        levels_of(items.take(k), context) is Err,
    ensures
        levels_of(items, context) == levels_of(items.take(k), context),
    decreases items.len() - k,
{
    if k == items.len() {
        assert(items.take(k) =~= items);
    } else {
        assert(items.take(k + 1).drop_last() =~= items.take(k));
        lemma_failure_is_kept(items, context, k + 1);
    }
}

} // verus!
