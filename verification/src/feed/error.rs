//! Feed errors.

use crate::primitives::fixed::ParseFixedError;
use crate::store::error::StoreError;
use vstd::prelude::*;

verus! {

/// `serde_json::Error`, carried through without looking inside.
#[verifier::external_type_specification]
#[verifier::external_body]
pub struct ExJsonError(serde_json::Error);

/// Anything that can go wrong translating a venue's wire format.
#[derive(Debug)]
pub enum FeedError {
    /// The payload was not valid JSON.
    Json(serde_json::Error),
    /// A field the adapter depends on was missing.
    MissingField {
        /// Name of the absent field.
        field: &'static str,
        /// Which message it was absent from.
        context: &'static str,
    },
    /// A field was present but could not be interpreted.
    BadField {
        /// Name of the offending field.
        field: &'static str,
        /// Which message it came from.
        context: &'static str,
        /// The value as received.
        value: String,
    },
    /// A numeric field could not be parsed as a fixed-point decimal.
    BadNumber {
        /// Name of the offending field.
        field: &'static str,
        /// Which message it came from.
        context: &'static str,
        /// The underlying parse failure.
        source: ParseFixedError,
    },
    /// The message was well-formed but is not one this adapter handles.
    /// Callers should skip it rather than treat it as a failure.
    Unhandled(String),
    /// Reading recorded or stored history failed.
    Store(StoreError),
}

/// What a feed error says.
pub enum Fault {
    Json,
    Missing { field: Seq<char>, context: Seq<char> },
    Bad { field: Seq<char>, context: Seq<char>, value: Seq<char> },
    Number { field: Seq<char>, context: Seq<char>, source: ParseFixedError },
    Unhandled(Seq<char>),
    Store(StoreError),
}

impl View for FeedError {
    type V = Fault;

    open spec fn view(&self) -> Fault {
        match self {
            FeedError::Json(_) => Fault::Json,
            FeedError::MissingField { field, context } => Fault::Missing {
                field: field@,
                context: context@,
            },
            FeedError::BadField { field, context, value } => Fault::Bad {
                field: field@,
                context: context@,
                value: value@,
            },
            FeedError::BadNumber { field, context, source } => Fault::Number {
                field: field@,
                context: context@,
                source: *source,
            },
            FeedError::Unhandled(kind) => Fault::Unhandled(kind@),
            FeedError::Store(e) => Fault::Store(*e),
        }
    }
}

/// A result, with its error as it reads.
pub open spec fn seen<T>(r: Result<T, FeedError>) -> Result<T, Fault> {
    match r {
        Ok(v) => Ok(v),
        Err(e) => Err(e@),
    }
}

} // verus!
