//! The pure parts of the HTTP and GraphQL server: the listening port, the
//! defaults of list sizes, and how a failure is answered.

use vstd::prelude::*;
use crate::agent::nlp::{address_in, intent_of, lowercase, number_in, parse_user_input, quoted_in, ParsedIntent};
use crate::numbers::{parse_u16, parsed_unsigned};
use crate::text::owned;

verus! {

/// The port listened on when none is configured.
pub const DEFAULT_PORT: u16 = 3001;

/// The port to listen on, given the configured value (the `PORT`
/// setting, when set): that value when it is a valid `u16`, else 3001.
pub open spec fn port_choice(configured: Option<Seq<char>>) -> u16 {
    match configured {
        Some(v) => match parsed_unsigned(v, u16::MAX as nat) {
            Some(n) => n as u16,
            None => DEFAULT_PORT,
        },
        None => DEFAULT_PORT,
    }
}

/// The port to listen on, given the configured value, if any.
pub fn port_from(configured: Option<&str>) -> (r: u16)
    ensures
        r == port_choice(match configured {
            Some(v) => Some(v@),
            None => None,
        }),
{
    match configured {
        Some(v) => match parse_u16(v) {
            Some(n) => n,
            None => DEFAULT_PORT,
        },
        None => DEFAULT_PORT,
    }
}

/// The GraphQL query root; its list fields default to ten top buyers, ten
/// collectors and twenty collections.
pub struct QueryRoot;

impl QueryRoot {
    pub const DEFAULT_TOP_N: u32 = 10;

    pub const DEFAULT_COLLECTORS: u32 = 10;

    pub const DEFAULT_COLLECTIONS: u32 = 20;
}

/// The `top_n` and `count` query parameters of the REST routes.
#[derive(Debug, Clone, Copy)]
pub struct LimitQuery {
    pub top_n: Option<u32>,
    pub count: Option<u32>,
}

impl LimitQuery {
    /// How many top buyers to list: `top_n`, ten by default.
    pub fn top_n_or_default(&self) -> (r: u32)
        ensures
            r == (match self.top_n {
                Some(n) => n,
                None => QueryRoot::DEFAULT_TOP_N,
            }),
    {
        match self.top_n {
            Some(n) => n,
            None => QueryRoot::DEFAULT_TOP_N,
        }
    }

    /// How many collectors to list: `count`, ten by default.
    pub fn collectors_count(&self) -> (r: u32)
        ensures
            r == (match self.count {
                Some(n) => n,
                None => QueryRoot::DEFAULT_COLLECTORS,
            }),
    {
        match self.count {
            Some(n) => n,
            None => QueryRoot::DEFAULT_COLLECTORS,
        }
    }

    /// How many collections to list: `count`, twenty by default.
    pub fn collections_count(&self) -> (r: u32)
        ensures
            r == (match self.count {
                Some(n) => n,
                None => QueryRoot::DEFAULT_COLLECTIONS,
            }),
    {
        match self.count {
            Some(n) => n,
            None => QueryRoot::DEFAULT_COLLECTIONS,
        }
    }
}

/// A failed request, answered with `502 Bad Gateway` and the failure's
/// message.
#[derive(Debug, Clone)]
pub struct ApiError {
    pub message: String,
}

/// The status a failed request is answered with.
pub const API_ERROR_STATUS: u16 = 502;

impl ApiError {
    /// The error for a failure with `message`.
    pub fn new(message: String) -> (r: Self)
        ensures
            r.message == message,
    {
        ApiError { message }
    }

    /// The HTTP status of the answer.
    pub fn status(&self) -> (r: u16)
        ensures
            r == API_ERROR_STATUS,
    {
        API_ERROR_STATUS
    }
}

/// The answer to a query in plain words that names no known tool and no
/// coin.
pub const QUERY_NOT_UNDERSTOOD: &'static str = "Could not understand query. Try: 'How many holders in 0x...' or 'Show top 5 buyers of 0x...'";

/// What the `/query` route reads a plain-words query as: its intent, or
/// the explanation that it was not understood.
pub fn query_intent(query: &str) -> (r: Result<ParsedIntent, String>)
    ensures
        match r {
            Ok(p) => intent_of(lowercase(query@), address_in(query@), number_in(query@), quoted_in(query@))
                == Some(p@),
            Err(e) => {
                &&& intent_of(lowercase(query@), address_in(query@), number_in(query@), quoted_in(query@)) is None
                &&& e@ == QUERY_NOT_UNDERSTOOD@
            },
        },
{
    match parse_user_input(query) {
        Some(p) => Ok(p),
        None => Err(owned(QUERY_NOT_UNDERSTOOD)),
    }
}

} // verus!
