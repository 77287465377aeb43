//! Why a coin tool could not answer.

use vstd::prelude::*;
use crate::text::owned;

verus! {

/// A coin tool's failure.
#[derive(Debug, Clone, Copy, PartialEq, Eq, Structural)]
pub enum ToolError {
    /// The API's answer held no token for the coin.
    CoinNotFound,
    /// No swap of the coin was a buy with a sender.
    NoRecentBuyer,
}

impl ToolError {
    /// The error's message.
    pub fn message(&self) -> (r: String)
        ensures
            r@ == (match self {
                ToolError::CoinNotFound => "coin not found in Zora response"@,
                ToolError::NoRecentBuyer => "no recent buyer found"@,
            }),
    {
        match self {
            ToolError::CoinNotFound => owned("coin not found in Zora response"),
            ToolError::NoRecentBuyer => owned("no recent buyer found"),
        }
    }
}

} // verus!
