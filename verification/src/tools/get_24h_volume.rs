//! A coin's volume over the last day, from the API's description of the
//! coin.

use vstd::prelude::*;
use crate::client::CoinDetailResponse;
use crate::tools::tool_error::ToolError;
use crate::types::Volume24hOutput;

verus! {

/// The text of an optional field, empty when it is missing.
pub open spec fn text_or_empty(v: Option<String>) -> Seq<char> {
    match v {
        Some(s) => s@,
        None => Seq::empty(),
    }
}

fn or_empty(v: Option<String>) -> (r: String)
    ensures
        r@ == text_or_empty(v),
{
    match v {
        Some(s) => s,
        None => String::new(),
    }
}

/// The 24-hour volume and market-cap change of the coin that `response`
/// describes; missing figures are reported as empty text.  Fails when the
/// response holds no token.
pub fn volume_output(response: CoinDetailResponse) -> (r: Result<Volume24hOutput, ToolError>)
    ensures
        match response.data.zora20_token {
            Some(t) => match r {
                Ok(o) => {
                    &&& o.address == t.address
                    &&& o.name == t.name
                    &&& o.symbol == t.symbol
                    &&& o.volume_24h@ == text_or_empty(t.volume_24h)
                    &&& o.market_cap_delta@ == text_or_empty(t.market_cap_delta_24h)
                },
                Err(_) => false,
            },
            None => r == Err::<Volume24hOutput, ToolError>(ToolError::CoinNotFound),
        },
{
    match response.data.zora20_token {
        Some(token) => {
            let volume_24h = or_empty(token.volume_24h);
            let market_cap_delta = or_empty(token.market_cap_delta_24h);
            Ok(Volume24hOutput {
                address: token.address,
                name: token.name,
                symbol: token.symbol,
                volume_24h,
                market_cap_delta,
            })
        },
        None => Err(ToolError::CoinNotFound),
    }
}

} // verus!
