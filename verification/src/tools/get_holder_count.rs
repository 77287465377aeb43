//! A coin's number of holders, from the API's description of the coin.

use vstd::prelude::*;
use crate::client::CoinDetailResponse;
use crate::tools::tool_error::ToolError;
use crate::types::HolderCountOutput;

verus! {

/// The holder count of the coin that `response` describes; an unknown
/// count is reported as zero.  Fails when the response holds no token.
pub fn holder_count_output(response: CoinDetailResponse) -> (r: Result<HolderCountOutput, ToolError>)
    ensures
        match response.data.zora20_token {
            Some(t) => r == Ok::<HolderCountOutput, ToolError>(
                (HolderCountOutput {
                    address: t.address,
                    name: t.name,
                    symbol: t.symbol,
                    unique_holders: match t.unique_holders {
                        Some(n) => n,
                        None => 0,
                    },
                }),
            ),
            None => r == Err::<HolderCountOutput, ToolError>(ToolError::CoinNotFound),
        },
{
    match response.data.zora20_token {
        Some(token) => {
            let unique_holders = match token.unique_holders {
                Some(n) => n,
                None => 0,
            };
            Ok(HolderCountOutput {
                address: token.address,
                name: token.name,
                symbol: token.symbol,
                unique_holders,
            })
        },
        None => Err(ToolError::CoinNotFound),
    }
}

} // verus!
