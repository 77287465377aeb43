//! The coin tools as an Aomi plugin: the app, each tool's name and
//! description, the assistant's instructions, and the choice of buyer the
//! messaging tool makes.

use vstd::prelude::*;
use crate::client::SwapEdge;
use crate::tools::tool_error::ToolError;
use crate::text::same_text;

verus! {

/// The plugin's name.
pub const APP_NAME: &'static str = "zora-aomi-tools";

/// The plugin's version.
pub const APP_VERSION: &'static str = "0.1.0";

/// The namespace the tools are registered in: EVM chains.
pub const TOOL_NAMESPACE: &'static str = "evm-core";

/// How the assistant is told to behave.
pub const PREAMBLE: &'static str = "You are a creator analytics assistant for Zora Coins on Base. \
    Think Daily Wrapped for on-chain creators. \
    When a creator asks about their coin, respond with sharp, human-readable insights \u{2014} \
    not raw numbers. Examples: '12 new holders today, your top buyer is 0xabc\u{2026}ef.' \
    or 'Volume is up 40% in the last 24h \u{2014} your biggest trade was 2.1 ETH.' \
    Use get_holder_count for audience size, get_24h_volume for momentum, \
    get_top_buyers to spotlight whales, and message_recent_buyer to engage fans. \
    Never claim custody of wallets. Never execute trades without explicit confirmation. \
    Keep responses concise \u{2014} one or two sentences per insight.";

/// The plugin app; it holds no state.
#[derive(Debug, Clone, Copy)]
pub struct ZoraAomiApp;

impl Default for ZoraAomiApp {
    fn default() -> (r: Self)
        ensures
            r == ZoraAomiApp,
    {
        ZoraAomiApp
    }
}

/// The tool reporting a coin's holder count.
pub struct GetHolderCountTool;

impl GetHolderCountTool {
    pub const NAME: &'static str = "get_holder_count";

    pub const DESCRIPTION: &'static str = "Returns the number of unique wallet holders for a Zora coin.";
}

/// The tool reporting a coin's 24-hour volume.
pub struct Get24hVolumeTool;

impl Get24hVolumeTool {
    pub const NAME: &'static str = "get_24h_volume";

    pub const DESCRIPTION: &'static str = "Returns the 24-hour trading volume and market cap delta for a Zora coin.";
}

/// The tool ranking a coin's buyers.
pub struct GetTopBuyersTool;

impl GetTopBuyersTool {
    pub const NAME: &'static str = "get_top_buyers";

    pub const DESCRIPTION: &'static str = "Returns the top N buyers of a Zora coin ranked by total amount bought.";
}

/// The tool preparing a message to a coin's recent buyer.
pub struct MessageRecentBuyerTool;

impl MessageRecentBuyerTool {
    pub const NAME: &'static str = "message_recent_buyer";

    pub const DESCRIPTION: &'static str = "Finds the most recent buyer of a Zora coin and posts an on-chain comment to them. \
         Requires the Aomi wallet execution adapter to be wired in by the host runtime.";
}

/// The first swap whose kind is exactly `BUY`, if any.
pub open spec fn first_exact_buy(edges: Seq<SwapEdge>) -> Option<int>
    decreases edges.len(),
{
    if edges.len() == 0 {
        None
    } else {
        match first_exact_buy(edges.drop_last()) {
            Some(i) => Some(i),
            None => if edges.last().node.activity_type@ == "BUY"@ {
                Some(edges.len() - 1)
            } else {
                None
            },
        }
    }
}

/// The buyer the messaging tool addresses: the sender of the first swap
/// whose kind is exactly `BUY`; fails when there is no such swap or it
/// names no sender.
pub fn first_buy_sender(edges: &Vec<SwapEdge>) -> (r: Result<String, ToolError>)
    ensures
        match first_exact_buy(edges@) {
            Some(i) => match edges@[i].node.sender_address {
                Some(a) => r matches Ok(s) && s@ == a@,
                None => r == Err::<String, ToolError>(ToolError::NoRecentBuyer),
            },
            None => r == Err::<String, ToolError>(ToolError::NoRecentBuyer),
        },
{
    let mut i: usize = 0;
    while i < edges.len()
        invariant
            i <= edges.len(),
            first_exact_buy(edges@.take(i as int)) is None,
        decreases edges.len() - i,
    {
        proof {
            assert(edges@.take(i + 1).drop_last() == edges@.take(i as int));
        }
        if same_text(edges[i].node.activity_type.as_str(), "BUY") {
            proof {
                lemma_first_exact_buy_prefix(edges@, i as int + 1);
            }
            return match &edges[i].node.sender_address {
                Some(a) => Ok(a.clone()),
                None => Err(ToolError::NoRecentBuyer),
            };
        }
        i = i + 1;
    }
    assert(edges@.take(edges.len() as int) == edges@);
    Err(ToolError::NoRecentBuyer)
}

/// A first `BUY` found in a prefix is the first of the whole list.
proof fn lemma_first_exact_buy_prefix(edges: Seq<SwapEdge>, n: int)
    requires
        0 <= n <= edges.len(),
        first_exact_buy(edges.take(n)) is Some,
    ensures
        first_exact_buy(edges) == first_exact_buy(edges.take(n)),
    decreases edges.len() - n,
{
    if n < edges.len() {
        assert(edges.take(n + 1).drop_last() == edges.take(n));
        lemma_first_exact_buy_prefix(edges, n + 1);
    } else {
        assert(edges.take(n) == edges);
    }
}


/// Law: the messaging tool's buyer comes from the earliest swap whose kind
/// is exactly `BUY`: that swap is a `BUY`, no earlier one is, and there is
/// none only when no swap is a `BUY`.
pub proof fn law_first_exact_buy_is_earliest(edges: Seq<SwapEdge>)
    ensures
        first_exact_buy(edges) matches Some(i) ==> {
            &&& 0 <= i < edges.len()
            &&& edges[i].node.activity_type@ == "BUY"@
            &&& forall|j: int| 0 <= j < i ==> edges[j].node.activity_type@ != "BUY"@
        },
        first_exact_buy(edges) is None ==> forall|j: int|
            0 <= j < edges.len() ==> edges[j].node.activity_type@ != "BUY"@,
    decreases edges.len(),
{
    if edges.len() > 0 {
        let d = edges.drop_last();
        law_first_exact_buy_is_earliest(d);
        assert forall|j: int| 0 <= j < d.len() implies d[j] == edges[j] by {}
    }
}

} // verus!
