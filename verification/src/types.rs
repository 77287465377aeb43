//! Inputs and outputs of the coin tools, and their defaults.

use vstd::prelude::*;
use crate::numbers::{parse_u64, parsed_unsigned};

verus! {

/// The chain used when none is given or configured: Base mainnet.
pub const BASE_CHAIN_ID: u64 = 8453;

/// How many buyers a top-buyers request asks for when it does not say.
pub const DEFAULT_TOP_N: u32 = 10;

/// The default chain, given the configured value (the `DEFAULT_CHAIN_ID`
/// setting, when set): that value when it is a valid `u64`, else Base.
pub open spec fn chain_choice(configured: Option<Seq<char>>) -> u64 {
    match configured {
        Some(v) => match parsed_unsigned(v, u64::MAX as nat) {
            Some(n) => n as u64,
            None => BASE_CHAIN_ID,
        },
        None => BASE_CHAIN_ID,
    }
}

/// The default chain given the configured value, if any.
pub fn default_chain_from(configured: Option<&str>) -> (r: u64)
    ensures
        r == chain_choice(match configured {
            Some(v) => Some(v@),
            None => None,
        }),
{
    match configured {
        Some(v) => match parse_u64(v) {
            Some(n) => n,
            None => BASE_CHAIN_ID,
        },
        None => BASE_CHAIN_ID,
    }
}

/// The number of buyers a top-buyers request asks for by default.
pub fn default_top_n() -> (r: u32)
    ensures
        r == DEFAULT_TOP_N,
{
    DEFAULT_TOP_N
}

/// A coin on a chain.
#[derive(Debug, Clone)]
pub struct CoinInput {
    pub address: String,
    pub chain: u64,
}

/// How many distinct wallets hold a coin.
#[derive(Debug, Clone)]
pub struct HolderCountOutput {
    pub address: String,
    pub name: String,
    pub symbol: String,
    pub unique_holders: u64,
}

/// A coin's trading volume over the last day and its market-cap change.
#[derive(Debug, Clone)]
pub struct Volume24hOutput {
    pub address: String,
    pub name: String,
    pub symbol: String,
    pub volume_24h: String,
    pub market_cap_delta: String,
}

/// One buyer in a ranking: rank (from 1), address, the exact total of the
/// coin bought, and the number of buys.
#[derive(Debug, Clone, PartialEq, Eq)]
pub struct TopBuyer {
    pub rank: u32,
    pub address: String,
    pub total_bought: String,
    pub trade_count: u32,
}

/// A request for a coin's largest buyers.
#[derive(Debug, Clone)]
pub struct TopBuyersInput {
    pub address: String,
    pub chain: u64,
    pub top_n: u32,
}

/// A request to message the most recent buyer of a coin.
#[derive(Debug, Clone)]
pub struct MessageBuyerInput {
    pub address: String,
    pub chain: u64,
    pub message: String,
}

/// What was sent to the most recent buyer.
#[derive(Debug, Clone)]
pub struct MessageBuyerOutput {
    pub buyer_address: String,
    pub coin_address: String,
    pub message_sent: String,
    pub tx_hash: Option<String>,
}

} // verus!
