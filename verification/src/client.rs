//! The data the Zora API answers with, and the pure parts of talking to it:
//! where a token's payload sits in a response, the base URL and the query
//! of each endpoint.  Sending the requests is left to the caller.

use vstd::prelude::*;
use crate::decimal::decimal_digits;
use crate::numbers::{u32_text, u64_text};
use crate::text::{chars_of, extend_with_str, owned, slice_chars, string_from_chars};

verus! {

/// The endpoint used when no other base URL is configured.
pub const ZORA_BASE_URL: &'static str = "https://api-sdk.zora.engineering";

/// Answer of the `/coin` endpoint.  The token may come under `data` or at
/// the top level; [`CoinDetailResponse::normalize`] moves it under `data`.
#[derive(Debug, Clone)]
pub struct CoinDetailResponse {
    pub root_zora20_token: Option<Zora20Token>,
    pub data: CoinDetailData,
}

impl CoinDetailResponse {
    /// Moves a top-level token under `data`, unless `data` already has one.
    pub fn normalize(self) -> (r: Self)
        ensures
            r.data.zora20_token == (if self.data.zora20_token is Some {
                self.data.zora20_token
            } else {
                self.root_zora20_token
            }),
            r.root_zora20_token == (if self.data.zora20_token is Some {
                self.root_zora20_token
            } else {
                None
            }),
    {
        let mut me = self;
        if me.data.zora20_token.is_none() {
            me.data.zora20_token = me.root_zora20_token.take();
        }
        me
    }
}

#[derive(Debug, Clone)]
pub struct CoinDetailData {
    pub zora20_token: Option<Zora20Token>,
}

impl Default for CoinDetailData {
    fn default() -> (r: Self)
        ensures
            r.zora20_token is None,
    {
        CoinDetailData { zora20_token: None }
    }
}

/// A coin as the `/coin` endpoint describes it.
#[derive(Debug, Clone)]
pub struct Zora20Token {
    pub name: String,
    pub symbol: String,
    pub address: String,
    pub unique_holders: Option<u64>,
    pub volume_24h: Option<String>,
    pub market_cap: Option<String>,
    pub market_cap_delta_24h: Option<String>,
    pub total_volume: Option<String>,
}

/// Answer of the `/coinSwaps` endpoint, normalised like
/// [`CoinDetailResponse`].
#[derive(Debug, Clone)]
pub struct CoinSwapsResponse {
    pub root_zora20_token: Option<CoinSwapsToken>,
    pub data: CoinSwapsData,
}

impl CoinSwapsResponse {
    /// Moves a top-level token under `data`, unless `data` already has one.
    pub fn normalize(self) -> (r: Self)
        ensures
            r.data.zora20_token == (if self.data.zora20_token is Some {
                self.data.zora20_token
            } else {
                self.root_zora20_token
            }),
            r.root_zora20_token == (if self.data.zora20_token is Some {
                self.root_zora20_token
            } else {
                None
            }),
    {
        let mut me = self;
        if me.data.zora20_token.is_none() {
            me.data.zora20_token = me.root_zora20_token.take();
        }
        me
    }

    /// The swap edges of the response (none when the token or its
    /// activities are missing).
    pub fn edges(self) -> (r: Vec<SwapEdge>)
        ensures
            r@ == (match self.data.zora20_token {
                Some(t) => match t.swap_activities {
                    Some(a) => a.edges@,
                    None => Seq::empty(),
                },
                None => Seq::empty(),
            }),
    {
        match self.data.zora20_token {
            Some(t) => match t.swap_activities {
                Some(a) => a.edges,
                None => Vec::new(),
            },
            None => Vec::new(),
        }
    }
}

#[derive(Debug, Clone)]
pub struct CoinSwapsData {
    pub zora20_token: Option<CoinSwapsToken>,
}

impl Default for CoinSwapsData {
    fn default() -> (r: Self)
        ensures
            r.zora20_token is None,
    {
        CoinSwapsData { zora20_token: None }
    }
}

#[derive(Debug, Clone)]
pub struct CoinSwapsToken {
    pub swap_activities: Option<SwapActivities>,
}

#[derive(Debug, Clone)]
pub struct SwapActivities {
    pub edges: Vec<SwapEdge>,
    pub page_info: Option<PageInfo>,
}

#[derive(Debug, Clone)]
pub struct SwapEdge {
    pub node: SwapNode,
}

/// One swap: its kind (`"BUY"` or `"SELL"`, in any case), the coin amount
/// as decimal text, the sender and the block time.
#[derive(Debug, Clone)]
pub struct SwapNode {
    pub activity_type: String,
    pub coin_amount: Option<String>,
    pub sender_address: Option<String>,
    pub block_timestamp: Option<String>,
}

#[derive(Debug, Clone)]
pub struct PageInfo {
    pub end_cursor: Option<String>,
}

/// Answer of the `/profileCoins` endpoint.
#[derive(Debug, Clone)]
pub struct ProfileCoinsResponse {
    pub profile: Option<ProfileWithCoins>,
}

#[derive(Debug, Clone)]
pub struct ProfileWithCoins {
    pub handle: String,
    pub avatar: Option<Avatar>,
    pub creator_coin: Option<CreatorCoinRef>,
    pub created_coins: Option<CreatedCoins>,
}

#[derive(Debug, Clone)]
pub struct Avatar {
    pub preview_image: PreviewImage,
}

#[derive(Debug, Clone)]
pub struct PreviewImage {
    pub small: Option<String>,
    pub medium: Option<String>,
}

#[derive(Debug, Clone)]
pub struct CreatorCoinRef {
    pub address: String,
}

#[derive(Debug, Clone)]
pub struct CreatedCoins {
    pub count: u32,
    pub edges: Vec<CreatedCoinEdge>,
}

#[derive(Debug, Clone)]
pub struct CreatedCoinEdge {
    pub node: CreatedCoin,
}

#[derive(Debug, Clone)]
pub struct CreatedCoin {
    pub id: String,
    pub name: String,
    pub address: String,
    pub total_volume: String,
    pub volume_24h: String,
    pub market_cap_delta_24h: String,
    pub unique_holders: u64,
    pub token_price: Option<TokenPrice>,
    pub media_content: Option<MediaContent>,
}

#[derive(Debug, Clone)]
pub struct TokenPrice {
    pub price_in_pool_token: Option<String>,
}

#[derive(Debug, Clone)]
pub struct MediaContent {
    pub preview_image: Option<PreviewImage>,
}

/// Answer of the `/coinPriceHistory` endpoint.
#[derive(Debug, Clone)]
pub struct CoinPriceHistoryResponse {
    pub zora20_token: Option<CoinPriceHistoryToken>,
}

#[derive(Debug, Clone)]
pub struct CoinPriceHistoryToken {
    pub one_month: Vec<PricePoint>,
    pub one_week: Vec<PricePoint>,
    pub all: Vec<PricePoint>,
}

#[derive(Debug, Clone)]
pub struct PricePoint {
    pub timestamp: String,
    pub close_price: String,
}

/// Answer of the `/coinHolders` endpoint.
#[derive(Debug, Clone)]
pub struct CoinHoldersResponse {
    pub zora20_token: Option<CoinHoldersToken>,
}

#[derive(Debug, Clone)]
pub struct CoinHoldersToken {
    pub token_balances: HolderBalances,
}

#[derive(Debug, Clone)]
pub struct HolderBalances {
    pub edges: Vec<HolderEdge>,
}

#[derive(Debug, Clone)]
pub struct HolderEdge {
    pub node: HolderNode,
}

#[derive(Debug, Clone)]
pub struct HolderNode {
    pub balance: String,
    pub owner_address: String,
}

// ---------------------------------------------------------------------------
// Requests
// ---------------------------------------------------------------------------

/// `s` without its trailing `'/'` characters.
pub open spec fn without_trailing_slashes(s: Seq<char>) -> Seq<char>
    decreases s.len(),
{
    if s.len() > 0 && s.last() == '/' {
        without_trailing_slashes(s.drop_last())
    } else {
        s
    }
}

/// The base URL requests are made against: the configured one without
/// trailing slashes.
pub fn trimmed_base_url(base: &str) -> (r: String)
    ensures
        r@ == without_trailing_slashes(base@),
{
    let v = chars_of(base);
    let mut n = v.len();
    assert(v@.take(n as int) == v@);
    while n > 0 && v[n - 1] == '/'
        invariant
            n <= v.len(),
            without_trailing_slashes(v@) == without_trailing_slashes(v@.take(n as int)),
        decreases n,
    {
        assert(v@.take(n as int).drop_last() == v@.take(n - 1));
        n = n - 1;
    }
    assert(v@.subrange(0, n as int) == v@.take(n as int));
    string_from_chars(&slice_chars(&v, 0, n))
}

/// The URL of an endpoint: the base, a slash, and the endpoint's name.
pub fn endpoint_url(base: &str, endpoint: &str) -> (r: String)
    ensures
        r@ == base@ + "/"@ + endpoint@,
{
    let mut v = chars_of(base);
    extend_with_str(&mut v, "/");
    extend_with_str(&mut v, endpoint);
    string_from_chars(&v)
}

/// The texts of a query's parameters.
pub open spec fn query_view(q: Seq<(String, String)>) -> Seq<(Seq<char>, Seq<char>)> {
    q.map_values(|p: (String, String)| (p.0@, p.1@))
}

/// A query parameter.
fn param(key: &str, value: String) -> (r: (String, String))
    ensures
        r.0@ == key@,
        r.1@ == value@,
{
    (owned(key), value)
}

/// The query of the `/coin` and `/coinPriceHistory` endpoints.
pub fn coin_query(address: &str, chain: u64) -> (r: Vec<(String, String)>)
    ensures
        query_view(r@) == seq![("address"@, address@), ("chain"@, decimal_digits(chain as nat))],
{
    let mut q: Vec<(String, String)> = Vec::new();
    q.push(param("address", owned(address)));
    q.push(param("chain", u64_text(chain)));
    assert(query_view(q@) =~= seq![("address"@, address@), ("chain"@, decimal_digits(chain as nat))]);
    q
}

/// The query of the `/coinSwaps` endpoint: the coin, the chain, how many
/// swaps, and the cursor to continue from, if any.
pub fn coin_swaps_query(address: &str, chain: u64, first: u32, after: Option<&str>) -> (r: Vec<(String, String)>)
    ensures
        query_view(r@) == seq![
            ("address"@, address@),
            ("chain"@, decimal_digits(chain as nat)),
            ("first"@, decimal_digits(first as nat)),
        ] + match after {
            Some(c) => seq![("after"@, c@)],
            None => Seq::empty(),
        },
{
    let mut q: Vec<(String, String)> = Vec::new();
    q.push(param("address", owned(address)));
    q.push(param("chain", u64_text(chain)));
    q.push(param("first", u32_text(first)));
    match after {
        Some(c) => {
            q.push(param("after", owned(c)));
        },
        None => {},
    }
    assert(query_view(q@) =~= seq![
        ("address"@, address@),
        ("chain"@, decimal_digits(chain as nat)),
        ("first"@, decimal_digits(first as nat)),
    ] + match after {
        Some(c) => seq![("after"@, c@)],
        None => Seq::empty(),
    });
    q
}

/// The `chainIds` parameters for a list of chains.
pub open spec fn chain_params(chains: Seq<u64>) -> Seq<(Seq<char>, Seq<char>)> {
    chains.map_values(|c: u64| ("chainIds"@, decimal_digits(c as nat)))
}

/// The query of the `/profileCoins` endpoint: the profile, how many
/// coins, and one `chainIds` parameter per chain.
pub fn profile_coins_query(identifier: &str, count: u32, chain_ids: &Vec<u64>) -> (r: Vec<(String, String)>)
    ensures
        query_view(r@) == seq![("identifier"@, identifier@), ("count"@, decimal_digits(count as nat))]
            + chain_params(chain_ids@),
{
    let mut q: Vec<(String, String)> = Vec::new();
    q.push(param("identifier", owned(identifier)));
    q.push(param("count", u32_text(count)));
    let ghost head = seq![("identifier"@, identifier@), ("count"@, decimal_digits(count as nat))];
    assert(query_view(q@) =~= head + chain_params(chain_ids@.take(0)));
    let mut i: usize = 0;
    while i < chain_ids.len()
        invariant
            i <= chain_ids.len(),
            query_view(q@) == head + chain_params(chain_ids@.take(i as int)),
        decreases chain_ids.len() - i,
    {
        let ghost before = q@;
        q.push(param("chainIds", u64_text(chain_ids[i])));
        assert(chain_ids@.take(i + 1) == chain_ids@.take(i as int).push(chain_ids@[i as int]));
        assert(query_view(q@) =~= query_view(before).push(("chainIds"@, decimal_digits(chain_ids@[i as int] as nat))));
        assert(chain_params(chain_ids@.take(i + 1)) =~= chain_params(chain_ids@.take(i as int)).push(("chainIds"@, decimal_digits(chain_ids@[i as int] as nat))));
        i = i + 1;
    }
    assert(chain_ids@.take(chain_ids.len() as int) == chain_ids@);
    q
}

/// The query of the `/coinHolders` endpoint.
pub fn coin_holders_query(address: &str, chain: u64, count: u32) -> (r: Vec<(String, String)>)
    ensures
        query_view(r@) == seq![
            ("address"@, address@),
            ("chainId"@, decimal_digits(chain as nat)),
            ("count"@, decimal_digits(count as nat)),
        ],
{
    let mut q: Vec<(String, String)> = Vec::new();
    q.push(param("address", owned(address)));
    q.push(param("chainId", u64_text(chain)));
    q.push(param("count", u32_text(count)));
    assert(query_view(q@) =~= seq![
        ("address"@, address@),
        ("chainId"@, decimal_digits(chain as nat)),
        ("count"@, decimal_digits(count as nat)),
    ]);
    q
}

/// The message of a request the API refused.
pub fn api_status_error(status: &str, body: &str) -> (r: String)
    ensures
        r@ == "Zora API returned "@ + status@ + ": "@ + body@,
{
    let mut v = chars_of("Zora API returned ");
    extend_with_str(&mut v, status);
    extend_with_str(&mut v, ": ");
    extend_with_str(&mut v, body);
    string_from_chars(&v)
}

} // verus!
