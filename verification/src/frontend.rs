//! The front end's choices that involve no prices: which coin stands for a
//! creator, which image is shown, which price series is charted, how many
//! swaps are fetched, and the integer totals of a creator's coins.

use vstd::prelude::*;
use crate::client::{
    CoinPriceHistoryResponse, CreatedCoin, CreatedCoinEdge, PreviewImage, PricePoint,
    ProfileCoinsResponse, ProfileWithCoins,
};

verus! {

/// The name shown for a wallet with no Zora profile.
pub const DEFAULT_CREATOR_NAME: &'static str = "Zora Creator";

/// How many of a creator's coins the statistics look at.
pub const PROFILE_COIN_COUNT: u32 = 50;

/// The text of an optional string.
pub open spec fn opt_view(o: Option<String>) -> Option<Seq<char>> {
    match o {
        Some(s) => Some(s@),
        None => None,
    }
}

/// The URL an image is shown by: its medium size, else its small one.
pub open spec fn image_choice(image: PreviewImage) -> Option<Seq<char>> {
    match image.medium {
        Some(m) => Some(m@),
        None => opt_view(image.small),
    }
}

/// The URL an image is shown by.
pub fn preview_url(image: &PreviewImage) -> (r: Option<String>)
    ensures
        opt_view(r) == image_choice(*image),
{
    match &image.medium {
        Some(m) => Some(m.clone()),
        None => match &image.small {
            Some(s) => Some(s.clone()),
            None => None,
        },
    }
}

/// A creator's avatar, if the profile has one.
pub fn avatar_url(profile: &ProfileWithCoins) -> (r: Option<String>)
    ensures
        opt_view(r) == (match profile.avatar {
            Some(a) => image_choice(a.preview_image),
            None => None,
        }),
{
    match &profile.avatar {
        Some(a) => preview_url(&a.preview_image),
        None => None,
    }
}

/// A coin's thumbnail, if its media has a preview.
pub fn thumbnail_url(coin: &CreatedCoin) -> (r: Option<String>)
    ensures
        opt_view(r) == (match coin.media_content {
            Some(m) => match m.preview_image {
                Some(i) => image_choice(i),
                None => None,
            },
            None => None,
        }),
{
    match &coin.media_content {
        Some(m) => match &m.preview_image {
            Some(i) => preview_url(i),
            None => None,
        },
        None => None,
    }
}

/// The number of coins a creator minted, as the front end's integer type
/// (zero when the profile lists none).
pub fn total_mints(profile: &ProfileWithCoins) -> (r: i32)
    ensures
        r == (match profile.created_coins {
            Some(c) => c.count as i32,
            None => 0,
        }),
{
    match &profile.created_coins {
        Some(c) => c.count as i32,
        None => 0,
    }
}

/// A coin's holder count as the front end's integer type.
pub fn coin_holders(coin: &CreatedCoin) -> (r: i32)
    ensures
        r == coin.unique_holders as i32,
{
    coin.unique_holders as i32
}

/// The sum of the holder counts of the first `n` coins, each taken as the
/// front end's integer type.
pub open spec fn holders_sum(coins: Seq<CreatedCoinEdge>, n: int) -> int
    decreases n,
{
    if n <= 0 {
        0
    } else {
        holders_sum(coins, n - 1) + (coins[n - 1].node.unique_holders as i32)
    }
}

/// Every running total of the holder counts fits the front end's integer
/// type.
pub open spec fn holders_sum_fits(coins: Seq<CreatedCoinEdge>) -> bool {
    forall|n: int| 0 <= n <= coins.len() ==> i32::MIN <= #[trigger] holders_sum(coins, n) <= i32::MAX
}

/// The total of the holder counts of a creator's coins.
pub fn total_unique_holders(coins: &Vec<CreatedCoinEdge>) -> (r: i32)
    requires
        holders_sum_fits(coins@),
    ensures
        r == holders_sum(coins@, coins.len() as int),
{
    let mut total: i32 = 0;
    let mut i: usize = 0;
    while i < coins.len()
        invariant
            i <= coins.len(),
            holders_sum_fits(coins@),
            total == holders_sum(coins@, i as int),
        decreases coins.len() - i,
    {
        let h = coins[i].node.unique_holders as i32;
        assert(i32::MIN <= holders_sum(coins@, i + 1) <= i32::MAX);
        total = total + h;
        i = i + 1;
    }
    total
}

/// Whether every running total of the holder counts fits the front end's
/// integer type (see [`holders_sum_fits`]).
pub fn holder_total_fits(coins: &Vec<CreatedCoinEdge>) -> (b: bool)
    ensures
        b == holders_sum_fits(coins@),
{
    let mut total: i64 = 0;
    let mut i: usize = 0;
    while i < coins.len()
        invariant
            i <= coins.len(),
            total == holders_sum(coins@, i as int),
            forall|n: int| 0 <= n <= i ==> i32::MIN <= #[trigger] holders_sum(coins@, n) <= i32::MAX,
        decreases coins.len() - i,
    {
        let h = coins[i].node.unique_holders as i32;
        total = total + h as i64;
        if total < i32::MIN as i64 || total > i32::MAX as i64 {
            assert(!(i32::MIN <= holders_sum(coins@, i + 1) <= i32::MAX));
            return false;
        }
        i = i + 1;
    }
    true
}

/// The coins a profile lists (none without a profile or coins).
pub fn created_coin_edges(response: ProfileCoinsResponse) -> (r: Vec<CreatedCoinEdge>)
    ensures
        r@ == (match response.profile {
            Some(p) => match p.created_coins {
                Some(c) => c.edges@,
                None => Seq::empty(),
            },
            None => Seq::empty(),
        }),
{
    match response.profile {
        Some(p) => match p.created_coins {
            Some(c) => c.edges,
            None => Vec::new(),
        },
        None => Vec::new(),
    }
}

/// The coin standing for a creator's profile: its creator coin, else the
/// first coin it created.
pub open spec fn primary_coin_choice(response: ProfileCoinsResponse) -> Option<Seq<char>> {
    match response.profile {
        Some(p) => match p.creator_coin {
            Some(c) => Some(c.address@),
            None => match p.created_coins {
                Some(cs) => if cs.edges.len() > 0 {
                    Some(cs.edges@[0].node.address@)
                } else {
                    None
                },
                None => None,
            },
        },
        None => None,
    }
}

/// The coin standing for a creator's profile, if any.
pub fn primary_coin_in_profile(response: &ProfileCoinsResponse) -> (r: Option<String>)
    ensures
        opt_view(r) == primary_coin_choice(*response),
{
    match &response.profile {
        Some(p) => match &p.creator_coin {
            Some(c) => Some(c.address.clone()),
            None => match &p.created_coins {
                Some(cs) => if cs.edges.len() > 0 {
                    Some(cs.edges[0].node.address.clone())
                } else {
                    None
                },
                None => None,
            },
        },
        None => None,
    }
}

/// The coin standing for a wallet: the wallet itself when it is a coin,
/// else the coin standing for its profile.
pub fn primary_coin(wallet: &str, wallet_is_coin: bool, profile: &ProfileCoinsResponse) -> (r: Option<String>)
    ensures
        opt_view(r) == (if wallet_is_coin {
            Some(wallet@)
        } else {
            primary_coin_choice(*profile)
        }),
{
    if wallet_is_coin {
        Some(wallet.to_owned())
    } else {
        primary_coin_in_profile(profile)
    }
}

/// The price series charted: the last month's, or the last week's when
/// the month has no points (none without a token).
pub fn chart_points(history: CoinPriceHistoryResponse) -> (r: Vec<PricePoint>)
    ensures
        r@ == (match history.zora20_token {
            Some(t) => if t.one_month.len() == 0 {
                t.one_week@
            } else {
                t.one_month@
            },
            None => Seq::empty(),
        }),
{
    match history.zora20_token {
        Some(t) => if t.one_month.len() == 0 {
            t.one_week
        } else {
            t.one_month
        },
        None => Vec::new(),
    }
}

/// How many swaps the front end fetches to rank `top_n` buyers: three per
/// buyer, at least one, saturating at `u32::MAX`.
pub fn frontend_swap_page_size(top_n: u32) -> (r: u32)
    ensures
        r == (if top_n * 3 > u32::MAX {
            u32::MAX as int
        } else if top_n * 3 < 1 {
            1
        } else {
            top_n * 3
        }),
{
    let wanted = if top_n > u32::MAX / 3 {
        u32::MAX
    } else {
        top_n * 3
    };
    if wanted < 1 {
        1
    } else {
        wanted
    }
}


/// Law: an image is shown by its medium URL whenever it has one, and by
/// its small URL only when it has no medium one.
pub proof fn law_image_prefers_medium(image: PreviewImage)
    ensures
        image.medium matches Some(m) ==> image_choice(image) == Some(m@),
        image.medium is None ==> image_choice(image) == opt_view(image.small),
        image_choice(image) is None <==> (image.medium is None && image.small is None),
{
}

} // verus!
