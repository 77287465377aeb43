use zora_aomi_tools::client::{
    api_status_error, coin_holders_query, coin_query, coin_swaps_query, endpoint_url, profile_coins_query,
    trimmed_base_url, Avatar, CoinPriceHistoryResponse, CoinPriceHistoryToken, CreatedCoin, CreatedCoinEdge,
    CreatedCoins, CreatorCoinRef, MediaContent, PreviewImage, PricePoint, ProfileCoinsResponse,
    ProfileWithCoins, ZORA_BASE_URL,
};
use zora_aomi_tools::frontend::{
    avatar_url, chart_points, coin_holders, created_coin_edges, frontend_swap_page_size, preview_url,
    primary_coin, primary_coin_in_profile, thumbnail_url, total_mints, total_unique_holders,
};
use zora_aomi_tools::numbers::{parse_u16, parse_u32, parse_u64, u32_text, u64_text};
use zora_aomi_tools::agent::nlp::IntentType;
use zora_aomi_tools::server::{port_from, query_intent, ApiError, LimitQuery, QUERY_NOT_UNDERSTOOD};
use zora_aomi_tools::types::{default_chain_from, default_top_n};

fn pairs(q: &[(String, String)]) -> Vec<(&str, &str)> {
    q.iter().map(|(k, v)| (k.as_str(), v.as_str())).collect()
}

#[test]
fn numbers_parse_like_std() {
    assert_eq!(parse_u64("+5"), Some(5));
    assert_eq!(parse_u64(""), None);
    assert_eq!(parse_u64("+"), None);
    assert_eq!(parse_u64("-1"), None);
    assert_eq!(parse_u64(" 1"), None);
    assert_eq!(parse_u64("18446744073709551615"), Some(u64::MAX));
    assert_eq!(parse_u64("18446744073709551616"), None);
    assert_eq!(parse_u32("4294967295"), Some(u32::MAX));
    assert_eq!(parse_u16("65536"), None);
    assert_eq!(parse_u16("007"), Some(7));
    assert_eq!(u64_text(0), "0");
    assert_eq!(u64_text(1234567890123), "1234567890123");
    assert_eq!(u32_text(u32::MAX), "4294967295");
}

#[test]
fn defaults_of_chain_top_n_and_port() {
    assert_eq!(default_chain_from(None), 8453);
    assert_eq!(default_chain_from(Some("10")), 10);
    assert_eq!(default_chain_from(Some("base")), 8453);
    assert_eq!(default_top_n(), 10);
    assert_eq!(port_from(None), 3001);
    assert_eq!(port_from(Some("8080")), 8080);
    assert_eq!(port_from(Some("70000")), 3001);
}

#[test]
fn limit_query_defaults() {
    let none = LimitQuery { top_n: None, count: None };
    assert_eq!(none.top_n_or_default(), 10);
    assert_eq!(none.collectors_count(), 10);
    assert_eq!(none.collections_count(), 20);
    let some = LimitQuery { top_n: Some(3), count: Some(4) };
    assert_eq!(some.top_n_or_default(), 3);
    assert_eq!(some.collections_count(), 4);
    let err = ApiError::new("boom".to_string());
    assert_eq!(err.status(), 502);
    assert_eq!(err.message, "boom");
}

#[test]
fn request_urls_and_queries() {
    assert_eq!(trimmed_base_url("https://api.example//"), "https://api.example");
    assert_eq!(trimmed_base_url(ZORA_BASE_URL), "https://api-sdk.zora.engineering");
    assert_eq!(endpoint_url("https://api.example", "coin"), "https://api.example/coin");
    assert_eq!(pairs(&coin_query("0xc", 8453)), vec![("address", "0xc"), ("chain", "8453")]);
    assert_eq!(
        pairs(&coin_swaps_query("0xc", 1, 100, Some("cur"))),
        vec![("address", "0xc"), ("chain", "1"), ("first", "100"), ("after", "cur")]
    );
    assert_eq!(pairs(&coin_swaps_query("0xc", 1, 10, None)).len(), 3);
    assert_eq!(
        pairs(&profile_coins_query("alice", 50, &vec![8453, 1])),
        vec![("identifier", "alice"), ("count", "50"), ("chainIds", "8453"), ("chainIds", "1")]
    );
    assert_eq!(
        pairs(&coin_holders_query("0xc", 8453, 10)),
        vec![("address", "0xc"), ("chainId", "8453"), ("count", "10")]
    );
    assert_eq!(api_status_error("404 Not Found", "nope"), "Zora API returned 404 Not Found: nope");
}

fn image(small: Option<&str>, medium: Option<&str>) -> PreviewImage {
    PreviewImage { small: small.map(|s| s.to_string()), medium: medium.map(|s| s.to_string()) }
}

fn coin(address: &str, holders: u64) -> CreatedCoinEdge {
    CreatedCoinEdge {
        node: CreatedCoin {
            id: "id".to_string(),
            name: "Coin".to_string(),
            address: address.to_string(),
            total_volume: "1".to_string(),
            volume_24h: "0".to_string(),
            market_cap_delta_24h: "0".to_string(),
            unique_holders: holders,
            token_price: None,
            media_content: Some(MediaContent { preview_image: Some(image(Some("s.png"), None)) }),
        },
    }
}

fn profile(creator_coin: Option<&str>, coins: Vec<CreatedCoinEdge>) -> ProfileCoinsResponse {
    ProfileCoinsResponse {
        profile: Some(ProfileWithCoins {
            handle: "alice".to_string(),
            avatar: Some(Avatar { preview_image: image(Some("s.png"), Some("m.png")) }),
            creator_coin: creator_coin.map(|a| CreatorCoinRef { address: a.to_string() }),
            created_coins: Some(CreatedCoins { count: coins.len() as u32, edges: coins }),
        }),
    }
}

#[test]
fn images_prefer_medium() {
    assert_eq!(preview_url(&image(Some("s"), Some("m"))), Some("m".to_string()));
    assert_eq!(preview_url(&image(Some("s"), None)), Some("s".to_string()));
    assert_eq!(preview_url(&image(None, None)), None);
    let p = profile(None, vec![coin("0x1", 1)]);
    assert_eq!(avatar_url(p.profile.as_ref().unwrap()), Some("m.png".to_string()));
    assert_eq!(thumbnail_url(&coin("0x1", 1).node), Some("s.png".to_string()));
}

#[test]
fn creator_totals() {
    let p = profile(None, vec![coin("0x1", 3), coin("0x2", 4)]);
    let inner = p.profile.as_ref().unwrap();
    assert_eq!(total_mints(inner), 2);
    assert_eq!(total_unique_holders(&inner.created_coins.as_ref().unwrap().edges), 7);
    assert_eq!(coin_holders(&coin("0x1", 5_000_000_000).node), 705032704);
    assert_eq!(created_coin_edges(p).len(), 2);
}

#[test]
fn primary_coin_choice() {
    assert_eq!(primary_coin_in_profile(&profile(Some("0xcreator"), vec![coin("0x1", 1)])), Some("0xcreator".to_string()));
    assert_eq!(primary_coin_in_profile(&profile(None, vec![coin("0x1", 1), coin("0x2", 1)])), Some("0x1".to_string()));
    assert_eq!(primary_coin_in_profile(&profile(None, vec![])), None);
    assert_eq!(primary_coin_in_profile(&ProfileCoinsResponse { profile: None }), None);
    assert_eq!(primary_coin("0xw", true, &ProfileCoinsResponse { profile: None }), Some("0xw".to_string()));
}

#[test]
fn chart_and_page_size() {
    let point = |t: &str| PricePoint { timestamp: t.to_string(), close_price: "1".to_string() };
    let history = CoinPriceHistoryResponse {
        zora20_token: Some(CoinPriceHistoryToken { one_month: vec![], one_week: vec![point("w")], all: vec![] }),
    };
    assert_eq!(chart_points(history)[0].timestamp, "w");
    let history = CoinPriceHistoryResponse {
        zora20_token: Some(CoinPriceHistoryToken { one_month: vec![point("m")], one_week: vec![point("w")], all: vec![] }),
    };
    assert_eq!(chart_points(history)[0].timestamp, "m");
    assert!(chart_points(CoinPriceHistoryResponse { zora20_token: None }).is_empty());
    assert_eq!(frontend_swap_page_size(0), 1);
    assert_eq!(frontend_swap_page_size(5), 15);
    assert_eq!(frontend_swap_page_size(u32::MAX), u32::MAX);
}

#[test]
fn query_route_reads_or_explains() {
    let intent = query_intent("How many holders are in 0xF5735B760e2194521377A24a5c1e830aFa83aCDB").unwrap();
    assert!(matches!(intent.intent, IntentType::HolderCount));
    assert_eq!(
        query_intent("hello there").unwrap_err(),
        "Could not understand query. Try: 'How many holders in 0x...' or 'Show top 5 buyers of 0x...'"
    );
    assert_eq!(QUERY_NOT_UNDERSTOOD, query_intent("?").unwrap_err());
}
