use zora_aomi_tools::client::{
    CoinDetailData, CoinDetailResponse, CoinSwapsData, CoinSwapsResponse, CoinSwapsToken,
    SwapActivities, SwapEdge, SwapNode, Zora20Token,
};
use zora_aomi_tools::runtime::CommentReceipt;
use zora_aomi_tools::tools::get_24h_volume::volume_output;
use zora_aomi_tools::tools::get_holder_count::holder_count_output;
use zora_aomi_tools::tools::message_recent_buyer::{latest_buy_index, message_output, recent_buyer};
use zora_aomi_tools::tools::tool_error::ToolError;
use zora_aomi_tools::types::MessageBuyerInput;

fn token() -> Zora20Token {
    Zora20Token {
        name: "Test Coin".to_string(),
        symbol: "TEST".to_string(),
        address: "0xcoin".to_string(),
        unique_holders: Some(42),
        volume_24h: Some("15.5".to_string()),
        market_cap: None,
        market_cap_delta_24h: None,
        total_volume: None,
    }
}

fn swap(kind: &str, sender: Option<&str>, time: Option<&str>) -> SwapEdge {
    SwapEdge {
        node: SwapNode {
            activity_type: kind.to_string(),
            coin_amount: Some("1".to_string()),
            sender_address: sender.map(|s| s.to_string()),
            block_timestamp: time.map(|t| t.to_string()),
        },
    }
}

#[test]
fn holder_count_reads_the_token() {
    let response = CoinDetailResponse { root_zora20_token: None, data: CoinDetailData { zora20_token: Some(token()) } };
    let out = holder_count_output(response).unwrap();
    assert_eq!(out.address, "0xcoin");
    assert_eq!(out.symbol, "TEST");
    assert_eq!(out.unique_holders, 42);
}

#[test]
fn holder_count_without_token_fails() {
    let response = CoinDetailResponse { root_zora20_token: None, data: CoinDetailData::default() };
    let err = holder_count_output(response).unwrap_err();
    assert_eq!(err, ToolError::CoinNotFound);
    assert_eq!(err.message(), "coin not found in Zora response");
}

#[test]
fn unknown_holder_count_is_zero_and_missing_volume_is_empty() {
    let mut t = token();
    t.unique_holders = None;
    let response = CoinDetailResponse { root_zora20_token: None, data: CoinDetailData { zora20_token: Some(t.clone()) } };
    assert_eq!(holder_count_output(response).unwrap().unique_holders, 0);
    let response = CoinDetailResponse { root_zora20_token: None, data: CoinDetailData { zora20_token: Some(t) } };
    let v = volume_output(response).unwrap();
    assert_eq!(v.volume_24h, "15.5");
    assert_eq!(v.market_cap_delta, "");
}

#[test]
fn normalize_moves_a_top_level_token() {
    let response = CoinDetailResponse { root_zora20_token: Some(token()), data: CoinDetailData::default() };
    let normalized = response.normalize();
    assert!(normalized.root_zora20_token.is_none());
    assert_eq!(normalized.data.zora20_token.unwrap().symbol, "TEST");
}

#[test]
fn swaps_normalize_and_list_edges() {
    let token = CoinSwapsToken {
        swap_activities: Some(SwapActivities { edges: vec![swap("BUY", Some("0xa"), None)], page_info: None }),
    };
    let response = CoinSwapsResponse { root_zora20_token: Some(token), data: CoinSwapsData::default() };
    let edges = response.normalize().edges();
    assert_eq!(edges.len(), 1);
    let empty = CoinSwapsResponse { root_zora20_token: None, data: CoinSwapsData::default() };
    assert!(empty.edges().is_empty());
}

#[test]
fn recent_buyer_is_the_latest_buy_last_on_ties() {
    let edges = vec![
        swap("BUY", Some("0xold"), Some("2024-01-01")),
        swap("buy", Some("0xfirst"), Some("2024-01-03")),
        swap("BUY", Some("0xsecond"), Some("2024-01-03")),
        swap("SELL", Some("0xseller"), Some("2024-02-01")),
        swap("BUY", None, Some("2024-03-01")),
        swap("BUY", Some("0xundated"), None),
    ];
    assert_eq!(latest_buy_index(&edges), Some(2));
    assert_eq!(recent_buyer(&edges).unwrap(), "0xsecond");
}

#[test]
fn no_buy_means_no_recent_buyer() {
    let edges = vec![swap("SELL", Some("0xa"), Some("1")), swap("BUY", None, Some("2"))];
    let err = recent_buyer(&edges).unwrap_err();
    assert_eq!(err, ToolError::NoRecentBuyer);
    assert_eq!(err.message(), "no recent buyer found");
}

#[test]
fn message_output_reports_the_send() {
    let input = MessageBuyerInput { address: "0xcoin".to_string(), chain: 8453, message: "gm".to_string() };
    let out = message_output(input, "0xbuyer".to_string(), CommentReceipt { tx_hash: "0xtx".to_string() });
    assert_eq!(out.buyer_address, "0xbuyer");
    assert_eq!(out.coin_address, "0xcoin");
    assert_eq!(out.message_sent, "gm");
    assert_eq!(out.tx_hash, Some("0xtx".to_string()));
}
