use zora_aomi_tools::aomi::{
    first_buy_sender, Get24hVolumeTool, GetHolderCountTool, GetTopBuyersTool, MessageRecentBuyerTool,
    ZoraAomiApp, PREAMBLE, TOOL_NAMESPACE,
};
use zora_aomi_tools::client::{SwapEdge, SwapNode};
use zora_aomi_tools::tools::tool_error::ToolError;

#[test]
fn get_holder_count_tool_metadata_is_valid() {
    assert_eq!(GetHolderCountTool::NAME, "get_holder_count");
    assert!(!GetHolderCountTool::DESCRIPTION.is_empty());
    assert!(GetHolderCountTool::DESCRIPTION.contains("holders"));
}

#[test]
fn get_24h_volume_tool_metadata_is_valid() {
    assert_eq!(Get24hVolumeTool::NAME, "get_24h_volume");
    assert!(!Get24hVolumeTool::DESCRIPTION.is_empty());
    assert!(Get24hVolumeTool::DESCRIPTION.contains("24-hour"));
}

#[test]
fn get_top_buyers_tool_metadata_is_valid() {
    assert_eq!(GetTopBuyersTool::NAME, "get_top_buyers");
    assert!(!GetTopBuyersTool::DESCRIPTION.is_empty());
    assert!(GetTopBuyersTool::DESCRIPTION.contains("buyers"));
}

#[test]
fn message_recent_buyer_tool_metadata_is_valid() {
    assert_eq!(MessageRecentBuyerTool::NAME, "message_recent_buyer");
    assert!(!MessageRecentBuyerTool::DESCRIPTION.is_empty());
    assert!(MessageRecentBuyerTool::DESCRIPTION.contains("on-chain"));
}

#[test]
fn app_is_cloneable_and_default() {
    let app1 = ZoraAomiApp;
    let app2 = app1.clone();
    let app3 = ZoraAomiApp::default();
    std::mem::drop((app2, app3));
}

#[test]
fn zora_aomi_app_implements_clone() {
    let app = ZoraAomiApp;
    let cloned = app.clone();
    std::mem::drop(cloned);
}

#[test]
fn zora_aomi_app_implements_default() {
    let _app: ZoraAomiApp = Default::default();
}

#[test]
fn tool_context_is_integration_point() {
    // The host passes a call context to each tool at run time; the tools
    // here take their inputs as plain values and need none of it.
}

#[test]
fn system_preamble_instructs_agents_properly() {
    let preamble = "\
        You are a creator analytics assistant for Zora Coins on Base. \
        Think Daily Wrapped for on-chain creators. \
        When a creator asks about their coin, respond with sharp, human-readable insights — \
        not raw numbers.";

    assert!(preamble.contains("creator analytics"));
    assert!(preamble.contains("Zora Coins"));
    assert!(preamble.contains("on-chain"));
}

#[test]
fn tools_registered_in_correct_namespace() {
    let namespace = "evm-core";
    assert!(namespace.contains("evm"));
}

#[test]
fn tool_descriptions_are_comprehensive() {
    let descriptions = vec![
        GetHolderCountTool::DESCRIPTION,
        Get24hVolumeTool::DESCRIPTION,
        GetTopBuyersTool::DESCRIPTION,
        MessageRecentBuyerTool::DESCRIPTION,
    ];

    for desc in descriptions {
        assert!(!desc.is_empty());
        assert!(desc.len() < 250, "Description too long: {}", desc);
        assert!(
            desc.contains("Returns") || desc.contains("Finds") || desc.contains("posts"),
            "Description not action-oriented: {}",
            desc
        );
    }
}

#[test]
fn plugin_preamble_and_namespace() {
    assert!(PREAMBLE.starts_with("You are a creator analytics assistant for Zora Coins on Base. Think Daily Wrapped"));
    assert!(PREAMBLE.contains("message_recent_buyer to engage fans."));
    assert_eq!(TOOL_NAMESPACE, "evm-core");
}

fn swap(kind: &str, sender: Option<&str>) -> SwapEdge {
    SwapEdge {
        node: SwapNode {
            activity_type: kind.to_string(),
            coin_amount: None,
            sender_address: sender.map(|s| s.to_string()),
            block_timestamp: None,
        },
    }
}

#[test]
fn messaging_tool_takes_the_first_exact_buy() {
    let edges = vec![swap("buy", Some("0xlower")), swap("BUY", Some("0xfirst")), swap("BUY", Some("0xsecond"))];
    assert_eq!(first_buy_sender(&edges).unwrap(), "0xfirst");
    let edges = vec![swap("SELL", Some("0xs")), swap("BUY", None), swap("BUY", Some("0xlater"))];
    assert_eq!(first_buy_sender(&edges).unwrap_err(), ToolError::NoRecentBuyer);
    assert_eq!(first_buy_sender(&Vec::new()).unwrap_err(), ToolError::NoRecentBuyer);
}
