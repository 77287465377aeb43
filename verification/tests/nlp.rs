use zora_aomi_tools::agent::nlp::{
    client_failure_reply, extract_address, extract_number, extract_quoted_text, failure_reply,
    holder_reply, intent_from_parts, parse_user_input, plan_intent, summary_reply,
    top_buyers_reply, volume_reply, IntentPlan, IntentType, ParsedIntent,
};
use zora_aomi_tools::types::{HolderCountOutput, TopBuyer, Volume24hOutput};

#[test]
fn test_parse_holder_count() {
    let input = "How many holders does 0xF5735B760e2194521377A24a5c1e830aFa83aCDB have?";
    let parsed = parse_user_input(input).unwrap();

    assert!(matches!(parsed.intent, IntentType::HolderCount));
    assert_eq!(
        parsed.coin_address,
        Some("0xF5735B760e2194521377A24a5c1e830aFa83aCDB".to_string())
    );
}

#[test]
fn test_parse_volume() {
    let input = "What's the 24h volume for 0xF5735B760e2194521377A24a5c1e830aFa83aCDB?";
    let parsed = parse_user_input(input).unwrap();

    assert!(matches!(parsed.intent, IntentType::Volume24h));
}

#[test]
fn test_parse_top_buyers() {
    let input = "Show top 5 buyers of 0xF5735B760e2194521377A24a5c1e830aFa83aCDB";
    let parsed = parse_user_input(input).unwrap();

    assert!(matches!(parsed.intent, IntentType::TopBuyers));
    assert_eq!(parsed.limit, Some(5));
}

#[test]
fn test_parse_message() {
    let input = "Message the buyer of 0xF5735B760e2194521377A24a5c1e830aFa83aCDB with \"Great coin!\"";
    let parsed = parse_user_input(input).unwrap();

    assert!(matches!(parsed.intent, IntentType::MessageBuyer));
    assert_eq!(parsed.message, Some("Great coin!".to_string()));
}

#[test]
fn uppercase_keywords_are_found_in_the_lowercase_text() {
    let parsed = parse_user_input("HOLDERS OF 0xF5735B760e2194521377A24a5c1e830aFa83aCDB").unwrap();
    assert!(matches!(parsed.intent, IntentType::HolderCount));
}

#[test]
fn ens_name_names_the_coin_when_no_address() {
    let parsed = parse_user_input("Who are the top whales of vitalik.eth").unwrap();
    assert!(matches!(parsed.intent, IntentType::TopBuyers));
    assert_eq!(parsed.coin_address, Some("vitalik.eth".to_string()));
    assert_eq!(parsed.limit, Some(5));
}

#[test]
fn address_alone_asks_for_a_summary() {
    let parsed = parse_user_input("Tell me about 0xF5735B760e2194521377A24a5c1e830aFa83aCDB").unwrap();
    assert!(matches!(parsed.intent, IntentType::TokenSummary));
    assert_eq!(parsed.limit, None);
    assert_eq!(parsed.message, None);
}

#[test]
fn unknown_request_without_coin_is_not_understood() {
    assert!(parse_user_input("What's up with 0xabc?").is_none());
    assert!(parse_user_input("").is_none());
}

#[test]
fn message_without_quotes_has_no_text() {
    let parsed = parse_user_input("message the buyer of vitalik.eth").unwrap();
    assert!(matches!(parsed.intent, IntentType::MessageBuyer));
    assert_eq!(parsed.message, None);
}

#[test]
fn oversized_count_falls_back_to_five() {
    let parsed = parse_user_input("top 99999999999 buyers of vitalik.eth").unwrap();
    assert_eq!(parsed.limit, Some(5));
}

#[test]
fn address_is_found_in_either_case() {
    assert_eq!(
        extract_address("see 0XABCDEFABCDEFABCDEFABCDEFABCDEFABCDEFABCD now"),
        Some("0XABCDEFABCDEFABCDEFABCDEFABCDEFABCDEFABCD".to_string())
    );
    assert_eq!(
        extract_address("first 0x1111111111111111111111111111111111111111 then 0x2222222222222222222222222222222222222222"),
        Some("0x1111111111111111111111111111111111111111".to_string())
    );
    assert_eq!(extract_address("nothing here"), None);
}

#[test]
fn number_skips_hex_literals() {
    assert_eq!(extract_number("top 0x12ab 3 buyers"), Some(3));
    assert_eq!(extract_number("0x445e9c 7"), Some(7));
    assert_eq!(extract_number("24h volume"), None);
    assert_eq!(extract_number("no digits"), None);
    assert_eq!(extract_number("limit 4294967295"), Some(4294967295));
    assert_eq!(extract_number("limit 4294967296"), None);
}

#[test]
fn quoted_text_is_between_the_first_two_quotes() {
    assert_eq!(extract_quoted_text("say \"hi\" and \"bye\""), Some("hi".to_string()));
    assert_eq!(extract_quoted_text("say \"\""), Some("".to_string()));
    assert_eq!(extract_quoted_text("say \"hi"), None);
    assert_eq!(extract_quoted_text("say hi"), None);
}

#[test]
fn intent_from_parts_tries_keywords_in_order() {
    let p = intent_from_parts("top holder", None, Some(3), None).unwrap();
    assert!(matches!(p.intent, IntentType::HolderCount));
    let p = intent_from_parts("top buyer", Some("0xc".to_string()), Some(3), None).unwrap();
    assert!(matches!(p.intent, IntentType::TopBuyers));
    assert_eq!(p.limit, Some(3));
    assert_eq!(p.coin_address, Some("0xc".to_string()));
    assert!(intent_from_parts("volume only", None, None, None).is_none());
}

fn intent(kind: IntentType, address: Option<&str>, limit: Option<u32>, message: Option<&str>) -> ParsedIntent {
    ParsedIntent {
        intent: kind,
        coin_address: address.map(|a| a.to_string()),
        limit,
        message: message.map(|m| m.to_string()),
    }
}

#[test]
fn plan_requires_a_coin() {
    let plan = plan_intent(&intent(IntentType::HolderCount, None, None, None));
    assert_eq!(plan.unwrap_err(), "No coin address provided");
}

#[test]
fn plan_message_requires_text() {
    let plan = plan_intent(&intent(IntentType::MessageBuyer, Some("0xc"), None, None));
    assert_eq!(plan.unwrap_err(), "No message provided");
    match plan_intent(&intent(IntentType::MessageBuyer, Some("0xc"), None, Some("hi"))).unwrap() {
        IntentPlan::Reply(text) => {
            assert_eq!(text, "\u{2709}\u{fe0f} Message prepared for recent buyer of 0xc: \"hi\"")
        }
        _ => panic!("expected a reply"),
    }
}

#[test]
fn plan_top_buyers_uses_base_and_limit() {
    match plan_intent(&intent(IntentType::TopBuyers, Some("0xc"), None, None)).unwrap() {
        IntentPlan::TopBuyers(input) => {
            assert_eq!(input.address, "0xc");
            assert_eq!(input.chain, 8453);
            assert_eq!(input.top_n, 5);
        }
        _ => panic!("expected top buyers"),
    }
    match plan_intent(&intent(IntentType::HolderCount, Some("0xc"), None, None)).unwrap() {
        IntentPlan::HolderCount(input) => {
            assert_eq!(input.address, "0xc");
            assert_eq!(input.chain, 8453);
        }
        _ => panic!("expected holder count"),
    }
}

#[test]
fn replies_are_formatted() {
    let h = HolderCountOutput {
        address: "0xc".to_string(),
        name: "Coin".to_string(),
        symbol: "CN".to_string(),
        unique_holders: 42,
    };
    let v = Volume24hOutput {
        address: "0xc".to_string(),
        name: "Coin".to_string(),
        symbol: "CN".to_string(),
        volume_24h: "15.5".to_string(),
        market_cap_delta: "+8.2%".to_string(),
    };
    assert_eq!(holder_reply(&h), "\u{1f4ca} CN has 42 unique holders.");
    assert_eq!(volume_reply(&v), "\u{1f4c8} CN: 24h volume is 15.5 ETH, market cap change +8.2%");
    assert_eq!(
        summary_reply(&h, &v),
        "\u{1f4ca} CN\n\u{1f465} Holders: 42\n\u{1f4c8} 24h Volume: 15.5 ETH\n\u{1f4c9} Market cap change: +8.2%"
    );
}

#[test]
fn top_buyers_reply_lists_up_to_the_limit() {
    let buyers = vec![
        TopBuyer { rank: 1, address: "0xa".to_string(), total_bought: "3".to_string(), trade_count: 2 },
        TopBuyer { rank: 2, address: "0xb".to_string(), total_bought: "1.5".to_string(), trade_count: 1 },
    ];
    assert_eq!(top_buyers_reply(&buyers, Some(1)), "\u{1f40b} Top Buyers:\n#1: 0xa bought 3 ETH\n");
    assert_eq!(
        top_buyers_reply(&buyers, None),
        "\u{1f40b} Top Buyers:\n#1: 0xa bought 3 ETH\n#2: 0xb bought 1.5 ETH\n"
    );
    assert_eq!(top_buyers_reply(&Vec::new(), Some(3)), "No buyers found.");
}

#[test]
fn failure_replies_name_the_tool() {
    assert_eq!(failure_reply(IntentType::HolderCount, "boom"), "Failed to fetch holder count: boom");
    assert_eq!(failure_reply(IntentType::Volume24h, "boom"), "Failed to fetch volume: boom");
    assert_eq!(failure_reply(IntentType::TopBuyers, "boom"), "Failed to fetch top buyers: boom");
    assert_eq!(failure_reply(IntentType::TokenSummary, "boom"), "Could not fetch token summary.");
    assert_eq!(client_failure_reply("no key"), "Failed to load client: no key");
}
