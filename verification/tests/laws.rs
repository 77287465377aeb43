use std::cmp::Ordering;
use zora_aomi_tools::agent::nlp::{extract_address, intent_from_parts, IntentType};
use zora_aomi_tools::amount::{add_amounts, compare_amounts, normalize_amount};
use zora_aomi_tools::client::{SwapEdge, SwapNode};
use zora_aomi_tools::tools::get_top_buyers::aggregate_top_buyers;

fn edge(kind: &str, address: &str, amount: &str) -> SwapEdge {
    SwapEdge {
        node: SwapNode {
            activity_type: kind.to_string(),
            coin_amount: Some(amount.to_string()),
            sender_address: Some(address.to_string()),
            block_timestamp: None,
        },
    }
}

#[test]
fn sums_are_exact_commutative_and_associative() {
    let (a, b, c) = ("123456789012345678901234567890.5", "0.000000000000000001", "99.95");
    assert_eq!(add_amounts(a, b), "123456789012345678901234567890.500000000000000001");
    assert_eq!(add_amounts(a, b), add_amounts(b, a));
    assert_eq!(add_amounts(&add_amounts(a, b), c), add_amounts(a, &add_amounts(b, c)));
}

#[test]
fn comparison_follows_value_and_reverses() {
    assert_eq!(compare_amounts("2", "10"), Ordering::Less);
    assert_eq!(compare_amounts("10", "2"), Ordering::Greater);
    assert_eq!(compare_amounts("3.10", "3.1"), Ordering::Equal);
    assert_eq!(compare_amounts("3.1", "3.10"), Ordering::Equal);
}

#[test]
fn normalizing_twice_changes_nothing() {
    for s in ["000.1200", "5", "0.0", "12.", " 0042.4200 "] {
        let once = normalize_amount(s);
        assert_eq!(normalize_amount(&once), once);
    }
    assert_eq!(normalize_amount(" 0042.4200 "), "42.42");
}

#[test]
fn sells_do_not_change_the_ranking() {
    let buys = vec![edge("BUY", "0xa", "2"), edge("BUY", "0xb", "3")];
    let mut mixed = buys.clone();
    mixed.push(edge("SELL", "0xc", "100"));
    mixed.push(edge("SELL", "0xa", "50"));
    let plain = aggregate_top_buyers(buys, 5);
    let with_sells = aggregate_top_buyers(mixed, 5);
    assert_eq!(plain, with_sells);
}

#[test]
fn ranking_is_deterministic_and_prefix_closed() {
    let swaps = vec![edge("BUY", "0xa", "2"), edge("BUY", "0xb", "3"), edge("BUY", "0xc", "1"), edge("BUY", "0xa", "2")];
    let all = aggregate_top_buyers(swaps.clone(), 10);
    assert_eq!(all, aggregate_top_buyers(swaps.clone(), 10));
    let top2 = aggregate_top_buyers(swaps, 2);
    assert_eq!(top2[..], all[..2]);
    assert_eq!(all[0].address, "0xa");
    assert_eq!(all[0].total_bought, "4");
}

#[test]
fn named_coin_is_always_understood() {
    let p = intent_from_parts("nothing known", Some("0xc".to_string()), Some(9), None).unwrap();
    assert!(matches!(p.intent, IntentType::TokenSummary));
    assert_eq!(p.limit, None);
    assert_eq!(p.coin_address, Some("0xc".to_string()));
}

#[test]
fn found_address_has_the_ethereum_shape() {
    let a = extract_address("pay 0x00000000000000000000000000000000000000aB1 please").unwrap();
    assert_eq!(a.len(), 42);
    assert_eq!(a, "0x00000000000000000000000000000000000000aB");
}

#[test]
fn swap_order_does_not_change_the_ranking() {
    let swaps = vec![
        edge("BUY", "0xa", "2.5"),
        edge("SELL", "0xb", "9"),
        edge("BUY", "0xb", "1"),
        edge("buy", "0xc", "2.50"),
        edge("BUY", "0xb", "1.5"),
    ];
    let mut reversed = swaps.clone();
    reversed.reverse();
    let mut rotated = swaps.clone();
    rotated.rotate_left(2);
    let expected = aggregate_top_buyers(swaps, 3);
    assert_eq!(aggregate_top_buyers(reversed, 3), expected);
    assert_eq!(aggregate_top_buyers(rotated, 3), expected);
    assert_eq!(expected[0].address, "0xa");
    assert_eq!(expected[1].address, "0xb");
    assert_eq!(expected[1].trade_count, 2);
    assert_eq!(expected[2].address, "0xc");
}
