use std::cmp::Ordering;
use zora_aomi_tools::amount::{
    add_amounts, compare_amounts, is_amount_text, normalize_amount, pad_right, split_amount,
};
use zora_aomi_tools::client::{SwapEdge, SwapNode};
use zora_aomi_tools::tools::get_top_buyers::{aggregate_top_buyers, rankable_buys, swap_page_size};

fn edge(activity_type: &str, address: &str, amount: &str) -> SwapEdge {
    SwapEdge {
        node: SwapNode {
            activity_type: activity_type.to_string(),
            coin_amount: Some(amount.to_string()),
            sender_address: Some(address.to_string()),
            block_timestamp: None,
        },
    }
}

#[test]
fn aggregates_only_buys_and_ranks_by_amount() {
    let ranked = aggregate_top_buyers(
        vec![
            edge("BUY", "0xaaa", "1.5"),
            edge("SELL", "0xbbb", "100"),
            edge("BUY", "0xccc", "3"),
            edge("BUY", "0xaaa", "2.25"),
        ],
        2,
    );

    assert_eq!(ranked[0].address, "0xaaa");
    assert_eq!(ranked[0].total_bought, "3.75");
    assert_eq!(ranked[0].trade_count, 2);
    assert_eq!(ranked[1].address, "0xccc");
}

#[test]
fn aggregates_large_amounts_without_float_precision_loss() {
    let ranked = aggregate_top_buyers(
        vec![
            edge("BUY", "0xaaa", "900719925474099312345"),
            edge("BUY", "0xaaa", "7.55"),
            edge("BUY", "0xbbb", "900719925474099312346"),
        ],
        2,
    );

    assert_eq!(ranked[0].address, "0xaaa");
    assert_eq!(ranked[0].total_bought, "900719925474099312352.55");
    assert_eq!(ranked[1].address, "0xbbb");
}

#[test]
fn equal_totals_are_ranked_by_address() {
    let ranked = aggregate_top_buyers(
        vec![edge("BUY", "0xbbb", "5"), edge("buy", "0xaaa", "5.0"), edge("Buy", "0xccc", "1")],
        10,
    );
    assert_eq!(ranked.len(), 3);
    assert_eq!(ranked[0].address, "0xaaa");
    assert_eq!(ranked[0].total_bought, "5");
    assert_eq!(ranked[0].rank, 1);
    assert_eq!(ranked[1].address, "0xbbb");
    assert_eq!(ranked[1].rank, 2);
    assert_eq!(ranked[2].address, "0xccc");
    assert_eq!(ranked[2].rank, 3);
}

#[test]
fn incomplete_swaps_are_skipped() {
    let mut no_sender = edge("BUY", "0xaaa", "9");
    no_sender.node.sender_address = None;
    let mut no_amount = edge("BUY", "0xbbb", "9");
    no_amount.node.coin_amount = None;
    let ranked = aggregate_top_buyers(vec![no_sender, no_amount, edge("BUY", "0xccc", "0.5")], 5);
    assert_eq!(ranked.len(), 1);
    assert_eq!(ranked[0].address, "0xccc");
    assert_eq!(ranked[0].total_bought, "0.5");
    assert_eq!(ranked[0].trade_count, 1);
}

#[test]
fn zero_buyers_asked_gives_none() {
    let ranked = aggregate_top_buyers(vec![edge("BUY", "0xaaa", "1")], 0);
    assert!(ranked.is_empty());
    assert!(aggregate_top_buyers(Vec::new(), 3).is_empty());
}

#[test]
fn totals_are_canonical() {
    let ranked = aggregate_top_buyers(
        vec![edge("BUY", "0xaaa", "0.25"), edge("BUY", "0xaaa", "0.75"), edge("BUY", "0xbbb", "007.10")],
        2,
    );
    assert_eq!(ranked[0].address, "0xbbb");
    assert_eq!(ranked[0].total_bought, "7.1");
    assert_eq!(ranked[1].address, "0xaaa");
    assert_eq!(ranked[1].total_bought, "1");
    assert_eq!(ranked[1].trade_count, 2);
}

#[test]
fn page_size_is_twenty_per_buyer_at_least_a_hundred() {
    assert_eq!(swap_page_size(1), 100);
    assert_eq!(swap_page_size(5), 100);
    assert_eq!(swap_page_size(10), 200);
    assert_eq!(swap_page_size(u32::MAX), u32::MAX);
}

#[test]
fn rankable_buys_rejects_malformed_amounts() {
    assert!(rankable_buys(&vec![edge("BUY", "0xa", "1.5"), edge("SELL", "0xb", "oops")]));
    assert!(!rankable_buys(&vec![edge("BUY", "0xa", "1e5")]));
    assert!(!rankable_buys(&vec![edge("buy", "0xa", "1.2.3")]));
}

#[test]
fn add_amounts_is_exact() {
    assert_eq!(add_amounts("1.5", "2.25"), "3.75");
    assert_eq!(add_amounts("0.1", "0.9"), "1");
    assert_eq!(add_amounts("999", "1"), "1000");
    assert_eq!(add_amounts(" 007.50 ", "0"), "7.5");
    assert_eq!(add_amounts("0", "0"), "0");
}

#[test]
fn compare_amounts_orders_by_value() {
    assert_eq!(compare_amounts("10", "9"), Ordering::Greater);
    assert_eq!(compare_amounts("1.50", "1.5"), Ordering::Equal);
    assert_eq!(compare_amounts("0.09", "0.1"), Ordering::Less);
}

#[test]
fn normalize_amount_strips_zeros() {
    assert_eq!(normalize_amount("000.1200"), "0.12");
    assert_eq!(normalize_amount("00"), "0");
    assert_eq!(normalize_amount(".5"), "0.5");
    assert_eq!(normalize_amount("12."), "12");
}

#[test]
fn split_and_pad() {
    assert_eq!(split_amount(" 12.34 "), ("12".to_string(), "34".to_string()));
    assert_eq!(split_amount("5"), ("5".to_string(), "".to_string()));
    assert_eq!(pad_right("12", 4), "1200");
    assert_eq!(pad_right("12345", 2), "12345");
    assert!(is_amount_text(" 1.5 "));
    assert!(!is_amount_text("1,5"));
}
