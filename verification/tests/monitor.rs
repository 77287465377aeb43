use zora_aomi_tools::agent::monitor::{
    first_buyer_address, holder_growth, holder_threshold_or_default, new_holders_ping, new_top_buyer,
    new_top_buyer_ping, poll_step, polled_snapshot, PollEvent, short_wallet, wallet_shortenable, CoinSnapshot, SnapshotStore,
    StdoutNotifier,
};
use zora_aomi_tools::types::TopBuyer;

fn seen(holders: u64, top: Option<&str>) -> CoinSnapshot {
    polled_snapshot(holders, "1.5".to_string(), top.map(|t| t.to_string()))
}

#[test]
fn store_reads_back_what_was_recorded() {
    let mut store = SnapshotStore::new();
    let blank = store.snapshot("0xa");
    assert!(!blank.initialized);
    assert_eq!(blank.holder_count, 0);
    assert_eq!(blank.volume_24h, "");
    assert!(blank.top_buyer.is_none());

    store.record("0xa".to_string(), seen(10, Some("0xw")));
    store.record("0xb".to_string(), seen(3, None));
    store.record("0xa".to_string(), seen(12, None));
    let a = store.snapshot("0xa");
    assert!(a.initialized);
    assert_eq!(a.holder_count, 12);
    assert!(a.top_buyer.is_none());
    assert_eq!(store.snapshot("0xb").holder_count, 3);
    assert!(!store.snapshot("0xc").initialized);
}

#[test]
fn first_poll_never_pings() {
    let blank = CoinSnapshot::default();
    assert_eq!(holder_growth(&blank, 1_000, 0), None);
    assert_eq!(new_top_buyer(&blank, &Some("0xw".to_string())), None);
}

#[test]
fn holder_growth_against_the_threshold() {
    let prev = seen(10, None);
    assert_eq!(holder_growth(&prev, 15, 5), Some(5));
    assert_eq!(holder_growth(&prev, 14, 5), None);
    assert_eq!(holder_growth(&prev, 8, 1), None);
    assert_eq!(holder_growth(&prev, 8, 0), Some(0));
}

#[test]
fn top_buyer_change() {
    let prev = seen(10, Some("0xw"));
    assert_eq!(new_top_buyer(&prev, &Some("0xw".to_string())), None);
    assert_eq!(new_top_buyer(&prev, &Some("0xz".to_string())), Some("0xz".to_string()));
    assert_eq!(new_top_buyer(&prev, &None), None);
    let none_before = seen(10, None);
    assert_eq!(new_top_buyer(&none_before, &Some("0xw".to_string())), Some("0xw".to_string()));
}

#[test]
fn first_buyer_of_a_ranking() {
    let buyers = vec![TopBuyer { rank: 1, address: "0xw".to_string(), total_bought: "1".to_string(), trade_count: 1 }];
    assert_eq!(first_buyer_address(&buyers), Some("0xw".to_string()));
    assert_eq!(first_buyer_address(&Vec::new()), None);
}

#[test]
fn holder_pings() {
    assert_eq!(new_holders_ping("Aether", 1, 10), "\u{1f4c8} Aether \u{2014} 1 new holder today (total: 10)");
    assert_eq!(new_holders_ping("Aether", 3, 12), "\u{1f4c8} Aether \u{2014} 3 new holders today (total: 12)");
    assert_eq!(new_holders_ping("Aether", 0, 12), "\u{1f4c8} Aether \u{2014} 0 new holders today (total: 12)");
}

#[test]
fn wallets_are_shortened_in_pings() {
    assert_eq!(short_wallet("0x1234567890abcdef"), "0x1234\u{2026}cdef");
    assert_eq!(short_wallet("0x12345678"), "0x1234\u{2026}5678");
    assert_eq!(short_wallet("short"), "short");
    assert!(wallet_shortenable("0x1234567890abcdef"));
    assert!(!wallet_shortenable("0x123\u{e9}4567890"));
    assert_eq!(
        new_top_buyer_ping("Aether", "0xaaaaaaaaaaaaaaaaaaaaaaaaaaaaaaaaaaaabbbb"),
        "\u{1f40b} Aether \u{2014} new top buyer: 0xaaaa\u{2026}bbbb"
    );
}

#[test]
fn console_line_and_defaults() {
    assert_eq!(StdoutNotifier::line("2024-01-01 00:00:00 UTC", "hi"), "[2024-01-01 00:00:00 UTC] hi");
    assert_eq!(holder_threshold_or_default(None), 1);
    assert_eq!(holder_threshold_or_default(Some(7)), 7);
}

#[test]
fn poll_step_orders_events_and_leaves_the_next_snapshot() {
    let prev = seen(10, Some("0xold"));
    let out = poll_step(&prev, 15, "2.5".to_string(), Some("0xnew".to_string()), 5, true);
    assert_eq!(out.events.len(), 3);
    assert!(matches!(out.events[0], PollEvent::NewHolders { total_holders: 15, new_holders: 5 }));
    assert!(matches!(out.events[1], PollEvent::VolumeSpike));
    match &out.events[2] {
        PollEvent::NewTopBuyer { wallet } => assert_eq!(wallet, "0xnew"),
        _ => panic!("expected a new top buyer"),
    }
    assert!(out.next.initialized);
    assert_eq!(out.next.holder_count, 15);
    assert_eq!(out.next.volume_24h, "2.5");
    assert_eq!(out.next.top_buyer, Some("0xnew".to_string()));

    let quiet = poll_step(&prev, 11, "2.5".to_string(), Some("0xold".to_string()), 5, false);
    assert!(quiet.events.is_empty());

    let first = poll_step(&CoinSnapshot::default(), 100, "1".to_string(), Some("0xw".to_string()), 0, true);
    assert!(first.events.is_empty());
    assert!(first.next.initialized);
}
