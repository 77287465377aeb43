use zora_aomi_tools::cli::{optional_chain, optional_u32, optional_u64, required_arg, usage, Command, USAGE};

fn args(list: &[&str]) -> Vec<String> {
    list.iter().map(|a| a.to_string()).collect()
}

#[test]
fn no_arguments_or_help_flag_ask_for_help() {
    assert!(matches!(Command::parse(args(&[]), 8453), Ok(Command::Help)));
    assert!(matches!(Command::parse(args(&["-h"]), 8453), Ok(Command::Help)));
    assert!(matches!(Command::parse(args(&["--help", "serve"]), 8453), Ok(Command::Help)));
    assert!(matches!(Command::parse(args(&["help"]), 8453), Ok(Command::Help)));
}

#[test]
fn serve_has_two_names() {
    assert!(matches!(Command::parse(args(&["serve"]), 8453), Ok(Command::Serve)));
    assert!(matches!(Command::parse(args(&["server", "extra"]), 8453), Ok(Command::Serve)));
}

#[test]
fn monitor_defaults_and_positionals() {
    match Command::parse(args(&["monitor"]), 8453).unwrap() {
        Command::Monitor { config, interval_secs } => {
            assert_eq!(config, "monitor.json");
            assert_eq!(interval_secs, 60);
        }
        _ => panic!("expected monitor"),
    }
    match Command::parse(args(&["monitor", "coins.json", "30", "ignored"]), 8453).unwrap() {
        Command::Monitor { config, interval_secs } => {
            assert_eq!(config, "coins.json");
            assert_eq!(interval_secs, 30);
        }
        _ => panic!("expected monitor"),
    }
}

#[test]
fn monitor_options() {
    match Command::parse(args(&["monitor", "--interval", "5", "--config", "a.json", "--verbose"]), 8453).unwrap() {
        Command::Monitor { config, interval_secs } => {
            assert_eq!(config, "a.json");
            assert_eq!(interval_secs, 5);
        }
        _ => panic!("expected monitor"),
    }
    match Command::parse(args(&["monitor", "--config"]), 8453).unwrap() {
        Command::Monitor { config, interval_secs } => {
            assert_eq!(config, "monitor.json");
            assert_eq!(interval_secs, 60);
        }
        _ => panic!("expected monitor"),
    }
}

#[test]
fn monitor_rejects_bad_intervals() {
    assert_eq!(
        Command::parse(args(&["monitor", "--interval", "soon"]), 8453).unwrap_err(),
        "--interval must be an integer"
    );
    assert_eq!(
        Command::parse(args(&["monitor", "a.json", "soon"]), 8453).unwrap_err(),
        "interval_secs must be an integer"
    );
}

#[test]
fn query_joins_its_words() {
    match Command::parse(args(&["ask", "top", "5", "buyers"]), 8453).unwrap() {
        Command::Query { query } => assert_eq!(query, "top 5 buyers"),
        _ => panic!("expected query"),
    }
    assert_eq!(
        Command::parse(args(&["query"]), 8453).unwrap_err(),
        format!("missing required argument: query\n\n{}", USAGE)
    );
}

#[test]
fn coin_commands_read_address_and_chain() {
    match Command::parse(args(&["holder-count", "0xc"]), 8453).unwrap() {
        Command::HolderCount { address, chain } => {
            assert_eq!(address, "0xc");
            assert_eq!(chain, 8453);
        }
        _ => panic!("expected holder count"),
    }
    match Command::parse(args(&["get-24h-volume", "0xc", "1"]), 8453).unwrap() {
        Command::Volume24h { address, chain } => {
            assert_eq!(address, "0xc");
            assert_eq!(chain, 1);
        }
        _ => panic!("expected volume"),
    }
    assert_eq!(
        Command::parse(args(&["24h-volume"]), 8453).unwrap_err(),
        format!("missing required argument: address\n\n{}", USAGE)
    );
    assert_eq!(
        Command::parse(args(&["holder-count", "0xc", "base"]), 8453).unwrap_err(),
        "chain must be an integer"
    );
}

#[test]
fn top_buyers_command() {
    match Command::parse(args(&["top-buyers", "0xc"]), 7).unwrap() {
        Command::TopBuyers { address, chain, top_n } => {
            assert_eq!(address, "0xc");
            assert_eq!(chain, 7);
            assert_eq!(top_n, 10);
        }
        _ => panic!("expected top buyers"),
    }
    match Command::parse(args(&["get-top-buyers", "0xc", "3", "1"]), 7).unwrap() {
        Command::TopBuyers { chain, top_n, .. } => {
            assert_eq!(chain, 1);
            assert_eq!(top_n, 3);
        }
        _ => panic!("expected top buyers"),
    }
    assert_eq!(
        Command::parse(args(&["top-buyers", "0xc", "many"]), 7).unwrap_err(),
        "top_n must be an integer"
    );
    assert_eq!(
        Command::parse(args(&["top-buyers", "0xc", "4294967296"]), 7).unwrap_err(),
        "top_n must be an integer"
    );
}

#[test]
fn unknown_command_is_reported_with_usage() {
    assert_eq!(
        Command::parse(args(&["frobnicate"]), 8453).unwrap_err(),
        format!("unknown command: frobnicate\n\n{}", USAGE)
    );
    assert!(usage().starts_with("Usage:\n  cargo run -- serve"));
}

#[test]
fn argument_helpers() {
    let a = args(&["x", "12"]);
    assert_eq!(required_arg(&a, 0, "address").unwrap(), "x");
    assert!(required_arg(&a, 2, "address").unwrap_err().starts_with("missing required argument: address\n\n"));
    assert_eq!(optional_u64(&a, 1, 9, "n").unwrap(), 12);
    assert_eq!(optional_u64(&a, 5, 9, "n").unwrap(), 9);
    assert_eq!(optional_u32(&a, 0, 9, "n").unwrap_err(), "n must be an integer");
    assert_eq!(optional_chain(&a, 3, 8453).unwrap(), 8453);
}
