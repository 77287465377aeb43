use zora_aomi_tools::agent::demo::{
    agent_command, buyers_analysis, holder_analysis, insight_prompt, volume_analysis, AgentCommand,
};
use zora_aomi_tools::types::TopBuyer;

fn args(list: &[&str]) -> Vec<String> {
    list.iter().map(|a| a.to_string()).collect()
}

#[test]
fn agent_program_commands() {
    match agent_command(args(&["ask", "top", "buyers"])).unwrap() {
        AgentCommand::Query(q) => assert_eq!(q, "top buyers"),
        AgentCommand::Serve => panic!("expected a query"),
    }
    assert_eq!(agent_command(args(&["query"])).unwrap_err(), "missing query text");
    assert!(matches!(agent_command(args(&["serve"])).unwrap(), AgentCommand::Serve));
    assert!(matches!(agent_command(args(&[])).unwrap(), AgentCommand::Serve));
    assert!(matches!(agent_command(args(&["anything", "else"])).unwrap(), AgentCommand::Serve));
}

#[test]
fn demo_analysis_lines() {
    assert_eq!(holder_analysis("Test", "TST", 42), "Coin: Test (TST)\n- Unique Holders: 42\n");
    assert_eq!(volume_analysis("15.5", "+8%"), "- 24h Volume: 15.5\n- Market Cap Delta: +8%\n");
    let buyers: Vec<TopBuyer> = (1..=5)
        .map(|i| TopBuyer { rank: i, address: format!("0x{i}"), total_bought: format!("{i}"), trade_count: 1 })
        .collect();
    assert_eq!(
        buyers_analysis(&buyers),
        "- Top Buyers:\n  #1: 0x1 bought 1\n  #2: 0x2 bought 2\n  #3: 0x3 bought 3\n"
    );
    assert_eq!(buyers_analysis(&Vec::new()), "- Top Buyers:\n");
}

#[test]
fn demo_prompt_wraps_the_data() {
    let prompt = insight_prompt("DATA");
    assert!(prompt.starts_with("You are a creator analytics assistant for Zora Coins on Base. \nThink Daily Wrapped"));
    assert!(prompt.contains("insight:\n\nDATA\n\nKeep it conversational and human. Max 2 sentences."));
}
