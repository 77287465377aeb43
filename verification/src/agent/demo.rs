//! The agent programs' own texts: which command the agent program runs,
//! and the analysis and prompt of the demo that words a coin's figures.

use vstd::prelude::*;
use crate::decimal::decimal_digits;
use crate::numbers::{u32_text, u64_text};
use crate::text::{chars_of, extend_with_str, same_text, string_from_chars};
use crate::types::TopBuyer;

verus! {

/// What the agent program is asked to do.
#[derive(Debug, Clone)]
pub enum AgentCommand {
    /// Answer a request in plain words.
    Query(String),
    /// Run the server.
    Serve,
}

/// The words of a request joined by single spaces.
pub open spec fn words_joined(words: Seq<Seq<char>>) -> Seq<char>
    decreases words.len(),
{
    if words.len() == 0 {
        Seq::empty()
    } else if words.len() == 1 {
        words[0]
    } else {
        words_joined(words.drop_last()) + " "@ + words.last()
    }
}

/// The texts of a list of arguments.
pub open spec fn arg_texts(args: Seq<String>) -> Seq<Seq<char>> {
    args.map_values(|a: String| a@)
}

/// The agent program's command: `query` or `ask` followed by the request
/// (which must not be empty); anything else runs the server.
pub fn agent_command(args: Vec<String>) -> (r: Result<AgentCommand, String>)
    ensures
        args.len() > 0 && (args@[0]@ == "query"@ || args@[0]@ == "ask"@) ==> match r {
            Ok(AgentCommand::Query(q)) => args.len() > 1 && q@ == words_joined(arg_texts(args@).skip(1)),
            Ok(AgentCommand::Serve) => false,
            Err(e) => args.len() == 1 && e@ == "missing query text"@,
        },
        !(args.len() > 0 && (args@[0]@ == "query"@ || args@[0]@ == "ask"@)) ==> r matches Ok(AgentCommand::Serve),
{
    if args.len() == 0 {
        return Ok(AgentCommand::Serve);
    }
    let first = args[0].as_str();
    if !(same_text(first, "query") || same_text(first, "ask")) {
        return Ok(AgentCommand::Serve);
    }
    if args.len() == 1 {
        return Err("missing query text".to_owned());
    }
    let ghost t = arg_texts(args@).skip(1);
    let mut v: Vec<char> = Vec::new();
    let mut i: usize = 1;
    while i < args.len()
        invariant
            1 <= i <= args.len(),
            t == arg_texts(args@).skip(1),
            v@ == words_joined(t.take(i - 1)),
        decreases args.len() - i,
    {
        proof {
            assert(t.take(i as int).drop_last() == t.take(i - 1));
            assert(t.take(i as int).last() == args@[i as int]@);
            if i == 1 {
                assert(t.take(1) == seq![args@[1]@]);
            }
        }
        if i > 1 {
            extend_with_str(&mut v, " ");
        }
        extend_with_str(&mut v, args[i].as_str());
        i = i + 1;
    }
    assert(t.take(args.len() - 1) == t);
    Ok(AgentCommand::Query(string_from_chars(&v)))
}

/// How many top buyers the demo fetches, and how many it describes.
pub const DEMO_TOP_N: u32 = 5;

pub const DEMO_LISTED_BUYERS: usize = 3;

/// The demo's line on a coin's holders.
pub fn holder_analysis(name: &str, symbol: &str, holders: u64) -> (r: String)
    ensures
        r@ == "Coin: "@ + name@ + " ("@ + symbol@ + ")\n- Unique Holders: "@ + decimal_digits(holders as nat) + "\n"@,
{
    let mut v = chars_of("Coin: ");
    extend_with_str(&mut v, name);
    extend_with_str(&mut v, " (");
    extend_with_str(&mut v, symbol);
    extend_with_str(&mut v, ")\n- Unique Holders: ");
    extend_with_str(&mut v, u64_text(holders).as_str());
    extend_with_str(&mut v, "\n");
    string_from_chars(&v)
}

/// The demo's lines on a coin's volume.
pub fn volume_analysis(volume: &str, delta: &str) -> (r: String)
    ensures
        r@ == "- 24h Volume: "@ + volume@ + "\n- Market Cap Delta: "@ + delta@ + "\n"@,
{
    let mut v = chars_of("- 24h Volume: ");
    extend_with_str(&mut v, volume);
    extend_with_str(&mut v, "\n- Market Cap Delta: ");
    extend_with_str(&mut v, delta);
    extend_with_str(&mut v, "\n");
    string_from_chars(&v)
}

/// The demo's line on one buyer.
pub open spec fn demo_buyer_line(b: TopBuyer) -> Seq<char> {
    "  #"@ + decimal_digits(b.rank as nat) + ": "@ + b.address@ + " bought "@ + b.total_bought@ + "\n"@
}

/// The demo's lines on a list of buyers.
pub open spec fn demo_buyer_lines(bs: Seq<TopBuyer>) -> Seq<char>
    decreases bs.len(),
{
    if bs.len() == 0 {
        Seq::empty()
    } else {
        demo_buyer_lines(bs.drop_last()) + demo_buyer_line(bs.last())
    }
}

/// The demo's lines on the top buyers: a heading, then the first three.
pub fn buyers_analysis(buyers: &Vec<TopBuyer>) -> (r: String)
    ensures
        r@ == "- Top Buyers:\n"@ + demo_buyer_lines(
            buyers@.take(if buyers.len() < DEMO_LISTED_BUYERS { buyers.len() as int } else { DEMO_LISTED_BUYERS as int }),
        ),
{
    let count = if buyers.len() < DEMO_LISTED_BUYERS {
        buyers.len()
    } else {
        DEMO_LISTED_BUYERS
    };
    let mut v = chars_of("- Top Buyers:\n");
    let ghost head = v@;
    let mut i: usize = 0;
    assert(buyers@.take(0) == Seq::<TopBuyer>::empty());
    while i < count
        invariant
            i <= count <= buyers.len(),
            v@ == head + demo_buyer_lines(buyers@.take(i as int)),
        decreases count - i,
    {
        let b = &buyers[i];
        proof {
            assert(buyers@.take(i + 1).drop_last() == buyers@.take(i as int));
            assert(buyers@.take(i + 1).last() == buyers@[i as int]);
        }
        extend_with_str(&mut v, "  #");
        extend_with_str(&mut v, u32_text(b.rank).as_str());
        extend_with_str(&mut v, ": ");
        extend_with_str(&mut v, b.address.as_str());
        extend_with_str(&mut v, " bought ");
        extend_with_str(&mut v, b.total_bought.as_str());
        extend_with_str(&mut v, "\n");
        i = i + 1;
    }
    string_from_chars(&v)
}

/// The prompt before the coin's figures.
pub const PROMPT_HEAD: &'static str = "You are a creator analytics assistant for Zora Coins on Base. \nThink Daily Wrapped for on-chain creators.\nWhen a creator asks about their coin, respond with sharp, human-readable insights \u{2014} not raw numbers.\n\nExamples of good responses:\n- \"12 new holders today, your top buyer is 0xabc\u{2026}ef.\"\n- \"Volume is up 40% in the last 24h \u{2014} your biggest trade was 2.1 ETH.\"\n\nConvert this data into a natural, concise 1-2 sentence insight:\n\n";

/// The prompt after the coin's figures.
pub const PROMPT_TAIL: &'static str = "\n\nKeep it conversational and human. Max 2 sentences.";

/// The prompt asking a language model to word a coin's figures.
pub fn insight_prompt(data: &str) -> (r: String)
    ensures
        r@ == PROMPT_HEAD@ + data@ + PROMPT_TAIL@,
{
    let mut v = chars_of(PROMPT_HEAD);
    extend_with_str(&mut v, data);
    extend_with_str(&mut v, PROMPT_TAIL);
    string_from_chars(&v)
}

} // verus!
