//! Reading a request in plain words: which tool it asks for, for which
//! coin, and with which number or message.
//!
//! Keywords are looked for in the lowercase text.  A coin is named by an
//! Ethereum address (`0x` and 40 hex digits) or else by an ENS name
//! (`name.eth`); a count is the first free-standing number once hex
//! literals are taken out; a message is the text between the first two
//! double quotes.

use vstd::prelude::*;
use crate::decimal::decimal_digits;
use crate::numbers::{parse_u32, parsed_unsigned, u32_text, u64_text};
use crate::text::{
    chars_of, concat_str, contains_str, contains_text, occurs_at, extend_with_str, find_char, index_of,
    lemma_index_of, owned, slice_chars, string_from_chars,
};
use crate::types::{CoinInput, HolderCountOutput, TopBuyer, TopBuyersInput, Volume24hOutput};

verus! {

// ---------------------------------------------------------------------------
// Results of outside functions
// ---------------------------------------------------------------------------

/// What `str::to_lowercase` gives for a text.
pub uninterp spec fn lowercase(text: Seq<char>) -> Seq<char>;

/// The first match of the ENS pattern `\b[\w-]+\.eth\b` in a text, as the
/// regex crate finds it.
pub uninterp spec fn ens_name_match(text: Seq<char>) -> Option<Seq<char>>;

/// The first match of the pattern `\b(\d+)\b` in a text, as the regex
/// crate finds it.
pub uninterp spec fn number_match(text: Seq<char>) -> Option<Seq<char>>;

/// The lowercase of `s`.
///
/// Trusted: calls std's `str::to_lowercase`; the contract only names its
/// result, which depends on `s` alone.
#[verifier::external_body]
fn to_lowercase_text(s: &str) -> (r: String)
    ensures
        r@ == lowercase(s@),
{
    s.to_lowercase()
}

/// The text of an optional string.
pub open spec fn opt_text(o: Option<String>) -> Option<Seq<char>> {
    match o {
        Some(s) => Some(s@),
        None => None,
    }
}

/// The first ENS name in `text`.
///
/// Trusted: compiles the pattern `\b[\w-]+\.eth\b` with the regex crate
/// (`Regex::new`, which accepts it) and returns the text of
/// `Regex::find`'s match; the contract only names that result, which
/// depends on `text` alone.
#[verifier::external_body]
fn find_ens_name(text: &str) -> (r: Option<String>)
    ensures
        opt_text(r) == ens_name_match(text@),
{
    regex::Regex::new(r"\b[\w-]+\.eth\b").unwrap().find(text).map(|m| m.as_str().to_string())
}

/// The first free-standing number in `text`.
///
/// Trusted: compiles the pattern `\b(\d+)\b` with the regex crate
/// (`Regex::new`, which accepts it) and returns the text of
/// `Regex::find`'s match; the contract only names that result, which
/// depends on `text` alone.
#[verifier::external_body]
fn find_number_token(text: &str) -> (r: Option<String>)
    ensures
        opt_text(r) == number_match(text@),
{
    regex::Regex::new(r"\b(\d+)\b").unwrap().find(text).map(|m| m.as_str().to_string())
}

// ---------------------------------------------------------------------------
// Ethereum addresses
// ---------------------------------------------------------------------------

/// An ASCII hexadecimal digit, in either case.
pub open spec fn is_hex(c: char) -> bool {
    ('0' <= c && c <= '9') || ('a' <= c && c <= 'f') || ('A' <= c && c <= 'F')
}

/// The length of an address: `0x` and 40 hex digits.
pub open spec fn address_len() -> int {
    42
}

/// An address starts at `i`: `0`, `x` or `X`, then 40 hex digits.
pub open spec fn address_at(s: Seq<char>, i: int) -> bool {
    &&& 0 <= i
    &&& i + address_len() <= s.len()
    &&& s[i] == '0'
    &&& (s[i + 1] == 'x' || s[i + 1] == 'X')
    &&& forall|k: int| i + 2 <= k < i + address_len() ==> is_hex(#[trigger] s[k])
}

/// The first position at or after `i` where an address starts.
pub open spec fn first_address_from(s: Seq<char>, i: int) -> Option<int>
    decreases s.len() - i,
{
    if i < 0 || i + address_len() > s.len() {
        None
    } else if address_at(s, i) {
        Some(i)
    } else {
        first_address_from(s, i + 1)
    }
}

/// The first Ethereum address in `s` (what `(?i)0x[a-f0-9]{40}` finds).
pub open spec fn eth_address_in(s: Seq<char>) -> Option<Seq<char>> {
    match first_address_from(s, 0) {
        Some(i) => Some(s.subrange(i, i + address_len())),
        None => None,
    }
}

/// The coin a request names: its first Ethereum address, or else its first
/// ENS name.
pub open spec fn address_in(s: Seq<char>) -> Option<Seq<char>> {
    match eth_address_in(s) {
        Some(a) => Some(a),
        None => ens_name_match(s),
    }
}

fn hex_char(c: char) -> (b: bool)
    ensures
        b == is_hex(c),
{
    ('0' <= c && c <= '9') || ('a' <= c && c <= 'f') || ('A' <= c && c <= 'F')
}

/// Whether an address starts at `i`.
fn address_at_exec(v: &Vec<char>, i: usize) -> (b: bool)
    requires
        i + 42 <= v.len(),
    ensures
        b == address_at(v@, i as int),
{
    if v[i] != '0' || !(v[i + 1] == 'x' || v[i + 1] == 'X') {
        return false;
    }
    let mut k = i + 2;
    while k < i + 42
        invariant
            i + 2 <= k <= i + 42,
            i + 42 <= v.len(),
            forall|q: int| i + 2 <= q < k ==> is_hex(#[trigger] v@[q]),
        decreases i + 42 - k,
    {
        if !hex_char(v[k]) {
            return false;
        }
        k = k + 1;
    }
    true
}

/// The first Ethereum address in `v`.
fn find_eth_address(v: &Vec<char>) -> (r: Option<Vec<char>>)
    ensures
        match r {
            Some(a) => eth_address_in(v@) == Some(a@),
            None => eth_address_in(v@) is None,
        },
{
    let mut i: usize = 0;
    if v.len() < 42 {
        return None;
    }
    while i <= v.len() - 42
        invariant
            v.len() >= 42,
            i <= v.len() - 41,
            first_address_from(v@, 0) == first_address_from(v@, i as int),
        decreases v.len() - i,
    {
        if address_at_exec(v, i) {
            return Some(slice_chars(v, i, i + 42));
        }
        i = i + 1;
    }
    None
}

/// The coin named in `input`: the first Ethereum address (`0x` and 40 hex
/// digits, either case), or else the first ENS name.
pub fn extract_address(input: &str) -> (r: Option<String>)
    ensures
        opt_text(r) == address_in(input@),
{
    let v = chars_of(input);
    match find_eth_address(&v) {
        Some(a) => Some(string_from_chars(&a)),
        None => find_ens_name(input),
    }
}

// ---------------------------------------------------------------------------
// Numbers
// ---------------------------------------------------------------------------

/// A hex literal starts at `i`: `0x` (lowercase `x`) and a hex digit.
pub open spec fn hex_literal_at(s: Seq<char>, i: int) -> bool {
    0 <= i && i + 2 < s.len() && s[i] == '0' && s[i + 1] == 'x' && is_hex(s[i + 2])
}

/// The end of the run of hex digits starting at `j`.
pub open spec fn hex_run_end(s: Seq<char>, j: int) -> int
    decreases s.len() - j,
{
    if 0 <= j < s.len() && is_hex(s[j]) {
        hex_run_end(s, j + 1)
    } else {
        j
    }
}

/// The characters of `s` from `i` on, with every hex literal (`0x` and the
/// longest run of hex digits after it) taken out, scanning left to right:
/// what replacing `0x[a-fA-F0-9]+` by nothing leaves.
pub open spec fn strip_hex_from(s: Seq<char>, i: int) -> Seq<char>
    decreases s.len() - i, 1int,
{
    if i < 0 || i >= s.len() {
        Seq::empty()
    } else if hex_literal_at(s, i) {
        if i < hex_run_end(s, i + 2) <= s.len() {
            strip_hex_from(s, hex_run_end(s, i + 2))
        } else {
            Seq::empty()
        }
    } else {
        seq![s[i]] + strip_hex_from(s, i + 1)
    }
}

/// `s` with its hex literals taken out.
pub open spec fn without_hex_literals(s: Seq<char>) -> Seq<char> {
    strip_hex_from(s, 0)
}

/// The count a request gives: the first free-standing number once hex
/// literals are taken out, when it is a valid `u32`.
pub open spec fn number_in(s: Seq<char>) -> Option<u32> {
    match number_match(without_hex_literals(s)) {
        Some(token) => match parsed_unsigned(token, u32::MAX as nat) {
            Some(n) => Some(n as u32),
            None => None,
        },
        None => None,
    }
}

proof fn lemma_hex_run_end(s: Seq<char>, j: int)
    requires
        0 <= j <= s.len(),
    ensures
        j <= hex_run_end(s, j) <= s.len(),
    decreases s.len() - j,
{
    if j < s.len() && is_hex(s[j]) {
        lemma_hex_run_end(s, j + 1);
    }
}

/// The end of the run of hex digits starting at `j`.
fn hex_run_end_exec(v: &Vec<char>, j: usize) -> (e: usize)
    requires
        j <= v.len(),
    ensures
        e == hex_run_end(v@, j as int),
        j <= e <= v.len(),
{
    let mut e = j;
    while e < v.len() && hex_char(v[e])
        invariant
            j <= e <= v.len(),
            hex_run_end(v@, e as int) == hex_run_end(v@, j as int),
        decreases v.len() - e,
    {
        e = e + 1;
    }
    e
}

/// `v` with its hex literals taken out.
fn strip_hex_literals(v: &Vec<char>) -> (r: Vec<char>)
    ensures
        r@ == without_hex_literals(v@),
{
    let mut out: Vec<char> = Vec::new();
    let mut i: usize = 0;
    while i < v.len()
        invariant
            i <= v.len(),
            out@ + strip_hex_from(v@, i as int) == without_hex_literals(v@),
        decreases v.len() - i,
    {
        if v.len() - i > 2 && v[i] == '0' && v[i + 1] == 'x' && hex_char(v[i + 2]) {
            let e = hex_run_end_exec(v, i + 2);
            proof {
                lemma_hex_run_end(v@, i + 2);
            }
            i = e;
        } else {
            proof {
                assert(out@ + strip_hex_from(v@, i as int) == out@.push(v@[i as int]) + strip_hex_from(v@, i + 1));
            }
            out.push(v[i]);
            i = i + 1;
        }
    }
    assert(out@ + Seq::<char>::empty() == out@);
    out
}

/// The count given in `input`: the first free-standing number once hex
/// literals (such as the coin's address) are taken out, if it is a valid
/// `u32`.
pub fn extract_number(input: &str) -> (r: Option<u32>)
    ensures
        r == number_in(input@),
{
    let v = chars_of(input);
    let cleaned = string_from_chars(&strip_hex_literals(&v));
    match find_number_token(cleaned.as_str()) {
        Some(token) => parse_u32(token.as_str()),
        None => None,
    }
}

// ---------------------------------------------------------------------------
// Quoted messages
// ---------------------------------------------------------------------------

/// The text between the first two double quotes of `s`, if it has two.
pub open spec fn quoted_in(s: Seq<char>) -> Option<Seq<char>> {
    match index_of(s, '"') {
        Some(p) => match index_of(s.skip(p + 1), '"') {
            Some(q) => Some(s.subrange(p + 1, p + 1 + q)),
            None => None,
        },
        None => None,
    }
}

/// The text between the first two double quotes of `input`, if any.
pub fn extract_quoted_text(input: &str) -> (r: Option<String>)
    ensures
        opt_text(r) == quoted_in(input@),
{
    let v = chars_of(input);
    proof {
        lemma_index_of(v@, '"');
    }
    match find_char(&v, '"') {
        Some(p) => {
            let rest = slice_chars(&v, p + 1, v.len());
            assert(rest@ == v@.skip(p + 1));
            proof {
                lemma_index_of(rest@, '"');
            }
            match find_char(&rest, '"') {
                Some(q) => {
                    let inner = slice_chars(&v, p + 1, p + 1 + q);
                    Some(string_from_chars(&inner))
                },
                None => None,
            }
        },
        None => None,
    }
}

// ---------------------------------------------------------------------------
// Intents
// ---------------------------------------------------------------------------

/// The tool a request asks for.
#[derive(Debug, Clone, Copy, PartialEq, Eq, Structural)]
pub enum IntentType {
    HolderCount,
    Volume24h,
    TopBuyers,
    MessageBuyer,
    TokenSummary,
}

/// A request read from plain words: the tool, the coin, how many buyers,
/// and the message to send.
#[derive(Debug, Clone)]
pub struct ParsedIntent {
    pub intent: IntentType,
    pub coin_address: Option<String>,
    pub limit: Option<u32>,
    pub message: Option<String>,
}

/// A parsed request with its texts as character sequences.
pub struct IntentView {
    pub intent: IntentType,
    pub coin_address: Option<Seq<char>>,
    pub limit: Option<u32>,
    pub message: Option<Seq<char>>,
}

impl View for ParsedIntent {
    type V = IntentView;

    open spec fn view(&self) -> IntentView {
        IntentView {
            intent: self.intent,
            coin_address: opt_text(self.coin_address),
            limit: self.limit,
            message: opt_text(self.message),
        }
    }
}

/// The number of buyers asked for when a request gives none.
pub const DEFAULT_BUYER_LIMIT: u32 = 5;

/// The intent a request is read as, from its lowercase text and what was
/// extracted from it, trying in turn: holders; 24-hour volume; top buyers
/// (with the request's number, five by default); messaging a buyer (with
/// the quoted text); and, when only a coin is named, a summary of it.
pub open spec fn intent_of(
    lower: Seq<char>,
    address: Option<Seq<char>>,
    number: Option<u32>,
    quoted: Option<Seq<char>>,
) -> Option<IntentView> {
    if contains_text(lower, "holder"@) || contains_text(lower, "holder count"@) || contains_text(
        lower,
        "unique holder"@,
    ) {
        Some(IntentView { intent: IntentType::HolderCount, coin_address: address, limit: None, message: None })
    } else if contains_text(lower, "volume"@) && contains_text(lower, "24h"@) {
        Some(IntentView { intent: IntentType::Volume24h, coin_address: address, limit: None, message: None })
    } else if contains_text(lower, "top"@) && (contains_text(lower, "buyer"@) || contains_text(lower, "whale"@)
        || contains_text(lower, "biggest"@)) {
        Some(
            IntentView {
                intent: IntentType::TopBuyers,
                coin_address: address,
                limit: Some(
                    match number {
                        Some(n) => n,
                        None => DEFAULT_BUYER_LIMIT,
                    },
                ),
                message: None,
            },
        )
    } else if contains_text(lower, "message"@) && contains_text(lower, "buyer"@) {
        Some(IntentView { intent: IntentType::MessageBuyer, coin_address: address, limit: None, message: quoted })
    } else if address is Some {
        Some(IntentView { intent: IntentType::TokenSummary, coin_address: address, limit: None, message: None })
    } else {
        None
    }
}

/// The intent of a request whose lowercase text is `lower`, given the coin,
/// number and quoted text found in it (see [`intent_of`]).
pub fn intent_from_parts(
    lower: &str,
    coin_address: Option<String>,
    number: Option<u32>,
    quoted: Option<String>,
) -> (r: Option<ParsedIntent>)
    ensures
        match r {
            Some(p) => intent_of(lower@, opt_text(coin_address), number, opt_text(quoted)) == Some(p@),
            None => intent_of(lower@, opt_text(coin_address), number, opt_text(quoted)) is None,
        },
{
    if contains_str(lower, "holder") || contains_str(lower, "holder count") || contains_str(lower, "unique holder") {
        return Some(ParsedIntent { intent: IntentType::HolderCount, coin_address, limit: None, message: None });
    }
    if contains_str(lower, "volume") && contains_str(lower, "24h") {
        return Some(ParsedIntent { intent: IntentType::Volume24h, coin_address, limit: None, message: None });
    }
    if contains_str(lower, "top") && (contains_str(lower, "buyer") || contains_str(lower, "whale") || contains_str(
        lower,
        "biggest",
    )) {
        let limit = match number {
            Some(n) => n,
            None => DEFAULT_BUYER_LIMIT,
        };
        return Some(ParsedIntent { intent: IntentType::TopBuyers, coin_address, limit: Some(limit), message: None });
    }
    if contains_str(lower, "message") && contains_str(lower, "buyer") {
        return Some(ParsedIntent { intent: IntentType::MessageBuyer, coin_address, limit: None, message: quoted });
    }
    if coin_address.is_some() {
        return Some(ParsedIntent { intent: IntentType::TokenSummary, coin_address, limit: None, message: None });
    }
    None
}

/// Reads a request in plain words (see [`intent_of`]); `None` when it asks
/// for no known tool and names no coin.
pub fn parse_user_input(input: &str) -> (r: Option<ParsedIntent>)
    ensures
        match r {
            Some(p) => intent_of(lowercase(input@), address_in(input@), number_in(input@), quoted_in(input@))
                == Some(p@),
            None => intent_of(lowercase(input@), address_in(input@), number_in(input@), quoted_in(input@)) is None,
        },
{
    let lower = to_lowercase_text(input);
    let coin_address = extract_address(input);
    let number = extract_number(input);
    let quoted = extract_quoted_text(input);
    intent_from_parts(lower.as_str(), coin_address, number, quoted)
}

// ---------------------------------------------------------------------------
// Answering an intent
// ---------------------------------------------------------------------------

/// The chain the agent's requests are answered on: Base.
pub const AGENT_CHAIN_ID: u64 = 8453;

/// What answering an intent takes: a tool call with its input, or a reply
/// that needs no call.
#[derive(Debug, Clone)]
pub enum IntentPlan {
    HolderCount(CoinInput),
    Volume24h(CoinInput),
    TopBuyers(TopBuyersInput),
    TokenSummary(CoinInput),
    Reply(String),
}

/// The reply to a request to message a coin's buyer.
pub open spec fn message_prepared_text(address: Seq<char>, message: Seq<char>) -> Seq<char> {
    "\u{2709}\u{fe0f} Message prepared for recent buyer of "@ + address + ": \""@ + message + "\""@
}

/// How an intent is answered: the coin is required; holders, volume, top
/// buyers and summaries are fetched on the agent's chain (top buyers with
/// the intent's count, five by default); a message request needs its text
/// and is answered at once.
pub fn plan_intent(intent: &ParsedIntent) -> (r: Result<IntentPlan, String>)
    ensures
        match intent.coin_address {
            None => r matches Err(e) && e@ == "No coin address provided"@,
            Some(a) => match intent.intent {
                IntentType::HolderCount => r matches Ok(IntentPlan::HolderCount(c)) && c.address@ == a@
                    && c.chain == AGENT_CHAIN_ID,
                IntentType::Volume24h => r matches Ok(IntentPlan::Volume24h(c)) && c.address@ == a@
                    && c.chain == AGENT_CHAIN_ID,
                IntentType::TokenSummary => r matches Ok(IntentPlan::TokenSummary(c)) && c.address@ == a@
                    && c.chain == AGENT_CHAIN_ID,
                IntentType::TopBuyers => r matches Ok(IntentPlan::TopBuyers(t)) && t.address@ == a@
                    && t.chain == AGENT_CHAIN_ID && t.top_n == (match intent.limit {
                    Some(n) => n,
                    None => DEFAULT_BUYER_LIMIT,
                }),
                IntentType::MessageBuyer => match intent.message {
                    None => r matches Err(e) && e@ == "No message provided"@,
                    Some(m) => r matches Ok(IntentPlan::Reply(t)) && t@ == message_prepared_text(a@, m@),
                },
            },
        },
{
    let address = match &intent.coin_address {
        Some(a) => a,
        None => return Err(owned("No coin address provided")),
    };
    match intent.intent {
        IntentType::HolderCount => Ok(
            IntentPlan::HolderCount(CoinInput { address: address.clone(), chain: AGENT_CHAIN_ID }),
        ),
        IntentType::Volume24h => Ok(
            IntentPlan::Volume24h(CoinInput { address: address.clone(), chain: AGENT_CHAIN_ID }),
        ),
        IntentType::TokenSummary => Ok(
            IntentPlan::TokenSummary(CoinInput { address: address.clone(), chain: AGENT_CHAIN_ID }),
        ),
        IntentType::TopBuyers => {
            let top_n = match intent.limit {
                Some(n) => n,
                None => DEFAULT_BUYER_LIMIT,
            };
            Ok(IntentPlan::TopBuyers(TopBuyersInput { address: address.clone(), chain: AGENT_CHAIN_ID, top_n }))
        },
        IntentType::MessageBuyer => match &intent.message {
            None => Err(owned("No message provided")),
            Some(m) => {
                let mut v = chars_of("\u{2709}\u{fe0f} Message prepared for recent buyer of ");
                extend_with_str(&mut v, address.as_str());
                extend_with_str(&mut v, ": \"");
                extend_with_str(&mut v, m.as_str());
                extend_with_str(&mut v, "\"");
                Ok(IntentPlan::Reply(string_from_chars(&v)))
            },
        },
    }
}

/// The reply giving a coin's holder count.
pub open spec fn holder_reply_text(symbol: Seq<char>, holders: u64) -> Seq<char> {
    "\u{1f4ca} "@ + symbol + " has "@ + decimal_digits(holders as nat) + " unique holders."@
}

/// The reply giving a coin's holder count.
pub fn holder_reply(result: &HolderCountOutput) -> (r: String)
    ensures
        r@ == holder_reply_text(result.symbol@, result.unique_holders),
{
    let mut v = chars_of("\u{1f4ca} ");
    extend_with_str(&mut v, result.symbol.as_str());
    extend_with_str(&mut v, " has ");
    extend_with_str(&mut v, u64_text(result.unique_holders).as_str());
    extend_with_str(&mut v, " unique holders.");
    string_from_chars(&v)
}

/// The reply giving a coin's 24-hour volume.
pub open spec fn volume_reply_text(symbol: Seq<char>, volume: Seq<char>, delta: Seq<char>) -> Seq<char> {
    "\u{1f4c8} "@ + symbol + ": 24h volume is "@ + volume + " ETH, market cap change "@ + delta
}

/// The reply giving a coin's 24-hour volume.
pub fn volume_reply(result: &Volume24hOutput) -> (r: String)
    ensures
        r@ == volume_reply_text(result.symbol@, result.volume_24h@, result.market_cap_delta@),
{
    let mut v = chars_of("\u{1f4c8} ");
    extend_with_str(&mut v, result.symbol.as_str());
    extend_with_str(&mut v, ": 24h volume is ");
    extend_with_str(&mut v, result.volume_24h.as_str());
    extend_with_str(&mut v, " ETH, market cap change ");
    extend_with_str(&mut v, result.market_cap_delta.as_str());
    string_from_chars(&v)
}

/// The line of the top-buyers reply for one buyer.
pub open spec fn buyer_line(b: TopBuyer) -> Seq<char> {
    "#"@ + decimal_digits(b.rank as nat) + ": "@ + b.address@ + " bought "@ + b.total_bought@ + " ETH\n"@
}

/// The lines for a list of buyers.
pub open spec fn buyer_lines(bs: Seq<TopBuyer>) -> Seq<char>
    decreases bs.len(),
{
    if bs.len() == 0 {
        Seq::empty()
    } else {
        buyer_lines(bs.drop_last()) + buyer_line(bs.last())
    }
}

/// How many buyers the reply lists: the limit asked for (five by default),
/// or all of them when there are fewer.
pub open spec fn listed_count(len: nat, limit: Option<u32>) -> int {
    let n = match limit {
        Some(n) => n,
        None => DEFAULT_BUYER_LIMIT,
    };
    if n < len {
        n as int
    } else {
        len as int
    }
}

/// The reply listing top buyers, or a notice that there are none.
pub open spec fn top_buyers_reply_text(bs: Seq<TopBuyer>, limit: Option<u32>) -> Seq<char> {
    if bs.len() == 0 {
        "No buyers found."@
    } else {
        "\u{1f40b} Top Buyers:\n"@ + buyer_lines(bs.take(listed_count(bs.len(), limit)))
    }
}

/// The reply listing top buyers.
pub fn top_buyers_reply(buyers: &Vec<TopBuyer>, limit: Option<u32>) -> (r: String)
    ensures
        r@ == top_buyers_reply_text(buyers@, limit),
{
    if buyers.len() == 0 {
        return owned("No buyers found.");
    }
    let n: usize = match limit {
        Some(n) => n as usize,
        None => DEFAULT_BUYER_LIMIT as usize,
    };
    let count = if n < buyers.len() {
        n
    } else {
        buyers.len()
    };
    let mut v = chars_of("\u{1f40b} Top Buyers:\n");
    let ghost head = v@;
    let mut i: usize = 0;
    assert(buyers@.take(0) == Seq::<TopBuyer>::empty());
    while i < count
        invariant
            i <= count <= buyers.len(),
            v@ == head + buyer_lines(buyers@.take(i as int)),
        decreases count - i,
    {
        let b = &buyers[i];
        proof {
            assert(buyers@.take(i + 1).drop_last() == buyers@.take(i as int));
            assert(buyers@.take(i + 1).last() == buyers@[i as int]);
        }
        extend_with_str(&mut v, "#");
        extend_with_str(&mut v, u32_text(b.rank).as_str());
        extend_with_str(&mut v, ": ");
        extend_with_str(&mut v, b.address.as_str());
        extend_with_str(&mut v, " bought ");
        extend_with_str(&mut v, b.total_bought.as_str());
        extend_with_str(&mut v, " ETH\n");
        i = i + 1;
    }
    string_from_chars(&v)
}

/// The reply summarising a coin: holders, volume and market-cap change.
pub open spec fn summary_reply_text(h: HolderCountOutput, v: Volume24hOutput) -> Seq<char> {
    "\u{1f4ca} "@ + h.symbol@ + "\n\u{1f465} Holders: "@ + decimal_digits(h.unique_holders as nat)
        + "\n\u{1f4c8} 24h Volume: "@ + v.volume_24h@ + " ETH\n\u{1f4c9} Market cap change: "@
        + v.market_cap_delta@
}

/// The reply summarising a coin.
pub fn summary_reply(h: &HolderCountOutput, vol: &Volume24hOutput) -> (r: String)
    ensures
        r@ == summary_reply_text(*h, *vol),
{
    let mut v = chars_of("\u{1f4ca} ");
    extend_with_str(&mut v, h.symbol.as_str());
    extend_with_str(&mut v, "\n\u{1f465} Holders: ");
    extend_with_str(&mut v, u64_text(h.unique_holders).as_str());
    extend_with_str(&mut v, "\n\u{1f4c8} 24h Volume: ");
    extend_with_str(&mut v, vol.volume_24h.as_str());
    extend_with_str(&mut v, " ETH\n\u{1f4c9} Market cap change: ");
    extend_with_str(&mut v, vol.market_cap_delta.as_str());
    string_from_chars(&v)
}

/// The reply when a tool call for `intent` failed with `detail`.
pub open spec fn failure_reply_text(intent: IntentType, detail: Seq<char>) -> Seq<char> {
    match intent {
        IntentType::HolderCount => "Failed to fetch holder count: "@ + detail,
        IntentType::Volume24h => "Failed to fetch volume: "@ + detail,
        IntentType::TopBuyers => "Failed to fetch top buyers: "@ + detail,
        IntentType::TokenSummary => "Could not fetch token summary."@,
        IntentType::MessageBuyer => detail,
    }
}

/// The reply when a tool call for `intent` failed with `detail`.
pub fn failure_reply(intent: IntentType, detail: &str) -> (r: String)
    ensures
        r@ == failure_reply_text(intent, detail@),
{
    match intent {
        IntentType::HolderCount => concat_str("Failed to fetch holder count: ", detail),
        IntentType::Volume24h => concat_str("Failed to fetch volume: ", detail),
        IntentType::TopBuyers => concat_str("Failed to fetch top buyers: ", detail),
        IntentType::TokenSummary => owned("Could not fetch token summary."),
        IntentType::MessageBuyer => owned(detail),
    }
}

/// The reply when the API client could not be set up.
pub fn client_failure_reply(detail: &str) -> (r: String)
    ensures
        r@ == "Failed to load client: "@ + detail@,
{
    concat_str("Failed to load client: ", detail)
}

// ---------------------------------------------------------------------------
// Laws
// ---------------------------------------------------------------------------

/// Law: a request that names a coin is always understood, and whatever it
/// is read as carries that coin.
pub proof fn law_named_coin_is_understood(
    lower: Seq<char>,
    address: Option<Seq<char>>,
    number: Option<u32>,
    quoted: Option<Seq<char>>,
)
    ensures
        address is Some ==> intent_of(lower, address, number, quoted) is Some,
        intent_of(lower, address, number, quoted) matches Some(v) ==> v.coin_address == address,
        intent_of(lower, address, number, quoted) matches Some(v) ==> (v.limit is Some <==> v.intent
            == IntentType::TopBuyers),
{
}

/// Law: an Ethereum address found in a text occurs in it, and is `0x` or
/// `0X` followed by forty hex digits.
pub proof fn law_eth_address_shape(s: Seq<char>)
    ensures
        eth_address_in(s) matches Some(a) ==> {
            &&& a.len() == 42
            &&& a[0] == '0'
            &&& (a[1] == 'x' || a[1] == 'X')
            &&& forall|k: int| 2 <= k < 42 ==> is_hex(#[trigger] a[k])
            &&& exists|i: int| 0 <= i && i + 42 <= s.len() && #[trigger] s.subrange(i, i + 42) == a
        },
{
    lemma_first_address(s, 0);
    match first_address_from(s, 0) {
        Some(i) => {
            let a = s.subrange(i, i + 42);
            assert forall|k: int| 2 <= k < 42 implies is_hex(#[trigger] a[k]) by {
                assert(a[k] == s[i + k]);
            }
        },
        None => {},
    }
}

/// The position `first_address_from` finds holds an address.
proof fn lemma_first_address(s: Seq<char>, i: int)
    ensures
        first_address_from(s, i) matches Some(j) ==> i <= j && address_at(s, j),
    decreases s.len() - i,
{
    if i >= 0 && i + address_len() <= s.len() && !address_at(s, i) {
        lemma_first_address(s, i + 1);
    }
}


/// Law: which tool a request asks for follows its keywords in turn.  Any
/// text mentioning holders asks for the holder count; otherwise "volume"
/// with "24h" asks for the volume; otherwise "top" with a buyer, whale or
/// biggest asks for the top buyers with the given count (five by
/// default); otherwise "message" with "buyer" asks to message the buyer
/// with the quoted text; otherwise a named coin asks for a summary.  Each
/// carries the coin named, whatever the rest of the text says.
pub proof fn law_intent_follows_keywords(
    lower: Seq<char>,
    address: Option<Seq<char>>,
    number: Option<u32>,
    quoted: Option<Seq<char>>,
)
    ensures
        contains_text(lower, "holder"@) ==> intent_of(lower, address, number, quoted) == Some(
            IntentView { intent: IntentType::HolderCount, coin_address: address, limit: None, message: None },
        ),
        !contains_text(lower, "holder"@) && contains_text(lower, "volume"@) && contains_text(lower, "24h"@)
            ==> intent_of(lower, address, number, quoted) == Some(
            IntentView { intent: IntentType::Volume24h, coin_address: address, limit: None, message: None },
        ),
        !contains_text(lower, "holder"@) && !(contains_text(lower, "volume"@) && contains_text(lower, "24h"@))
            && contains_text(lower, "top"@) && (contains_text(lower, "buyer"@) || contains_text(lower, "whale"@)
            || contains_text(lower, "biggest"@)) ==> intent_of(lower, address, number, quoted) == Some(
            IntentView {
                intent: IntentType::TopBuyers,
                coin_address: address,
                limit: Some(
                    match number {
                        Some(n) => n,
                        None => 5,
                    },
                ),
                message: None,
            },
        ),
        !contains_text(lower, "holder"@) && !(contains_text(lower, "volume"@) && contains_text(lower, "24h"@))
            && !(contains_text(lower, "top"@) && (contains_text(lower, "buyer"@) || contains_text(lower, "whale"@)
            || contains_text(lower, "biggest"@))) && contains_text(lower, "message"@) && contains_text(
            lower,
            "buyer"@,
        ) ==> intent_of(lower, address, number, quoted) == Some(
            IntentView { intent: IntentType::MessageBuyer, coin_address: address, limit: None, message: quoted },
        ),
        !contains_text(lower, "holder"@) && !(contains_text(lower, "volume"@) && contains_text(lower, "24h"@))
            && !(contains_text(lower, "top"@) && (contains_text(lower, "buyer"@) || contains_text(lower, "whale"@)
            || contains_text(lower, "biggest"@))) && !(contains_text(lower, "message"@) && contains_text(
            lower,
            "buyer"@,
        )) ==> intent_of(lower, address, number, quoted) == (match address {
            Some(a) => Some(
                IntentView { intent: IntentType::TokenSummary, coin_address: Some(a), limit: None, message: None },
            ),
            None => None,
        }),
{
    reveal_strlit("holder");
    reveal_strlit("holder count");
    reveal_strlit("unique holder");
    assert("holder count"@.subrange(0, 6) == "holder"@);
    assert("unique holder"@.subrange(7, 13) == "holder"@);
    if contains_text(lower, "holder count"@) {
        lemma_contains_within(lower, "holder count"@, "holder"@, 0);
    }
    if contains_text(lower, "unique holder"@) {
        lemma_contains_within(lower, "unique holder"@, "holder"@, 7);
    }
}

/// Text that contains `long` contains every piece of `long`.
proof fn lemma_contains_within(hay: Seq<char>, long: Seq<char>, short: Seq<char>, o: int)
    requires
        0 <= o,
        o + short.len() <= long.len(),
        long.subrange(o, o + short.len()) == short,
        contains_text(hay, long),
    ensures
        contains_text(hay, short),
{
    let i = choose|i: int| occurs_at(hay, long, i);
    assert(occurs_at(hay, long, i));
    assert(hay.subrange(i + o, i + o + short.len()) == long.subrange(o, o + short.len()));
    assert(occurs_at(hay, short, i + o));
}

} // verus!
