//! Finding the most recent buyer of a coin, and reporting the message sent
//! to it.

use core::cmp::Ordering;
use vstd::prelude::*;
use crate::client::SwapEdge;
use crate::runtime::CommentReceipt;
use crate::text::{compare_text, eq_ignore_ascii_case, eq_ignore_case, lemma_lex_swap, lemma_lex_transitive, lemma_lex_equal, lex_order};
use crate::tools::get_top_buyers::buy_kind;
use crate::tools::tool_error::ToolError;
use crate::types::{MessageBuyerInput, MessageBuyerOutput};

verus! {

/// A swap that may name the most recent buyer: a `BUY` (in any case) with
/// a sender.  Its amount does not matter here.
pub open spec fn is_sender_buy(e: SwapEdge) -> bool {
    eq_ignore_ascii_case(e.node.activity_type@, buy_kind()) && e.node.sender_address is Some
}

/// The block time of a swap as text, if it has one.
pub open spec fn swap_time(e: SwapEdge) -> Option<Seq<char>> {
    match e.node.block_timestamp {
        Some(t) => Some(t@),
        None => None,
    }
}

/// Block times in the order of `Option<String>`: a missing time first,
/// then the texts in lexicographic order.
pub open spec fn time_at_most(a: Option<Seq<char>>, b: Option<Seq<char>>) -> bool {
    match a {
        None => true,
        Some(x) => match b {
            None => false,
            Some(y) => lex_order(x, y) != Ordering::Greater,
        },
    }
}

/// The order of block times is total and transitive.
pub proof fn lemma_time_order(a: Option<Seq<char>>, b: Option<Seq<char>>, c: Option<Seq<char>>)
    ensures
        time_at_most(a, b) || time_at_most(b, a),
        time_at_most(a, b) && time_at_most(b, c) ==> time_at_most(a, c),
{
    match (a, b, c) {
        (Some(x), Some(y), Some(z)) => {
            lemma_lex_swap(x, y);
            lemma_lex_equal(x, y);
            lemma_lex_equal(y, z);
            if lex_order(x, y) == Ordering::Less && lex_order(y, z) == Ordering::Less {
                lemma_lex_transitive(x, y, z);
            }
        },
        (Some(x), Some(y), None) => {
            lemma_lex_swap(x, y);
        },
        _ => {},
    }
}

/// `a <= b` on block times.
fn time_le(a: &Option<String>, b: &Option<String>) -> (r: bool)
    ensures
        r == time_at_most(
            match a {
                Some(t) => Some(t@),
                None => None,
            },
            match b {
                Some(t) => Some(t@),
                None => None,
            },
        ),
{
    match a {
        None => true,
        Some(x) => match b {
            None => false,
            Some(y) => match compare_text(x.as_str(), y.as_str()) {
                Ordering::Greater => false,
                _ => true,
            },
        },
    }
}

/// Position `i` holds the most recent buy with a sender: no such buy has a
/// later block time, and every such buy after it has an earlier one (the
/// last of several equal times wins).
pub open spec fn is_latest_buy(edges: Seq<SwapEdge>, i: int) -> bool {
    &&& 0 <= i < edges.len()
    &&& is_sender_buy(edges[i])
    &&& forall|j: int|
        0 <= j < edges.len() && #[trigger] is_sender_buy(edges[j]) ==> time_at_most(swap_time(edges[j]), swap_time(edges[i]))
    &&& forall|j: int|
        i < j < edges.len() && #[trigger] is_sender_buy(edges[j]) ==> !time_at_most(swap_time(edges[i]), swap_time(edges[j]))
}

/// Law: the most recent buy is well defined: at most one position holds
/// it, so [`recent_buyer`] names a single buyer.
pub proof fn law_latest_buy_is_unique(edges: Seq<SwapEdge>, i: int, k: int)
    requires
        is_latest_buy(edges, i),
        is_latest_buy(edges, k),
    ensures
        i == k,
{
    if i < k {
        assert(is_sender_buy(edges[k]));
        assert(time_at_most(swap_time(edges[i]), swap_time(edges[k])));
    } else if k < i {
        assert(is_sender_buy(edges[i]));
        assert(time_at_most(swap_time(edges[k]), swap_time(edges[i])));
    }
}

/// The position of the most recent buy with a sender, if there is one.
pub fn latest_buy_index(edges: &Vec<SwapEdge>) -> (r: Option<usize>)
    ensures
        match r {
            Some(i) => is_latest_buy(edges@, i as int),
            None => forall|j: int| 0 <= j < edges.len() ==> !is_sender_buy(#[trigger] edges@[j]),
        },
{
    let mut best: Option<usize> = None;
    let mut j: usize = 0;
    while j < edges.len()
        invariant
            j <= edges.len(),
            match best {
                Some(i) => {
                    &&& i < j
                    &&& is_sender_buy(edges@[i as int])
                    &&& forall|q: int|
                        0 <= q < j && #[trigger] is_sender_buy(edges@[q]) ==> time_at_most(
                            swap_time(edges@[q]),
                            swap_time(edges@[i as int]),
                        )
                    &&& forall|q: int|
                        i < q < j && #[trigger] is_sender_buy(edges@[q]) ==> !time_at_most(
                            swap_time(edges@[i as int]),
                            swap_time(edges@[q]),
                        )
                },
                None => forall|q: int| 0 <= q < j ==> !is_sender_buy(#[trigger] edges@[q]),
            },
        decreases edges.len() - j,
    {
        let node = &edges[j].node;
        proof {
            reveal_strlit("BUY");
            assert("BUY"@ == buy_kind());
        }
        let candidate = eq_ignore_case(node.activity_type.as_str(), "BUY") && node.sender_address.is_some();
        assert(candidate == is_sender_buy(edges@[j as int]));
        if candidate {
            match best {
                None => {
                    proof {
                        let tj = swap_time(edges@[j as int]);
                        lemma_time_order(tj, tj, tj);
                    }
                    best = Some(j);
                },
                Some(i) => {
                    let later = time_le(&edges[i].node.block_timestamp, &node.block_timestamp);
                    let ghost ti = swap_time(edges@[i as int]);
                    let ghost tj = swap_time(edges@[j as int]);
                    if later {
                        proof {
                            assert forall|q: int|
                                0 <= q < j + 1 && #[trigger] is_sender_buy(edges@[q]) implies time_at_most(
                                swap_time(edges@[q]),
                                tj,
                            ) by {
                                lemma_time_order(swap_time(edges@[q]), ti, tj);
                                lemma_time_order(tj, tj, tj);
                                if q < j {
                                    assert(time_at_most(swap_time(edges@[q]), ti));
                                }
                            }
                        }
                        best = Some(j);
                    } else {
                        proof {
                            lemma_time_order(ti, tj, ti);
                        }
                    }
                },
            }
        }
        j = j + 1;
    }
    best
}

/// The sender of the most recent buy of `edges`; fails when no buy names
/// a sender.
pub fn recent_buyer(edges: &Vec<SwapEdge>) -> (r: Result<String, ToolError>)
    ensures
        match r {
            Ok(a) => exists|i: int|
                #[trigger] is_latest_buy(edges@, i) && a@ == edges@[i].node.sender_address.unwrap()@,
            Err(e) => {
                &&& e == ToolError::NoRecentBuyer
                &&& forall|j: int| 0 <= j < edges.len() ==> !is_sender_buy(#[trigger] edges@[j])
            },
        },
{
    match latest_buy_index(edges) {
        Some(i) => match &edges[i].node.sender_address {
            Some(a) => Ok(a.clone()),
            None => Err(ToolError::NoRecentBuyer),
        },
        None => Err(ToolError::NoRecentBuyer),
    }
}

/// The report of a message posted to a coin's most recent buyer.
pub fn message_output(input: MessageBuyerInput, buyer: String, receipt: CommentReceipt) -> (r: MessageBuyerOutput)
    ensures
        r.buyer_address == buyer,
        r.coin_address == input.address,
        r.message_sent == input.message,
        r.tx_hash == Some(receipt.tx_hash),
{
    MessageBuyerOutput {
        buyer_address: buyer,
        coin_address: input.address,
        message_sent: input.message,
        tx_hash: Some(receipt.tx_hash),
    }
}

} // verus!
