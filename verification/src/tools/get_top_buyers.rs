//! Ranking a coin's buyers by the exact total they bought.
//!
//! Every swap whose kind is `BUY` (in any case) and that names a sender and
//! an amount counts; sells and incomplete records are skipped.  Totals are
//! summed on the decimal text, so no digit is lost, and buyers are ranked
//! by total (largest first), ties broken by address.

use core::cmp::Ordering;
use vstd::prelude::*;
use crate::amount::{
    add_amounts, compare_amounts, is_amount_text, frac_len, is_amount,
    is_canonical, law_compare_amounts_by_value, lemma_amount_sum_at, lemma_canonical_amount,
    lemma_parts_of_with_point, scaled_value,
};
use crate::client::SwapEdge;
use crate::decimal::{canonical_amount, lemma_zeros_value, pad_zeros, zeros, with_point};
use crate::text::{
    compare_text, eq_ignore_ascii_case, eq_ignore_case, lemma_lex_equal, lemma_lex_swap,
    lemma_lex_transitive, lex_order,
};
use crate::types::TopBuyer;

verus! {

// ---------------------------------------------------------------------------
// What counts as a buy, and what each buyer bought
// ---------------------------------------------------------------------------

/// The activity kind of a buy.
pub open spec fn buy_kind() -> Seq<char> {
    seq!['B', 'U', 'Y']
}

/// A swap that counts towards a buyer: a `BUY` (in any case) that names
/// both its sender and its amount.
pub open spec fn is_buy(e: SwapEdge) -> bool {
    &&& eq_ignore_ascii_case(e.node.activity_type@, buy_kind())
    &&& e.node.sender_address is Some
    &&& e.node.coin_amount is Some
}

/// The sender of a swap (meaningful for buys).
pub open spec fn buy_sender(e: SwapEdge) -> Seq<char> {
    e.node.sender_address.unwrap()@
}

/// The amount of a swap (meaningful for buys).
pub open spec fn buy_amount(e: SwapEdge) -> Seq<char> {
    e.node.coin_amount.unwrap()@
}

/// Every buy's amount is well-formed decimal text.
pub open spec fn buy_amounts_valid(edges: Seq<SwapEdge>) -> bool {
    forall|i: int| 0 <= i < edges.len() && #[trigger] is_buy(edges[i]) ==> is_amount(buy_amount(edges[i]))
}

/// The largest number of fractional digits among the buys' amounts: the
/// scale at which every buy, and every total, is a whole number.
pub open spec fn buy_scale(edges: Seq<SwapEdge>) -> nat
    decreases edges.len(),
{
    if edges.len() == 0 {
        0
    } else {
        let k = buy_scale(edges.drop_last());
        let e = edges.last();
        if is_buy(e) && frac_len(buy_amount(e)) > k {
            frac_len(buy_amount(e))
        } else {
            k
        }
    }
}

/// How many buys `address` made.
pub open spec fn buy_count(edges: Seq<SwapEdge>, address: Seq<char>) -> nat
    decreases edges.len(),
{
    if edges.len() == 0 {
        0
    } else {
        let e = edges.last();
        buy_count(edges.drop_last(), address) + if is_buy(e) && buy_sender(e) == address {
            1nat
        } else {
            0nat
        }
    }
}

/// The sum of `address`'s buy amounts, each taken times `10^k`.
pub open spec fn bought_value(edges: Seq<SwapEdge>, address: Seq<char>, k: nat) -> nat
    decreases edges.len(),
{
    if edges.len() == 0 {
        0
    } else {
        let e = edges.last();
        bought_value(edges.drop_last(), address, k) + if is_buy(e) && buy_sender(e) == address {
            scaled_value(buy_amount(e), k)
        } else {
            0nat
        }
    }
}

/// The exact total `address` bought, as canonical decimal text.
pub open spec fn bought_total(edges: Seq<SwapEdge>, address: Seq<char>) -> Seq<char> {
    canonical_amount(bought_value(edges, address, buy_scale(edges)), buy_scale(edges))
}

/// A buyer with value `v1` and address `a1` ranks above one with `v2` and
/// `a2`: it bought more, or the same and its address comes first.
pub open spec fn ranks_above(v1: nat, a1: Seq<char>, v2: nat, a2: Seq<char>) -> bool {
    v1 > v2 || (v1 == v2 && lex_order(a1, a2) == Ordering::Less)
}

// ---------------------------------------------------------------------------
// Lemmas
// ---------------------------------------------------------------------------

/// Ranking is a strict total order on distinct buyers.
pub proof fn lemma_ranks_total(v1: nat, a1: Seq<char>, v2: nat, a2: Seq<char>)
    ensures
        !(ranks_above(v1, a1, v2, a2) && ranks_above(v2, a2, v1, a1)),
        a1 != a2 ==> ranks_above(v1, a1, v2, a2) || ranks_above(v2, a2, v1, a1),
        !ranks_above(v1, a1, v1, a1),
{
    lemma_lex_equal(a1, a2);
    lemma_lex_equal(a1, a1);
    lemma_lex_swap(a1, a2);
}

/// Ranking is transitive.
pub proof fn lemma_ranks_transitive(
    v1: nat,
    a1: Seq<char>,
    v2: nat,
    a2: Seq<char>,
    v3: nat,
    a3: Seq<char>,
)
    requires
        ranks_above(v1, a1, v2, a2),
        ranks_above(v2, a2, v3, a3),
    ensures
        ranks_above(v1, a1, v3, a3),
{
    if v1 == v2 && v2 == v3 {
        lemma_lex_transitive(a1, a2, a3);
    }
}

/// Counting over one more swap.
proof fn lemma_push_edge(edges: Seq<SwapEdge>, e: SwapEdge, a: Seq<char>, k: nat)
    ensures
        buy_count(edges.push(e), a) == buy_count(edges, a) + if is_buy(e) && buy_sender(e) == a {
            1nat
        } else {
            0nat
        },
        bought_value(edges.push(e), a, k) == bought_value(edges, a, k) + if is_buy(e) && buy_sender(e) == a {
            scaled_value(buy_amount(e), k)
        } else {
            0nat
        },
{
    assert(edges.push(e).drop_last() == edges);
    assert(edges.push(e).last() == e);
}

/// A buyer with no buys has bought nothing.
proof fn lemma_no_buys(edges: Seq<SwapEdge>, a: Seq<char>, k: nat)
    requires
        buy_count(edges, a) == 0,
    ensures
        bought_value(edges, a, k) == 0,
    decreases edges.len(),
{
    if edges.len() > 0 {
        lemma_no_buys(edges.drop_last(), a, k);
    }
}

/// Buys in a prefix are no more than in the whole.
proof fn lemma_count_prefix(edges: Seq<SwapEdge>, i: int, a: Seq<char>)
    requires
        0 <= i <= edges.len(),
    ensures
        buy_count(edges.take(i), a) <= buy_count(edges, a),
    decreases edges.len() - i,
{
    if i < edges.len() {
        lemma_count_prefix(edges, i + 1, a);
        lemma_push_edge(edges.take(i), edges[i], a, 0);
        assert(edges.take(i + 1) == edges.take(i).push(edges[i]));
    } else {
        assert(edges.take(i) == edges);
    }
}

/// Every buy's amount fits the scale of the whole list.
proof fn lemma_scale_covers(edges: Seq<SwapEdge>, i: int)
    requires
        0 <= i < edges.len(),
        is_buy(edges[i]),
    ensures
        frac_len(buy_amount(edges[i])) <= buy_scale(edges),
    decreases edges.len(),
{
    if i < edges.len() - 1 {
        lemma_scale_covers(edges.drop_last(), i);
        assert(edges.drop_last()[i] == edges[i]);
    }
}

/// The text `"0"` is an amount worth nothing at any scale.
proof fn lemma_zero_amount(k: nat)
    ensures
        is_amount(seq!['0']),
        is_canonical(seq!['0']),
        frac_len(seq!['0']) == 0,
        scaled_value(seq!['0'], k) == 0,
{
    let z = seq!['0'];
    assert(with_point(z, Seq::empty()) == z);
    lemma_parts_of_with_point(z, Seq::empty());
    assert(pad_zeros(Seq::<char>::empty(), k) == zeros(k));
    assert(z + zeros(k) == zeros(k + 1));
    lemma_zeros_value(k + 1);
}

// ---------------------------------------------------------------------------
// Tallying the buys
// ---------------------------------------------------------------------------

/// A buyer's running figures: address, total bought so far, number of buys.
struct Tally {
    address: String,
    total: String,
    count: u32,
}

/// `t` holds its address's exact figures over `edges`, at scale `k`.
spec fn tally_matches(edges: Seq<SwapEdge>, k: nat, t: Tally) -> bool {
    &&& buy_count(edges, t.address@) > 0
    &&& t.count == buy_count(edges, t.address@)
    &&& t.total@ == canonical_amount(bought_value(edges, t.address@, k), k)
}

/// No address occurs twice.
spec fn distinct_addresses(ts: Seq<Tally>) -> bool {
    forall|p: int, q: int| 0 <= p < q < ts.len() ==> ts[p].address@ != ts[q].address@
}

/// Some entry has address `a`.
spec fn lists_buyer(ts: Seq<Tally>, a: Seq<char>) -> bool {
    exists|p: int| 0 <= p < ts.len() && #[trigger] ts[p].address@ == a
}

/// What the tally over `edges` at scale `k` holds: one exact entry per
/// buyer, and nothing else.
spec fn tally_of(edges: Seq<SwapEdge>, k: nat, ts: Seq<Tally>) -> bool {
    &&& distinct_addresses(ts)
    &&& forall|p: int| 0 <= p < ts.len() ==> tally_matches(edges, k, #[trigger] ts[p])
    &&& forall|a: Seq<char>| buy_count(edges, a) > 0 ==> lists_buyer(ts, a)
}

/// The position of `address` among the entries, if it is there.
fn find_tally(ts: &Vec<Tally>, address: &String) -> (r: Option<usize>)
    ensures
        match r {
            Some(j) => j < ts.len() && ts@[j as int].address@ == address@,
            None => forall|p: int| 0 <= p < ts.len() ==> ts@[p].address@ != address@,
        },
{
    let mut j: usize = 0;
    while j < ts.len()
        invariant
            j <= ts.len(),
            forall|p: int| 0 <= p < j ==> ts@[p].address@ != address@,
        decreases ts.len() - j,
    {
        if ts[j].address == *address {
            return Some(j);
        }
        j = j + 1;
    }
    None
}

/// Adds one swap to the tally.
fn record_swap(
    ts: &mut Vec<Tally>,
    edge: &SwapEdge,
    Ghost(prefix): Ghost<Seq<SwapEdge>>,
    Ghost(k): Ghost<nat>,
)
    requires
        tally_of(prefix, k, old(ts)@),
        is_buy(*edge) ==> is_amount(buy_amount(*edge)),
        is_buy(*edge) ==> frac_len(buy_amount(*edge)) <= k,
        is_buy(*edge) ==> buy_count(prefix.push(*edge), buy_sender(*edge)) <= u32::MAX,
    ensures
        tally_of(prefix.push(*edge), k, final(ts)@),
{
    let ghost e = *edge;
    let ghost next = prefix.push(e);
    let node = &edge.node;
    proof {
        reveal_strlit("BUY");
        assert("BUY"@ == buy_kind());
    }
    let kind_is_buy = eq_ignore_case(node.activity_type.as_str(), "BUY");
    if kind_is_buy {
        match &node.sender_address {
            Some(sender) => match &node.coin_amount {
                Some(amount) => {
                    assert(is_buy(e));
                    assert(buy_sender(e) == sender@);
                    assert(buy_amount(e) == amount@);
                    proof {
                        lemma_push_edge(prefix, e, sender@, k);
                    }
                    match find_tally(ts, sender) {
                        Some(j) => {
                            let ghost old_total = ts@[j as int].total@;
                            let ghost v = bought_value(prefix, sender@, k);
                            proof {
                                lemma_canonical_amount(v, k);
                                lemma_amount_sum_at(old_total, amount@, k);
                            }
                            let total = add_amounts(ts[j].total.as_str(), amount.as_str());
                            let count = ts[j].count + 1;
                            let address = sender.clone();
                            let ghost before = ts@;
                            ts.set(j, Tally { address, total, count });
                            proof {
                                assert forall|p: int| 0 <= p < ts.len() implies tally_matches(
                                    next,
                                    k,
                                    #[trigger] ts@[p],
                                ) by {
                                    lemma_push_edge(prefix, e, ts@[p].address@, k);
                                    if p != j {
                                        assert(ts@[p] == before[p]);
                                    }
                                }
                                assert forall|a: Seq<char>| buy_count(next, a) > 0 implies lists_buyer(
                                    ts@,
                                    a,
                                ) by {
                                    lemma_push_edge(prefix, e, a, k);
                                    if a == sender@ {
                                        assert(ts@[j as int].address@ == a);
                                    } else {
                                        assert(lists_buyer(before, a));
                                        let p = choose|p: int| 0 <= p < before.len() && #[trigger] before[p].address@ == a;
                                        assert(ts@[p].address@ == a);
                                    }
                                }
                            }
                        },
                        None => {
                            proof {
                                assert(!lists_buyer(ts@, sender@));
                                assert(buy_count(prefix, sender@) == 0);
                                lemma_no_buys(prefix, sender@, k);
                                lemma_zero_amount(k);
                                reveal_strlit("0");
                                assert("0"@ == seq!['0']);
                                lemma_amount_sum_at(seq!['0'], amount@, k);
                                assert(!lists_buyer(ts@, sender@));
                            }
                            let total = add_amounts("0", amount.as_str());
                            let ghost before = ts@;
                            ts.push(Tally { address: sender.clone(), total, count: 1 });
                            proof {
                                assert forall|p: int| 0 <= p < ts.len() implies tally_matches(
                                    next,
                                    k,
                                    #[trigger] ts@[p],
                                ) by {
                                    lemma_push_edge(prefix, e, ts@[p].address@, k);
                                    if p < before.len() {
                                        assert(ts@[p] == before[p]);
                                    }
                                }
                                assert forall|a: Seq<char>| buy_count(next, a) > 0 implies lists_buyer(
                                    ts@,
                                    a,
                                ) by {
                                    lemma_push_edge(prefix, e, a, k);
                                    if a == sender@ {
                                        assert(ts@[before.len() as int].address@ == a);
                                    } else {
                                        assert(lists_buyer(before, a));
                                        let p = choose|p: int| 0 <= p < before.len() && #[trigger] before[p].address@ == a;
                                        assert(ts@[p].address@ == a);
                                    }
                                }
                            }
                        },
                    }
                    return;
                },
                None => {},
            },
            None => {},
        }
    }
    assert(!is_buy(e));
    proof {
        assert forall|p: int| 0 <= p < ts.len() implies tally_matches(next, k, #[trigger] ts@[p]) by {
            lemma_push_edge(prefix, e, ts@[p].address@, k);
        }
        assert forall|a: Seq<char>| buy_count(next, a) > 0 implies lists_buyer(ts@, a) by {
            lemma_push_edge(prefix, e, a, k);
        }
    }
}

/// Tallies every buy of `edges`.
fn tally_buys(edges: &Vec<SwapEdge>) -> (ts: Vec<Tally>)
    requires
        buy_amounts_valid(edges@),
        forall|a: Seq<char>| #[trigger] buy_count(edges@, a) <= u32::MAX,
    ensures
        tally_of(edges@, buy_scale(edges@), ts@),
{
    let ghost k = buy_scale(edges@);
    let mut ts: Vec<Tally> = Vec::new();
    let mut i: usize = 0;
    assert(edges@.take(0) == Seq::<SwapEdge>::empty());
    while i < edges.len()
        invariant
            i <= edges.len(),
            k == buy_scale(edges@),
            buy_amounts_valid(edges@),
            forall|a: Seq<char>| #[trigger] buy_count(edges@, a) <= u32::MAX,
            tally_of(edges@.take(i as int), k, ts@),
        decreases edges.len() - i,
    {
        let ghost prefix = edges@.take(i as int);
        let ghost e = edges@[i as int];
        proof {
            assert(edges@.take(i + 1) == prefix.push(e));
            if is_buy(e) {
                lemma_scale_covers(edges@, i as int);
                lemma_count_prefix(edges@, i + 1, buy_sender(e));
                assert(buy_count(edges@, buy_sender(e)) <= u32::MAX);
            }
        }
        record_swap(&mut ts, &edges[i], Ghost(prefix), Ghost(k));
        i = i + 1;
    }
    assert(edges@.take(edges.len() as int) == edges@);
    ts
}

// ---------------------------------------------------------------------------
// Ranking the tally
// ---------------------------------------------------------------------------

/// The value of an entry's total at scale `k`.
spec fn tally_value(t: Tally, k: nat) -> nat {
    scaled_value(t.total@, k)
}

/// An entry's total is canonical and fits scale `k`.
spec fn fits_scale(t: Tally, k: nat) -> bool {
    is_canonical(t.total@) && frac_len(t.total@) <= k
}

/// Entry `x` ranks above entry `y` at scale `k`.
spec fn tally_above(x: Tally, y: Tally, k: nat) -> bool {
    ranks_above(tally_value(x, k), x.address@, tally_value(y, k), y.address@)
}

/// Each entry ranks above every later one.
spec fn well_ranked(s: Seq<Tally>, k: nat) -> bool {
    forall|p: int, q: int| 0 <= p < q < s.len() ==> tally_above(#[trigger] s[p], #[trigger] s[q], k)
}

/// Whether `x` ranks above `y`: it bought more, or the same and its
/// address sorts first.
fn ranks_before(x: &Tally, y: &Tally, Ghost(k): Ghost<nat>) -> (r: bool)
    requires
        fits_scale(*x, k),
        fits_scale(*y, k),
    ensures
        r == tally_above(*x, *y, k),
{
    proof {
        law_compare_amounts_by_value(y.total@, x.total@, k);
    }
    match compare_amounts(y.total.as_str(), x.total.as_str()) {
        Ordering::Less => true,
        Ordering::Greater => false,
        Ordering::Equal => match compare_text(x.address.as_str(), y.address.as_str()) {
            Ordering::Less => true,
            _ => false,
        },
    }
}

/// Where `x` belongs among ranked entries: after every entry above it, and
/// before the first one below it.
fn insert_position(sorted: &Vec<Tally>, x: &Tally, Ghost(k): Ghost<nat>) -> (j: usize)
    requires
        forall|q: int| 0 <= q < sorted.len() ==> fits_scale(#[trigger] sorted@[q], k),
        forall|q: int| 0 <= q < sorted.len() ==> (#[trigger] sorted@[q]).address@ != x.address@,
        fits_scale(*x, k),
    ensures
        j <= sorted.len(),
        forall|q: int| 0 <= q < j ==> tally_above(#[trigger] sorted@[q], *x, k),
        j < sorted.len() ==> tally_above(*x, sorted@[j as int], k),
{
    let mut j: usize = 0;
    while j < sorted.len()
        invariant
            j <= sorted.len(),
            forall|q: int| 0 <= q < sorted.len() ==> fits_scale(#[trigger] sorted@[q], k),
            forall|q: int| 0 <= q < sorted.len() ==> (#[trigger] sorted@[q]).address@ != x.address@,
            fits_scale(*x, k),
            forall|q: int| 0 <= q < j ==> tally_above(#[trigger] sorted@[q], *x, k),
        decreases sorted.len() - j,
    {
        if ranks_before(x, &sorted[j], Ghost(k)) {
            return j;
        }
        proof {
            let y = sorted@[j as int];
            lemma_ranks_total(tally_value(*x, k), x.address@, tally_value(y, k), y.address@);
        }
        j = j + 1;
    }
    j
}

/// Inserts `x` into ranked entries, keeping them ranked.
fn insert_ranked(sorted: &mut Vec<Tally>, x: Tally, Ghost(k): Ghost<nat>) -> (pos: usize)
    requires
        well_ranked(old(sorted)@, k),
        forall|q: int| 0 <= q < old(sorted).len() ==> fits_scale(#[trigger] old(sorted)@[q], k),
        forall|q: int| 0 <= q < old(sorted).len() ==> (#[trigger] old(sorted)@[q]).address@ != x.address@,
        fits_scale(x, k),
    ensures
        pos <= old(sorted).len(),
        final(sorted)@ == old(sorted)@.insert(pos as int, x),
        well_ranked(final(sorted)@, k),
{
    let j = insert_position(sorted, &x, Ghost(k));
    let ghost before = sorted@;
    sorted.insert(j, x);
    proof {
        let s = sorted@;
        assert forall|p: int, q: int| 0 <= p < q < s.len() implies tally_above(
            #[trigger] s[p],
            #[trigger] s[q],
            k,
        ) by {
            if q < j {
                assert(s[p] == before[p] && s[q] == before[q]);
            } else if q == j {
                assert(s[p] == before[p]);
            } else if p < j {
                assert(s[p] == before[p] && s[q] == before[q - 1]);
            } else if p == j {
                assert(s[q] == before[q - 1]);
                if q - 1 > j {
                    assert(tally_above(before[j as int], before[q - 1], k));
                    lemma_ranks_transitive(
                        tally_value(x, k),
                        x.address@,
                        tally_value(before[j as int], k),
                        before[j as int].address@,
                        tally_value(before[q - 1], k),
                        before[q - 1].address@,
                    );
                }
            } else {
                assert(s[p] == before[p - 1] && s[q] == before[q - 1]);
            }
        }
    }
    j
}

/// Some entry of `ts` before position `n` has address `a`.
spec fn listed_before(ts: Seq<Tally>, n: int, a: Seq<char>) -> bool {
    exists|p: int| 0 <= p < n && #[trigger] ts[p].address@ == a
}

/// The entries of a tally, ranked.
fn rank_tallies(ts: &Vec<Tally>, Ghost(edges): Ghost<Seq<SwapEdge>>, Ghost(k): Ghost<nat>) -> (sorted: Vec<Tally>)
    requires
        tally_of(edges, k, ts@),
    ensures
        tally_of(edges, k, sorted@),
        well_ranked(sorted@, k),
{
    let mut sorted: Vec<Tally> = Vec::new();
    let mut i: usize = 0;
    while i < ts.len()
        invariant
            i <= ts.len(),
            tally_of(edges, k, ts@),
            well_ranked(sorted@, k),
            forall|q: int| 0 <= q < sorted.len() ==> tally_matches(edges, k, #[trigger] sorted@[q]),
            forall|q: int| 0 <= q < sorted.len() ==> listed_before(ts@, i as int, (#[trigger] sorted@[q]).address@),
            forall|p: int| 0 <= p < i ==> lists_buyer(sorted@, (#[trigger] ts@[p]).address@),
        decreases ts.len() - i,
    {
        let x = Tally {
            address: ts[i].address.clone(),
            total: ts[i].total.clone(),
            count: ts[i].count,
        };
        assert(x == ts@[i as int]);
        proof {
            assert forall|q: int| 0 <= q < sorted.len() implies fits_scale(#[trigger] sorted@[q], k) by {
                lemma_canonical_amount(bought_value(edges, sorted@[q].address@, k), k);
            }
            assert forall|q: int| 0 <= q < sorted.len() implies (#[trigger] sorted@[q]).address@ != x.address@ by {
                assert(listed_before(ts@, i as int, sorted@[q].address@));
                let p = choose|p: int| 0 <= p < i && #[trigger] ts@[p].address@ == sorted@[q].address@;
                assert(ts@[p].address@ != ts@[i as int].address@);
            }
            lemma_canonical_amount(bought_value(edges, x.address@, k), k);
        }
        let ghost before = sorted@;
        let pos = insert_ranked(&mut sorted, x, Ghost(k));
        proof {
            let s = sorted@;
            assert forall|q: int| 0 <= q < s.len() implies tally_matches(edges, k, #[trigger] s[q]) by {
                if q < pos {
                    assert(s[q] == before[q]);
                } else if q > pos {
                    assert(s[q] == before[q - 1]);
                }
            }
            assert forall|q: int| 0 <= q < s.len() implies listed_before(ts@, i + 1, (#[trigger] s[q]).address@) by {
                if q < pos {
                    assert(s[q] == before[q]);
                    assert(listed_before(ts@, i as int, before[q].address@));
                } else if q > pos {
                    assert(s[q] == before[q - 1]);
                    assert(listed_before(ts@, i as int, before[q - 1].address@));
                } else {
                    assert(ts@[i as int].address@ == s[q].address@);
                }
            }
            assert forall|p: int| 0 <= p < i + 1 implies lists_buyer(s, (#[trigger] ts@[p]).address@) by {
                if p == i {
                    assert(s[pos as int].address@ == ts@[p].address@);
                } else {
                    assert(lists_buyer(before, ts@[p].address@));
                    let q = choose|q: int| 0 <= q < before.len() && #[trigger] before[q].address@ == ts@[p].address@;
                    if q < pos {
                        assert(s[q] == before[q]);
                    } else {
                        assert(s[q + 1] == before[q]);
                    }
                }
            }
        }
        i = i + 1;
    }
    proof {
        let s = sorted@;
        assert forall|p: int, q: int| 0 <= p < q < s.len() implies s[p].address@ != s[q].address@ by {
            assert(tally_above(s[p], s[q], k));
            lemma_ranks_total(tally_value(s[p], k), s[p].address@, tally_value(s[q], k), s[q].address@);
        }
        assert forall|a: Seq<char>| buy_count(edges, a) > 0 implies lists_buyer(s, a) by {
            assert(lists_buyer(ts@, a));
            let p = choose|p: int| 0 <= p < ts.len() && #[trigger] ts@[p].address@ == a;
            assert(lists_buyer(s, ts@[p].address@));
        }
    }
    sorted
}

// ---------------------------------------------------------------------------
// The ranking
// ---------------------------------------------------------------------------

/// What `address` bought in all, at the common scale of the buys.
pub open spec fn buyer_value(edges: Seq<SwapEdge>, address: Seq<char>) -> nat {
    bought_value(edges, address, buy_scale(edges))
}

/// `b`, at position `i` of a ranking, is a buyer with its exact figures and
/// rank `i + 1`.
pub open spec fn describes_buyer(edges: Seq<SwapEdge>, b: TopBuyer, i: int) -> bool {
    &&& b.rank == (i + 1) as u32
    &&& buy_count(edges, b.address@) > 0
    &&& b.total_bought@ == bought_total(edges, b.address@)
    &&& b.trade_count == buy_count(edges, b.address@)
}

/// Some entry of the ranking is `address`.
pub open spec fn ranked_in(r: Seq<TopBuyer>, address: Seq<char>) -> bool {
    exists|i: int| 0 <= i < r.len() && #[trigger] r[i].address@ == address
}

/// Buyer `x` ranks above buyer `y` in the buys of `edges`.
pub open spec fn buyer_above(edges: Seq<SwapEdge>, x: Seq<char>, y: Seq<char>) -> bool {
    ranks_above(buyer_value(edges, x), x, buyer_value(edges, y), y)
}

/// `r` is the ranking of the first `top_n` buyers of `edges`: each entry
/// is a buyer with its exact figures and rank, entries are in ranking
/// order, and a buyer is left out only when the ranking is full and ranks
/// below its last entry.
pub open spec fn is_top_ranking(edges: Seq<SwapEdge>, top_n: int, r: Seq<TopBuyer>) -> bool {
    &&& r.len() <= top_n
    &&& forall|i: int| 0 <= i < r.len() ==> describes_buyer(edges, #[trigger] r[i], i)
    &&& forall|i: int, j: int|
        0 <= i < j < r.len() ==> buyer_above(edges, (#[trigger] r[i]).address@, (#[trigger] r[j]).address@)
    &&& forall|a: Seq<char>|
        buy_count(edges, a) > 0 && !ranked_in(r, a) ==> {
            &&& r.len() == top_n
            &&& r.len() > 0 ==> buyer_above(edges, r[r.len() - 1].address@, a)
        }
}

/// The `top_n` largest buyers among `edges`, with their exact totals and
/// buy counts.
///
/// Only swaps of kind `BUY` (in any case) that name both a sender and an
/// amount count.  Each buyer's total is the exact sum of its amounts in
/// canonical decimal text.  Buyers are ranked by total, largest first, and
/// equal totals by address; ranks start at 1.  The result is the first
/// `top_n` buyers of that ranking (all of them when there are fewer).
pub fn aggregate_top_buyers(edges: Vec<SwapEdge>, top_n: usize) -> (r: Vec<TopBuyer>)
    requires
        buy_amounts_valid(edges@),
        forall|a: Seq<char>| #[trigger] buy_count(edges@, a) <= u32::MAX,
    ensures
        r.len() <= top_n,
        forall|i: int| 0 <= i < r.len() ==> describes_buyer(edges@, #[trigger] r[i], i),
        forall|i: int, j: int|
            0 <= i < j < r.len() ==> buyer_above(edges@, (#[trigger] r[i]).address@, (#[trigger] r[j]).address@),
        forall|a: Seq<char>|
            buy_count(edges@, a) > 0 && !ranked_in(r@, a) ==> {
                &&& r.len() == top_n
                &&& r.len() > 0 ==> buyer_above(edges@, r[r.len() - 1].address@, a)
            },
        is_top_ranking(edges@, top_n as int, r@),
{
    let ghost k = buy_scale(edges@);
    let ts = tally_buys(&edges);
    let sorted = rank_tallies(&ts, Ghost(edges@), Ghost(k));
    proof {
        assert forall|q: int| 0 <= q < sorted.len() implies tally_value(#[trigger] sorted@[q], k)
            == buyer_value(edges@, sorted@[q].address@) by {
            lemma_canonical_amount(bought_value(edges@, sorted@[q].address@, k), k);
        }
    }
    let n = if top_n < sorted.len() {
        top_n
    } else {
        sorted.len()
    };
    let mut out: Vec<TopBuyer> = Vec::new();
    let mut i: usize = 0;
    while i < n
        invariant
            i <= n,
            n <= sorted.len(),
            n <= top_n,
            k == buy_scale(edges@),
            out.len() == i,
            forall|q: int| 0 <= q < sorted.len() ==> tally_matches(edges@, k, #[trigger] sorted@[q]),
            forall|q: int| 0 <= q < i ==> describes_buyer(edges@, #[trigger] out@[q], q),
            forall|q: int| 0 <= q < i ==> (#[trigger] out@[q]).address@ == sorted@[q].address@,
        decreases n - i,
    {
        let t = &sorted[i];
        let buyer = TopBuyer {
            rank: (i + 1) as u32,
            address: t.address.clone(),
            total_bought: t.total.clone(),
            trade_count: t.count,
        };
        out.push(buyer);
        i = i + 1;
    }
    proof {
        let ghost s = sorted@;
        assert forall|p: int, q: int| 0 <= p < q < out.len() implies buyer_above(
            edges@,
            (#[trigger] out@[p]).address@,
            (#[trigger] out@[q]).address@,
        ) by {
            assert(tally_above(s[p], s[q], k));
            assert(tally_value(s[p], k) == buyer_value(edges@, s[p].address@));
            assert(tally_value(s[q], k) == buyer_value(edges@, s[q].address@));
        }
        assert forall|a: Seq<char>| buy_count(edges@, a) > 0 && !ranked_in(out@, a) implies {
            &&& out.len() == top_n
            &&& out.len() > 0 ==> buyer_above(edges@, out@[out.len() - 1].address@, a)
        } by {
            assert(lists_buyer(s, a));
            let p = choose|p: int| 0 <= p < s.len() && #[trigger] s[p].address@ == a;
            if p < n {
                assert(out@[p].address@ == a);
            }
            if n > 0 {
                assert(tally_above(s[n - 1], s[p], k));
                assert(tally_value(s[n - 1], k) == buyer_value(edges@, s[n - 1].address@));
                assert(tally_value(s[p], k) == buyer_value(edges@, s[p].address@));
            }
        }
    }
    out
}

/// How many swaps to fetch to rank `top_n` buyers: twenty per buyer, at
/// least a hundred, saturating at `u32::MAX`.
pub open spec fn page_size_for(top_n: u32) -> u32 {
    let wanted = if top_n * 20 > u32::MAX {
        u32::MAX
    } else {
        (top_n * 20) as u32
    };
    if wanted < 100 {
        100
    } else {
        wanted
    }
}

/// The number of swaps a top-buyers request fetches.
pub fn swap_page_size(top_n: u32) -> (r: u32)
    ensures
        r == page_size_for(top_n),
{
    let wanted = if top_n > u32::MAX / 20 {
        u32::MAX
    } else {
        top_n * 20
    };
    if wanted < 100 {
        100
    } else {
        wanted
    }
}

/// No one makes more buys than there are swaps.
proof fn lemma_count_bound(edges: Seq<SwapEdge>, a: Seq<char>)
    ensures
        buy_count(edges, a) <= edges.len(),
    decreases edges.len(),
{
    if edges.len() > 0 {
        lemma_count_bound(edges.drop_last(), a);
    }
}

/// Whether the buys of `edges` can be ranked: every buy amount is
/// well-formed decimal text, and there are no more swaps than a buy count
/// can hold.
pub fn rankable_buys(edges: &Vec<SwapEdge>) -> (b: bool)
    ensures
        b == (buy_amounts_valid(edges@) && edges.len() <= u32::MAX),
        b ==> forall|a: Seq<char>| #[trigger] buy_count(edges@, a) <= u32::MAX,
{
    if edges.len() > u32::MAX as usize {
        return false;
    }
    proof {
        reveal_strlit("BUY");
        assert("BUY"@ == buy_kind());
    }
    let mut i: usize = 0;
    while i < edges.len()
        invariant
            i <= edges.len(),
            forall|q: int| 0 <= q < i && #[trigger] is_buy(edges@[q]) ==> is_amount(buy_amount(edges@[q])),
        decreases edges.len() - i,
    {
        let node = &edges[i].node;
        proof {
            reveal_strlit("BUY");
            assert("BUY"@ == buy_kind());
        }
        if eq_ignore_case(node.activity_type.as_str(), "BUY") {
            match &node.sender_address {
                Some(_) => match &node.coin_amount {
                    Some(amount) => {
                        if !is_amount_text(amount.as_str()) {
                            assert(is_buy(edges@[i as int]));
                            return false;
                        }
                    },
                    None => {},
                },
                None => {},
            }
        }
        i = i + 1;
    }
    proof {
        assert forall|a: Seq<char>| #[trigger] buy_count(edges@, a) <= u32::MAX by {
            lemma_count_bound(edges@, a);
        }
    }
    true
}

/// A buyer missing from the first `i` entries of a ranking, and other
/// than entry `i`, ranks below entry `i`.
proof fn lemma_ranked_above_missing(edges: Seq<SwapEdge>, top_n: int, r: Seq<TopBuyer>, i: int, x: Seq<char>)
    requires
        is_top_ranking(edges, top_n, r),
        0 <= i < r.len(),
        buy_count(edges, x) > 0,
        x != r[i].address@,
        forall|j: int| 0 <= j < i ==> r[j].address@ != x,
    ensures
        buyer_above(edges, r[i].address@, x),
{
    if ranked_in(r, x) {
        let k = choose|k: int| 0 <= k < r.len() && #[trigger] r[k].address@ == x;
        assert(k > i);
        assert(buyer_above(edges, r[i].address@, r[k].address@));
    } else {
        let last = r.len() - 1;
        assert(buyer_above(edges, r[last].address@, x));
        if last > i {
            assert(buyer_above(edges, r[i].address@, r[last].address@));
            lemma_ranks_transitive(
                buyer_value(edges, r[i].address@),
                r[i].address@,
                buyer_value(edges, r[last].address@),
                r[last].address@,
                buyer_value(edges, x),
                x,
            );
        }
    }
}

/// Two rankings agree on their first `n` entries.
proof fn lemma_rankings_agree(edges: Seq<SwapEdge>, top_n: int, r1: Seq<TopBuyer>, r2: Seq<TopBuyer>, n: int)
    requires
        is_top_ranking(edges, top_n, r1),
        is_top_ranking(edges, top_n, r2),
        0 <= n <= r1.len(),
        n <= r2.len(),
    ensures
        forall|j: int| 0 <= j < n ==> (#[trigger] r1[j]).address@ == r2[j].address@,
    decreases n,
{
    if n > 0 {
        let i = n - 1;
        lemma_rankings_agree(edges, top_n, r1, r2, i);
        let a = r1[i].address@;
        let b = r2[i].address@;
        if a != b {
            assert(describes_buyer(edges, r1[i], i));
            assert(describes_buyer(edges, r2[i], i));
            assert forall|j: int| 0 <= j < i implies r1[j].address@ != b by {
                assert(r1[j].address@ == r2[j].address@);
                assert(buyer_above(edges, r2[j].address@, r2[i].address@));
                lemma_ranks_total(buyer_value(edges, b), b, buyer_value(edges, b), b);
            }
            assert forall|j: int| 0 <= j < i implies r2[j].address@ != a by {
                assert(r1[j].address@ == r2[j].address@);
                assert(buyer_above(edges, r1[j].address@, r1[i].address@));
                lemma_ranks_total(buyer_value(edges, a), a, buyer_value(edges, a), a);
            }
            lemma_ranked_above_missing(edges, top_n, r1, i, b);
            lemma_ranked_above_missing(edges, top_n, r2, i, a);
            lemma_ranks_total(buyer_value(edges, a), a, buyer_value(edges, b), b);
        }
    }
}

/// Law: the ranking is determined by the swaps and `top_n`.  Any two lists
/// meeting the contract of [`aggregate_top_buyers`] are the same list: same
/// length, and at each position the same buyer with the same rank, total
/// and count.
pub proof fn law_ranking_is_unique(edges: Seq<SwapEdge>, top_n: int, r1: Seq<TopBuyer>, r2: Seq<TopBuyer>)
    requires
        is_top_ranking(edges, top_n, r1),
        is_top_ranking(edges, top_n, r2),
    ensures
        r1.len() == r2.len(),
        forall|i: int| 0 <= i < r1.len() ==> {
            &&& (#[trigger] r1[i]).address@ == r2[i].address@
            &&& r1[i].rank == r2[i].rank
            &&& r1[i].total_bought@ == r2[i].total_bought@
            &&& r1[i].trade_count == r2[i].trade_count
        },
{
    let m = if r1.len() <= r2.len() {
        r1.len() as int
    } else {
        r2.len() as int
    };
    lemma_rankings_agree(edges, top_n, r1, r2, m);
    if r1.len() < r2.len() {
        let b = r2[m].address@;
        assert(describes_buyer(edges, r2[m], m));
        assert(!ranked_in(r1, b)) by {
            if ranked_in(r1, b) {
                let k = choose|k: int| 0 <= k < r1.len() && #[trigger] r1[k].address@ == b;
                assert(r1[k].address@ == r2[k].address@);
                assert(buyer_above(edges, r2[k].address@, r2[m].address@));
                lemma_ranks_total(buyer_value(edges, b), b, buyer_value(edges, b), b);
            }
        }
    } else if r2.len() < r1.len() {
        let a = r1[m].address@;
        assert(describes_buyer(edges, r1[m], m));
        assert(!ranked_in(r2, a)) by {
            if ranked_in(r2, a) {
                let k = choose|k: int| 0 <= k < r2.len() && #[trigger] r2[k].address@ == a;
                assert(r1[k].address@ == r2[k].address@);
                assert(buyer_above(edges, r1[k].address@, r1[m].address@));
                lemma_ranks_total(buyer_value(edges, a), a, buyer_value(edges, a), a);
            }
        }
    }
    assert forall|i: int| 0 <= i < r1.len() implies {
        &&& (#[trigger] r1[i]).address@ == r2[i].address@
        &&& r1[i].rank == r2[i].rank
        &&& r1[i].total_bought@ == r2[i].total_bought@
        &&& r1[i].trade_count == r2[i].trade_count
    } by {
        assert(describes_buyer(edges, r1[i], i));
        assert(describes_buyer(edges, r2[i], i));
    }
}

/// A swap that is not a buy changes no buyer's figures, nor the scale.
proof fn lemma_push_non_buy(edges: Seq<SwapEdge>, e: SwapEdge)
    requires
        !is_buy(e),
    ensures
        buy_scale(edges.push(e)) == buy_scale(edges),
        forall|a: Seq<char>| #[trigger] buy_count(edges.push(e), a) == buy_count(edges, a),
        forall|a: Seq<char>, k: nat| #[trigger] bought_value(edges.push(e), a, k) == bought_value(edges, a, k),
{
    assert(edges.push(e).drop_last() == edges);
    assert(edges.push(e).last() == e);
    assert forall|a: Seq<char>| #[trigger] buy_count(edges.push(e), a) == buy_count(edges, a) by {
        lemma_push_edge(edges, e, a, 0);
    }
    assert forall|a: Seq<char>, k: nat| #[trigger] bought_value(edges.push(e), a, k) == bought_value(edges, a, k) by {
        lemma_push_edge(edges, e, a, k);
    }
}

/// Law: only buys count.  A swap that is not a buy (a sell, or a buy
/// without sender or amount) leaves the ranking unchanged: a list is the
/// ranking of the swaps with it exactly when it is the ranking of the
/// swaps without it.
pub proof fn law_only_buys_count(edges: Seq<SwapEdge>, e: SwapEdge, top_n: int, r: Seq<TopBuyer>)
    requires
        !is_buy(e),
    ensures
        is_top_ranking(edges.push(e), top_n, r) == is_top_ranking(edges, top_n, r),
{
    lemma_push_non_buy(edges, e);
    let more = edges.push(e);
    assert forall|a: Seq<char>| #[trigger] buyer_value(more, a) == buyer_value(edges, a) by {
        assert(bought_value(more, a, buy_scale(more)) == bought_value(edges, a, buy_scale(edges)));
    }
    assert forall|a: Seq<char>| #[trigger] bought_total(more, a) == bought_total(edges, a) by {
        assert(bought_value(more, a, buy_scale(more)) == bought_value(edges, a, buy_scale(edges)));
    }
    assert forall|b: TopBuyer, i: int| #[trigger] describes_buyer(more, b, i) == describes_buyer(edges, b, i) by {
        assert(buy_count(more, b.address@) == buy_count(edges, b.address@));
        assert(bought_total(more, b.address@) == bought_total(edges, b.address@));
    }
    assert forall|x: Seq<char>, y: Seq<char>| #[trigger] buyer_above(more, x, y) == buyer_above(edges, x, y) by {
        assert(buyer_value(more, x) == buyer_value(edges, x));
        assert(buyer_value(more, y) == buyer_value(edges, y));
    }
}

/// Taking the swap at position `j` out removes exactly its share from each
/// buyer's figures, and the scale is the larger of what remains and that
/// swap's own fractional length (when it is a buy).
proof fn lemma_remove_edge(t: Seq<SwapEdge>, j: int)
    requires
        0 <= j < t.len(),
    ensures
        forall|a: Seq<char>| #[trigger] buy_count(t, a) == buy_count(t.remove(j), a) + if is_buy(t[j])
            && buy_sender(t[j]) == a {
            1nat
        } else {
            0nat
        },
        forall|a: Seq<char>, k: nat| #[trigger] bought_value(t, a, k) == bought_value(t.remove(j), a, k)
            + if is_buy(t[j]) && buy_sender(t[j]) == a {
            scaled_value(buy_amount(t[j]), k)
        } else {
            0nat
        },
        buy_scale(t) == (if is_buy(t[j]) && frac_len(buy_amount(t[j])) > buy_scale(t.remove(j)) {
            frac_len(buy_amount(t[j]))
        } else {
            buy_scale(t.remove(j))
        }),
    decreases t.len(),
{
    let n = t.len() - 1;
    let d = t.drop_last();
    assert(t == d.push(t[n]));
    if j == n {
        assert(t.remove(j) == d);
        assert forall|a: Seq<char>| #[trigger] buy_count(t, a) == buy_count(t.remove(j), a) + if is_buy(t[j])
            && buy_sender(t[j]) == a {
            1nat
        } else {
            0nat
        } by {
            lemma_push_edge(d, t[n], a, 0);
        }
        assert forall|a: Seq<char>, k: nat| #[trigger] bought_value(t, a, k) == bought_value(t.remove(j), a, k)
            + if is_buy(t[j]) && buy_sender(t[j]) == a {
            scaled_value(buy_amount(t[j]), k)
        } else {
            0nat
        } by {
            lemma_push_edge(d, t[n], a, k);
        }
    } else {
        lemma_remove_edge(d, j);
        let dr = d.remove(j);
        assert(t.remove(j) == dr.push(t[n]));
        assert(d[j] == t[j]);
        assert(t.remove(j).drop_last() == dr);
        assert(t.remove(j).last() == t[n]);
        assert forall|a: Seq<char>| #[trigger] buy_count(t, a) == buy_count(t.remove(j), a) + if is_buy(t[j])
            && buy_sender(t[j]) == a {
            1nat
        } else {
            0nat
        } by {
            lemma_push_edge(d, t[n], a, 0);
            lemma_push_edge(dr, t[n], a, 0);
            assert(buy_count(d, a) == buy_count(dr, a) + if is_buy(d[j]) && buy_sender(d[j]) == a {
                1nat
            } else {
                0nat
            });
        }
        assert forall|a: Seq<char>, k: nat| #[trigger] bought_value(t, a, k) == bought_value(t.remove(j), a, k)
            + if is_buy(t[j]) && buy_sender(t[j]) == a {
            scaled_value(buy_amount(t[j]), k)
        } else {
            0nat
        } by {
            lemma_push_edge(d, t[n], a, k);
            lemma_push_edge(dr, t[n], a, k);
            assert(bought_value(d, a, k) == bought_value(dr, a, k) + if is_buy(d[j]) && buy_sender(d[j]) == a {
                scaled_value(buy_amount(d[j]), k)
            } else {
                0nat
            });
        }
    }
}

/// Two lists holding the same swaps, in any order, give every buyer the
/// same figures, at the same scale.
proof fn lemma_permuted_figures(s: Seq<SwapEdge>, t: Seq<SwapEdge>)
    requires
        s.to_multiset() == t.to_multiset(),
    ensures
        buy_scale(s) == buy_scale(t),
        forall|a: Seq<char>| #[trigger] buy_count(s, a) == buy_count(t, a),
        forall|a: Seq<char>, k: nat| #[trigger] bought_value(s, a, k) == bought_value(t, a, k),
    decreases s.len(),
{
    broadcast use vstd::seq_lib::group_to_multiset_ensures;
    broadcast use vstd::multiset::group_multiset_axioms;

    vstd::seq_lib::to_multiset_len(s);
    vstd::seq_lib::to_multiset_len(t);
    assert(s.len() == t.len());
    if s.len() == 0 {
        assert(t.len() == 0);
    } else {
        let x = s.last();
        let d = s.drop_last();
        assert(s == d.push(x));
        assert(s.to_multiset() == d.to_multiset().insert(x));
        assert(t.to_multiset().count(x) > 0);
        assert(t.contains(x));
        let j = choose|j: int| 0 <= j < t.len() && t[j] == x;
        let tr = t.remove(j);
        assert(tr.to_multiset() == t.to_multiset().remove(x));
        assert(d.to_multiset() =~= tr.to_multiset());
        lemma_permuted_figures(d, tr);
        lemma_remove_edge(t, j);
        assert forall|a: Seq<char>| #[trigger] buy_count(s, a) == buy_count(t, a) by {
            lemma_push_edge(d, x, a, 0);
            assert(buy_count(d, a) == buy_count(tr, a));
        }
        assert forall|a: Seq<char>, k: nat| #[trigger] bought_value(s, a, k) == bought_value(t, a, k) by {
            lemma_push_edge(d, x, a, k);
            assert(bought_value(d, a, k) == bought_value(tr, a, k));
        }
        assert(s.drop_last() == d);
        assert(s.last() == x);
    }
}

/// Law: the order of the swaps does not matter.  A list is the ranking of
/// some swaps exactly when it is the ranking of the same swaps in any other
/// order.
pub proof fn law_ranking_ignores_swap_order(e1: Seq<SwapEdge>, e2: Seq<SwapEdge>, top_n: int, r: Seq<TopBuyer>)
    requires
        e1.to_multiset() == e2.to_multiset(),
    ensures
        is_top_ranking(e1, top_n, r) == is_top_ranking(e2, top_n, r),
{
    lemma_permuted_figures(e1, e2);
    assert forall|a: Seq<char>| #[trigger] buyer_value(e1, a) == buyer_value(e2, a) by {
        assert(bought_value(e1, a, buy_scale(e1)) == bought_value(e2, a, buy_scale(e2)));
    }
    assert forall|a: Seq<char>| #[trigger] bought_total(e1, a) == bought_total(e2, a) by {
        assert(bought_value(e1, a, buy_scale(e1)) == bought_value(e2, a, buy_scale(e2)));
    }
    assert forall|b: TopBuyer, i: int| #[trigger] describes_buyer(e1, b, i) == describes_buyer(e2, b, i) by {
        assert(buy_count(e1, b.address@) == buy_count(e2, b.address@));
        assert(bought_total(e1, b.address@) == bought_total(e2, b.address@));
    }
    assert forall|x: Seq<char>, y: Seq<char>| #[trigger] buyer_above(e1, x, y) == buyer_above(e2, x, y) by {
        assert(buyer_value(e1, x) == buyer_value(e2, x));
        assert(buyer_value(e1, y) == buyer_value(e2, y));
    }
}

/// Law: the rankings [`aggregate_top_buyers`] gives for the same swaps in
/// two orders are the same list: same length, and at each position the
/// same buyer with the same rank, total and count.
pub proof fn law_reordered_swaps_rank_alike(
    e1: Seq<SwapEdge>,
    e2: Seq<SwapEdge>,
    top_n: int,
    r1: Seq<TopBuyer>,
    r2: Seq<TopBuyer>,
)
    requires
        e1.to_multiset() == e2.to_multiset(),
        is_top_ranking(e1, top_n, r1),
        is_top_ranking(e2, top_n, r2),
    ensures
        r1.len() == r2.len(),
        forall|i: int| 0 <= i < r1.len() ==> {
            &&& (#[trigger] r1[i]).address@ == r2[i].address@
            &&& r1[i].rank == r2[i].rank
            &&& r1[i].total_bought@ == r2[i].total_bought@
            &&& r1[i].trade_count == r2[i].trade_count
        },
{
    law_ranking_ignores_swap_order(e1, e2, top_n, r2);
    law_ranking_is_unique(e1, top_n, r1, r2);
}

} // verus!
