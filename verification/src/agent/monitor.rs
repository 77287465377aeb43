//! The decisions of the coin monitor: what it remembers of each coin
//! between polls, when a poll is worth a ping, and what the ping says.
//!
//! Nothing fires on the first poll of a coin: it only records a baseline.

use vstd::prelude::*;
use crate::decimal::decimal_digits;
use crate::numbers::u64_text;
use crate::text::{chars_of, extend_chars, extend_with_str, same_text, slice_chars, string_from_chars};
use crate::types::TopBuyer;

verus! {

// ---------------------------------------------------------------------------
// Snapshots
// ---------------------------------------------------------------------------

/// What the monitor saw of a coin at its last poll: holder count, the
/// 24-hour volume as the API wrote it, the top buyer, and whether there
/// was a poll at all.
#[derive(Debug)]
pub struct CoinSnapshot {
    pub holder_count: u64,
    pub volume_24h: String,
    pub top_buyer: Option<String>,
    pub initialized: bool,
}

/// The snapshot of a coin never polled.
pub open spec fn blank_snapshot(s: CoinSnapshot) -> bool {
    &&& s.holder_count == 0
    &&& s.volume_24h@ == Seq::<char>::empty()
    &&& s.top_buyer is None
    &&& !s.initialized
}

impl Default for CoinSnapshot {
    fn default() -> (r: Self)
        ensures
            blank_snapshot(r),
    {
        CoinSnapshot { holder_count: 0, volume_24h: String::new(), top_buyer: None, initialized: false }
    }
}

/// A copy of a snapshot.
pub fn copy_snapshot(s: &CoinSnapshot) -> (r: CoinSnapshot)
    ensures
        r == *s,
{
    let top_buyer = match &s.top_buyer {
        Some(b) => Some(b.clone()),
        None => None,
    };
    CoinSnapshot {
        holder_count: s.holder_count,
        volume_24h: s.volume_24h.clone(),
        top_buyer,
        initialized: s.initialized,
    }
}

/// The monitor's memory: the last snapshot of each coin, by address.
pub struct SnapshotStore {
    entries: Vec<(String, CoinSnapshot)>,
}

impl View for SnapshotStore {
    type V = Map<Seq<char>, CoinSnapshot>;

    closed spec fn view(&self) -> Map<Seq<char>, CoinSnapshot> {
        Map::new(
            |a: Seq<char>| exists|i: int| 0 <= i < self.entries.len() && #[trigger] self.entries@[i].0@ == a,
            |a: Seq<char>|
                self.entries@[choose|i: int| 0 <= i < self.entries.len() && #[trigger] self.entries@[i].0@ == a].1,
        )
    }
}

impl SnapshotStore {
    /// No address is stored twice.
    pub closed spec fn well_formed(&self) -> bool {
        forall|i: int, j: int|
            0 <= i < j < self.entries.len() ==> (#[trigger] self.entries@[i]).0@ != (#[trigger] self.entries@[j]).0@
    }

    /// The snapshot stored at position `i` is the one the view gives.
    proof fn lemma_entry(&self, i: int)
        requires
            self.well_formed(),
            0 <= i < self.entries.len(),
        ensures
            self@.contains_key(self.entries@[i].0@),
            self@[self.entries@[i].0@] == self.entries@[i].1,
    {
        let a = self.entries@[i].0@;
        assert(self@.dom().contains(a));
        let j = choose|j: int| 0 <= j < self.entries.len() && #[trigger] self.entries@[j].0@ == a;
        if j != i {
            if j < i {
                assert(self.entries@[j].0@ != self.entries@[i].0@);
            } else {
                assert(self.entries@[i].0@ != self.entries@[j].0@);
            }
        }
    }

    /// An empty memory.
    pub fn new() -> (r: Self)
        ensures
            r.well_formed(),
            r@ == Map::<Seq<char>, CoinSnapshot>::empty(),
    {
        let r = SnapshotStore { entries: Vec::new() };
        assert(r@ =~= Map::<Seq<char>, CoinSnapshot>::empty());
        r
    }

    /// The position of `address`, if it is stored.
    fn position(&self, address: &str) -> (r: Option<usize>)
        requires
            self.well_formed(),
        ensures
            match r {
                Some(i) => i < self.entries.len() && self.entries@[i as int].0@ == address@,
                None => !self@.contains_key(address@),
            },
    {
        let mut i: usize = 0;
        while i < self.entries.len()
            invariant
                i <= self.entries.len(),
                forall|k: int| 0 <= k < i ==> self.entries@[k].0@ != address@,
            decreases self.entries.len() - i,
        {
            if same_text(self.entries[i].0.as_str(), address) {
                return Some(i);
            }
            i = i + 1;
        }
        None
    }

    /// The last snapshot of `address`, or a blank one when it was never
    /// polled.
    pub fn snapshot(&self, address: &str) -> (r: CoinSnapshot)
        requires
            self.well_formed(),
        ensures
            self@.contains_key(address@) ==> r == self@[address@],
            !self@.contains_key(address@) ==> blank_snapshot(r),
    {
        match self.position(address) {
            Some(i) => {
                proof {
                    self.lemma_entry(i as int);
                }
                copy_snapshot(&self.entries[i].1)
            },
            None => CoinSnapshot::default(),
        }
    }

    /// Records the snapshot of `address`, replacing any earlier one.
    pub fn record(&mut self, address: String, snapshot: CoinSnapshot)
        requires
            old(self).well_formed(),
        ensures
            final(self).well_formed(),
            final(self)@ == old(self)@.insert(address@, snapshot),
    {
        let ghost before = self.entries@;
        let ghost key = address@;
        let ghost w: int;
        match self.position(address.as_str()) {
            Some(i) => {
                self.entries.set(i, (address, snapshot));
                proof {
                    w = i as int;
                }
            },
            None => {
                proof {
                    w = before.len() as int;
                    assert forall|p: int| 0 <= p < before.len() implies before[p].0@ != key by {
                        if before[p].0@ == key {
                            assert(old(self)@.dom().contains(key));
                        }
                    }
                }
                self.entries.push((address, snapshot));
            },
        }
        proof {
            let e = self.entries@;
            assert(0 <= w < e.len() && e[w].0@ == key && e[w].1 == snapshot);
            assert(forall|j: int| 0 <= j < e.len() && j != w ==> j < before.len() && e[j] == before[j]);
            assert(forall|j: int| 0 <= j < before.len() && j != w ==> e[j] == before[j]);
            assert(w < before.len() ==> before[w].0@ == key);
            assert forall|p: int, q: int| 0 <= p < q < e.len() implies (#[trigger] e[p]).0@ != (#[trigger] e[q]).0@ by {
                if p != w && q != w {
                    assert(e[p] == before[p] && e[q] == before[q]);
                } else if p == w {
                    assert(e[q] == before[q]);
                    if w < before.len() {
                        assert(before[w].0@ != before[q].0@);
                    } else {
                        assert(false);
                    }
                } else {
                    assert(e[p] == before[p]);
                    if w < before.len() {
                        assert(before[p].0@ != before[w].0@);
                    } else {
                        assert(before[p].0@ != key);
                    }
                }
            }
            assert(self.well_formed());
            let m = old(self)@.insert(key, snapshot);
            assert forall|a: Seq<char>| #[trigger] self@.contains_key(a) == m.contains_key(a) by {
                if a == key {
                    assert(e[w].0@ == a);
                    assert(self@.dom().contains(a));
                } else {
                    if m.contains_key(a) {
                        assert(old(self)@.dom().contains(a));
                        let j = choose|j: int| 0 <= j < before.len() && #[trigger] before[j].0@ == a;
                        assert(j != w);
                        assert(e[j].0@ == a);
                        assert(self@.dom().contains(a));
                    }
                    if self@.contains_key(a) {
                        let j = choose|j: int| 0 <= j < e.len() && #[trigger] e[j].0@ == a;
                        assert(j != w);
                        assert(before[j].0@ == a);
                        assert(old(self)@.dom().contains(a));
                    }
                }
            }
            assert forall|a: Seq<char>| #[trigger] self@.contains_key(a) implies self@[a] == m[a] by {
                let j = choose|j: int| 0 <= j < e.len() && #[trigger] e[j].0@ == a;
                self.lemma_entry(j);
                if a != key {
                    assert(j != w);
                    assert(e[j] == before[j]);
                    old(self).lemma_entry(j);
                } else {
                    assert(j == w);
                }
            }
            assert(self@ =~= m);
        }
    }
}

// ---------------------------------------------------------------------------
// When a poll is worth a ping
// ---------------------------------------------------------------------------

/// The new holders a poll reports: the growth of the holder count since the
/// last poll (zero when it shrank), when it reaches `threshold` and the
/// coin was polled before.
pub open spec fn holder_growth_of(prev: CoinSnapshot, current: u64, threshold: u64) -> Option<u64> {
    let delta: int = if current >= prev.holder_count {
        current - prev.holder_count
    } else {
        0
    };
    if prev.initialized && delta >= threshold {
        Some(delta as u64)
    } else {
        None
    }
}

/// The new holders worth a ping, if any.
pub fn holder_growth(prev: &CoinSnapshot, current: u64, threshold: u64) -> (r: Option<u64>)
    ensures
        r == holder_growth_of(*prev, current, threshold),
{
    let delta = current.saturating_sub(prev.holder_count);
    if prev.initialized && delta >= threshold {
        Some(delta)
    } else {
        None
    }
}

/// The text of an optional string.
pub open spec fn opt_chars(o: Option<String>) -> Option<Seq<char>> {
    match o {
        Some(s) => Some(s@),
        None => None,
    }
}

/// The new top buyer a poll reports: the current one, when there is one,
/// it differs from the last poll's, and the coin was polled before.
pub open spec fn top_buyer_change_of(prev: CoinSnapshot, current: Option<String>) -> Option<Seq<char>> {
    if prev.initialized && current is Some && opt_chars(prev.top_buyer) != opt_chars(current) {
        opt_chars(current)
    } else {
        None
    }
}

/// The new top buyer worth a ping, if any.
pub fn new_top_buyer(prev: &CoinSnapshot, current: &Option<String>) -> (r: Option<String>)
    ensures
        opt_chars(r) == top_buyer_change_of(*prev, *current),
{
    if !prev.initialized {
        return None;
    }
    match current {
        Some(b) => {
            let same = match &prev.top_buyer {
                Some(p) => same_text(p.as_str(), b.as_str()),
                None => false,
            };
            if same {
                None
            } else {
                Some(b.clone())
            }
        },
        None => None,
    }
}

/// The address of the first buyer of a ranking, if any.
pub fn first_buyer_address(buyers: &Vec<TopBuyer>) -> (r: Option<String>)
    ensures
        opt_chars(r) == (if buyers.len() > 0 {
            Some(buyers@[0].address@)
        } else {
            None
        }),
{
    if buyers.len() > 0 {
        Some(buyers[0].address.clone())
    } else {
        None
    }
}

/// The snapshot a successful poll leaves.
pub fn polled_snapshot(holder_count: u64, volume_24h: String, top_buyer: Option<String>) -> (r: CoinSnapshot)
    ensures
        r.initialized,
        r.holder_count == holder_count,
        r.volume_24h == volume_24h,
        r.top_buyer == top_buyer,
{
    CoinSnapshot { holder_count, volume_24h, top_buyer, initialized: true }
}

// ---------------------------------------------------------------------------
// One poll
// ---------------------------------------------------------------------------

/// What a poll pings about.  A volume spike is measured outside the
/// library (in floating point), so it carries no figures here.
#[derive(Debug, Clone)]
pub enum PollEvent {
    NewHolders { total_holders: u64, new_holders: u64 },
    VolumeSpike,
    NewTopBuyer { wallet: String },
}

/// A poll event with its wallet as a character sequence.
pub enum PollEventView {
    NewHolders { total_holders: u64, new_holders: u64 },
    VolumeSpike,
    NewTopBuyer { wallet: Seq<char> },
}

impl View for PollEvent {
    type V = PollEventView;

    open spec fn view(&self) -> PollEventView {
        match self {
            PollEvent::NewHolders { total_holders, new_holders } => PollEventView::NewHolders {
                total_holders: *total_holders,
                new_holders: *new_holders,
            },
            PollEvent::VolumeSpike => PollEventView::VolumeSpike,
            PollEvent::NewTopBuyer { wallet } => PollEventView::NewTopBuyer { wallet: wallet@ },
        }
    }
}

/// The events of a poll, in the order they are sent: new holders, then a
/// volume spike, then a new top buyer; each only when it fires, and none
/// on a coin's first poll.
pub open spec fn poll_events_of(
    prev: CoinSnapshot,
    holders: u64,
    top_buyer: Option<String>,
    threshold: u64,
    volume_spiked: bool,
) -> Seq<PollEventView> {
    (match holder_growth_of(prev, holders, threshold) {
        Some(delta) => seq![PollEventView::NewHolders { total_holders: holders, new_holders: delta }],
        None => Seq::empty(),
    }) + (if prev.initialized && volume_spiked {
        seq![PollEventView::VolumeSpike]
    } else {
        Seq::empty()
    }) + (match top_buyer_change_of(prev, top_buyer) {
        Some(w) => seq![PollEventView::NewTopBuyer { wallet: w }],
        None => Seq::empty(),
    })
}

/// What one successful poll of a coin leads to: the events to send, in
/// order, and the snapshot to record once they are all sent.
pub struct PollOutcome {
    pub events: Vec<PollEvent>,
    pub next: CoinSnapshot,
}

/// Decides one poll of a coin whose three fetches all succeeded, from the
/// last snapshot, the figures fetched, the coin's holder threshold and
/// whether its volume spiked.  The events come in the order new holders,
/// volume spike, new top buyer; the next snapshot holds the figures and
/// marks the coin as polled.  The caller sends the events in order and
/// records the snapshot only after all of them are sent.
pub fn poll_step(
    prev: &CoinSnapshot,
    holders: u64,
    volume_24h: String,
    top_buyer: Option<String>,
    threshold: u64,
    volume_spiked: bool,
) -> (r: PollOutcome)
    ensures
        r.events@.map_values(|e: PollEvent| e@) == poll_events_of(*prev, holders, top_buyer, threshold, volume_spiked),
        r.next.initialized,
        r.next.holder_count == holders,
        r.next.volume_24h == volume_24h,
        r.next.top_buyer == top_buyer,
{
    let mut events: Vec<PollEvent> = Vec::new();
    let ghost first: Seq<PollEventView> = match holder_growth_of(*prev, holders, threshold) {
        Some(delta) => seq![PollEventView::NewHolders { total_holders: holders, new_holders: delta }],
        None => Seq::empty(),
    };
    let ghost second: Seq<PollEventView> = if prev.initialized && volume_spiked {
        seq![PollEventView::VolumeSpike]
    } else {
        Seq::empty()
    };
    let ghost third: Seq<PollEventView> = match top_buyer_change_of(*prev, top_buyer) {
        Some(w) => seq![PollEventView::NewTopBuyer { wallet: w }],
        None => Seq::empty(),
    };
    match holder_growth(prev, holders, threshold) {
        Some(delta) => events.push(PollEvent::NewHolders { total_holders: holders, new_holders: delta }),
        None => {},
    }
    assert(events@.map_values(|e: PollEvent| e@) =~= first);
    if prev.initialized && volume_spiked {
        events.push(PollEvent::VolumeSpike);
    }
    assert(events@.map_values(|e: PollEvent| e@) =~= first + second);
    match new_top_buyer(prev, &top_buyer) {
        Some(wallet) => events.push(PollEvent::NewTopBuyer { wallet }),
        None => {},
    }
    assert(events@.map_values(|e: PollEvent| e@) =~= first + second + third);
    PollOutcome { events, next: polled_snapshot(holders, volume_24h, top_buyer) }
}

// ---------------------------------------------------------------------------
// Ping texts
// ---------------------------------------------------------------------------

/// The ping for new holders.
pub open spec fn new_holders_ping_text(coin_name: Seq<char>, new_holders: u64, total_holders: u64) -> Seq<char> {
    "\u{1f4c8} "@ + coin_name + " \u{2014} "@ + decimal_digits(new_holders as nat) + " new holder"@ + (if new_holders
        == 1 {
        ""@
    } else {
        "s"@
    }) + " today (total: "@ + decimal_digits(total_holders as nat) + ")"@
}

/// The ping for new holders: how many arrived, and the total.
pub fn new_holders_ping(coin_name: &str, new_holders: u64, total_holders: u64) -> (r: String)
    ensures
        r@ == new_holders_ping_text(coin_name@, new_holders, total_holders),
{
    let mut v = chars_of("\u{1f4c8} ");
    extend_with_str(&mut v, coin_name);
    extend_with_str(&mut v, " \u{2014} ");
    extend_with_str(&mut v, u64_text(new_holders).as_str());
    extend_with_str(&mut v, " new holder");
    if new_holders == 1 {
        extend_with_str(&mut v, "");
    } else {
        extend_with_str(&mut v, "s");
    }
    extend_with_str(&mut v, " today (total: ");
    extend_with_str(&mut v, u64_text(total_holders).as_str());
    extend_with_str(&mut v, ")");
    string_from_chars(&v)
}

/// The number of bytes UTF-8 takes for `c`.
pub open spec fn utf8_width(c: char) -> nat {
    if (c as u32) < 0x80 {
        1
    } else if (c as u32) < 0x800 {
        2
    } else if (c as u32) < 0x10000 {
        3
    } else {
        4
    }
}

/// The number of bytes UTF-8 takes for `s`: what `str::len` returns.
pub open spec fn utf8_len(s: Seq<char>) -> nat
    decreases s.len(),
{
    if s.len() == 0 {
        0
    } else {
        utf8_len(s.drop_last()) + utf8_width(s.last())
    }
}

/// Byte offset `b` of `s` falls between two characters: `s[..b]` can be
/// sliced.
pub open spec fn char_boundary(s: Seq<char>, b: nat) -> bool {
    exists|i: int| 0 <= i <= s.len() && #[trigger] utf8_len(s.take(i)) == b
}

/// The number of characters in the first `b` bytes of `s`.
pub open spec fn chars_in_bytes(s: Seq<char>, b: nat) -> int {
    choose|i: int| 0 <= i <= s.len() && #[trigger] utf8_len(s.take(i)) == b
}

/// A wallet as pings show it: when it takes at least ten bytes, its first
/// six bytes, an ellipsis and its last four; otherwise the whole of it.
pub open spec fn short_wallet_text(w: Seq<char>) -> Seq<char> {
    if utf8_len(w) >= 10 {
        w.take(chars_in_bytes(w, 6)) + "\u{2026}"@ + w.skip(chars_in_bytes(w, (utf8_len(w) - 4) as nat))
    } else {
        w
    }
}

/// The wallet can be shortened without cutting a character in two (and
/// its length fits in memory).
pub open spec fn shortenable(w: Seq<char>) -> bool {
    &&& utf8_len(w) <= usize::MAX
    &&& utf8_len(w) >= 10 ==> char_boundary(w, 6) && char_boundary(w, (utf8_len(w) - 4) as nat)
}

proof fn lemma_utf8_take_step(s: Seq<char>, i: int)
    requires
        0 <= i < s.len(),
    ensures
        utf8_len(s.take(i + 1)) == utf8_len(s.take(i)) + utf8_width(s[i]),
{
    assert(s.take(i + 1).drop_last() == s.take(i));
    assert(s.take(i + 1).last() == s[i]);
}

proof fn lemma_utf8_take_increasing(s: Seq<char>, i: int, j: int)
    requires
        0 <= i < j <= s.len(),
    ensures
        utf8_len(s.take(i)) < utf8_len(s.take(j)),
    decreases j - i,
{
    lemma_utf8_take_step(s, j - 1);
    if i < j - 1 {
        lemma_utf8_take_increasing(s, i, j - 1);
    }
}

fn width_of(c: char) -> (w: usize)
    ensures
        w == utf8_width(c),
{
    if (c as u32) < 0x80 {
        1
    } else if (c as u32) < 0x800 {
        2
    } else if (c as u32) < 0x10000 {
        3
    } else {
        4
    }
}

/// The number of characters in the first `b` bytes of `v`, when `b` falls
/// between two characters.
fn char_count_at(v: &Vec<char>, b: usize) -> (r: Option<usize>)
    ensures
        match r {
            Some(i) => i <= v.len() && utf8_len(v@.take(i as int)) == b,
            None => !char_boundary(v@, b as nat),
        },
{
    let mut i: usize = 0;
    let mut acc: usize = 0;
    assert(v@.take(0) == Seq::<char>::empty());
    while i < v.len() && acc < b
        invariant
            i <= v.len(),
            acc == utf8_len(v@.take(i as int)),
            acc <= b,
        decreases v.len() - i,
    {
        let w = width_of(v[i]);
        proof {
            lemma_utf8_take_step(v@, i as int);
        }
        if w > b - acc {
            proof {
                assert forall|k: int| 0 <= k <= v.len() implies #[trigger] utf8_len(v@.take(k)) != b by {
                    if k <= i {
                        if k < i {
                            lemma_utf8_take_increasing(v@, k, i as int);
                        }
                    } else {
                        if k > i + 1 {
                            lemma_utf8_take_increasing(v@, i + 1, k);
                        }
                    }
                }
            }
            return None;
        }
        acc = acc + w;
        i = i + 1;
    }
    if acc == b {
        Some(i)
    } else {
        proof {
            assert forall|k: int| 0 <= k <= v.len() implies #[trigger] utf8_len(v@.take(k)) != b by {
                if k < i {
                    lemma_utf8_take_increasing(v@, k, i as int);
                } else if k > i {
                    lemma_utf8_take_increasing(v@, i as int, k);
                }
            }
        }
        None
    }
}

/// The number of bytes UTF-8 takes for `v`.
fn utf8_len_of(v: &Vec<char>) -> (n: usize)
    requires
        utf8_len(v@) <= usize::MAX,
    ensures
        n == utf8_len(v@),
{
    let mut i: usize = 0;
    let mut acc: usize = 0;
    assert(v@.take(0) == Seq::<char>::empty());
    while i < v.len()
        invariant
            i <= v.len(),
            acc == utf8_len(v@.take(i as int)),
            utf8_len(v@) <= usize::MAX,
        decreases v.len() - i,
    {
        proof {
            lemma_utf8_take_step(v@, i as int);
            if i + 1 < v.len() {
                lemma_utf8_take_increasing(v@, i + 1, v.len() as int);
            }
            assert(v@.take(v.len() as int) == v@);
        }
        acc = acc + width_of(v[i]);
        i = i + 1;
    }
    assert(v@.take(v.len() as int) == v@);
    acc
}

/// Whether a wallet can be shown shortened (see [`shortenable`]).
pub fn wallet_shortenable(wallet: &str) -> (b: bool)
    requires
        utf8_len(wallet@) <= usize::MAX,
    ensures
        b == shortenable(wallet@),
{
    let v = chars_of(wallet);
    let n = utf8_len_of(&v);
    if n < 10 {
        return true;
    }
    let a = char_count_at(&v, 6);
    let z = char_count_at(&v, n - 4);
    a.is_some() && z.is_some()
}

/// A wallet as pings show it (see [`short_wallet_text`]).
pub fn short_wallet(wallet: &str) -> (r: String)
    requires
        shortenable(wallet@),
    ensures
        r@ == short_wallet_text(wallet@),
{
    let v = chars_of(wallet);
    let n = utf8_len_of(&v);
    if n < 10 {
        return string_from_chars(&v);
    }
    let a = char_count_at(&v, 6);
    let z = char_count_at(&v, n - 4);
    match (a, z) {
        (Some(i), Some(j)) => {
            proof {
                let s = v@;
                let ci = chars_in_bytes(s, 6);
                let cj = chars_in_bytes(s, (n - 4) as nat);
                assert(utf8_len(s.take(i as int)) == 6);
                assert(utf8_len(s.take(ci)) == 6);
                if ci < i {
                    lemma_utf8_take_increasing(s, ci, i as int);
                } else if ci > i {
                    lemma_utf8_take_increasing(s, i as int, ci);
                }
                assert(utf8_len(s.take(cj)) == n - 4);
                if cj < j {
                    lemma_utf8_take_increasing(s, cj, j as int);
                } else if cj > j {
                    lemma_utf8_take_increasing(s, j as int, cj);
                }
            }
            let mut out = slice_chars(&v, 0, i);
            extend_with_str(&mut out, "\u{2026}");
            let tail = slice_chars(&v, j, v.len());
            extend_chars(&mut out, &tail);
            assert(v@.subrange(0, i as int) == v@.take(i as int));
            assert(v@.subrange(j as int, v.len() as int) == v@.skip(j as int));
            string_from_chars(&out)
        },
        _ => {
            string_from_chars(&v)
        },
    }
}

/// The ping for a new top buyer.
pub open spec fn new_top_buyer_ping_text(coin_name: Seq<char>, wallet: Seq<char>) -> Seq<char> {
    "\u{1f40b} "@ + coin_name + " \u{2014} new top buyer: "@ + short_wallet_text(wallet)
}

/// The ping for a new top buyer, naming it shortened.
pub fn new_top_buyer_ping(coin_name: &str, wallet: &str) -> (r: String)
    requires
        shortenable(wallet@),
    ensures
        r@ == new_top_buyer_ping_text(coin_name@, wallet@),
{
    let mut v = chars_of("\u{1f40b} ");
    extend_with_str(&mut v, coin_name);
    extend_with_str(&mut v, " \u{2014} new top buyer: ");
    extend_with_str(&mut v, short_wallet(wallet).as_str());
    string_from_chars(&v)
}

// ---------------------------------------------------------------------------
// Watch defaults and the console notifier
// ---------------------------------------------------------------------------

/// The holder growth that fires a ping when a watch does not set one.
pub const DEFAULT_HOLDER_DELTA_THRESHOLD: u64 = 1;

/// The threshold of a watch: the configured one, else one holder.
pub fn holder_threshold_or_default(configured: Option<u64>) -> (r: u64)
    ensures
        r == (match configured {
            Some(t) => t,
            None => DEFAULT_HOLDER_DELTA_THRESHOLD,
        }),
{
    match configured {
        Some(t) => t,
        None => DEFAULT_HOLDER_DELTA_THRESHOLD,
    }
}

/// The notifier that prints pings to the console, each after its time.
pub struct StdoutNotifier;

impl StdoutNotifier {
    /// The console line for a ping sent at `timestamp`.
    pub fn line(timestamp: &str, ping: &str) -> (r: String)
        ensures
            r@ == "["@ + timestamp@ + "] "@ + ping@,
    {
        let mut v = chars_of("[");
        extend_with_str(&mut v, timestamp);
        extend_with_str(&mut v, "] ");
        extend_with_str(&mut v, ping);
        string_from_chars(&v)
    }
}

// ---------------------------------------------------------------------------
// Laws
// ---------------------------------------------------------------------------

/// Law: the first poll of a coin never pings.  Against a blank snapshot,
/// no holder growth and no top buyer change is reported, and a poll sends
/// no event at all, whatever it saw.
pub proof fn law_first_poll_is_silent(
    prev: CoinSnapshot,
    holders: u64,
    threshold: u64,
    top_buyer: Option<String>,
    volume_spiked: bool,
)
    requires
        blank_snapshot(prev),
    ensures
        holder_growth_of(prev, holders, threshold) is None,
        top_buyer_change_of(prev, top_buyer) is None,
        poll_events_of(prev, holders, top_buyer, threshold, volume_spiked).len() == 0,
{
}

/// Law: once a coin was polled, its holder growth pings exactly when it
/// reaches the threshold, and a top buyer pings exactly when it differs
/// from the remembered one.
pub proof fn law_later_polls_compare_with_last(
    prev: CoinSnapshot,
    holders: u64,
    threshold: u64,
    top_buyer: Option<String>,
)
    requires
        prev.initialized,
    ensures
        holders >= prev.holder_count && holders - prev.holder_count >= threshold ==> holder_growth_of(
            prev,
            holders,
            threshold,
        ) == Some((holders - prev.holder_count) as u64),
        holders < prev.holder_count ==> (holder_growth_of(prev, holders, threshold) is Some <==> threshold == 0),
        top_buyer is Some ==> (top_buyer_change_of(prev, top_buyer) is Some <==> opt_chars(prev.top_buyer)
            != opt_chars(top_buyer)),
{
}

/// Law: what is recorded for a coin is what is read back for it, and the
/// other coins' snapshots are untouched.
pub proof fn law_record_then_read(
    memory: Map<Seq<char>, CoinSnapshot>,
    address: Seq<char>,
    snapshot: CoinSnapshot,
    other: Seq<char>,
)
    requires
        other != address,
    ensures
        memory.insert(address, snapshot).contains_key(address),
        memory.insert(address, snapshot)[address] == snapshot,
        memory.insert(address, snapshot).contains_key(other) == memory.contains_key(other),
        memory.contains_key(other) ==> memory.insert(address, snapshot)[other] == memory[other],
{
}


/// Law: each kind of ping fires on its own condition, whatever the others
/// do.  A poll reports a volume spike exactly when the coin was polled
/// before and its volume spiked, new holders exactly when the growth since
/// the last poll reaches the threshold, and a new top buyer exactly when
/// there is one that differs from the remembered one.
pub proof fn law_poll_events_fire_independently(
    prev: CoinSnapshot,
    holders: u64,
    top_buyer: Option<String>,
    threshold: u64,
    volume_spiked: bool,
)
    ensures
        poll_events_of(prev, holders, top_buyer, threshold, volume_spiked).contains(PollEventView::VolumeSpike)
            <==> (prev.initialized && volume_spiked),
        (exists|t: u64, n: u64|
            poll_events_of(prev, holders, top_buyer, threshold, volume_spiked).contains(
                PollEventView::NewHolders { total_holders: t, new_holders: n },
            )) <==> (prev.initialized && holders >= prev.holder_count + threshold
                || prev.initialized && holders < prev.holder_count && threshold == 0),
        (exists|w: Seq<char>|
            poll_events_of(prev, holders, top_buyer, threshold, volume_spiked).contains(
                PollEventView::NewTopBuyer { wallet: w },
            )) <==> (prev.initialized && top_buyer is Some && opt_chars(prev.top_buyer) != opt_chars(top_buyer)),
{
    let ev = poll_events_of(prev, holders, top_buyer, threshold, volume_spiked);
    let first: Seq<PollEventView> = match holder_growth_of(prev, holders, threshold) {
        Some(delta) => seq![PollEventView::NewHolders { total_holders: holders, new_holders: delta }],
        None => Seq::empty(),
    };
    let second: Seq<PollEventView> = if prev.initialized && volume_spiked {
        seq![PollEventView::VolumeSpike]
    } else {
        Seq::empty()
    };
    let third: Seq<PollEventView> = match top_buyer_change_of(prev, top_buyer) {
        Some(w) => seq![PollEventView::NewTopBuyer { wallet: w }],
        None => Seq::empty(),
    };
    assert(ev == first + second + third);
    assert forall|x: PollEventView| ev.contains(x) <==> (first.contains(x) || second.contains(x) || third.contains(x)) by {
        if ev.contains(x) {
            let i = choose|i: int| 0 <= i < ev.len() && ev[i] == x;
            if i < first.len() {
                assert(first[i] == x);
            } else if i < first.len() + second.len() {
                assert(second[i - first.len()] == x);
            } else {
                assert(third[i - first.len() - second.len()] == x);
            }
        }
        if first.contains(x) {
            let i = choose|i: int| 0 <= i < first.len() && first[i] == x;
            assert(ev[i] == x);
        }
        if second.contains(x) {
            let i = choose|i: int| 0 <= i < second.len() && second[i] == x;
            assert(ev[first.len() + i] == x);
        }
        if third.contains(x) {
            let i = choose|i: int| 0 <= i < third.len() && third[i] == x;
            assert(ev[first.len() + second.len() + i] == x);
        }
    }
    if prev.initialized && volume_spiked {
        assert(second[0] == PollEventView::VolumeSpike);
    }
    match holder_growth_of(prev, holders, threshold) {
        Some(delta) => {
            assert(first[0] == PollEventView::NewHolders { total_holders: holders, new_holders: delta });
            assert(ev.contains(PollEventView::NewHolders { total_holders: holders, new_holders: delta }));
        },
        None => {},
    }
    match top_buyer_change_of(prev, top_buyer) {
        Some(w) => {
            assert(third[0] == PollEventView::NewTopBuyer { wallet: w });
            assert(ev.contains(PollEventView::NewTopBuyer { wallet: w }));
        },
        None => {},
    }
}

} // verus!
