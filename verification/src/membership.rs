//! Cluster membership by gossip, with SWIM-style failure detection.
//!
//! Each node keeps a roster of members keyed by name. Nodes exchange their
//! whole roster on join (push-pull) and spread changes by gossip. Conflicting
//! reports about a member are ordered by its incarnation number: a report is
//! taken only if its incarnation beats the one held. A node never takes a
//! peer's report about itself; when a peer claims it is suspect or failed, it
//! refutes the claim with an incarnation above the claim's.
//!
//! Failure detection: a probe picks a random probeable member and pings it;
//! a missed ack makes an alive target suspect, and indirect probes through
//! other members then decide between alive again and failed.
//!
//! The roster and the decisions live here; sockets, timers and the wire
//! encoding belong to the binary, which hands this module each datagram and
//! performs the replies it asks for.
use crate::error::{Error, Result};
use crate::strmap::{has_key, lookup, upsert, Pairs, StrMap};
use crate::text::str_eq;
use vstd::prelude::*;

verus! {

/// Liveness of a cluster member.
#[derive(Debug, Clone, Copy, PartialEq, Eq, Structural)]
pub enum MemberStatus {
    /// Reachable and healthy.
    Alive,
    /// Unconfirmed by indirect probes; the member may be unreachable.
    Suspect,
    /// Gracefully leaving.
    Leaving,
    /// Has left the cluster.
    Left,
    /// Unreachable or failed.
    Failed,
}

/// The name of a status.
pub open spec fn status_name(s: MemberStatus) -> Seq<char> {
    match s {
        MemberStatus::Alive => "alive"@,
        MemberStatus::Suspect => "suspect"@,
        MemberStatus::Leaving => "leaving"@,
        MemberStatus::Left => "left"@,
        MemberStatus::Failed => "failed"@,
    }
}

/// Whether a status is terminal (no further transitions).
pub open spec fn terminal(s: MemberStatus) -> bool {
    s == MemberStatus::Left || s == MemberStatus::Failed
}

impl MemberStatus {
    /// Human-readable label.
    pub fn as_str(&self) -> (r: &'static str)
        ensures
            r@ == status_name(*self),
    {
        match self {
            MemberStatus::Alive => "alive",
            MemberStatus::Suspect => "suspect",
            MemberStatus::Leaving => "leaving",
            MemberStatus::Left => "left",
            MemberStatus::Failed => "failed",
        }
    }

    /// Whether this status is terminal (no further transitions).
    pub fn is_terminal(&self) -> (r: bool)
        ensures
            r == terminal(*self),
    {
        match self {
            MemberStatus::Left | MemberStatus::Failed => true,
            _ => false,
        }
    }

    /// Whether a member in this status is a valid probe target.
    pub fn is_probeable(&self) -> (r: bool)
        ensures
            r == !terminal(*self),
    {
        match self {
            MemberStatus::Alive | MemberStatus::Suspect | MemberStatus::Leaving => true,
            _ => false,
        }
    }
}

/// A member of the cluster.
#[derive(Debug, Clone)]
pub struct Member {
    /// Member name.
    pub name: String,
    /// Advertised gossip address (`host:port`).
    pub addr: String,
    /// Current liveness.
    pub status: MemberStatus,
}

/// A roster entry: the member plus the incarnation that orders updates.
#[derive(Debug, Clone)]
pub struct Entry {
    /// The member's record.
    pub member: Member,
    /// Higher wins when reconciling conflicting reports.
    pub incarnation: u64,
}

/// One member as it travels between nodes.
#[derive(Debug, Clone)]
pub struct Wire {
    /// Member name.
    pub name: String,
    /// Advertised address.
    pub addr: String,
    /// Liveness.
    pub status: MemberStatus,
    /// Incarnation for conflict resolution.
    pub incarnation: u64,
}

/// A datagram exchanged between members.
#[derive(Debug, Clone)]
pub enum Msg {
    /// Full-roster exchange; the receiver merges `peers` and, if `reply` is
    /// set, answers with its own roster.
    PushPull {
        /// Sender's roster.
        peers: Vec<Wire>,
        /// Whether the receiver should answer with its roster.
        reply: bool,
    },
    /// One-way dissemination of roster changes; never answered.
    Gossip {
        /// Updated member records.
        peers: Vec<Wire>,
    },
    /// Direct probe; answered with an `Ack`.
    Ping {
        /// Sequence number for correlating acks.
        seq: u64,
    },
    /// Acknowledgement of a `Ping`.
    Ack {
        /// Echoed sequence number.
        seq: u64,
    },
    /// Indirect probe request: probe `target` on `sender`'s behalf.
    PingReq {
        /// The member asking.
        sender: String,
        /// The member to probe.
        target: String,
        /// Address of `target`.
        target_addr: String,
        /// Sequence number.
        seq: u64,
    },
    /// Result of an indirect probe.
    PingResp {
        /// The member that asked.
        sender: String,
        /// Whether the target answered.
        ok: bool,
        /// Sequence number.
        seq: u64,
    },
}

/// What to do after a datagram has been handled.
#[derive(Debug)]
pub enum Reply {
    /// Nothing to send.
    Nothing,
    /// Send this message back to the datagram's source.
    ToSource(Msg),
    /// Ping `target_addr` with `seq` on `sender`'s behalf, then report the
    /// outcome with [`Roster::ping_req_report`].
    ProbeFor {
        /// The member that asked.
        sender: String,
        /// Address to ping.
        target_addr: String,
        /// Sequence number.
        seq: u64,
    },
}

/// The abstract content of a roster.
pub struct RosterModel {
    /// This node's own name.
    pub self_name: Seq<char>,
    /// Entries keyed by member name, in insertion order.
    pub entries: Pairs<Entry>,
    /// This node's own incarnation counter.
    pub counter: u64,
}

/// The entry a wire record describes.
pub open spec fn entry_of(w: Wire) -> Entry {
    Entry { member: Member { name: w.name, addr: w.addr, status: w.status }, incarnation: w.incarnation }
}

/// Merging one record: a record about this node is ignored, and a record
/// about a known member is taken only when its incarnation is higher.
pub open spec fn merge_one(entries: Pairs<Entry>, self_name: Seq<char>, w: Wire) -> Pairs<Entry> {
    if w.name@ == self_name {
        entries
    } else {
        match lookup(entries, w.name@) {
            Some(e) => if w.incarnation > e.incarnation {
                upsert(entries, w.name@, entry_of(w))
            } else {
                entries
            },
            None => upsert(entries, w.name@, entry_of(w)),
        }
    }
}

/// Merging records in order.
pub open spec fn merge_all(entries: Pairs<Entry>, self_name: Seq<char>, ws: Seq<Wire>) -> Pairs<Entry>
    decreases ws.len(),
{
    if ws.len() == 0 {
        entries
    } else {
        merge_one(merge_all(entries, self_name, ws.drop_last()), self_name, ws.last())
    }
}

/// Whether a record claims that `self_name` is suspect or failed.
pub open spec fn is_claim(w: Wire, self_name: Seq<char>) -> bool {
    w.name@ == self_name && (w.status == MemberStatus::Suspect || w.status == MemberStatus::Failed)
}

/// Position of the first claim against `self_name` from `k` on.
pub open spec fn first_claim(ws: Seq<Wire>, self_name: Seq<char>, k: int) -> Option<int>
    decreases ws.len() - k,
{
    if k < 0 || k >= ws.len() {
        None
    } else if is_claim(ws[k], self_name) {
        Some(k)
    } else {
        first_claim(ws, self_name, k + 1)
    }
}

/// The larger of two counters.
pub open spec fn max_u64(a: u64, b: u64) -> u64 {
    if a >= b { a } else { b }
}

/// The incarnation a refutation of a claim at incarnation `claim` takes:
/// one above the counter, the claim and the incarnation held for this node
/// (`u64::MAX` when that is already reached).
pub open spec fn refutation_incarnation(m: RosterModel, claim: u64) -> u64 {
    let base = match lookup(m.entries, m.self_name) {
        Some(e) => e.incarnation,
        None => 0u64,
    };
    let top = max_u64(max_u64(m.counter, claim), base);
    if top < u64::MAX { (top + 1) as u64 } else { u64::MAX }
}

/// This node's entry made alive at incarnation `inc`.
pub open spec fn revived(m: RosterModel, inc: u64) -> Pairs<Entry> {
    let e = lookup(m.entries, m.self_name)->Some_0;
    upsert(m.entries, m.self_name, Entry { member: Member { status: MemberStatus::Alive, ..e.member }, incarnation: inc })
}

/// The roster after merging `ws` with self-refutation, and the refutations
/// to gossip back: if some record claims this node is suspect or failed, the
/// first such claim is answered by making this node alive at
/// [`refutation_incarnation`], which the counter also takes; then every
/// record is merged.
pub open spec fn refute_and_merge(m: RosterModel, ws: Seq<Wire>) -> (RosterModel, Seq<(Seq<char>, u64)>) {
    match first_claim(ws, m.self_name, 0) {
        None => (RosterModel { entries: merge_all(m.entries, m.self_name, ws), ..m }, Seq::empty()),
        Some(i) => {
            let inc = refutation_incarnation(m, ws[i].incarnation);
            let m2 = RosterModel { entries: revived(m, inc), counter: inc, ..m };
            (RosterModel { entries: merge_all(m2.entries, m.self_name, ws), ..m2 }, seq![(m.self_name, inc)])
        },
    }
}

/// The counter after one more bump (saturating at `u64::MAX`).
pub open spec fn bumped(c: u64) -> u64 {
    if c < u64::MAX { (c + 1) as u64 } else { u64::MAX }
}

/// The entries with the member `name` set to `status` at incarnation `inc`.
pub open spec fn with_status(entries: Pairs<Entry>, name: Seq<char>, status: MemberStatus, inc: u64) -> Pairs<Entry> {
    let e = lookup(entries, name)->Some_0;
    upsert(entries, name, Entry { member: Member { status, ..e.member }, incarnation: inc })
}

/// The wire record of an entry.
pub open spec fn wire_of(e: Entry) -> Wire {
    Wire { name: e.member.name, addr: e.member.addr, status: e.member.status, incarnation: e.incarnation }
}

/// The entries, in order, that may be picked: those of members other than
/// `exclude` (and, when `probe_only`, not in a terminal status).
pub open spec fn candidates(es: Seq<Entry>, exclude: Seq<char>, probe_only: bool) -> Seq<Entry>
    decreases es.len(),
{
    if es.len() == 0 {
        Seq::empty()
    } else {
        let prev = candidates(es.drop_last(), exclude, probe_only);
        let e = es.last();
        if e.member.name@ != exclude && (!probe_only || !terminal(e.member.status)) {
            prev.push(e)
        } else {
            prev
        }
    }
}

/// A member's (name, address).
pub open spec fn name_addr(e: Entry) -> (Seq<char>, Seq<char>) {
    (e.member.name@, e.member.addr@)
}

/// Positions picked from `len` candidates when visiting them in `order`:
/// each valid position not already picked, until `n` are picked.
pub open spec fn picked(len: int, order: Seq<usize>, n: int, k: int) -> Seq<int>
    decreases k,
{
    if k <= 0 || k > order.len() {
        Seq::empty()
    } else {
        let p = picked(len, order, n, k - 1);
        let o = order[k - 1] as int;
        if p.len() < n && o < len && !p.contains(o) {
            p.push(o)
        } else {
            p
        }
    }
}

/// The (name, address) pairs of the candidates picked in `order`.
pub open spec fn pick_from(cands: Seq<Entry>, order: Seq<usize>, n: int) -> Seq<(Seq<char>, Seq<char>)> {
    picked(cands.len() as int, order, n, order.len() as int).map_values(|i: int| name_addr(cands[i]))
}

/// The pairs' characters.
pub open spec fn pair_views(v: Seq<(String, String)>) -> Seq<(Seq<char>, Seq<char>)> {
    v.map_values(|p: (String, String)| (p.0@, p.1@))
}

/// `SliceRandom::shuffle` with the thread-local generator: reorders the
/// positions at random. Only that the result has the same elements, each as
/// often, is stated; which order comes out is chance.
#[verifier::external_body]
fn shuffle_positions(v: &mut Vec<usize>)
    ensures
        final(v)@.to_multiset() == old(v)@.to_multiset(),
{
    rand::seq::SliceRandom::shuffle(v.as_mut_slice(), &mut rand::thread_rng());
}

/// Pick up to `n` of the candidates, visiting them in `order`: each valid
/// position is taken once, out-of-range and repeated positions are skipped.
pub fn pick_in_order(cands: &Vec<(String, String)>, order: &Vec<usize>, n: usize) -> (r: Vec<(String, String)>)
    ensures
        pair_views(r@) == picked(cands@.len() as int, order@, n as int, order@.len() as int).map_values(
            |i: int| pair_views(cands@)[i],
        ),
{
    let mut seen: Vec<bool> = Vec::new();
    let mut j: usize = 0;
    while j < cands.len()
        invariant
            j <= cands@.len(),
            seen@.len() == j,
            forall|x: int| 0 <= x < j ==> !seen@[x],
        decreases cands@.len() - j,
    {
        seen.push(false);
        j = j + 1;
    }
    let mut out: Vec<(String, String)> = Vec::new();
    let ghost len = cands@.len() as int;
    let mut k: usize = 0;
    while k < order.len()
        invariant
            len == cands@.len(),
            k <= order@.len(),
            seen@.len() == cands@.len(),
            forall|x: int| 0 <= x < len ==> seen@[x] == picked(len, order@, n as int, k as int).contains(x),
            forall|q: int| 0 <= q < picked(len, order@, n as int, k as int).len() ==> 0 <= #[trigger] picked(len, order@, n as int, k as int)[q] < len,
            pair_views(out@) == picked(len, order@, n as int, k as int).map_values(|i: int| pair_views(cands@)[i]),
            out@.len() == picked(len, order@, n as int, k as int).len(),
        decreases order@.len() - k,
    {
        let o = order[k];
        let ghost p = picked(len, order@, n as int, k as int);
        if out.len() < n && o < cands.len() && !seen[o] {
            let pair = (cands[o].0.clone(), cands[o].1.clone());
            let ghost before = out@;
            out.push(pair);
            seen.set(o, true);
            assert(picked(len, order@, n as int, k + 1) == p.push(o as int));
            assert(pair_views(out@) =~= pair_views(before).push(pair_views(cands@)[o as int]));
            assert(p.push(o as int).map_values(|i: int| pair_views(cands@)[i]) =~= p.map_values(|i: int| pair_views(cands@)[i]).push(pair_views(cands@)[o as int]));
            assert forall|x: int| 0 <= x < len implies seen@[x] == picked(len, order@, n as int, k + 1).contains(x) by {
                if x != o {
                    assert(p.push(o as int).contains(x) == p.contains(x)) by {
                        if p.push(o as int).contains(x) {
                            let q = choose|q: int| 0 <= q < p.push(o as int).len() && p.push(o as int)[q] == x;
                            assert(q < p.len());
                            assert(p[q] == x);
                        }
                        if p.contains(x) {
                            let q = choose|q: int| 0 <= q < p.len() && p[q] == x;
                            assert(p.push(o as int)[q] == x);
                        }
                    }
                } else {
                    assert(p.push(o as int)[p.len() as int] == x);
                }
            }
        } else {
            assert(picked(len, order@, n as int, k + 1) == p);
        }
        k = k + 1;
    }
    out
}

/// Picked positions are valid positions.
proof fn lemma_picked_range(len: int, order: Seq<usize>, n: int, k: int)
    ensures
        forall|q: int| 0 <= q < picked(len, order, n, k).len() ==> 0 <= #[trigger] picked(len, order, n, k)[q] < len,
    decreases k,
{
    if 0 < k <= order.len() {
        lemma_picked_range(len, order, n, k - 1);
        let p = picked(len, order, n, k - 1);
        let o = order[k - 1] as int;
        if p.len() < n && o < len && !p.contains(o) {
            assert forall|q: int| 0 <= q < p.push(o).len() implies 0 <= #[trigger] p.push(o)[q] < len by {
                if q < p.len() {
                    assert(p.push(o)[q] == p[q]);
                }
            }
        }
    }
}

/// At most `n` positions are picked, and with `n` positive and a valid first
/// position none is missed.
proof fn lemma_picked_len(len: int, order: Seq<usize>, n: int, k: int)
    ensures
        picked(len, order, n, k).len() <= if n >= 0 { n } else { 0 },
    decreases k,
{
    if 0 < k <= order.len() {
        lemma_picked_len(len, order, n, k - 1);
    }
}

/// Whether `order` visits every position below `len` exactly once.
pub open spec fn shuffled(order: Seq<usize>, len: int) -> bool {
    &&& order.len() == len
    &&& order.no_duplicates()
    &&& forall|i: int| 0 <= i < order.len() ==> (#[trigger] order[i]) < len
}

/// A reordering of `0..len` visits every position below `len` exactly once.
proof fn lemma_shuffled(order: Seq<usize>, len: int)
    requires
        0 <= len <= usize::MAX,
        order.to_multiset() == Seq::new(len as nat, |i: int| i as usize).to_multiset(),
    ensures
        shuffled(order, len),
{
    broadcast use vstd::seq_lib::to_multiset_contains, vstd::seq_lib::to_multiset_len;

    let base = Seq::new(len as nat, |i: int| i as usize);
    assert forall|i: int, j: int| 0 <= i < base.len() && 0 <= j < base.len() && i != j implies base[i] != base[j] by {
        assert(base[i] == i as usize && base[j] == j as usize);
    }
    assert(base.no_duplicates());
    base.lemma_multiset_has_no_duplicates();
    assert(order.to_multiset().len() == base.to_multiset().len());
    assert forall|x: usize| order.to_multiset().contains(x) implies order.to_multiset().count(x) == 1 by {
        assert(base.to_multiset().contains(x));
    }
    order.lemma_multiset_has_no_duplicates_conv();
    assert forall|i: int| 0 <= i < order.len() implies (#[trigger] order[i]) < len by {
        let x = order[i];
        assert(order.contains(x));
        assert(order.to_multiset().count(x) > 0);
        assert(base.to_multiset().count(x) > 0);
        assert(base.contains(x));
        let j = choose|j: int| 0 <= j < base.len() && base[j] == x;
        assert(base[j] == j as usize);
    }
}

/// Visiting a duplicate-free order of in-range positions picks one
/// candidate per step until `n` are picked, each from the steps so far.
proof fn lemma_picked_all(len: int, order: Seq<usize>, n: int, k: int)
    requires
        0 <= n,
        0 <= k <= order.len(),
        order.no_duplicates(),
        forall|i: int| 0 <= i < order.len() ==> (#[trigger] order[i]) < len,
    ensures
        picked(len, order, n, k).len() == if k < n { k } else { n },
        forall|x: int| picked(len, order, n, k).contains(x) ==> exists|j: int| 0 <= j < k && order[j] as int == x,
    decreases k,
{
    if k > 0 {
        lemma_picked_all(len, order, n, k - 1);
        let p = picked(len, order, n, k - 1);
        let o = order[k - 1] as int;
        if p.contains(o) {
            let j = choose|j: int| 0 <= j < k - 1 && order[j] as int == o;
            assert(order[j] == order[k - 1]);
        }
        assert forall|x: int| picked(len, order, n, k).contains(x) implies exists|j: int|
            0 <= j < k && order[j] as int == x by {
            if p.contains(x) {
                let j = choose|j: int| 0 <= j < k - 1 && order[j] as int == x;
                assert(0 <= j < k && order[j] as int == x);
            } else {
                assert(x == o);
                assert(order[k - 1] as int == x);
            }
        }
    }
}

/// Whether `ws` are the refutation records for the (name, incarnation)
/// pairs `rs`: this node alive, with an empty address.
pub open spec fn refutation_records(ws: Seq<Wire>, rs: Seq<(Seq<char>, u64)>) -> bool {
    &&& ws.map_values(|w: Wire| (w.name@, w.incarnation)) == rs
    &&& forall|i: int| 0 <= i < ws.len() ==> (#[trigger] ws[i]).addr@.len() == 0 && ws[i].status == MemberStatus::Alive
}

/// Whether `ws` is the roster `m` as wire records followed by the
/// refutations `rs`.
pub open spec fn roster_then(ws: Seq<Wire>, m: RosterModel, rs: Seq<(Seq<char>, u64)>) -> bool {
    let n = m.entries.len() as int;
    &&& n <= ws.len()
    &&& ws.subrange(0, n) == crate::strmap::values(m.entries).map_values(|e: Entry| wire_of(e))
    &&& refutation_records(ws.subrange(n, ws.len() as int), rs)
}

/// Merging keeps keys unique.
proof fn lemma_merge_unique(es: Pairs<Entry>, me: Seq<char>, ws: Seq<Wire>)
    requires
        crate::strmap::keys_unique(es),
    ensures
        crate::strmap::keys_unique(merge_all(es, me, ws)),
    decreases ws.len(),
{
    if ws.len() > 0 {
        lemma_merge_unique(es, me, ws.drop_last());
        let prev = merge_all(es, me, ws.drop_last());
        crate::strmap::lemma_upsert(prev, ws.last().name@, entry_of(ws.last()));
    }
}

/// A node never takes a peer's report about itself: merging leaves the
/// entry under its own name exactly as it was.
pub proof fn law_merge_ignores_self(es: Pairs<Entry>, me: Seq<char>, ws: Seq<Wire>)
    requires
        crate::strmap::keys_unique(es),
    ensures
        lookup(merge_all(es, me, ws), me) == lookup(es, me),
    decreases ws.len(),
{
    if ws.len() > 0 {
        law_merge_ignores_self(es, me, ws.drop_last());
        lemma_merge_unique(es, me, ws.drop_last());
        let prev = merge_all(es, me, ws.drop_last());
        crate::strmap::lemma_upsert(prev, ws.last().name@, entry_of(ws.last()));
    }
}

/// Merging never forgets a member nor lowers the incarnation held for it.
pub proof fn law_merge_monotone(es: Pairs<Entry>, me: Seq<char>, ws: Seq<Wire>, k: Seq<char>)
    requires
        crate::strmap::keys_unique(es),
        lookup(es, k) is Some,
    ensures
        lookup(merge_all(es, me, ws), k) matches Some(e2) && e2.incarnation >= lookup(es, k)->Some_0.incarnation,
    decreases ws.len(),
{
    if ws.len() > 0 {
        law_merge_monotone(es, me, ws.drop_last(), k);
        lemma_merge_unique(es, me, ws.drop_last());
        let prev = merge_all(es, me, ws.drop_last());
        crate::strmap::lemma_upsert(prev, ws.last().name@, entry_of(ws.last()));
    }
}

/// The highest incarnation known for `k`: that of the entry held for it,
/// if any, and of every record in `ws` about it.
pub open spec fn top_incarnation(es: Pairs<Entry>, ws: Seq<Wire>, k: Seq<char>) -> Option<u64>
    decreases ws.len(),
{
    if ws.len() == 0 {
        match lookup(es, k) {
            Some(e) => Some(e.incarnation),
            None => None,
        }
    } else {
        let prev = top_incarnation(es, ws.drop_last(), k);
        let w = ws.last();
        if w.name@ == k {
            match prev {
                Some(x) => Some(if w.incarnation > x { w.incarnation } else { x }),
                None => Some(w.incarnation),
            }
        } else {
            prev
        }
    }
}

/// What a merge makes of every member other than this node: it is known
/// afterwards exactly when it was known before or some record names it, at
/// the highest incarnation among its entry and those records; a member no
/// record names keeps its entry as it was.
pub proof fn law_merge_takes_highest(es: Pairs<Entry>, me: Seq<char>, ws: Seq<Wire>, k: Seq<char>)
    requires
        crate::strmap::keys_unique(es),
        k != me,
    ensures
        match top_incarnation(es, ws, k) {
            None => lookup(merge_all(es, me, ws), k) is None,
            Some(top) => lookup(merge_all(es, me, ws), k) matches Some(e) && e.incarnation == top,
        },
        (forall|i: int| 0 <= i < ws.len() ==> (#[trigger] ws[i]).name@ != k) ==> lookup(merge_all(es, me, ws), k)
            == lookup(es, k),
        has_key(merge_all(es, me, ws), k) <==> (has_key(es, k) || exists|i: int|
            0 <= i < ws.len() && (#[trigger] ws[i]).name@ == k),
    decreases ws.len(),
{
    if ws.len() > 0 {
        let init = ws.drop_last();
        law_merge_takes_highest(es, me, init, k);
        lemma_merge_unique(es, me, init);
        let prev = merge_all(es, me, init);
        let w = ws.last();
        crate::strmap::lemma_upsert(prev, w.name@, entry_of(w));
        if forall|i: int| 0 <= i < ws.len() ==> (#[trigger] ws[i]).name@ != k {
            assert forall|i: int| 0 <= i < init.len() implies (#[trigger] init[i]).name@ != k by {
                assert(init[i] == ws[i]);
            }
            assert(ws[ws.len() - 1].name@ != k);
        }
        if exists|i: int| 0 <= i < init.len() && (#[trigger] init[i]).name@ == k {
            let i = choose|i: int| 0 <= i < init.len() && (#[trigger] init[i]).name@ == k;
            assert(ws[i] == init[i]);
        }
        if exists|i: int| 0 <= i < ws.len() && (#[trigger] ws[i]).name@ == k {
            let i = choose|i: int| 0 <= i < ws.len() && (#[trigger] ws[i]).name@ == k;
            if i < init.len() {
                assert(init[i] == ws[i]);
            }
        }
    }
}

/// A refutation beats the claim it answers: when some record claims this
/// node is suspect or failed (below the top incarnation), afterwards this
/// node is alive at an incarnation above the claim's, its counter is that
/// incarnation, and that is the refutation gossiped back.
pub proof fn law_refutation_beats_claim(m: RosterModel, ws: Seq<Wire>)
    requires
        crate::strmap::keys_unique(m.entries),
        has_key(m.entries, m.self_name),
        first_claim(ws, m.self_name, 0) matches Some(i) && ws[i].incarnation < u64::MAX && m.counter < u64::MAX
            && lookup(m.entries, m.self_name)->Some_0.incarnation < u64::MAX,
    ensures
        ({
            let i = first_claim(ws, m.self_name, 0)->Some_0;
            let (m2, rs) = refute_and_merge(m, ws);
            &&& rs.len() == 1
            &&& rs[0].0 == m.self_name
            &&& rs[0].1 > ws[i].incarnation
            &&& m2.counter == rs[0].1
            &&& lookup(m2.entries, m.self_name) matches Some(e) && e.member.status == MemberStatus::Alive && e.incarnation == rs[0].1
        }),
{
    let i = first_claim(ws, m.self_name, 0)->Some_0;
    let inc = refutation_incarnation(m, ws[i].incarnation);
    let e = lookup(m.entries, m.self_name)->Some_0;
    let ne = Entry { member: Member { status: MemberStatus::Alive, ..e.member }, incarnation: inc };
    crate::strmap::lemma_upsert(m.entries, m.self_name, ne);
    law_merge_ignores_self(revived(m, inc), m.self_name, ws);
}

/// A node's membership view: its roster and its own incarnation counter.
#[derive(Debug)]
pub struct Roster {
    /// This node's name.
    self_name: String,
    /// Entries keyed by member name.
    entries: StrMap<Entry>,
    /// This node's incarnation counter.
    counter: u64,
}

impl Roster {
    /// The roster's abstract content.
    pub closed spec fn model(&self) -> RosterModel {
        RosterModel { self_name: self.self_name@, entries: self.entries.pairs(), counter: self.counter }
    }

    #[verifier::type_invariant]
    closed spec fn inv(&self) -> bool {
        has_key(self.entries.pairs(), self.self_name@)
    }

    /// This node always has an entry (a no-op at run time).
    pub fn check_self(&self)
        ensures
            has_key(self.model().entries, self.model().self_name),
            crate::strmap::keys_unique(self.model().entries),
    {
        proof {
            use_type_invariant(self);
        }
        self.entries.check_unique();
    }

    /// A roster holding only this node, alive at incarnation 0.
    pub fn new(name: &str, addr: &str) -> (r: Roster)
        ensures
            r.model().self_name == name@,
            r.model().counter == 0,
            r.model().entries.len() == 1,
            r.model().entries[0].0 == name@,
            r.model().entries[0].1.member.name@ == name@,
            r.model().entries[0].1.member.addr@ == addr@,
            r.model().entries[0].1.member.status == MemberStatus::Alive,
            r.model().entries[0].1.incarnation == 0,
    {
        let mut entries: StrMap<Entry> = StrMap::new();
        let e = Entry {
            member: Member { name: name.to_string(), addr: addr.to_string(), status: MemberStatus::Alive },
            incarnation: 0,
        };
        let _ = entries.insert(name.to_string(), e);
        proof {
            assert(!has_key(Seq::<(Seq<char>, Entry)>::empty(), name@));
            assert(entries.pairs()[0].0 == name@);
        }
        Roster { self_name: name.to_string(), entries, counter: 0 }
    }

    /// This node's name.
    pub fn name(&self) -> (r: &str)
        ensures
            r@ == self.model().self_name,
    {
        self.self_name.as_str()
    }

    /// Number of members known, this node included.
    pub fn len(&self) -> (r: usize)
        ensures
            r == self.model().entries.len(),
    {
        self.entries.len()
    }

    /// Whether there is another member to probe: more than this node known.
    pub fn should_probe(&self) -> (r: bool)
        ensures
            r == (self.model().entries.len() > 1),
    {
        self.entries.len() > 1
    }

    /// The entry of member `name`, if known.
    pub fn entry(&self, name: &str) -> (r: Option<&Entry>)
        ensures
            match r {
                Some(e) => lookup(self.model().entries, name@) == Some(*e),
                None => lookup(self.model().entries, name@) is None,
            },
    {
        self.entries.get(name)
    }

    /// Take the content out, leaving a placeholder roster behind.
    fn take(&mut self) -> (r: (String, StrMap<Entry>, u64))
        ensures
            r.0@ == old(self).model().self_name,
            r.1.pairs() == old(self).model().entries,
            r.2 == old(self).model().counter,
            has_key(r.1.pairs(), r.0@),
    {
        proof {
            use_type_invariant(&*self);
        }
        let mut placeholder = Roster::new("", "");
        std::mem::swap(&mut placeholder, self);
        proof {
            use_type_invariant(&placeholder);
        }
        let Roster { self_name, entries, counter } = placeholder;
        (self_name, entries, counter)
    }

    /// Merge `peers` into the roster: records about this node are ignored,
    /// and a record about a known member replaces it only when its
    /// incarnation is higher.
    pub fn merge(&mut self, peers: Vec<Wire>)
        ensures
            final(self).model() == (RosterModel {
                entries: merge_all(old(self).model().entries, old(self).model().self_name, peers@),
                ..old(self).model()
            }),
    {
        let (self_name, mut entries, counter) = self.take();
        let mut i: usize = 0;
        while i < peers.len()
            invariant
                i <= peers@.len(),
                entries.pairs() == merge_all(old(self).model().entries, self_name@, peers@.take(i as int)),
                self_name@ == old(self).model().self_name,
                has_key(entries.pairs(), self_name@),
            decreases peers@.len() - i,
        {
            let w = &peers[i];
            assert(peers@.take(i + 1).drop_last() =~= peers@.take(i as int));
            assert(peers@.take(i + 1).last() == *w);
            entries.check_unique();
            let ghost before = entries.pairs();
            if !str_eq(w.name.as_str(), self_name.as_str()) {
                let take = match entries.get(w.name.as_str()) {
                    Some(e) => w.incarnation > e.incarnation,
                    None => true,
                };
                if take {
                    let e = Entry {
                        member: Member { name: w.name.clone(), addr: w.addr.clone(), status: w.status },
                        incarnation: w.incarnation,
                    };
                    assert(e == entry_of(*w));
                    let _ = entries.insert(w.name.clone(), e);
                    proof {
                        crate::strmap::lemma_upsert(before, w.name@, entry_of(*w));
                        assert(lookup(entries.pairs(), self_name@) == lookup(before, self_name@));
                    }
                }
            }
            i = i + 1;
        }
        assert(peers@.take(i as int) =~= peers@);
        *self = Roster { self_name, entries, counter };
    }

    /// Position of the first record claiming this node is suspect or failed.
    fn find_claim(&self, peers: &Vec<Wire>) -> (r: Option<usize>)
        ensures
            match r {
                Some(i) => first_claim(peers@, self.model().self_name, 0) == Some(i as int) && i < peers@.len(),
                None => first_claim(peers@, self.model().self_name, 0) is None,
            },
    {
        let mut i: usize = 0;
        while i < peers.len()
            invariant
                i <= peers@.len(),
                first_claim(peers@, self.model().self_name, 0) == first_claim(peers@, self.model().self_name, i as int),
            decreases peers@.len() - i,
        {
            let w = &peers[i];
            let suspected = match w.status {
                MemberStatus::Suspect | MemberStatus::Failed => true,
                _ => false,
            };
            if suspected && str_eq(w.name.as_str(), self.self_name.as_str()) {
                return Some(i);
            }
            i = i + 1;
        }
        None
    }

    /// Merge `peers` with self-refutation: if a record claims this node is
    /// suspect or failed, the claim is not taken; instead this node is made
    /// alive at an incarnation above the claim's, the counter, and the
    /// incarnation held for it, and that refutation is returned for
    /// gossiping back. Then every record is merged as by [`Roster::merge`].
    pub fn merge_with_refutation(&mut self, peers: Vec<Wire>) -> (r: Vec<Wire>)
        ensures
            final(self).model() == refute_and_merge(old(self).model(), peers@).0,
            r@.map_values(|w: Wire| (w.name@, w.incarnation)) == refute_and_merge(old(self).model(), peers@).1,
            forall|i: int| 0 <= i < r@.len() ==> (#[trigger] r@[i]).addr@.len() == 0 && r@[i].status == MemberStatus::Alive,
    {
        let mut refutations: Vec<Wire> = Vec::new();
        match self.find_claim(&peers) {
            Some(i) => {
                let claim = peers[i].incarnation;
                let (self_name, mut entries, counter) = self.take();
                entries.check_unique();
                let ghost m = old(self).model();
                let (base, old_name, old_addr) = match entries.get(self_name.as_str()) {
                    Some(e) => (e.incarnation, e.member.name.clone(), e.member.addr.clone()),
                    None => {
                        return refutations;
                    },
                };
                let a = if counter >= claim { counter } else { claim };
                let top = if a >= base { a } else { base };
                let inc = if top < u64::MAX { top + 1 } else { u64::MAX };
                assert(inc == refutation_incarnation(m, claim));
                let updated = Entry {
                    member: Member { name: old_name, addr: old_addr, status: MemberStatus::Alive },
                    incarnation: inc,
                };
                let ghost before = entries.pairs();
                let _ = entries.insert(self_name.clone(), updated);
                proof {
                    crate::strmap::lemma_upsert(before, self_name@, updated);
                }
                assert(entries.pairs() == revived(m, inc));
                refutations.push(Wire { name: self_name.clone(), addr: String::new(), status: MemberStatus::Alive, incarnation: inc });
                *self = Roster { self_name, entries, counter: inc };
            },
            None => {},
        }
        let ghost mid = self.model();
        self.merge(peers);
        assert(refutations@.map_values(|w: Wire| (w.name@, w.incarnation)) =~= refute_and_merge(old(self).model(), peers@).1);
        refutations
    }

    /// The roster as wire records, in roster order.
    pub fn snapshot(&self) -> (r: Vec<Wire>)
        ensures
            r@ == crate::strmap::values(self.model().entries).map_values(|e: Entry| wire_of(e)),
    {
        let mut out: Vec<Wire> = Vec::new();
        let mut i: usize = 0;
        while i < self.entries.len()
            invariant
                i <= self.entries.pairs().len(),
                out@ == crate::strmap::values(self.entries.pairs()).take(i as int).map_values(|e: Entry| wire_of(e)),
            decreases self.entries.pairs().len() - i,
        {
            let e = self.entries.value_at(i);
            let w = Wire { name: e.member.name.clone(), addr: e.member.addr.clone(), status: e.member.status, incarnation: e.incarnation };
            let ghost before = out@;
            out.push(w);
            assert(out@ =~= crate::strmap::values(self.entries.pairs()).take(i + 1).map_values(|e: Entry| wire_of(e)));
            i = i + 1;
        }
        assert(crate::strmap::values(self.entries.pairs()).take(i as int) =~= crate::strmap::values(self.entries.pairs()));
        out
    }

    /// The currently known members, in roster order.
    pub fn members(&self) -> (r: Vec<Member>)
        ensures
            r@ == crate::strmap::values(self.model().entries).map_values(|e: Entry| e.member),
    {
        let mut out: Vec<Member> = Vec::new();
        let mut i: usize = 0;
        while i < self.entries.len()
            invariant
                i <= self.entries.pairs().len(),
                out@ == crate::strmap::values(self.entries.pairs()).take(i as int).map_values(|e: Entry| e.member),
            decreases self.entries.pairs().len() - i,
        {
            let e = self.entries.value_at(i);
            let m = Member { name: e.member.name.clone(), addr: e.member.addr.clone(), status: e.member.status };
            out.push(m);
            assert(out@ =~= crate::strmap::values(self.entries.pairs()).take(i + 1).map_values(|e: Entry| e.member));
            i = i + 1;
        }
        assert(crate::strmap::values(self.entries.pairs()).take(i as int) =~= crate::strmap::values(self.entries.pairs()));
        out
    }

    /// (name, address) of the members other than `exclude` (only those in a
    /// probeable status when `probe_only`), in roster order.
    pub fn candidate_pairs(&self, exclude: &str, probe_only: bool) -> (r: Vec<(String, String)>)
        ensures
            pair_views(r@) == candidates(crate::strmap::values(self.model().entries), exclude@, probe_only).map_values(
                |e: Entry| name_addr(e),
            ),
    {
        let ghost es = crate::strmap::values(self.entries.pairs());
        let mut out: Vec<(String, String)> = Vec::new();
        let mut i: usize = 0;
        while i < self.entries.len()
            invariant
                es == crate::strmap::values(self.entries.pairs()),
                i <= es.len(),
                pair_views(out@) == candidates(es.take(i as int), exclude@, probe_only).map_values(|e: Entry| name_addr(e)),
            decreases es.len() - i,
        {
            let e = self.entries.value_at(i);
            assert(es.take(i + 1).drop_last() =~= es.take(i as int));
            assert(es.take(i + 1).last() == *e);
            if !str_eq(e.member.name.as_str(), exclude) && (!probe_only || e.member.status.is_probeable()) {
                let ghost before = out@;
                out.push((e.member.name.clone(), e.member.addr.clone()));
                assert(pair_views(out@) =~= pair_views(before).push(name_addr(*e)));
                assert(candidates(es.take(i + 1), exclude@, probe_only).map_values(|e: Entry| name_addr(e))
                    =~= candidates(es.take(i as int), exclude@, probe_only).map_values(|e: Entry| name_addr(e)).push(name_addr(*e)));
            }
            i = i + 1;
        }
        assert(es.take(i as int) =~= es);
        out
    }

    /// Up to `n` random members other than `exclude`, each at most once.
    pub fn random_peers(&self, n: usize, exclude: &str) -> (r: Vec<(String, String)>)
        ensures
            exists|order: Seq<usize>|
                shuffled(order, candidates(crate::strmap::values(self.model().entries), exclude@, false).len() as int)
                    && pair_views(r@) == #[trigger] pick_from(
                    candidates(crate::strmap::values(self.model().entries), exclude@, false),
                    order,
                    n as int,
                ),
            r@.len() == if n < candidates(crate::strmap::values(self.model().entries), exclude@, false).len() {
                n as int
            } else {
                candidates(crate::strmap::values(self.model().entries), exclude@, false).len() as int
            },
    {
        self.random_pick(n, exclude, false)
    }

    /// A random probeable member other than `exclude`, if there is one.
    pub fn random_probe_target(&self, exclude: &str) -> (r: Option<(String, String)>)
        ensures
            exists|order: Seq<usize>| {
                let p = #[trigger] pick_from(candidates(crate::strmap::values(self.model().entries), exclude@, true), order, 1);
                &&& shuffled(order, candidates(crate::strmap::values(self.model().entries), exclude@, true).len() as int)
                &&& match r {
                    Some(t) => p == seq![(t.0@, t.1@)],
                    None => p.len() == 0,
                }
            },
            r is Some <==> candidates(crate::strmap::values(self.model().entries), exclude@, true).len() > 0,
    {
        let mut picked = self.random_pick(1, exclude, true);
        let ghost pv = pair_views(picked@);
        if picked.len() == 0 {
            None
        } else {
            proof {
                let order = choose|order: Seq<usize>|
                    shuffled(order, candidates(crate::strmap::values(self.model().entries), exclude@, true).len() as int)
                        && pv == #[trigger] pick_from(
                        candidates(crate::strmap::values(self.model().entries), exclude@, true),
                        order,
                        1,
                    );
                lemma_picked_len(
                    candidates(crate::strmap::values(self.model().entries), exclude@, true).len() as int,
                    order,
                    1,
                    order.len() as int,
                );
            }
            let t = picked.remove(0);
            assert(pv =~= seq![(t.0@, t.1@)]);
            Some(t)
        }
    }

    /// Up to `n` random candidates.
    fn random_pick(&self, n: usize, exclude: &str, probe_only: bool) -> (r: Vec<(String, String)>)
        ensures
            exists|order: Seq<usize>|
                shuffled(order, candidates(crate::strmap::values(self.model().entries), exclude@, probe_only).len() as int)
                    && pair_views(r@) == #[trigger] pick_from(
                    candidates(crate::strmap::values(self.model().entries), exclude@, probe_only),
                    order,
                    n as int,
                ),
            r@.len() == if n < candidates(crate::strmap::values(self.model().entries), exclude@, probe_only).len() {
                n as int
            } else {
                candidates(crate::strmap::values(self.model().entries), exclude@, probe_only).len() as int
            },
    {
        let cands = self.candidate_pairs(exclude, probe_only);
        let mut order: Vec<usize> = Vec::new();
        let mut i: usize = 0;
        while i < cands.len()
            invariant
                i <= cands@.len(),
                order@ == Seq::new(i as nat, |k: int| k as usize),
            decreases cands@.len() - i,
        {
            order.push(i);
            i = i + 1;
            assert(order@ =~= Seq::new(i as nat, |k: int| k as usize));
        }
        shuffle_positions(&mut order);
        proof {
            lemma_shuffled(order@, cands@.len() as int);
            lemma_picked_all(cands@.len() as int, order@, n as int, order@.len() as int);
        }
        let r = pick_in_order(&cands, &order, n);
        let ghost cs = candidates(crate::strmap::values(self.model().entries), exclude@, probe_only);
        assert(pair_views(cands@).len() == cs.len());
        assert(picked(cands@.len() as int, order@, n as int, order@.len() as int).map_values(|i: int| pair_views(cands@)[i])
            =~= pick_from(cs, order@, n as int)) by {
            lemma_picked_range(cands@.len() as int, order@, n as int, order@.len() as int);
        }
        assert(r@.len() == pair_views(r@).len());
        r
    }

    /// The address of member `name`, if known.
    pub fn member_addr(&self, name: &str) -> (r: Option<String>)
        ensures
            match lookup(self.model().entries, name@) {
                Some(e) => r matches Some(a) && a@ == e.member.addr@,
                None => r is None,
            },
    {
        match self.entries.get(name) {
            Some(e) => Some(e.member.addr.clone()),
            None => None,
        }
    }

    /// Set member `name`'s status at incarnation `inc`, with the counter at
    /// `inc` too.
    fn set_status(&mut self, name: &str, status: MemberStatus, inc: u64)
        requires
            has_key(old(self).model().entries, name@),
        ensures
            final(self).model() == (RosterModel {
                entries: with_status(old(self).model().entries, name@, status, inc),
                counter: inc,
                ..old(self).model()
            }),
    {
        let (self_name, mut entries, _counter) = self.take();
        entries.check_unique();
        let ghost before = entries.pairs();
        let (old_name, old_addr) = match entries.get(name) {
            Some(e) => (e.member.name.clone(), e.member.addr.clone()),
            None => {
                *self = Roster { self_name, entries, counter: inc };
                return;
            },
        };
        let updated = Entry { member: Member { name: old_name, addr: old_addr, status }, incarnation: inc };
        let _ = entries.insert(name.to_string(), updated);
        proof {
            crate::strmap::lemma_upsert(before, name@, updated);
            if self_name@ != name@ {
                assert(lookup(entries.pairs(), self_name@) == lookup(before, self_name@));
            }
            assert(lookup(entries.pairs(), self_name@) is Some);
        }
        *self = Roster { self_name, entries, counter: inc };
    }

    /// A direct ping to `target` went unanswered. Returns whether indirect
    /// probes should follow: not when the target is unknown or terminal. An
    /// alive target becomes suspect at the next incarnation.
    pub fn missed_ack(&mut self, target: &str) -> (r: bool)
        ensures
            match lookup(old(self).model().entries, target@) {
                None => !r && final(self).model() == old(self).model(),
                Some(e) => if terminal(e.member.status) {
                    !r && final(self).model() == old(self).model()
                } else if e.member.status == MemberStatus::Alive {
                    r && final(self).model() == (RosterModel {
                        entries: with_status(old(self).model().entries, target@, MemberStatus::Suspect, bumped(old(self).model().counter)),
                        counter: bumped(old(self).model().counter),
                        ..old(self).model()
                    })
                } else {
                    r && final(self).model() == old(self).model()
                },
            },
    {
        let status = match self.entries.get(target) {
            None => {
                return false;
            },
            Some(e) => e.member.status,
        };
        if status.is_terminal() {
            return false;
        }
        if status == MemberStatus::Alive {
            let inc = if self.counter < u64::MAX { self.counter + 1 } else { u64::MAX };
            self.set_status(target, MemberStatus::Suspect, inc);
        }
        true
    }

    /// Record the outcome of indirect probes of `target`: a suspect that
    /// answered becomes alive again, a target that did not becomes failed
    /// unless it is already terminal; each change takes the next incarnation.
    /// An unknown target is ignored.
    pub fn indirect_result(&mut self, target: &str, ponged: bool)
        ensures
            match lookup(old(self).model().entries, target@) {
                None => final(self).model() == old(self).model(),
                Some(e) => if ponged && e.member.status == MemberStatus::Suspect {
                    final(self).model() == (RosterModel {
                        entries: with_status(old(self).model().entries, target@, MemberStatus::Alive, bumped(old(self).model().counter)),
                        counter: bumped(old(self).model().counter),
                        ..old(self).model()
                    })
                } else if !ponged && !terminal(e.member.status) {
                    final(self).model() == (RosterModel {
                        entries: with_status(old(self).model().entries, target@, MemberStatus::Failed, bumped(old(self).model().counter)),
                        counter: bumped(old(self).model().counter),
                        ..old(self).model()
                    })
                } else {
                    final(self).model() == old(self).model()
                },
            },
    {
        let status = match self.entries.get(target) {
            None => {
                return;
            },
            Some(e) => e.member.status,
        };
        let inc = if self.counter < u64::MAX { self.counter + 1 } else { u64::MAX };
        if ponged {
            if status == MemberStatus::Suspect {
                self.set_status(target, MemberStatus::Alive, inc);
            }
        } else if !status.is_terminal() {
            self.set_status(target, MemberStatus::Failed, inc);
        }
    }

    /// Leave the cluster: this node becomes `Left` at the next incarnation.
    /// Returns the addresses of the other members, to gossip the change to.
    pub fn leave(&mut self) -> (r: Vec<String>)
        ensures
            final(self).model() == (RosterModel {
                entries: with_status(old(self).model().entries, old(self).model().self_name, MemberStatus::Left, bumped(old(self).model().counter)),
                counter: bumped(old(self).model().counter),
                ..old(self).model()
            }),
            r@.map_values(|a: String| a@) == candidates(
                crate::strmap::values(final(self).model().entries),
                old(self).model().self_name,
                false,
            ).map_values(|e: Entry| e.member.addr@),
    {
        proof {
            use_type_invariant(&*self);
        }
        let inc = if self.counter < u64::MAX { self.counter + 1 } else { u64::MAX };
        let name = self.self_name.clone();
        self.set_status(name.as_str(), MemberStatus::Left, inc);
        let pairs = self.candidate_pairs(name.as_str(), false);
        let mut out: Vec<String> = Vec::new();
        let mut i: usize = 0;
        while i < pairs.len()
            invariant
                i <= pairs@.len(),
                out@.len() == i,
                forall|j: int| 0 <= j < i ==> (#[trigger] out@[j])@ == pairs@[j].1@,
            decreases pairs@.len() - i,
        {
            out.push(pairs[i].1.clone());
            i = i + 1;
        }
        assert(out@.map_values(|a: String| a@) =~= pair_views(pairs@).map_values(|p: (Seq<char>, Seq<char>)| p.1));
        assert(out@.map_values(|a: String| a@) =~= candidates(
            crate::strmap::values(self.model().entries),
            name@,
            false,
        ).map_values(|e: Entry| e.member.addr@));
        out
    }

    /// Handle one datagram and say what to answer.
    ///
    /// A push-pull or gossip is merged with self-refutation; a push-pull
    /// asking for a reply is answered with this roster and the refutations,
    /// and otherwise any refutations are gossiped back. A ping is acked. An
    /// indirect-probe request asks the caller to ping the target on the
    /// sender's behalf. Acks and indirect-probe results arriving here need
    /// nothing.
    pub fn handle(&mut self, msg: Msg) -> (r: Reply)
        ensures
            match msg {
                Msg::PushPull { peers, reply } => {
                    let (m2, rs) = refute_and_merge(old(self).model(), peers@);
                    &&& final(self).model() == m2
                    &&& reply ==> (r matches Reply::ToSource(Msg::PushPull { peers: out, reply: again }) && !again
                        && roster_then(out@, m2, rs))
                    &&& !reply && rs.len() > 0 ==> (r matches Reply::ToSource(Msg::Gossip { peers: out }) && refutation_records(out@, rs))
                    &&& !reply && rs.len() == 0 ==> r is Nothing
                },
                Msg::Gossip { peers } => {
                    let (m2, rs) = refute_and_merge(old(self).model(), peers@);
                    &&& final(self).model() == m2
                    &&& rs.len() > 0 ==> (r matches Reply::ToSource(Msg::Gossip { peers: out }) && refutation_records(out@, rs))
                    &&& rs.len() == 0 ==> r is Nothing
                },
                Msg::Ping { seq } => final(self).model() == old(self).model() && (r matches Reply::ToSource(Msg::Ack { seq: s })
                    && s == seq),
                Msg::PingReq { sender, target, target_addr, seq } => final(self).model() == old(self).model() && (r matches Reply::ProbeFor {
                    sender: s,
                    target_addr: t,
                    seq: q,
                } && s == sender && t == target_addr && q == seq),
                Msg::Ack { .. } => final(self).model() == old(self).model() && r is Nothing,
                Msg::PingResp { .. } => final(self).model() == old(self).model() && r is Nothing,
            },
    {
        match msg {
            Msg::PushPull { peers, reply } => {
                let refutations = self.merge_with_refutation(peers);
                if reply {
                    let mut out = self.snapshot();
                    let ghost snap = out@;
                    let mut i: usize = 0;
                    while i < refutations.len()
                        invariant
                            i <= refutations@.len(),
                            out@ == snap + refutations@.take(i as int),
                        decreases refutations@.len() - i,
                    {
                        let w = &refutations[i];
                        out.push(Wire { name: w.name.clone(), addr: w.addr.clone(), status: w.status, incarnation: w.incarnation });
                        assert(refutations@.take(i + 1) =~= refutations@.take(i as int).push(refutations@[i as int]));
                        i = i + 1;
                    }
                    assert(refutations@.take(i as int) =~= refutations@);
                    assert(out@.subrange(0, snap.len() as int) =~= snap);
                    assert(out@.subrange(snap.len() as int, out@.len() as int) =~= refutations@);
                    Reply::ToSource(Msg::PushPull { peers: out, reply: false })
                } else if refutations.len() > 0 {
                    Reply::ToSource(Msg::Gossip { peers: refutations })
                } else {
                    Reply::Nothing
                }
            },
            Msg::Gossip { peers } => {
                let refutations = self.merge_with_refutation(peers);
                if refutations.len() > 0 {
                    Reply::ToSource(Msg::Gossip { peers: refutations })
                } else {
                    Reply::Nothing
                }
            },
            Msg::Ping { seq } => Reply::ToSource(Msg::Ack { seq }),
            Msg::PingReq { sender, target, target_addr, seq } => Reply::ProbeFor { sender, target_addr, seq },
            Msg::Ack { .. } => Reply::Nothing,
            Msg::PingResp { .. } => Reply::Nothing,
        }
    }

    /// After pinging a target on `sender`'s behalf: the indirect-probe
    /// result and the address to send it to, when `sender` is known.
    pub fn ping_req_report(&self, sender: String, ok: bool, seq: u64) -> (r: Option<(String, Msg)>)
        ensures
            match lookup(self.model().entries, sender@) {
                Some(e) => r matches Some((addr, Msg::PingResp { sender: s, ok: o, seq: q })) && addr@ == e.member.addr@
                    && s == sender && o == ok && q == seq,
                None => r is None,
            },
    {
        match self.member_addr(sender.as_str()) {
            Some(addr) => Some((addr, Msg::PingResp { sender, ok, seq })),
            None => None,
        }
    }
}

/// Whether a datagram is the ack of probe `seq`.
pub fn is_ack_for(msg: &Msg, seq: u64) -> (r: bool)
    ensures
        r == (*msg matches Msg::Ack { seq: s } && s == seq),
{
    match msg {
        Msg::Ack { seq: s } => *s == seq,
        _ => false,
    }
}

/// Whether a datagram reports that an indirect probe `seq` started by
/// `self_name` reached its target.
pub fn is_indirect_success(msg: &Msg, seq: u64, self_name: &str) -> (r: bool)
    ensures
        r == (*msg matches Msg::PingResp { sender, ok, seq: s } && ok && s == seq && sender@ == self_name@),
{
    match msg {
        Msg::PingResp { sender, ok, seq: s } => *ok && *s == seq && str_eq(sender.as_str(), self_name),
        _ => false,
    }
}

/// The outcome of a join that sent the roster to `attempted` addresses, of
/// which `reached` took the datagram.
///
/// # Errors
///
/// Returns [`Error::Runtime`] when there were addresses but none was
/// reached.
pub fn join_outcome(reached: usize, attempted: usize) -> (r: Result<usize>)
    ensures
        reached == 0 && attempted > 0 ==> (r matches Err(e) && e.is_runtime("membership join: no peers reachable"@)),
        !(reached == 0 && attempted > 0) ==> r == Ok::<usize, Error>(reached),
{
    if reached == 0 && attempted > 0 {
        return Err(Error::Runtime("membership join: no peers reachable".to_string()));
    }
    Ok(reached)
}

} // verus!
