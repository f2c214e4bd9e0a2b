//! Flow-aware outbound scheduler (FQ-CoDel concept, Tunnet-sized).
//!
//! Scheduling unit is a flow ([`FlowKey`]). Per peer:
//!
//! ```text
//! PeerState
//!   ├─ new (sparse/interactive) flows — drained first, bounded
//!   ├─ old (backlogged) flows — byte-DRR across flows
//!   ├─ per-flow FIFO (ordering preserved within a flow)
//!   └─ sojourn-time AQM (drop stale queue-building packets)
//! ```
//!
//! Flows are kept in round-robin order; times are nanoseconds on a
//! monotonic clock chosen by the caller.

use std::collections::VecDeque;
use vstd::prelude::*;

use crate::flow::FlowKey;

verus! {

/// Total queued bytes per peer before AQM drops the stalest packet.
pub const PEER_BYTE_CAP: usize = 262144;
/// Hard packet cap per peer (memory bound even for tiny packets).
pub const PEER_PACKET_CAP: usize = 512;
/// Per-flow packet cap (a single flow cannot dominate peer memory).
pub const FLOW_PACKET_CAP: usize = 64;
/// Sojourn budget in nanoseconds: a head younger than this keeps a new flow sparse.
pub const SOJOURN_TARGET: u64 = 25_000_000;
/// Absolute sojourn ceiling in nanoseconds: nothing older survives a visit.
pub const SOJOURN_CEILING: u64 = 250_000_000;
/// New flows stay sparse until they have sent this many bytes in one epoch.
pub const NEW_FLOW_BYTE_BUDGET: usize = 16384;
/// DRR quantum per flow visit.
pub const FLOW_QUANTUM: usize = 1536;

#[derive(Debug, Clone, Copy, PartialEq, Eq, Structural)]
pub enum DropReason {
    PeerByteCap,
    PeerPacketCap,
    FlowCap,
    StaleSojourn,
    TransportTooLarge,
    NoConnection,
}

impl DropReason {
    /// Metric label of the drop reason.
    pub fn as_str(self) -> (s: &'static str)
        ensures
            self == DropReason::PeerByteCap ==> s@ == "sched_peer_bytes"@,
            self == DropReason::PeerPacketCap ==> s@ == "sched_peer_packets"@,
            self == DropReason::FlowCap ==> s@ == "sched_flow_cap"@,
            self == DropReason::StaleSojourn ==> s@ == "sched_stale"@,
            self == DropReason::TransportTooLarge ==> s@ == "datagram_too_large"@,
            self == DropReason::NoConnection ==> s@ == "no_connection"@,
    {
        match self {
            DropReason::PeerByteCap => "sched_peer_bytes",
            DropReason::PeerPacketCap => "sched_peer_packets",
            DropReason::FlowCap => "sched_flow_cap",
            DropReason::StaleSojourn => "sched_stale",
            DropReason::TransportTooLarge => "datagram_too_large",
            DropReason::NoConnection => "no_connection",
        }
    }
}

#[derive(Debug, Default, Clone, Copy)]
pub struct QueueLevels {
    pub packets: u64,
    pub bytes: u64,
    pub active_flows: u64,
}

/// A packet waiting in a flow queue.
pub struct QueuedPacket {
    pub data: Vec<u8>,
    pub len: usize,
    pub enqueued_at: u64,
}

impl QueuedPacket {
    pub fn new(data: Vec<u8>, enqueued_at: u64) -> (p: Self)
        ensures
            p.data@ == data@,
            p.len == data@.len(),
            p.enqueued_at == enqueued_at,
    {
        let len = data.len();
        QueuedPacket { data, len, enqueued_at }
    }
}

/// Time a packet has waited at `now` (zero when `now` is earlier).
pub open spec fn age(p: QueuedPacket, now: u64) -> int {
    if now >= p.enqueued_at {
        now - p.enqueued_at
    } else {
        0
    }
}

/// A packet older than the sojourn ceiling.
pub open spec fn is_stale(p: QueuedPacket, now: u64) -> bool {
    age(p, now) > SOJOURN_CEILING
}

/// Every packet of the sequence is stale.
pub open spec fn all_stale(s: Seq<QueuedPacket>, now: u64) -> bool {
    forall|j: int| 0 <= j < s.len() ==> #[trigger] is_stale(s[j], now)
}

/// Sum of packet lengths.
pub open spec fn seq_bytes(s: Seq<QueuedPacket>) -> int
    decreases s.len(),
{
    if s.len() == 0 {
        0
    } else {
        s[0].len + seq_bytes(s.drop_first())
    }
}

pub proof fn lemma_seq_bytes_push(s: Seq<QueuedPacket>, p: QueuedPacket)
    ensures
        seq_bytes(s.push(p)) == seq_bytes(s) + p.len,
    decreases s.len(),
{
    if s.len() > 0 {
        assert(s.push(p).drop_first() =~= s.drop_first().push(p));
        assert(s.push(p)[0] == s[0]);
        lemma_seq_bytes_push(s.drop_first(), p);
    } else {
        assert(s.push(p).drop_first() =~= Seq::<QueuedPacket>::empty());
        assert(seq_bytes(s.push(p).drop_first()) == 0);
    }
}

pub proof fn lemma_seq_bytes_prepend(s: Seq<QueuedPacket>, p: QueuedPacket)
    ensures
        seq_bytes(seq![p] + s) == seq_bytes(s) + p.len,
{
    assert((seq![p] + s).drop_first() =~= s);
}

pub proof fn lemma_seq_bytes_nonneg(s: Seq<QueuedPacket>)
    ensures
        seq_bytes(s) >= 0,
    decreases s.len(),
{
    if s.len() > 0 {
        lemma_seq_bytes_nonneg(s.drop_first());
    }
}

/// One flow's FIFO with its DRR and epoch state.
pub struct FlowQueue {
    pub packets: VecDeque<QueuedPacket>,
    pub bytes: usize,
    pub deficit: usize,
    /// Bytes sent in the current new/old epoch.
    pub epoch_bytes: usize,
    pub is_new: bool,
}

/// A queued flow is never empty, and its byte count is the sum of its packets.
pub open spec fn flow_wf(q: FlowQueue) -> bool {
    &&& q.packets@.len() > 0
    &&& q.bytes == seq_bytes(q.packets@)
    &&& forall|j: int| 0 <= j < q.packets@.len() ==> (#[trigger] q.packets@[j]).len <= PEER_BYTE_CAP
}

/// A flow queue with its key.
pub struct FlowEntry {
    pub key: FlowKey,
    pub queue: FlowQueue,
}

/// Number of packets of a flow.
pub open spec fn entry_packets(e: FlowEntry) -> int {
    e.queue.packets@.len() as int
}

/// Sum of queued packets over flows.
pub open spec fn total_packets(fs: Seq<FlowEntry>) -> int
    decreases fs.len(),
{
    if fs.len() == 0 {
        0
    } else {
        entry_packets(fs[0]) + total_packets(fs.drop_first())
    }
}

/// Sum of queued bytes over flows.
pub open spec fn total_bytes(fs: Seq<FlowEntry>) -> int
    decreases fs.len(),
{
    if fs.len() == 0 {
        0
    } else {
        fs[0].queue.bytes + total_bytes(fs.drop_first())
    }
}

pub open spec fn keys_unique(fs: Seq<FlowEntry>) -> bool {
    forall|i: int, j: int| 0 <= i < fs.len() && 0 <= j < fs.len() && i != j ==> fs[i].key != fs[j].key
}

pub open spec fn has_key(fs: Seq<FlowEntry>, k: FlowKey) -> bool {
    exists|i: int| 0 <= i < fs.len() && #[trigger] fs[i].key == k
}

/// The packets queued for flow `k` (empty when the flow has no queue).
pub open spec fn queue_of(fs: Seq<FlowEntry>, k: FlowKey) -> Seq<QueuedPacket> {
    if has_key(fs, k) {
        fs[choose|i: int| 0 <= i < fs.len() && #[trigger] fs[i].key == k].queue.packets@
    } else {
        Seq::empty()
    }
}

pub proof fn lemma_queue_of_at(fs: Seq<FlowEntry>, i: int)
    requires
        keys_unique(fs),
        0 <= i < fs.len(),
    ensures
        queue_of(fs, fs[i].key) == fs[i].queue.packets@,
{
    let k = fs[i].key;
    assert(has_key(fs, k));
}

pub proof fn lemma_queue_of_absent(fs: Seq<FlowEntry>, k: FlowKey)
    requires
        forall|i: int| 0 <= i < fs.len() ==> fs[i].key != k,
    ensures
        queue_of(fs, k) == Seq::<QueuedPacket>::empty(),
{
}

pub proof fn lemma_totals_push(fs: Seq<FlowEntry>, e: FlowEntry)
    ensures
        total_packets(fs.push(e)) == total_packets(fs) + entry_packets(e),
        total_bytes(fs.push(e)) == total_bytes(fs) + e.queue.bytes,
    decreases fs.len(),
{
    if fs.len() > 0 {
        assert(fs.push(e).drop_first() =~= fs.drop_first().push(e));
        assert(fs.push(e)[0] == fs[0]);
        lemma_totals_push(fs.drop_first(), e);
    } else {
        assert(fs.push(e).drop_first() =~= Seq::<FlowEntry>::empty());
        assert(total_packets(fs.push(e).drop_first()) == 0);
        assert(total_bytes(fs.push(e).drop_first()) == 0);
    }
}

pub proof fn lemma_totals_remove(fs: Seq<FlowEntry>, i: int)
    requires
        0 <= i < fs.len(),
    ensures
        total_packets(fs.remove(i)) == total_packets(fs) - entry_packets(fs[i]),
        total_bytes(fs.remove(i)) == total_bytes(fs) - fs[i].queue.bytes,
    decreases fs.len(),
{
    if i == 0 {
        assert(fs.remove(0) =~= fs.drop_first());
    } else {
        assert(fs.remove(i).drop_first() =~= fs.drop_first().remove(i - 1));
        lemma_totals_remove(fs.drop_first(), i - 1);
    }
}

pub proof fn lemma_totals_update(fs: Seq<FlowEntry>, i: int, e: FlowEntry)
    requires
        0 <= i < fs.len(),
    ensures
        total_packets(fs.update(i, e)) == total_packets(fs) - entry_packets(fs[i]) + entry_packets(e),
        total_bytes(fs.update(i, e)) == total_bytes(fs) - fs[i].queue.bytes + e.queue.bytes,
    decreases fs.len(),
{
    if i == 0 {
        assert(fs.update(0, e).drop_first() =~= fs.drop_first());
    } else {
        assert(fs.update(i, e).drop_first() =~= fs.drop_first().update(i - 1, e));
        lemma_totals_update(fs.drop_first(), i - 1, e);
    }
}

pub proof fn lemma_totals_nonneg(fs: Seq<FlowEntry>)
    ensures
        total_packets(fs) >= 0,
        total_bytes(fs) >= 0,
    decreases fs.len(),
{
    if fs.len() > 0 {
        lemma_totals_nonneg(fs.drop_first());
    }
}

/// `new` is `old` without a prefix of stale packets.
pub open spec fn trimmed(old: Seq<QueuedPacket>, new: Seq<QueuedPacket>, now: u64) -> bool {
    let d = old.len() - new.len();
    &&& new.len() <= old.len()
    &&& new == old.skip(d)
    &&& all_stale(old.take(d), now)
}

/// Every flow lost at most a prefix of stale packets (and no flow appeared).
pub open spec fn all_trimmed(old: Seq<FlowEntry>, new: Seq<FlowEntry>, now: u64) -> bool {
    forall|k: FlowKey| trimmed(queue_of(old, k), #[trigger] queue_of(new, k), now)
}

/// Flow `f` lost a prefix of stale packets followed by `p`; every other flow
/// lost at most a prefix of stale packets.
pub open spec fn served_from(
    old: Seq<FlowEntry>,
    new: Seq<FlowEntry>,
    f: FlowKey,
    p: QueuedPacket,
    now: u64,
) -> bool {
    &&& forall|k: FlowKey|
        k != f ==> trimmed(queue_of(old, k), #[trigger] queue_of(new, k), now)
    &&& {
        let o = queue_of(old, f);
        let n = queue_of(new, f);
        let d = o.len() - n.len();
        &&& n.len() < o.len()
        &&& n == o.skip(d)
        &&& o[d - 1] == p
        &&& all_stale(o.take(d - 1), now)
    }
}

pub proof fn lemma_trimmed_refl(s: Seq<QueuedPacket>, now: u64)
    ensures
        trimmed(s, s, now),
{
    assert(s.skip(0) =~= s);
    assert(s.take(0) =~= Seq::<QueuedPacket>::empty());
}

pub proof fn lemma_trimmed_trans(a: Seq<QueuedPacket>, b: Seq<QueuedPacket>, c: Seq<QueuedPacket>, now: u64)
    requires
        trimmed(a, b, now),
        trimmed(b, c, now),
    ensures
        trimmed(a, c, now),
{
    let d1 = a.len() - b.len();
    let d2 = b.len() - c.len();
    assert(c =~= a.skip(d1 + d2));
    assert forall|j: int| 0 <= j < d1 + d2 implies #[trigger] is_stale(a.take(d1 + d2)[j], now) by {
        if j < d1 {
            assert(a.take(d1 + d2)[j] == a.take(d1)[j]);
        } else {
            assert(a.take(d1 + d2)[j] == b.take(d2)[j - d1]);
        }
    }
}

impl FlowQueue {
    /// Drop stale packets from the head; returns how many packets and bytes
    /// were dropped.
    pub fn drop_stale_heads(&mut self, now: u64) -> (r: (u64, usize))
        requires
            old(self).bytes == seq_bytes(old(self).packets@),
            old(self).packets@.len() <= PEER_PACKET_CAP,
        ensures
            trimmed(old(self).packets@, final(self).packets@, now),
            final(self).packets@.len() > 0 ==> !is_stale(final(self).packets@[0], now),
            r.0 == old(self).packets@.len() - final(self).packets@.len(),
            r.1 == old(self).bytes - final(self).bytes,
            final(self).bytes == seq_bytes(final(self).packets@),
            final(self).deficit == old(self).deficit,
            final(self).epoch_bytes == old(self).epoch_bytes,
            final(self).is_new == old(self).is_new,
            forall|j: int| 0 <= j < final(self).packets@.len() ==> #[trigger] final(self).packets@[j] == old(self).packets@[j + r.0],
    {
        let ghost orig = self.packets@;
        let mut n: u64 = 0;
        let mut dropped: usize = 0;
        proof {
            lemma_trimmed_refl(orig, now);
        }
        while self.packets.len() > 0 && now >= self.packets[0].enqueued_at && now
            - self.packets[0].enqueued_at > SOJOURN_CEILING
            invariant
                trimmed(orig, self.packets@, now),
                n == orig.len() - self.packets@.len(),
                dropped == old(self).bytes - self.bytes,
                self.bytes == seq_bytes(self.packets@),
                orig.len() <= PEER_PACKET_CAP,
                self.deficit == old(self).deficit,
                self.epoch_bytes == old(self).epoch_bytes,
                self.is_new == old(self).is_new,
                old(self).bytes == seq_bytes(orig),
                forall|j: int| 0 <= j < self.packets@.len() ==> #[trigger] self.packets@[j] == orig[j + n],
            decreases self.packets@.len(),
        {
            let ghost before = self.packets@;
            let p = self.packets.pop_front().unwrap();
            proof {
                assert(before =~= seq![p] + self.packets@);
                lemma_seq_bytes_prepend(self.packets@, p);
                lemma_seq_bytes_nonneg(self.packets@);
                assert(self.packets@ =~= before.skip(1));
                assert(trimmed(before, self.packets@, now)) by {
                    assert(before.take(1) =~= seq![p]);
                }
                lemma_trimmed_trans(orig, before, self.packets@, now);
            }
            self.bytes = self.bytes - p.len;
            dropped = dropped + p.len;
            n = n + 1;
        }
        (n, dropped)
    }
}

pub proof fn lemma_remove_entry(fs: Seq<FlowEntry>, i: int)
    requires
        keys_unique(fs),
        0 <= i < fs.len(),
    ensures
        keys_unique(fs.remove(i)),
        forall|k: FlowKey|
            #[trigger] queue_of(fs.remove(i), k) == if k == fs[i].key {
                Seq::<QueuedPacket>::empty()
            } else {
                queue_of(fs, k)
            },
        total_packets(fs.remove(i)) == total_packets(fs) - entry_packets(fs[i]),
        total_bytes(fs.remove(i)) == total_bytes(fs) - fs[i].queue.bytes,
        forall|j: int| 0 <= j < fs.remove(i).len() ==> #[trigger] fs.remove(i)[j] == if j < i {
            fs[j]
        } else {
            fs[j + 1]
        },
{
    let r = fs.remove(i);
    lemma_totals_remove(fs, i);
    assert forall|k: FlowKey|
        #[trigger] queue_of(r, k) == if k == fs[i].key {
            Seq::<QueuedPacket>::empty()
        } else {
            queue_of(fs, k)
        } by {
        if k == fs[i].key {
            assert forall|j: int| 0 <= j < r.len() implies r[j].key != k by {
                if j < i {
                    assert(r[j] == fs[j]);
                } else {
                    assert(r[j] == fs[j + 1]);
                }
            }
            lemma_queue_of_absent(r, k);
        } else if has_key(fs, k) {
            let m = choose|m: int| 0 <= m < fs.len() && #[trigger] fs[m].key == k;
            lemma_queue_of_at(fs, m);
            let mr = if m < i { m } else { m - 1 };
            assert(r[mr] == fs[m]);
            lemma_queue_of_at(r, mr);
        } else {
            assert forall|j: int| 0 <= j < r.len() implies r[j].key != k by {
                if j < i {
                    assert(r[j] == fs[j]);
                } else {
                    assert(r[j] == fs[j + 1]);
                }
            }
            lemma_queue_of_absent(r, k);
        }
    }
}

pub proof fn lemma_insert_entry(fs: Seq<FlowEntry>, i: int, e: FlowEntry)
    requires
        keys_unique(fs),
        0 <= i <= fs.len(),
        forall|j: int| 0 <= j < fs.len() ==> fs[j].key != e.key,
    ensures
        keys_unique(fs.insert(i, e)),
        forall|k: FlowKey|
            #[trigger] queue_of(fs.insert(i, e), k) == if k == e.key {
                e.queue.packets@
            } else {
                queue_of(fs, k)
            },
        total_packets(fs.insert(i, e)) == total_packets(fs) + entry_packets(e),
        total_bytes(fs.insert(i, e)) == total_bytes(fs) + e.queue.bytes,
{
    let r = fs.insert(i, e);
    assert(r.remove(i) =~= fs);
    lemma_totals_remove(r, i);
    assert(keys_unique(r)) by {
        assert forall|a: int, b: int|
            0 <= a < r.len() && 0 <= b < r.len() && a != b implies r[a].key != r[b].key by {
            if a != i && b != i {
                let fa = if a < i { a } else { a - 1 };
                let fb = if b < i { b } else { b - 1 };
                assert(r[a] == fs[fa]);
                assert(r[b] == fs[fb]);
            } else if a == i {
                let fb = if b < i { b } else { b - 1 };
                assert(r[b] == fs[fb]);
            } else {
                let fa = if a < i { a } else { a - 1 };
                assert(r[a] == fs[fa]);
            }
        }
    }
    lemma_remove_entry(r, i);
    assert forall|k: FlowKey|
        #[trigger] queue_of(r, k) == if k == e.key {
            e.queue.packets@
        } else {
            queue_of(fs, k)
        } by {
        if k == e.key {
            lemma_queue_of_at(r, i);
        } else {
            assert(queue_of(r.remove(i), k) == queue_of(r, k));
        }
    }
}

pub proof fn lemma_wf_flows_remove(fs: Seq<FlowEntry>, i: int)
    requires
        0 <= i < fs.len(),
        forall|j: int| 0 <= j < fs.len() ==> flow_wf(#[trigger] fs[j].queue),
    ensures
        forall|j: int| 0 <= j < fs.remove(i).len() ==> flow_wf(#[trigger] fs.remove(i)[j].queue),
{
    assert forall|j: int| 0 <= j < fs.remove(i).len() implies flow_wf(
        #[trigger] fs.remove(i)[j].queue,
    ) by {
        if j < i {
            assert(fs.remove(i)[j] == fs[j]);
        } else {
            assert(fs.remove(i)[j] == fs[j + 1]);
        }
    }
}

pub proof fn lemma_wf_flows_insert(fs: Seq<FlowEntry>, i: int, e: FlowEntry)
    requires
        0 <= i <= fs.len(),
        forall|j: int| 0 <= j < fs.len() ==> flow_wf(#[trigger] fs[j].queue),
        flow_wf(e.queue),
    ensures
        forall|j: int| 0 <= j < fs.insert(i, e).len() ==> flow_wf(#[trigger] fs.insert(i, e)[j].queue),
{
    assert forall|j: int| 0 <= j < fs.insert(i, e).len() implies flow_wf(
        #[trigger] fs.insert(i, e)[j].queue,
    ) by {
        if j < i {
            assert(fs.insert(i, e)[j] == fs[j]);
        } else if j > i {
            assert(fs.insert(i, e)[j] == fs[j - 1]);
        }
    }
}

/// Eviction rank of a flow at `now`: its head's age, then its backlog.
pub open spec fn rank(e: FlowEntry, now: u64) -> (int, int) {
    (age(e.queue.packets@[0], now), e.queue.bytes as int)
}

/// Lexicographic "strictly greater" on ranks.
pub open spec fn outranks(a: (int, int), b: (int, int)) -> bool {
    a.0 > b.0 || (a.0 == b.0 && a.1 > b.1)
}

/// `new` is `old` without some head packets.
pub open spec fn suffix_of(old: Seq<QueuedPacket>, new: Seq<QueuedPacket>) -> bool {
    &&& new.len() <= old.len()
    &&& new == old.skip(old.len() - new.len())
}

pub proof fn lemma_suffix_trans(a: Seq<QueuedPacket>, b: Seq<QueuedPacket>, c: Seq<QueuedPacket>)
    requires
        suffix_of(a, b),
        suffix_of(b, c),
    ensures
        suffix_of(a, c),
{
    assert(c =~= a.skip(a.len() - c.len()));
}

pub proof fn lemma_suffix_refl(a: Seq<QueuedPacket>)
    ensures
        suffix_of(a, a),
{
    assert(a.skip(0) =~= a);
}

pub proof fn lemma_suffix_drop_first(a: Seq<QueuedPacket>)
    requires
        a.len() > 0,
    ensures
        suffix_of(a, a.drop_first()),
{
    assert(a.drop_first() =~= a.skip(1));
}

/// A flow that is still sparse: new, under its epoch budget, with a young head.
pub open spec fn eligible_sparse(e: FlowEntry, now: u64) -> bool {
    &&& e.queue.is_new
    &&& e.queue.epoch_bytes < NEW_FLOW_BYTE_BUDGET
    &&& e.queue.packets@.len() > 0
    &&& age(e.queue.packets@[0], now) <= SOJOURN_TARGET
}

/// Position `i` holds the first sparse flow in round-robin order.
pub open spec fn first_sparse(fs: Seq<FlowEntry>, now: u64, i: int) -> bool {
    &&& 0 <= i < fs.len()
    &&& eligible_sparse(fs[i], now)
    &&& forall|j: int| 0 <= j < i ==> !eligible_sparse(#[trigger] fs[j], now)
}

pub proof fn lemma_trimmed_then_served(
    a: Seq<FlowEntry>,
    b: Seq<FlowEntry>,
    c: Seq<FlowEntry>,
    f: FlowKey,
    p: QueuedPacket,
    now: u64,
)
    requires
        all_trimmed(a, b, now),
        served_from(b, c, f, p, now),
    ensures
        served_from(a, c, f, p, now),
{
    assert forall|k: FlowKey| k != f implies trimmed(queue_of(a, k), #[trigger] queue_of(c, k), now) by {
        assert(trimmed(queue_of(a, k), queue_of(b, k), now));
        lemma_trimmed_trans(queue_of(a, k), queue_of(b, k), queue_of(c, k), now);
    }
    let qa = queue_of(a, f);
    let qb = queue_of(b, f);
    let qc = queue_of(c, f);
    assert(trimmed(qa, qb, now));
    let d1 = qa.len() - qb.len();
    let d2 = qb.len() - qc.len();
    assert(qc =~= qa.skip(d1 + d2));
    assert(qa[d1 + d2 - 1] == qb[d2 - 1]);
    assert forall|j: int| 0 <= j < d1 + d2 - 1 implies #[trigger] is_stale(qa.take(d1 + d2 - 1)[j], now) by {
        if j < d1 {
            assert(qa.take(d1 + d2 - 1)[j] == qa.take(d1)[j]);
        } else {
            assert(qa.take(d1 + d2 - 1)[j] == qb.take(d2 - 1)[j - d1]);
        }
    }
}

pub proof fn lemma_all_trimmed_trans(a: Seq<FlowEntry>, b: Seq<FlowEntry>, c: Seq<FlowEntry>, now: u64)
    requires
        all_trimmed(a, b, now),
        all_trimmed(b, c, now),
    ensures
        all_trimmed(a, c, now),
{
    assert forall|k: FlowKey| trimmed(queue_of(a, k), #[trigger] queue_of(c, k), now) by {
        assert(trimmed(queue_of(a, k), queue_of(b, k), now));
        assert(trimmed(queue_of(b, k), queue_of(c, k), now));
        lemma_trimmed_trans(queue_of(a, k), queue_of(b, k), queue_of(c, k), now);
    }
}

pub proof fn lemma_all_trimmed_refl(a: Seq<FlowEntry>, now: u64)
    ensures
        all_trimmed(a, a, now),
{
    assert forall|k: FlowKey| trimmed(queue_of(a, k), #[trigger] queue_of(a, k), now) by {
        lemma_trimmed_refl(queue_of(a, k), now);
    }
}

/// Position of flow `k` in round-robin order, or -1 when it has no queue.
pub open spec fn index_of(fs: Seq<FlowEntry>, k: FlowKey) -> int {
    if has_key(fs, k) {
        choose|i: int| 0 <= i < fs.len() && #[trigger] fs[i].key == k
    } else {
        -1
    }
}

pub proof fn lemma_index_of_at(fs: Seq<FlowEntry>, i: int)
    requires
        keys_unique(fs),
        0 <= i < fs.len(),
    ensures
        has_key(fs, fs[i].key),
        index_of(fs, fs[i].key) == i,
{
    let k = fs[i].key;
    assert(has_key(fs, k));
    let j = choose|j: int| 0 <= j < fs.len() && #[trigger] fs[j].key == k;
    assert(fs[j].key == k);
}

pub proof fn lemma_index_of_key(fs: Seq<FlowEntry>, k: FlowKey)
    requires
        has_key(fs, k),
    ensures
        0 <= index_of(fs, k) < fs.len(),
        fs[index_of(fs, k)].key == k,
{
}

/// Bytes the head packet of flow `k` needs beyond the flow's DRR deficit.
pub open spec fn missing(fs: Seq<FlowEntry>, k: FlowKey) -> int {
    let e = fs[index_of(fs, k)];
    e.queue.packets@[0].len - e.queue.deficit
}

/// Flow `k` is queued and its head packet is not stale at `now`.
pub open spec fn head_fresh(fs: Seq<FlowEntry>, k: FlowKey, now: u64) -> bool {
    &&& has_key(fs, k)
    &&& !is_stale(fs[index_of(fs, k)].queue.packets@[0], now)
}

/// The DRR deficit of flow `k`.
pub open spec fn deficit_of(fs: Seq<FlowEntry>, k: FlowKey) -> int {
    fs[index_of(fs, k)].queue.deficit as int
}

/// Under byte-DRR the served flow's deficit, plus the one quantum it gets
/// per round, covers the packet it is served.
pub open spec fn deficit_covers(fs: Seq<FlowEntry>, r: Option<(FlowKey, QueuedPacket)>) -> bool {
    r matches Some((f, p)) ==> has_key(fs, f) && p.len <= deficit_of(fs, f) + FLOW_QUANTUM
}

/// The dequeue result `r` serves flow `k`.
pub open spec fn serves(r: Option<(FlowKey, QueuedPacket)>, k: FlowKey) -> bool {
    r matches Some((f, _)) && f == k
}

/// Going from `old` to `new` brought flow `k` closer to being served: its
/// head needs at least a quantum less than before (and still something), or
/// it needs as much as before and moved ahead in round-robin order.
pub open spec fn closer(old: Seq<FlowEntry>, new: Seq<FlowEntry>, k: FlowKey) -> bool {
    &&& has_key(new, k)
    &&& ((0 < missing(new, k) && missing(new, k) <= missing(old, k) - FLOW_QUANTUM) || (missing(
        new,
        k,
    ) == missing(old, k) && index_of(new, k) < index_of(old, k)))
}

/// What one dequeue from `old` to `new` with result `r` at `now` promises
/// flow `k` while no flow is sparse: unless `k` was served, a fresh head
/// brought it closer to being served.
pub open spec fn drr_progress(
    old: Seq<FlowEntry>,
    new: Seq<FlowEntry>,
    r: Option<(FlowKey, QueuedPacket)>,
    k: FlowKey,
    now: u64,
) -> bool {
    (forall|i: int| 0 <= i < old.len() ==> !eligible_sparse(#[trigger] old[i], now)) ==> (head_fresh(
        old,
        k,
        now,
    ) && !serves(r, k) ==> closer(old, new, k))
}

/// A flow whose entry is untouched keeps its place relative to the front:
/// after the front entry (another flow) is taken off, it sits one place
/// earlier with the same entry.
pub proof fn lemma_pop_front_keeps(cur: Seq<FlowEntry>, k: FlowKey)
    requires
        keys_unique(cur),
        has_key(cur, k),
        cur.len() > 0,
        cur[0].key != k,
    ensures
        keys_unique(cur.drop_first()),
        has_key(cur.drop_first(), k),
        index_of(cur.drop_first(), k) == index_of(cur, k) - 1,
        cur.drop_first()[index_of(cur.drop_first(), k)] == cur[index_of(cur, k)],
{
    lemma_index_of_key(cur, k);
    let i = index_of(cur, k);
    let d = cur.drop_first();
    assert(i > 0);
    assert(d[i - 1] == cur[i]);
    assert(keys_unique(d)) by {
        assert forall|a: int, b: int| 0 <= a < d.len() && 0 <= b < d.len() && a != b implies d[a].key
            != d[b].key by {
            assert(d[a] == cur[a + 1] && d[b] == cur[b + 1]);
        }
    }
    lemma_index_of_at(d, i - 1);
}

/// Appending another flow at the back does not move a queued flow.
pub proof fn lemma_push_back_keeps(cur: Seq<FlowEntry>, e: FlowEntry, k: FlowKey)
    requires
        keys_unique(cur.push(e)),
        has_key(cur, k),
    ensures
        has_key(cur.push(e), k),
        index_of(cur.push(e), k) == index_of(cur, k),
        cur.push(e)[index_of(cur.push(e), k)] == cur[index_of(cur, k)],
{
    lemma_index_of_key(cur, k);
    let i = index_of(cur, k);
    assert(cur.push(e)[i] == cur[i]);
    lemma_index_of_at(cur.push(e), i);
}

/// One DRR visit takes the front entry off and may append an entry at the
/// back; any other queued flow keeps its entry and moves one place ahead.
pub proof fn lemma_visit_keeps(fsa: Seq<FlowEntry>, fsc: Seq<FlowEntry>, pushed: Option<FlowEntry>, k: FlowKey)
    requires
        keys_unique(fsa),
        has_key(fsa, k),
        fsa.len() > 0,
        fsa[0].key != k,
        fsc == (match pushed {
            Some(e) => fsa.drop_first().push(e),
            None => fsa.drop_first(),
        }),
        keys_unique(fsc),
    ensures
        has_key(fsc, k),
        index_of(fsc, k) == index_of(fsa, k) - 1,
        fsc[index_of(fsc, k)] == fsa[index_of(fsa, k)],
        missing(fsc, k) == missing(fsa, k),
{
    lemma_pop_front_keeps(fsa, k);
    match pushed {
        Some(e) => {
            lemma_push_back_keeps(fsa.drop_first(), e, k);
        },
        None => {},
    }
}

/// One visit of a DRR round (the `v`-th, over the original order `fs0` of
/// `n` flows): the flows still ahead keep their entries and move `v` places
/// up from their original places, and flows already rotated keep what they
/// gained.
pub proof fn lemma_round_visit(
    fs0: Seq<FlowEntry>,
    fsa: Seq<FlowEntry>,
    fsc: Seq<FlowEntry>,
    pushed: Option<FlowEntry>,
    v: int,
    n: int,
    now: u64,
)
    requires
        keys_unique(fs0),
        fs0.len() == n,
        1 <= v <= n,
        keys_unique(fsa),
        keys_unique(fsc),
        n - v + 1 <= fsa.len(),
        fsa.take(n - v + 1) == fs0.skip(v - 1),
        fsc == (match pushed {
            Some(e) => fsa.drop_first().push(e),
            None => fsa.drop_first(),
        }),
        forall|k: FlowKey|
            #[trigger] head_fresh(fs0, k, now) && index_of(fs0, k) < v - 1 ==> has_key(fsa, k) && 0
                < missing(fsa, k) && missing(fsa, k) <= missing(fs0, k) - FLOW_QUANTUM,
    ensures
        fsc.take(n - v) == fs0.skip(v),
        forall|k: FlowKey|
            #[trigger] head_fresh(fs0, k, now) && index_of(fs0, k) < v - 1 ==> has_key(fsc, k) && 0
                < missing(fsc, k) && missing(fsc, k) <= missing(fs0, k) - FLOW_QUANTUM,
        forall|k: FlowKey|
            #[trigger] head_fresh(fs0, k, now) && index_of(fs0, k) >= v ==> has_key(fsc, k)
                && index_of(fsc, k) == index_of(fs0, k) - v && missing(fsc, k) == missing(fs0, k),
{
    assert(fsa[0] == fsa.take(n - v + 1)[0]);
    assert(fsa[0] == fs0[v - 1]);
    lemma_index_of_at(fs0, v - 1);
    assert(fsc.take(n - v) =~= fs0.skip(v)) by {
        assert forall|j: int| 0 <= j < n - v implies fsc.take(n - v)[j] == fs0.skip(v)[j] by {
            assert(fsc[j] == fsa[j + 1]);
            assert(fsa[j + 1] == fsa.take(n - v + 1)[j + 1]);
        }
    }
    assert forall|k: FlowKey| #[trigger] head_fresh(fs0, k, now) && index_of(fs0, k) < v - 1 implies has_key(
        fsc,
        k,
    ) && 0 < missing(fsc, k) && missing(fsc, k) <= missing(fs0, k) - FLOW_QUANTUM by {
        lemma_index_of_key(fs0, k);
        lemma_index_of_key(fsa, k);
        if fsa[0].key == k {
            lemma_index_of_at(fs0, index_of(fs0, k));
        }
        lemma_visit_keeps(fsa, fsc, pushed, k);
    }
    assert forall|k: FlowKey| #[trigger] head_fresh(fs0, k, now) && index_of(fs0, k) >= v implies has_key(fsc, k)
        && index_of(fsc, k) == index_of(fs0, k) - v && missing(fsc, k) == missing(fs0, k) by {
        lemma_index_of_key(fs0, k);
        let i0 = index_of(fs0, k);
        assert(fsa[i0 - v + 1] == fsa.take(n - v + 1)[i0 - v + 1]);
        assert(fsa[i0 - v + 1] == fs0[i0]);
        lemma_index_of_at(fsa, i0 - v + 1);
        lemma_visit_keeps(fsa, fsc, pushed, k);
    }
}

/// The flows of a well-formed order number at most the queued packets.
pub proof fn lemma_flows_le_packets(fs: Seq<FlowEntry>)
    requires
        forall|i: int| 0 <= i < fs.len() ==> flow_wf(#[trigger] fs[i].queue),
    ensures
        fs.len() <= total_packets(fs),
    decreases fs.len(),
{
    if fs.len() > 0 {
        assert(flow_wf(fs[0].queue));
        assert forall|i: int| 0 <= i < fs.drop_first().len() implies flow_wf(
            #[trigger] fs.drop_first()[i].queue,
        ) by {
            assert(fs.drop_first()[i] == fs[i + 1]);
        }
        lemma_flows_le_packets(fs.drop_first());
    }
}

/// Per-peer flow scheduler state.
pub struct PeerState {
    /// Flow queues in round-robin order.
    pub flows: VecDeque<FlowEntry>,
    /// Bytes of packets queued or handed out and not yet confirmed sent.
    pub bytes: u64,
    /// Packets queued or handed out and not yet confirmed sent.
    pub packets: u64,
}

impl PeerState {
    /// Flow keys are distinct, every flow is well formed, the counters cover
    /// what is queued, and the peer bounds hold.
    pub open spec fn wf(&self) -> bool {
        &&& keys_unique(self.flows@)
        &&& forall|i: int| 0 <= i < self.flows@.len() ==> flow_wf(#[trigger] self.flows@[i].queue)
        &&& total_packets(self.flows@) <= self.packets <= PEER_PACKET_CAP
        &&& total_bytes(self.flows@) <= self.bytes <= PEER_BYTE_CAP
    }

    /// Packets handed out by dequeue and not yet confirmed.
    pub open spec fn in_flight_packets(&self) -> int {
        self.packets - total_packets(self.flows@)
    }

    /// Bytes handed out by dequeue and not yet confirmed.
    pub open spec fn in_flight_bytes(&self) -> int {
        self.bytes - total_bytes(self.flows@)
    }

    pub fn new() -> (s: Self)
        ensures
            s.wf(),
            s.flows@.len() == 0,
            s.bytes == 0,
            s.packets == 0,
    {
        PeerState { flows: VecDeque::new(), bytes: 0, packets: 0 }
    }

    /// Position of the flow `key`, if it has a queue.
    pub fn find(&self, key: FlowKey) -> (r: Option<usize>)
        ensures
            r matches Some(i) ==> i < self.flows@.len() && self.flows@[i as int].key == key,
            r is None ==> forall|j: int| 0 <= j < self.flows@.len() ==> self.flows@[j].key != key,
    {
        let mut i: usize = 0;
        while i < self.flows.len()
            invariant
                i <= self.flows@.len(),
                forall|j: int| 0 <= j < i ==> self.flows@[j].key != key,
            decreases self.flows@.len() - i,
        {
            if self.flows[i].key == key {
                return Some(i);
            }
            i += 1;
        }
        None
    }

    /// Drop the single stalest packet: the head of the flow whose head is
    /// oldest, ties broken by the larger backlog and then by round-robin
    /// position. Returns the flow it was taken from.
    fn evict_stalest(&mut self, now: u64) -> (r: Option<FlowKey>)
        requires
            old(self).wf(),
        ensures
            final(self).wf(),
            final(self).in_flight_packets() == old(self).in_flight_packets(),
            final(self).in_flight_bytes() == old(self).in_flight_bytes(),
            r is None ==> final(self).flows@ == old(self).flows@ && final(self).packets == old(self).packets
                && final(self).bytes == old(self).bytes,
            r is None ==> forall|j: int|
                0 <= j < old(self).flows@.len() ==> !outranks(
                    #[trigger] rank(old(self).flows@[j], now),
                    (0int, 0int),
                ),
            r matches Some(v) ==> {
                &&& has_key(old(self).flows@, v)
                &&& queue_of(final(self).flows@, v) == queue_of(old(self).flows@, v).drop_first()
                &&& forall|k: FlowKey|
                    k != v ==> #[trigger] queue_of(final(self).flows@, k) == queue_of(
                        old(self).flows@,
                        k,
                    )
                &&& final(self).packets == old(self).packets - 1
                &&& final(self).bytes == old(self).bytes - queue_of(old(self).flows@, v)[0].len
            },
    {
        let mut victim: Option<usize> = None;
        let mut best_age: u64 = 0;
        let mut best_bytes: usize = 0;
        let mut i: usize = 0;
        while i < self.flows.len()
            invariant
                self.wf(),
                i <= self.flows@.len(),
                victim matches Some(v) ==> v < i && rank(self.flows@[v as int], now) == (
                    best_age as int,
                    best_bytes as int,
                ) && outranks((best_age as int, best_bytes as int), (0int, 0int)),
                victim is None ==> best_age == 0 && best_bytes == 0,
                forall|j: int|
                    0 <= j < i ==> !outranks(
                        #[trigger] rank(self.flows@[j], now),
                        (best_age as int, best_bytes as int),
                    ),
            decreases self.flows@.len() - i,
        {
            proof {
                assert(flow_wf(self.flows@[i as int].queue));
            }
            let head_at = self.flows[i].queue.packets[0].enqueued_at;
            let age: u64 = if now >= head_at { now - head_at } else { 0 };
            let backlog = self.flows[i].queue.bytes;
            if age > best_age || (age == best_age && backlog > best_bytes) {
                best_age = age;
                best_bytes = backlog;
                victim = Some(i);
            }
            i += 1;
        }
        match victim {
            None => None,
            Some(vi) => {
                let ghost fs0 = self.flows@;
                proof {
                    assert(flow_wf(fs0[vi as int].queue));
                    lemma_queue_of_at(fs0, vi as int);
                    lemma_remove_entry(fs0, vi as int);
                    lemma_wf_flows_remove(fs0, vi as int);
                    lemma_totals_nonneg(fs0.remove(vi as int));
                }
                let mut entry = self.flows.remove(vi).unwrap();
                let key = entry.key;
                let old_head = entry.queue.packets.pop_front().unwrap();
                proof {
                    assert(fs0[vi as int].queue.packets@ =~= seq![old_head]
                        + entry.queue.packets@);
                    lemma_seq_bytes_prepend(entry.queue.packets@, old_head);
                    lemma_seq_bytes_nonneg(entry.queue.packets@);
                }
                entry.queue.bytes = entry.queue.bytes - old_head.len;
                self.packets = self.packets - 1;
                self.bytes = self.bytes - old_head.len as u64;
                if entry.queue.packets.len() > 0 {
                    let ghost fs1 = self.flows@;
                    proof {
                        assert forall|j: int| 0 <= j < fs1.len() implies fs1[j].key != key by {
                            if j < vi {
                                assert(fs1[j] == fs0[j]);
                            } else {
                                assert(fs1[j] == fs0[j + 1]);
                            }
                        }
                        assert(flow_wf(entry.queue)) by {
                            assert forall|j: int| 0 <= j < entry.queue.packets@.len() implies (
                            #[trigger] entry.queue.packets@[j]).len <= PEER_BYTE_CAP by {
                                assert(entry.queue.packets@[j] == fs0[vi as int].queue.packets@[j
                                    + 1]);
                            }
                        }
                        lemma_insert_entry(fs1, vi as int, entry);
                        lemma_wf_flows_insert(fs1, vi as int, entry);
                    }
                    self.flows.insert(vi, entry);
                } else {
                    proof {
                        assert(entry.queue.packets@ =~= queue_of(fs0, key).drop_first());
                    }
                }
                Some(key)
            },
        }
    }

    /// Apply the peer packet and byte caps before queueing a packet of `len`
    /// bytes, evicting the stalest packet once per exceeded cap.
    fn make_room(&mut self, len: usize, now: u64) -> (r: Option<DropReason>)
        requires
            old(self).wf(),
        ensures
            final(self).wf(),
            final(self).in_flight_packets() == old(self).in_flight_packets(),
            final(self).in_flight_bytes() == old(self).in_flight_bytes(),
            forall|k: FlowKey|
                suffix_of(queue_of(old(self).flows@, k), #[trigger] queue_of(final(self).flows@, k))
                    && queue_of(old(self).flows@, k).len() - queue_of(final(self).flows@, k).len() <= 2,
            r is None ==> final(self).packets < PEER_PACKET_CAP && final(self).bytes + len <= PEER_BYTE_CAP,
            old(self).packets < PEER_PACKET_CAP && old(self).bytes + len <= PEER_BYTE_CAP ==> r is None
                && final(self).flows@ == old(self).flows@ && final(self).packets == old(self).packets
                && final(self).bytes == old(self).bytes,
            r == Some(DropReason::PeerPacketCap) ==> old(self).packets == PEER_PACKET_CAP,
            r == Some(DropReason::PeerByteCap) ==> old(self).bytes + len > PEER_BYTE_CAP,
            r is Some ==> r == Some(DropReason::PeerPacketCap) || r == Some(DropReason::PeerByteCap),
    {
        let ghost fs0 = self.flows@;
        proof {
            assert forall|k: FlowKey|
                suffix_of(queue_of(fs0, k), #[trigger] queue_of(self.flows@, k)) && queue_of(fs0, k).len()
                    - queue_of(self.flows@, k).len() <= 0 by {
                lemma_suffix_refl(queue_of(fs0, k));
            }
        }
        let ghost mut evicted: int = 0;
        if self.packets >= PEER_PACKET_CAP as u64 {
            let ghost fs1 = self.flows@;
            let v = self.evict_stalest(now);
            proof {
                evicted = evicted + 1;
                assert forall|k: FlowKey|
                    suffix_of(queue_of(fs0, k), #[trigger] queue_of(self.flows@, k)) && queue_of(fs0, k).len()
                        - queue_of(self.flows@, k).len() <= evicted by {
                    if v == Some(k) {
                        lemma_suffix_drop_first(queue_of(fs1, k));
                        lemma_suffix_trans(queue_of(fs0, k), queue_of(fs1, k), queue_of(self.flows@, k));
                    }
                }
            }
            if self.packets >= PEER_PACKET_CAP as u64 {
                return Some(DropReason::PeerPacketCap);
            }
        }
        if len as u64 > PEER_BYTE_CAP as u64 - self.bytes {
            let ghost fs1 = self.flows@;
            let v = self.evict_stalest(now);
            proof {
                evicted = evicted + 1;
                assert forall|k: FlowKey|
                    suffix_of(queue_of(fs0, k), #[trigger] queue_of(self.flows@, k)) && queue_of(fs0, k).len()
                        - queue_of(self.flows@, k).len() <= evicted by {
                    if v == Some(k) {
                        lemma_suffix_drop_first(queue_of(fs1, k));
                        lemma_suffix_trans(queue_of(fs0, k), queue_of(fs1, k), queue_of(self.flows@, k));
                    }
                }
            }
            if len as u64 > PEER_BYTE_CAP as u64 - self.bytes {
                return Some(DropReason::PeerByteCap);
            }
        }
        None
    }

    /// Append a packet to its flow (creating the flow at the back of the
    /// round-robin order), shedding the flow's own head at the flow cap.
    #[verifier::rlimit(40)]
    fn append_to_flow(&mut self, flow: FlowKey, pkt: QueuedPacket) -> (r: Option<DropReason>)
        requires
            old(self).wf(),
            old(self).packets < PEER_PACKET_CAP,
            old(self).bytes + pkt.len <= PEER_BYTE_CAP,
        ensures
            final(self).wf(),
            final(self).in_flight_packets() == old(self).in_flight_packets(),
            final(self).in_flight_bytes() == old(self).in_flight_bytes(),
            forall|k: FlowKey|
                k != flow ==> #[trigger] queue_of(final(self).flows@, k) == queue_of(old(self).flows@, k),
            r is None ==> {
                let o = queue_of(old(self).flows@, flow);
                let n = queue_of(final(self).flows@, flow);
                &&& n.len() >= 1
                &&& n.last() == pkt
                &&& suffix_of(o, n.drop_last())
                &&& o.len() - n.drop_last().len() <= 1
            },
            r is Some ==> r == Some(DropReason::FlowCap) && queue_of(old(self).flows@, flow).len()
                > FLOW_PACKET_CAP && queue_of(final(self).flows@, flow) == queue_of(
                old(self).flows@,
                flow,
            ).drop_first(),
            queue_of(old(self).flows@, flow).len() < FLOW_PACKET_CAP ==> r is None && queue_of(
                final(self).flows@,
                flow,
            ) == queue_of(old(self).flows@, flow).push(pkt) && final(self).packets == old(self).packets
                + 1 && final(self).bytes == old(self).bytes + pkt.len,
            r is None ==> queue_of(final(self).flows@, flow).len() <= FLOW_PACKET_CAP,
    {
        let ghost fs2 = self.flows@;
        let len = pkt.len;
        match self.find(flow) {
            Some(i) => {
                proof {
                    assert(flow_wf(fs2[i as int].queue));
                    lemma_queue_of_at(fs2, i as int);
                    lemma_remove_entry(fs2, i as int);
                    lemma_wf_flows_remove(fs2, i as int);
                    lemma_totals_nonneg(fs2.remove(i as int));
                }
                let mut entry = self.flows.remove(i).unwrap();
                let ghost q0 = entry.queue.packets@;
                let ghost fs3 = self.flows@;
                proof {
                    lemma_suffix_refl(q0);
                    assert forall|j: int| 0 <= j < fs3.len() implies fs3[j].key != flow by {
                        if j < i {
                            assert(fs3[j] == fs2[j]);
                        } else {
                            assert(fs3[j] == fs2[j + 1]);
                        }
                    }
                }
                if entry.queue.packets.len() >= FLOW_PACKET_CAP {
                    let head = entry.queue.packets.pop_front().unwrap();
                    proof {
                        assert(q0 =~= seq![head] + entry.queue.packets@);
                        lemma_seq_bytes_prepend(entry.queue.packets@, head);
                        lemma_seq_bytes_nonneg(entry.queue.packets@);
                        assert(entry.queue.packets@ =~= q0.drop_first());
                        assert forall|j: int| 0 <= j < entry.queue.packets@.len() implies (
                        #[trigger] entry.queue.packets@[j]).len <= PEER_BYTE_CAP by {
                            assert(entry.queue.packets@[j] == q0[j + 1]);
                        }
                    }
                    entry.queue.bytes = entry.queue.bytes - head.len;
                    self.packets = self.packets - 1;
                    self.bytes = self.bytes - head.len as u64;
                    if entry.queue.packets.len() >= FLOW_PACKET_CAP {
                        proof {
                            lemma_insert_entry(fs3, i as int, entry);
                            lemma_wf_flows_insert(fs3, i as int, entry);
                        }
                        self.flows.insert(i, entry);
                        return Some(DropReason::FlowCap);
                    }
                }
                let ghost q1 = entry.queue.packets@;
                proof {
                    assert(q1.len() < FLOW_PACKET_CAP);
                    assert(forall|j: int| 0 <= j < q1.len() ==> (#[trigger] q1[j]).len <= PEER_BYTE_CAP);
                    assert(q1 == q0 || q1 == q0.drop_first());
                    if q1 != q0 {
                        lemma_suffix_drop_first(q0);
                    }
                }
                entry.queue.packets.push_back(pkt);
                proof {
                    lemma_seq_bytes_push(q1, pkt);
                    lemma_seq_bytes_nonneg(q1);
                    lemma_totals_nonneg(fs3);
                }
                entry.queue.bytes = entry.queue.bytes + len;
                proof {
                    assert(flow_wf(entry.queue)) by {
                        assert forall|j: int| 0 <= j < entry.queue.packets@.len() implies (
                        #[trigger] entry.queue.packets@[j]).len <= PEER_BYTE_CAP by {
                            if j < q1.len() {
                                assert(entry.queue.packets@[j] == q1[j]);
                            }
                        }
                    }
                    lemma_insert_entry(fs3, i as int, entry);
                    lemma_wf_flows_insert(fs3, i as int, entry);
                    assert(entry.queue.packets@.drop_last() =~= q1);
                }
                self.flows.insert(i, entry);
            },
            None => {
                let mut packets = VecDeque::new();
                packets.push_back(pkt);
                let entry = FlowEntry {
                    key: flow,
                    queue: FlowQueue { packets, bytes: len, deficit: 0, epoch_bytes: 0, is_new: true },
                };
                proof {
                    assert(entry.queue.packets@ =~= seq![pkt] + Seq::<QueuedPacket>::empty());
                    lemma_seq_bytes_prepend(Seq::<QueuedPacket>::empty(), pkt);
                    lemma_insert_entry(fs2, fs2.len() as int, entry);
                    lemma_wf_flows_insert(fs2, fs2.len() as int, entry);
                    assert(fs2.insert(fs2.len() as int, entry) =~= fs2.push(entry));
                    lemma_queue_of_absent(fs2, flow);
                    assert(entry.queue.packets@.drop_last() =~= Seq::<QueuedPacket>::empty());
                    assert(queue_of(fs2, flow).push(pkt) =~= entry.queue.packets@);
                    lemma_suffix_refl(Seq::<QueuedPacket>::empty());
                    lemma_totals_nonneg(fs2);
                }
                self.flows.push_back(entry);
            },
        }
        self.packets = self.packets + 1;
        self.bytes = self.bytes + len as u64;
        None
    }

    /// Bounded enqueue with AQM; on success the packet is counted. Returns
    /// `Some(reason)` when the packet is dropped.
    pub fn enqueue(&mut self, flow: FlowKey, pkt: QueuedPacket, now: u64) -> (r: Option<DropReason>)
        requires
            old(self).wf(),
        ensures
            final(self).wf(),
            enqueue_keeps_bounds(*old(self), *final(self)),
            final(self).in_flight_packets() == old(self).in_flight_packets(),
            final(self).in_flight_bytes() == old(self).in_flight_bytes(),
            forall|k: FlowKey|
                k != flow ==> suffix_of(queue_of(old(self).flows@, k), #[trigger] queue_of(final(self).flows@, k))
                    && queue_of(old(self).flows@, k).len() - queue_of(final(self).flows@, k).len()
                    <= 2,
            r is None ==> {
                let o = queue_of(old(self).flows@, flow);
                let n = queue_of(final(self).flows@, flow);
                &&& n.len() >= 1
                &&& n.last() == pkt
                &&& suffix_of(o, n.drop_last())
                &&& o.len() - n.drop_last().len() <= 3
            },
            r is Some ==> suffix_of(queue_of(old(self).flows@, flow), queue_of(final(self).flows@, flow)),
            old(self).packets < PEER_PACKET_CAP && old(self).bytes + pkt.len <= PEER_BYTE_CAP
                && queue_of(old(self).flows@, flow).len() < FLOW_PACKET_CAP ==> {
                &&& r is None
                &&& queue_of(final(self).flows@, flow) == queue_of(old(self).flows@, flow).push(pkt)
                &&& forall|k: FlowKey|
                    k != flow ==> #[trigger] queue_of(final(self).flows@, k) == queue_of(
                        old(self).flows@,
                        k,
                    )
                &&& final(self).packets == old(self).packets + 1
                &&& final(self).bytes == old(self).bytes + pkt.len
            },
            r == Some(DropReason::PeerPacketCap) ==> old(self).packets == PEER_PACKET_CAP,
            r == Some(DropReason::PeerByteCap) ==> old(self).bytes + pkt.len > PEER_BYTE_CAP,
            r == Some(DropReason::FlowCap) ==> queue_of(old(self).flows@, flow).len() > FLOW_PACKET_CAP,
            r is Some ==> r == Some(DropReason::PeerPacketCap) || r == Some(DropReason::PeerByteCap)
                || r == Some(DropReason::FlowCap),
            queue_of(old(self).flows@, flow).len() <= FLOW_PACKET_CAP ==> queue_of(
                final(self).flows@,
                flow,
            ).len() <= FLOW_PACKET_CAP,
            queue_of(final(self).flows@, flow).len() <= FLOW_PACKET_CAP || queue_of(
                final(self).flows@,
                flow,
            ).len() <= queue_of(old(self).flows@, flow).len(),
    {
        let ghost fs0 = self.flows@;
        let room = self.make_room(pkt.len, now);
        if room.is_some() {
            return room;
        }
        let ghost fs1 = self.flows@;
        let r = self.append_to_flow(flow, pkt);
        proof {
            let o = queue_of(fs0, flow);
            let m = queue_of(fs1, flow);
            let n = queue_of(self.flows@, flow);
            if r is None {
                lemma_suffix_trans(o, m, n.drop_last());
            } else {
                lemma_suffix_drop_first(m);
                lemma_suffix_trans(o, m, n);
            }
        }
        proof {
            let o = old(self).flows@;
            let f = self.flows@;
            assert forall|k: FlowKey| #[trigger] queue_of(o, k).len() <= FLOW_PACKET_CAP implies queue_of(f, k).len()
                <= FLOW_PACKET_CAP by {
                if k != flow {
                    assert(suffix_of(queue_of(o, k), queue_of(f, k)));
                }
            }
        }
        r
    }

    /// Byte-DRR round over the flows in round-robin order, dropping stale
    /// heads of each visited flow. Each flow is visited at most once.
    #[verifier::rlimit(40)]
    fn dequeue_next_inner(&mut self, now: u64) -> (r: Option<(FlowKey, QueuedPacket)>)
        requires
            old(self).wf(),
        ensures
            final(self).wf(),
            r matches Some((f, p)) ==> served_from(old(self).flows@, final(self).flows@, f, p, now)
                && final(self).in_flight_packets() == old(self).in_flight_packets() + 1
                && final(self).in_flight_bytes() == old(self).in_flight_bytes() + p.len,
            r is None ==> all_trimmed(old(self).flows@, final(self).flows@, now)
                && final(self).in_flight_packets() == old(self).in_flight_packets()
                && final(self).in_flight_bytes() == old(self).in_flight_bytes(),
            r is None ==> forall|j: int|
                0 <= j < final(self).flows@.len() ==> (#[trigger] final(self).flows@[j]).queue.packets@[0].len
                    > final(self).flows@[j].queue.deficit,
            forall|k: FlowKey|
                #[trigger] head_fresh(old(self).flows@, k, now) && !serves(r, k) ==> closer(
                    old(self).flows@,
                    final(self).flows@,
                    k,
                ),
            deficit_covers(old(self).flows@, r),
    {
        let ghost fs0 = self.flows@;
        let ghost ifp = self.in_flight_packets();
        let ghost ifb = self.in_flight_bytes();
        let n = self.flows.len();
        let mut visits: usize = 0;
        proof {
            lemma_all_trimmed_refl(fs0, now);
        }
        while visits < n && self.flows.len() > 0
            invariant
                self.wf(),
                visits <= n,
                n - visits <= self.flows@.len(),
                forall|j: int|
                    n - visits <= j < self.flows@.len() ==> (#[trigger] self.flows@[j]).queue.packets@[0].len
                        > self.flows@[j].queue.deficit,
                all_trimmed(fs0, self.flows@, now),
                self.in_flight_packets() == ifp,
                self.in_flight_bytes() == ifb,
                fs0 == old(self).flows@,
                ifp == old(self).in_flight_packets(),
                ifb == old(self).in_flight_bytes(),
                fs0.len() == n,
                keys_unique(fs0),
                self.flows@.take(n - visits) == fs0.skip(visits as int),
                forall|k: FlowKey|
                    #[trigger] head_fresh(fs0, k, now) && index_of(fs0, k) < visits ==> has_key(
                        self.flows@,
                        k,
                    ) && 0 < missing(self.flows@, k) && missing(self.flows@, k) <= missing(fs0, k)
                        - FLOW_QUANTUM,
            decreases n - visits,
        {
            visits += 1;
            let ghost fsa = self.flows@;
            proof {
                assert(fsa.take(n - visits + 1) == fs0.skip(visits - 1));
                assert(fsa[0] == fsa.take(n - visits + 1)[0]);
                assert(fsa[0] == fs0[visits - 1]);
                lemma_index_of_at(fs0, visits - 1);
            }
            proof {
                assert(flow_wf(fsa[0].queue));
                lemma_queue_of_at(fsa, 0);
                lemma_remove_entry(fsa, 0);
                lemma_wf_flows_remove(fsa, 0);
                lemma_totals_nonneg(fsa.remove(0));
                assert(fsa.remove(0) =~= fsa.drop_first());
            }
            let mut entry = self.flows.pop_front().unwrap();
            let ghost fsb = self.flows@;
            let ghost q0 = entry.queue.packets@;
            let key = entry.key;
            proof {
                assert(fsb =~= fsa.remove(0));
                assert forall|j: int| 0 <= j < fsb.len() implies fsb[j].key != key by {
                    assert(fsb[j] == fsa[j + 1]);
                }
            }
            let (dropped, dbytes) = entry.queue.drop_stale_heads(now);
            self.packets = self.packets - dropped;
            self.bytes = self.bytes - dbytes as u64;
            let ghost q1 = entry.queue.packets@;
            proof {
                assert(fsa[0].queue.packets@ == q0);
                if head_fresh(fs0, key, now) {
                    assert(!is_stale(q0[0], now));
                    if dropped > 0 {
                        assert(q0.take(dropped as int)[0] == q0[0]);
                    }
                    assert(dropped == 0);
                    assert(q1 =~= q0);
                }
                lemma_seq_bytes_nonneg(q1);
                assert forall|j: int| 0 <= j < q1.len() implies (#[trigger] q1[j]).len <= PEER_BYTE_CAP by {
                    assert(q1[j] == q0[j + dropped]);
                }
            }
            if entry.queue.packets.len() == 0 {
                proof {
                    assert forall|k: FlowKey| trimmed(queue_of(fsa, k), #[trigger] queue_of(fsb, k), now) by {
                        if k == key {
                            assert(q1 =~= Seq::<QueuedPacket>::empty());
                        } else {
                            lemma_trimmed_refl(queue_of(fsa, k), now);
                        }
                    }
                    lemma_all_trimmed_trans(fs0, fsa, fsb, now);
                    assert forall|j: int|
                        n - visits <= j < fsb.len() implies (#[trigger] fsb[j]).queue.packets@[0].len
                            > fsb[j].queue.deficit by {
                        assert(fsb[j] == fsa[j + 1]);
                    }
                    lemma_round_visit(fs0, fsa, fsb, None, visits as int, n as int, now);
                    assert forall|k: FlowKey|
                        #[trigger] head_fresh(fs0, k, now) && index_of(fs0, k) < visits implies has_key(fsb, k)
                            && 0 < missing(fsb, k) && missing(fsb, k) <= missing(fs0, k) - FLOW_QUANTUM by {
                        lemma_index_of_key(fs0, k);
                    }
                }
                continue;
            }
            entry.queue.deficit = entry.queue.deficit.saturating_add(FLOW_QUANTUM);
            let head_len = entry.queue.packets[0].len;
            if head_len > entry.queue.deficit {
                proof {
                    lemma_insert_entry(fsb, fsb.len() as int, entry);
                    lemma_wf_flows_insert(fsb, fsb.len() as int, entry);
                    assert(fsb.insert(fsb.len() as int, entry) =~= fsb.push(entry));
                    let fsc = fsb.push(entry);
                    assert forall|k: FlowKey| trimmed(queue_of(fsa, k), #[trigger] queue_of(fsc, k), now) by {
                        if k != key {
                            lemma_trimmed_refl(queue_of(fsa, k), now);
                        }
                    }
                    lemma_all_trimmed_trans(fs0, fsa, fsc, now);
                    assert forall|j: int|
                        n - visits <= j < fsc.len() implies (#[trigger] fsc[j]).queue.packets@[0].len
                            > fsc[j].queue.deficit by {
                        if j < fsb.len() {
                            assert(fsc[j] == fsa[j + 1]);
                        }
                    }
                    lemma_round_visit(fs0, fsa, fsc, Some(entry), visits as int, n as int, now);
                    lemma_index_of_at(fsc, fsb.len() as int);
                    assert forall|k: FlowKey|
                        #[trigger] head_fresh(fs0, k, now) && index_of(fs0, k) < visits implies has_key(fsc, k)
                            && 0 < missing(fsc, k) && missing(fsc, k) <= missing(fs0, k) - FLOW_QUANTUM by {
                        lemma_index_of_key(fs0, k);
                        if index_of(fs0, k) == visits - 1 {
                            assert(k == key);
                            assert(q1[0].len <= PEER_BYTE_CAP);
                        }
                    }
                }
                self.flows.push_back(entry);
                continue;
            }
            let pkt = entry.queue.packets.pop_front().unwrap();
            proof {
                lemma_index_of_at(fs0, visits - 1);
                assert(pkt.len <= deficit_of(fs0, key) + FLOW_QUANTUM);
                assert(q1 =~= seq![pkt] + entry.queue.packets@);
                lemma_seq_bytes_prepend(entry.queue.packets@, pkt);
                lemma_seq_bytes_nonneg(entry.queue.packets@);
            }
            entry.queue.bytes = entry.queue.bytes - pkt.len;
            entry.queue.deficit = entry.queue.deficit - pkt.len;
            entry.queue.epoch_bytes = entry.queue.epoch_bytes.saturating_add(pkt.len);
            if entry.queue.epoch_bytes >= NEW_FLOW_BYTE_BUDGET {
                entry.queue.is_new = false;
            }
            let ghost q2 = entry.queue.packets@;
            proof {
                assert(q2 =~= q0.skip(dropped + 1));
                assert(q0[dropped as int] == pkt);
                assert(q0.take(dropped as int) =~= q0.take(q0.len() - q1.len()));
            }
            if entry.queue.packets.len() == 0 {
                entry.queue.deficit = 0;
                proof {
                    assert(q0.skip(q0.len() as int) =~= Seq::<QueuedPacket>::empty());
                    assert(served_from(fsa, fsb, key, pkt, now)) by {
                        assert forall|k: FlowKey| k != key implies trimmed(queue_of(fsa, k), #[trigger] queue_of(fsb, k), now) by {
                            lemma_trimmed_refl(queue_of(fsa, k), now);
                        }
                        lemma_queue_of_absent(fsb, key);
                    }
                    lemma_trimmed_then_served(fs0, fsa, fsb, key, pkt, now);
                    lemma_round_visit(fs0, fsa, fsb, None, visits as int, n as int, now);
                    assert forall|k: FlowKey|
                        #[trigger] head_fresh(fs0, k, now) && !serves(Some((key, pkt)), k) implies closer(
                            fs0,
                            fsb,
                            k,
                        ) by {
                        lemma_index_of_key(fs0, k);
                    }
                }
                return Some((key, pkt));
            }
            proof {
                assert forall|j: int| 0 <= j < q2.len() implies (#[trigger] q2[j]).len <= PEER_BYTE_CAP by {
                    assert(q2[j] == q1[j + 1]);
                }
                lemma_insert_entry(fsb, fsb.len() as int, entry);
                lemma_wf_flows_insert(fsb, fsb.len() as int, entry);
                assert(fsb.insert(fsb.len() as int, entry) =~= fsb.push(entry));
                let fsc = fsb.push(entry);
                assert(queue_of(fsc, key) == q2);
                assert(queue_of(fsa, key) == q0);
                assert(q0.len() - q2.len() == dropped + 1);
                assert(served_from(fsa, fsc, key, pkt, now)) by {
                    assert forall|k: FlowKey| k != key implies trimmed(queue_of(fsa, k), #[trigger] queue_of(fsc, k), now) by {
                        lemma_trimmed_refl(queue_of(fsa, k), now);
                    }
                }
                lemma_trimmed_then_served(fs0, fsa, fsc, key, pkt, now);
                lemma_round_visit(fs0, fsa, fsc, Some(entry), visits as int, n as int, now);
                assert forall|k: FlowKey|
                    #[trigger] head_fresh(fs0, k, now) && !serves(Some((key, pkt)), k) implies closer(
                        fs0,
                        fsc,
                        k,
                    ) by {
                    lemma_index_of_key(fs0, k);
                }
            }
            self.flows.push_back(entry);
            assert(self.flows@ == fsb.push(entry));
            return Some((key, pkt));
        }
        proof {
            assert(visits == n);
            assert forall|k: FlowKey|
                #[trigger] head_fresh(fs0, k, now) && !serves(None, k) implies closer(fs0, self.flows@, k) by {
                lemma_index_of_key(fs0, k);
            }
        }
        None
    }


    /// Pick the next packet: the first sparse (new, young) flow in
    /// round-robin order jumps the queue; otherwise byte-DRR over the flows.
    /// Stale heads of visited flows are dropped (AQM). The served packet stays
    /// counted until `complete_send`.
    #[verifier::rlimit(40)]
    pub fn dequeue_next(&mut self, now: u64) -> (r: Option<(FlowKey, QueuedPacket)>)
        requires
            old(self).wf(),
        ensures
            final(self).wf(),
            r matches Some((f, p)) ==> served_from(old(self).flows@, final(self).flows@, f, p, now)
                && final(self).in_flight_packets() == old(self).in_flight_packets() + 1
                && final(self).in_flight_bytes() == old(self).in_flight_bytes() + p.len,
            r is None ==> all_trimmed(old(self).flows@, final(self).flows@, now)
                && final(self).in_flight_packets() == old(self).in_flight_packets()
                && final(self).in_flight_bytes() == old(self).in_flight_bytes(),
            r is None ==> forall|j: int|
                0 <= j < final(self).flows@.len() ==> (#[trigger] final(self).flows@[j]).queue.packets@[0].len
                    > final(self).flows@[j].queue.deficit,
            forall|i: int|
                #![trigger first_sparse(old(self).flows@, now, i)]
                first_sparse(old(self).flows@, now, i) ==> {
                    let key = old(self).flows@[i].key;
                    &&& r == Some((key, old(self).flows@[i].queue.packets@[0]))
                    &&& queue_of(final(self).flows@, key) == queue_of(old(self).flows@, key).drop_first()
                    &&& forall|k: FlowKey|
                        k != key ==> #[trigger] queue_of(final(self).flows@, k) == queue_of(
                            old(self).flows@,
                            k,
                        )
                },
            (forall|i: int|
                0 <= i < old(self).flows@.len() ==> !eligible_sparse(#[trigger] old(self).flows@[i], now))
                ==> forall|k: FlowKey|
                #[trigger] head_fresh(old(self).flows@, k, now) && !serves(r, k) ==> closer(
                    old(self).flows@,
                    final(self).flows@,
                    k,
                ),
            forall|k: FlowKey| #[trigger] drr_progress(old(self).flows@, final(self).flows@, r, k, now),
            (forall|i: int|
                0 <= i < old(self).flows@.len() ==> !eligible_sparse(#[trigger] old(self).flows@[i], now))
                ==> deficit_covers(old(self).flows@, r),
    {
        let ghost fs0 = self.flows@;
        let mut sparse_idx: Option<usize> = None;
        let mut i: usize = 0;
        while i < self.flows.len()
            invariant_except_break
                self.wf(),
                self.flows@ == fs0,
                i <= fs0.len(),
                forall|j: int| 0 <= j < i ==> !eligible_sparse(#[trigger] fs0[j], now),
                sparse_idx is None,
            ensures
                self.wf(),
                self.flows@ == fs0,
                sparse_idx matches Some(si) ==> first_sparse(fs0, now, si as int),
                sparse_idx is None ==> forall|j: int| 0 <= j < fs0.len() ==> !eligible_sparse(#[trigger] fs0[j], now),
            decreases fs0.len() - i,
        {
            proof {
                assert(flow_wf(fs0[i as int].queue));
            }
            let head_at = self.flows[i].queue.packets[0].enqueued_at;
            let age: u64 = if now >= head_at { now - head_at } else { 0 };
            let q = &self.flows[i].queue;
            if q.is_new && q.epoch_bytes < NEW_FLOW_BYTE_BUDGET && age <= SOJOURN_TARGET
                && q.packets.len() > 0 {
                sparse_idx = Some(i);
                break;
            }
            i += 1;
        }
        proof {
            if sparse_idx is None {
                assert forall|k: int| !first_sparse(fs0, now, k) by {
                    if first_sparse(fs0, now, k) {
                        assert(!eligible_sparse(fs0[k], now));
                    }
                }
            }
        }
        match sparse_idx {
            None => self.dequeue_next_inner(now),
            Some(si) => {
                proof {
                    assert(flow_wf(fs0[si as int].queue));
                    lemma_queue_of_at(fs0, si as int);
                    lemma_remove_entry(fs0, si as int);
                    lemma_wf_flows_remove(fs0, si as int);
                    lemma_totals_nonneg(fs0.remove(si as int));
                    assert forall|k: int| first_sparse(fs0, now, k) implies k == si by {
                        if k < si {
                            assert(!eligible_sparse(fs0[k], now));
                        } else if k > si {
                            assert(!eligible_sparse(fs0[si as int], now));
                        }
                    }
                }
                let mut entry = self.flows.remove(si).unwrap();
                let key = entry.key;
                let ghost fsb = self.flows@;
                let ghost q0 = entry.queue.packets@;
                proof {
                    assert forall|j: int| 0 <= j < fsb.len() implies fsb[j].key != key by {
                        if j < si {
                            assert(fsb[j] == fs0[j]);
                        } else {
                            assert(fsb[j] == fs0[j + 1]);
                        }
                    }
                }
                let (dropped, dbytes) = entry.queue.drop_stale_heads(now);
                proof {
                    if dropped > 0 {
                        assert(q0.take(dropped as int)[0] == q0[0]);
                        assert(is_stale(q0.take(dropped as int)[0], now));
                    }
                    assert(entry.queue.packets@ =~= q0);
                }
                self.packets = self.packets - dropped;
                self.bytes = self.bytes - dbytes as u64;
                let pkt = entry.queue.packets.pop_front().unwrap();
                proof {
                    assert(q0 =~= seq![pkt] + entry.queue.packets@);
                    lemma_seq_bytes_prepend(entry.queue.packets@, pkt);
                    lemma_seq_bytes_nonneg(entry.queue.packets@);
                }
                entry.queue.bytes = entry.queue.bytes - pkt.len;
                entry.queue.epoch_bytes = entry.queue.epoch_bytes.saturating_add(pkt.len);
                let promote = entry.queue.epoch_bytes >= NEW_FLOW_BYTE_BUDGET;
                if promote {
                    entry.queue.is_new = false;
                }
                let ghost q2 = entry.queue.packets@;
                proof {
                    assert(q2 =~= q0.drop_first());
                    assert(q2 =~= q0.skip(1));
                    assert(q0.take(0) =~= Seq::<QueuedPacket>::empty());
                    assert forall|j: int| 0 <= j < q2.len() implies (#[trigger] q2[j]).len <= PEER_BYTE_CAP by {
                        assert(q2[j] == q0[j + 1]);
                    }
                }
                if entry.queue.packets.len() == 0 {
                    proof {
                        lemma_queue_of_absent(fsb, key);
                        assert(q0.skip(1) =~= Seq::<QueuedPacket>::empty());
                        assert(served_from(fs0, fsb, key, pkt, now)) by {
                            assert forall|k: FlowKey| k != key implies trimmed(queue_of(fs0, k), #[trigger] queue_of(fsb, k), now) by {
                                lemma_trimmed_refl(queue_of(fs0, k), now);
                            }
                        }
                    }
                    return Some((key, pkt));
                }
                let ghost at: int = if promote { fsb.len() as int } else { 0 };
                proof {
                    lemma_insert_entry(fsb, at, entry);
                    lemma_wf_flows_insert(fsb, at, entry);
                    let fsc = fsb.insert(at, entry);
                    assert(served_from(fs0, fsc, key, pkt, now)) by {
                        assert forall|k: FlowKey| k != key implies trimmed(queue_of(fs0, k), #[trigger] queue_of(fsc, k), now) by {
                            lemma_trimmed_refl(queue_of(fs0, k), now);
                        }
                    }
                }
                if promote {
                    self.flows.push_back(entry);
                    proof {
                        assert(self.flows@ =~= fsb.insert(at, entry));
                    }
                } else {
                    self.flows.push_front(entry);
                    proof {
                        assert(self.flows@ =~= fsb.insert(at, entry));
                    }
                }
                Some((key, pkt))
            },
        }
    }

    /// Put a packet back at the head of its flow (transport full or no
    /// connection); a flow that had drained is recreated at the front of the
    /// round-robin order. The packet must be one handed out by dequeue.
    pub fn requeue_head(&mut self, flow: FlowKey, pkt: QueuedPacket)
        requires
            old(self).wf(),
            old(self).in_flight_packets() >= 1,
            old(self).in_flight_bytes() >= pkt.len,
            pkt.len <= PEER_BYTE_CAP,
        ensures
            final(self).wf(),
            queue_of(final(self).flows@, flow) == seq![pkt] + queue_of(old(self).flows@, flow),
            forall|k: FlowKey|
                k != flow ==> #[trigger] queue_of(final(self).flows@, k) == queue_of(old(self).flows@, k),
            final(self).packets == old(self).packets,
            final(self).bytes == old(self).bytes,
    {
        let ghost fs0 = self.flows@;
        let len = pkt.len;
        match self.find(flow) {
            Some(i) => {
                proof {
                    assert(flow_wf(fs0[i as int].queue));
                    lemma_queue_of_at(fs0, i as int);
                    lemma_remove_entry(fs0, i as int);
                    lemma_wf_flows_remove(fs0, i as int);
                    lemma_totals_nonneg(fs0.remove(i as int));
                }
                let mut entry = self.flows.remove(i).unwrap();
                let ghost fs1 = self.flows@;
                let ghost q0 = entry.queue.packets@;
                proof {
                    assert forall|j: int| 0 <= j < fs1.len() implies fs1[j].key != flow by {
                        if j < i {
                            assert(fs1[j] == fs0[j]);
                        } else {
                            assert(fs1[j] == fs0[j + 1]);
                        }
                    }
                    lemma_seq_bytes_prepend(q0, pkt);
                }
                entry.queue.bytes = entry.queue.bytes + len;
                entry.queue.packets.push_front(pkt);
                proof {
                    assert forall|j: int| 0 <= j < entry.queue.packets@.len() implies (
                    #[trigger] entry.queue.packets@[j]).len <= PEER_BYTE_CAP by {
                        if j > 0 {
                            assert(entry.queue.packets@[j] == q0[j - 1]);
                        }
                    }
                    lemma_insert_entry(fs1, i as int, entry);
                    lemma_wf_flows_insert(fs1, i as int, entry);
                }
                self.flows.insert(i, entry);
            },
            None => {
                let mut packets = VecDeque::new();
                packets.push_front(pkt);
                let entry = FlowEntry {
                    key: flow,
                    queue: FlowQueue { packets, bytes: len, deficit: 0, epoch_bytes: 0, is_new: true },
                };
                proof {
                    assert(entry.queue.packets@ =~= seq![pkt] + Seq::<QueuedPacket>::empty());
                    lemma_seq_bytes_prepend(Seq::<QueuedPacket>::empty(), pkt);
                    lemma_queue_of_absent(fs0, flow);
                    lemma_insert_entry(fs0, 0, entry);
                    lemma_wf_flows_insert(fs0, 0, entry);
                }
                self.flows.push_front(entry);
                proof {
                    assert(self.flows@ =~= fs0.insert(0, entry));
                }
            },
        }
    }

    /// Confirm that a dequeued packet of `len` bytes left the peer: it stops
    /// being counted.
    pub fn complete_send(&mut self, len: usize)
        requires
            old(self).wf(),
            old(self).in_flight_packets() >= 1,
            old(self).in_flight_bytes() >= len,
        ensures
            final(self).wf(),
            final(self).flows@ == old(self).flows@,
            final(self).packets == old(self).packets - 1,
            final(self).bytes == old(self).bytes - len,
    {
        proof {
            lemma_totals_nonneg(self.flows@);
        }
        self.packets = self.packets - 1;
        self.bytes = self.bytes - len as u64;
    }

    /// Drop every stale head packet of every flow; returns how many packets
    /// were dropped. Round-robin order of the remaining flows is kept.
    pub fn evict_over_ceiling(&mut self, now: u64) -> (dropped: u64)
        requires
            old(self).wf(),
        ensures
            final(self).wf(),
            all_trimmed(old(self).flows@, final(self).flows@, now),
            forall|j: int|
                0 <= j < final(self).flows@.len() ==> !is_stale(
                    (#[trigger] final(self).flows@[j]).queue.packets@[0],
                    now,
                ),
            final(self).in_flight_packets() == old(self).in_flight_packets(),
            final(self).in_flight_bytes() == old(self).in_flight_bytes(),
            dropped == old(self).packets - final(self).packets,
    {
        let ghost fs0 = self.flows@;
        let ghost ifp = self.in_flight_packets();
        let ghost ifb = self.in_flight_bytes();
        let n = self.flows.len();
        let mut visits: usize = 0;
        let mut total: u64 = 0;
        proof {
            lemma_all_trimmed_refl(fs0, now);
        }
        while visits < n
            invariant
                self.wf(),
                visits <= n,
                n - visits <= self.flows@.len(),
                forall|j: int|
                    n - visits <= j < self.flows@.len() ==> !is_stale(
                        (#[trigger] self.flows@[j]).queue.packets@[0],
                        now,
                    ),
                all_trimmed(fs0, self.flows@, now),
                self.in_flight_packets() == ifp,
                self.in_flight_bytes() == ifb,
                fs0 == old(self).flows@,
                ifp == old(self).in_flight_packets(),
                ifb == old(self).in_flight_bytes(),
                total == old(self).packets - self.packets,
                n == fs0.len(),
            decreases n - visits,
        {
            visits += 1;
            let ghost fsa = self.flows@;
            proof {
                assert(flow_wf(fsa[0].queue));
                lemma_queue_of_at(fsa, 0);
                lemma_remove_entry(fsa, 0);
                lemma_wf_flows_remove(fsa, 0);
                lemma_totals_nonneg(fsa.remove(0));
                assert(fsa.remove(0) =~= fsa.drop_first());
            }
            let mut entry = self.flows.pop_front().unwrap();
            let ghost fsb = self.flows@;
            let ghost q0 = entry.queue.packets@;
            let key = entry.key;
            proof {
                assert(fsb =~= fsa.remove(0));
                assert forall|j: int| 0 <= j < fsb.len() implies fsb[j].key != key by {
                    assert(fsb[j] == fsa[j + 1]);
                }
            }
            let (d, dbytes) = entry.queue.drop_stale_heads(now);
            self.packets = self.packets - d;
            self.bytes = self.bytes - dbytes as u64;
            total = total + d;
            let ghost q1 = entry.queue.packets@;
            proof {
                lemma_seq_bytes_nonneg(q1);
                assert forall|j: int| 0 <= j < q1.len() implies (#[trigger] q1[j]).len <= PEER_BYTE_CAP by {
                    assert(q1[j] == q0[j + d]);
                }
            }
            if entry.queue.packets.len() == 0 {
                proof {
                    assert forall|k: FlowKey| trimmed(queue_of(fsa, k), #[trigger] queue_of(fsb, k), now) by {
                        if k == key {
                            assert(q1 =~= Seq::<QueuedPacket>::empty());
                        } else {
                            lemma_trimmed_refl(queue_of(fsa, k), now);
                        }
                    }
                    lemma_all_trimmed_trans(fs0, fsa, fsb, now);
                    assert forall|j: int|
                        n - visits <= j < fsb.len() implies !is_stale(
                            (#[trigger] fsb[j]).queue.packets@[0],
                            now,
                        ) by {
                        assert(fsb[j] == fsa[j + 1]);
                    }
                }
            } else {
                proof {
                    lemma_insert_entry(fsb, fsb.len() as int, entry);
                    lemma_wf_flows_insert(fsb, fsb.len() as int, entry);
                    assert(fsb.insert(fsb.len() as int, entry) =~= fsb.push(entry));
                    let fsc = fsb.push(entry);
                    assert forall|k: FlowKey| trimmed(queue_of(fsa, k), #[trigger] queue_of(fsc, k), now) by {
                        if k != key {
                            lemma_trimmed_refl(queue_of(fsa, k), now);
                        }
                    }
                    lemma_all_trimmed_trans(fs0, fsa, fsc, now);
                    assert forall|j: int|
                        n - visits <= j < fsc.len() implies !is_stale(
                            (#[trigger] fsc[j]).queue.packets@[0],
                            now,
                        ) by {
                        if j < fsb.len() {
                            assert(fsc[j] == fsa[j + 1]);
                        }
                    }
                }
                self.flows.push_back(entry);
            }
        }
        total
    }

    /// End the sparse epoch of a flow, as if it had already sent its new-flow
    /// byte budget (it is then scheduled by DRR only).
    pub fn end_sparse_epoch(&mut self, flow: FlowKey)
        requires
            old(self).wf(),
        ensures
            final(self).wf(),
            final(self).packets == old(self).packets,
            final(self).bytes == old(self).bytes,
            final(self).flows@.len() == old(self).flows@.len(),
            forall|j: int|
                0 <= j < final(self).flows@.len() ==> {
                    let e = old(self).flows@[j];
                    let f = #[trigger] final(self).flows@[j];
                    &&& f.key == e.key
                    &&& f.queue.packets@ == e.queue.packets@
                    &&& f.queue.bytes == e.queue.bytes
                    &&& f.queue.deficit == e.queue.deficit
                    &&& (e.key == flow ==> !f.queue.is_new && f.queue.epoch_bytes
                        == NEW_FLOW_BYTE_BUDGET)
                    &&& (e.key != flow ==> f == e)
                },
    {
        let ghost fs0 = self.flows@;
        if let Some(i) = self.find(flow) {
            proof {
                assert(flow_wf(fs0[i as int].queue));
            }
            let mut entry = self.flows.remove(i).unwrap();
            entry.queue.is_new = false;
            entry.queue.epoch_bytes = NEW_FLOW_BYTE_BUDGET;
            let ghost fs1 = self.flows@;
            self.flows.insert(i, entry);
            proof {
                assert(self.flows@ =~= fs0.update(i as int, entry));
                lemma_totals_update(fs0, i as int, entry);
                assert forall|j: int| 0 <= j < self.flows@.len() implies flow_wf(#[trigger] self.flows@[j].queue) by {
                    if j != i {
                        assert(self.flows@[j] == fs0[j]);
                    }
                }
                assert(keys_unique(self.flows@)) by {
                    assert forall|a: int, b: int|
                        0 <= a < self.flows@.len() && 0 <= b < self.flows@.len() && a != b implies self.flows@[a].key != self.flows@[b].key by {
                        assert(self.flows@[a].key == fs0[a].key);
                        assert(self.flows@[b].key == fs0[b].key);
                    }
                }
            }
        }
    }

    /// Queue telemetry: (counted packets, counted bytes, active flows).
    pub fn snapshot(&self) -> (l: QueueLevels)
        ensures
            l.packets == self.packets,
            l.bytes == self.bytes,
            l.active_flows == self.flows@.len(),
    {
        QueueLevels { packets: self.packets, bytes: self.bytes, active_flows: self.flows.len() as u64 }
    }
}

/// Handing a served packet back with `requeue_head`, when serving dropped no
/// stale packet of its flow, restores that flow's queue exactly.
pub proof fn law_requeue_undoes_serve(
    a: Seq<FlowEntry>,
    b: Seq<FlowEntry>,
    c: Seq<FlowEntry>,
    f: FlowKey,
    p: QueuedPacket,
    now: u64,
)
    requires
        served_from(a, b, f, p, now),
        queue_of(b, f).len() == queue_of(a, f).len() - 1,
        queue_of(c, f) == seq![p] + queue_of(b, f),
    ensures
        queue_of(c, f) == queue_of(a, f),
{
    let o = queue_of(a, f);
    assert(o =~= seq![o[0]] + o.skip(1));
}

/// After a dequeue, every flow's queue is its old queue without some head
/// packets: within a flow, packets leave in arrival order.
pub proof fn law_dequeue_keeps_flow_order(
    a: Seq<FlowEntry>,
    b: Seq<FlowEntry>,
    f: FlowKey,
    p: QueuedPacket,
    now: u64,
    k: FlowKey,
)
    requires
        served_from(a, b, f, p, now),
    ensures
        suffix_of(queue_of(a, k), queue_of(b, k)),
{
    if k != f {
        assert(trimmed(queue_of(a, k), queue_of(b, k), now));
    }
}

/// How far flow `k` is from being served: what its head still lacks beyond
/// its deficit (when anything), counted in steps of the peer's packet cap,
/// plus its place in round-robin order.
pub open spec fn wait_rank(fs: Seq<FlowEntry>, k: FlowKey) -> int {
    (if missing(fs, k) > 0 {
        missing(fs, k)
    } else {
        0
    }) * (PEER_PACKET_CAP as int) + index_of(fs, k)
}

proof fn lemma_wait_rank_decreases(a: PeerState, b: PeerState, k: FlowKey)
    requires
        b.wf(),
        has_key(a.flows@, k),
        closer(a.flows@, b.flows@, k),
    ensures
        0 <= wait_rank(b.flows@, k) < wait_rank(a.flows@, k),
{
    lemma_index_of_key(a.flows@, k);
    lemma_index_of_key(b.flows@, k);
    lemma_flows_le_packets(b.flows@);
}

/// A chain of states, each bringing flow `k` closer, is no longer than
/// `k`'s wait rank in the first.
proof fn lemma_closer_chain_bounded(states: Seq<PeerState>, k: FlowKey)
    requires
        states.len() > 0,
        forall|i: int| 0 <= i < states.len() ==> (#[trigger] states[i]).wf(),
        has_key(states[0].flows@, k),
        forall|i: int|
            0 <= i < states.len() - 1 ==> closer(#[trigger] states[i].flows@, states[i + 1].flows@, k),
    ensures
        states.len() - 1 <= wait_rank(states[0].flows@, k),
    decreases states.len(),
{
    lemma_index_of_key(states[0].flows@, k);
    if states.len() > 1 {
        assert(closer(states[0].flows@, states[1].flows@, k));
        lemma_wait_rank_decreases(states[0], states[1], k);
        let rest = states.drop_first();
        assert forall|i: int| 0 <= i < rest.len() implies (#[trigger] rest[i]).wf() by {
            assert(rest[i] == states[i + 1]);
        }
        assert forall|i: int| 0 <= i < rest.len() - 1 implies closer(
            #[trigger] rest[i].flows@,
            rest[i + 1].flows@,
            k,
        ) by {
            assert(rest[i] == states[i + 1] && rest[i + 1] == states[i + 2]);
        }
        lemma_closer_chain_bounded(rest, k);
    }
}

/// No backlogged flow starves under byte-DRR. Take a run of dequeues
/// (`states[i]` to `states[i + 1]` with result `results[i]` at `times[i]`)
/// in which no flow is sparse and flow `k`'s head stays fresh. If none of
/// them serves `k`, the run has at most `wait_rank` steps: `k` is served by
/// the dequeue after that at the latest.
pub proof fn law_drr_no_starvation(
    states: Seq<PeerState>,
    results: Seq<Option<(FlowKey, QueuedPacket)>>,
    times: Seq<u64>,
    k: FlowKey,
)
    requires
        states.len() > 0,
        results.len() == states.len() - 1,
        times.len() == states.len() - 1,
        forall|i: int| 0 <= i < states.len() ==> (#[trigger] states[i]).wf(),
        forall|i: int|
            0 <= i < states.len() - 1 ==> drr_progress(
                #[trigger] states[i].flows@,
                states[i + 1].flows@,
                results[i],
                k,
                times[i],
            ),
        forall|i: int|
            0 <= i < states.len() - 1 ==> forall|j: int|
                0 <= j < (#[trigger] states[i]).flows@.len() ==> !eligible_sparse(
                    #[trigger] states[i].flows@[j],
                    times[i],
                ),
        forall|i: int| 0 <= i < states.len() - 1 ==> head_fresh(#[trigger] states[i].flows@, k, times[i]),
        forall|i: int| 0 <= i < states.len() - 1 ==> !serves(#[trigger] results[i], k),
        has_key(states[0].flows@, k),
    ensures
        states.len() - 1 <= wait_rank(states[0].flows@, k),
{
    assert forall|i: int| 0 <= i < states.len() - 1 implies closer(
        #[trigger] states[i].flows@,
        states[i + 1].flows@,
        k,
    ) by {
        assert(drr_progress(states[i].flows@, states[i + 1].flows@, results[i], k, times[i]));
        assert(head_fresh(states[i].flows@, k, times[i]));
        assert(!serves(results[i], k));
    }
    lemma_closer_chain_bounded(states, k);
}

/// No flow holds more than `FLOW_PACKET_CAP` packets.
pub open spec fn flows_capped(fs: Seq<FlowEntry>) -> bool {
    forall|k: FlowKey| #[trigger] queue_of(fs, k).len() <= FLOW_PACKET_CAP
}

/// What an enqueue keeps: the state stays well formed (the peer's packet
/// and byte caps), what is in flight is unchanged, and a flow at or under
/// the flow cap stays at or under it.
pub open spec fn enqueue_keeps_bounds(old: PeerState, new: PeerState) -> bool {
    &&& new.wf()
    &&& new.in_flight_packets() == old.in_flight_packets()
    &&& new.in_flight_bytes() == old.in_flight_bytes()
    &&& forall|k: FlowKey|
        #[trigger] queue_of(old.flows@, k).len() <= FLOW_PACKET_CAP ==> queue_of(new.flows@, k).len()
            <= FLOW_PACKET_CAP
}

/// Memory stays bounded under any run of enqueues into a fresh peer state:
/// every state is well formed, so its packets stay within
/// `PEER_PACKET_CAP` and its bytes within `PEER_BYTE_CAP`, and no flow
/// holds more than `FLOW_PACKET_CAP` packets.
pub proof fn law_enqueue_memory_bounded(states: Seq<PeerState>)
    requires
        states.len() > 0,
        states[0].wf(),
        states[0].flows@.len() == 0,
        forall|i: int|
            0 <= i < states.len() - 1 ==> enqueue_keeps_bounds(#[trigger] states[i], states[i + 1]),
    ensures
        forall|i: int|
            0 <= i < states.len() ==> (#[trigger] states[i]).wf() && states[i].packets <= PEER_PACKET_CAP
                && states[i].bytes <= PEER_BYTE_CAP && flows_capped(states[i].flows@),
    decreases states.len(),
{
    if states.len() == 1 {
        assert forall|k: FlowKey| #[trigger] queue_of(states[0].flows@, k).len() <= FLOW_PACKET_CAP by {
            lemma_queue_of_absent(states[0].flows@, k);
        }
    } else {
        let init = states.drop_last();
        assert forall|i: int| 0 <= i < init.len() - 1 implies enqueue_keeps_bounds(
            #[trigger] init[i],
            init[i + 1],
        ) by {
            assert(init[i] == states[i] && init[i + 1] == states[i + 1]);
        }
        law_enqueue_memory_bounded(init);
        let n = states.len() - 1;
        assert(init[n - 1] == states[n - 1]);
        assert(enqueue_keeps_bounds(states[n - 1], states[n]));
        assert forall|i: int| 0 <= i < states.len() implies (#[trigger] states[i]).wf()
            && states[i].packets <= PEER_PACKET_CAP && states[i].bytes <= PEER_BYTE_CAP && flows_capped(
            states[i].flows@,
        ) by {
            if i < n {
                assert(init[i] == states[i]);
            } else {
                assert forall|k: FlowKey| #[trigger] queue_of(states[i].flows@, k).len() <= FLOW_PACKET_CAP by {
                    assert(queue_of(states[n - 1].flows@, k).len() <= FLOW_PACKET_CAP);
                }
            }
        }
    }
}

} // verus!
