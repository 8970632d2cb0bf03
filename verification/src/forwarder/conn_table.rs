//! Connection tracking: which backend a flow is pinned to.

use vstd::arithmetic::div_mod::{
    lemma_div_by_multiple, lemma_div_is_ordered, lemma_div_pos_is_pos, lemma_mod_bound,
};
use vstd::arithmetic::power2::{lemma_pow2_pos, pow2};
use vstd::prelude::*;

use crate::base::net::{IpAddr, Ipv4Addr};
use crate::base::power::is_power_of_two;
use crate::base::time::{elapsed_nanos, Duration, Instant};
use crate::types::config::ConnTtls;
use crate::types::packet::{FlowProto, TcpFlowState};

verus! {

/// A single slot of the connection tracking table.
#[derive(Clone, Copy)]
pub struct ConnEntry {
    pub hash: u64,
    pub backend_ip: IpAddr,
    pub last_seen: Instant,
    pub proto: FlowProto,
    pub tcp_state: TcpFlowState,
    pub occupied: bool,
}

/// Outcome of an [`ConnTable::insert`] call. Callers use this to drive
/// metrics without paying for internal counters.
#[derive(Debug, Clone, Copy, PartialEq, Eq, Structural)]
pub enum InsertResult {
    /// A fresh slot was claimed; table size grew by one.
    Inserted,
    /// An existing entry matched the hash and was updated in place.
    Updated,
    /// An expired slot was reclaimed for this insertion. Table size unchanged.
    EvictedExpired,
    /// Every slot in the probe window was occupied and not-yet-expired.
    /// The entry was dropped; the caller falls back to pure Maglev hashing.
    DroppedFull,
}

/// The slot where the probe for `hash` starts, in a table of `n` slots.
pub open spec fn home(hash: u64, n: int) -> int {
    hash as int % n
}

/// The slot `j` steps behind `start`, wrapping around once.
pub open spec fn slot_after(start: int, j: int, n: int) -> int {
    if start + j < n {
        start + j
    } else {
        start + j - n
    }
}

/// Probe distance: how far slot `idx` is behind the home slot of `hash`.
pub open spec fn distance(hash: u64, idx: int, n: int) -> int {
    if idx >= home(hash, n) {
        idx - home(hash, n)
    } else {
        idx + n - home(hash, n)
    }
}

/// The TTL for a given protocol/state combination.
pub open spec fn ttl_of(ttls: ConnTtls, proto: FlowProto, state: TcpFlowState) -> Duration {
    match proto {
        FlowProto::Tcp => match state {
            TcpFlowState::Handshake => ttls.tcp_handshake,
            TcpFlowState::Closing => ttls.tcp_closing,
            _ => ttls.tcp_established,
        },
        FlowProto::Udp => ttls.udp,
        FlowProto::Other => ttls.other,
    }
}

/// Whether an entry has been idle for longer than its TTL.
pub open spec fn expired(e: ConnEntry, ttls: ConnTtls, now: Instant) -> bool {
    elapsed_nanos(e.last_seen, now) > ttl_of(ttls, e.proto, e.tcp_state).nanos
}

/// Rule for merging an existing TCP state with an incoming one on duplicate
/// insert. `Closing` is terminal; `Established` beats `Handshake`.
pub open spec fn promoted(existing: TcpFlowState, incoming: TcpFlowState) -> TcpFlowState {
    if existing is Closing || incoming is Closing {
        TcpFlowState::Closing
    } else if existing is Established || incoming is Established {
        TcpFlowState::Established
    } else if existing is NotTcp || incoming is NotTcp {
        TcpFlowState::NotTcp
    } else {
        TcpFlowState::Handshake
    }
}

/// An entry updated by a later one of the same flow.
pub open spec fn merged(existing: ConnEntry, incoming: ConnEntry) -> ConnEntry {
    ConnEntry {
        backend_ip: incoming.backend_ip,
        last_seen: incoming.last_seen,
        proto: incoming.proto,
        tcp_state: promoted(existing.tcp_state, incoming.tcp_state),
        ..existing
    }
}

/// Robin Hood insertion of `cur` from slot `idx` on, probing at most `steps`
/// slots.
///
/// A vacant slot takes the entry. Otherwise, if the slot's entry is nearer to
/// its home than the entry carried is to its own, they swap and the probe goes
/// on with the entry that was displaced.
pub open spec fn placed(
    t: Seq<ConnEntry>,
    cur: ConnEntry,
    idx: int,
    steps: nat,
) -> Seq<ConnEntry>
    decreases steps,
{
    let n = t.len() as int;
    let next = slot_after(idx, 1, n);
    if steps == 0 {
        t
    } else if !t[idx].occupied {
        t.update(idx, cur)
    } else if distance(t[idx].hash, idx, n) < distance(cur.hash, idx, n) {
        placed(t.update(idx, cur), t[idx], next, (steps - 1) as nat)
    } else {
        placed(t, cur, next, (steps - 1) as nat)
    }
}

/// How many steps slot `i` is behind slot `start`, wrapping around once.
pub open spec fn offset(start: int, i: int, n: int) -> int {
    if i >= start {
        i - start
    } else {
        i + n - start
    }
}

/// Whether slot `i` holds an entry that is not at home.
pub open spec fn away(t: Seq<ConnEntry>, i: int) -> bool {
    t[i].occupied && distance(t[i].hash, i, t.len() as int) > 0
}

/// How far the run of entries that are not at home goes on behind slot `s`, if
/// its first `k` slots are known to belong to it.
pub open spec fn run_length(t: Seq<ConnEntry>, s: int, k: int) -> int
    decreases t.len() - k,
{
    let n = t.len() as int;
    if k + 1 < n && away(t, slot_after(s, k + 1, n)) {
        run_length(t, s, k + 1)
    } else {
        k
    }
}

/// The table in which the `k` entries behind slot `s` have moved back by one
/// slot.
pub open spec fn shifted(t: Seq<ConnEntry>, s: int, k: int) -> Seq<ConnEntry> {
    let n = t.len() as int;
    Seq::new(
        t.len(),
        |i: int|
            if offset(s, i, n) < k {
                t[slot_after(s, offset(s, i, n) + 1, n)]
            } else {
                t[i]
            },
    )
}

/// The table without the entry in slot `s`: the entries behind it that are not
/// at home move back by one slot, and the slot that becomes free is vacant.
pub open spec fn removed(t: Seq<ConnEntry>, s: int) -> Seq<ConnEntry> {
    let n = t.len() as int;
    let k = run_length(t, s, 0);
    let last = slot_after(s, k, n);
    shifted(t, s, k).update(last, ConnEntry { occupied: false, ..t[last] })
}

/// The first slot from `j` steps behind `start` on that is vacant or holds an
/// expired entry.
pub open spec fn claimable_slot(
    t: Seq<ConnEntry>,
    start: int,
    j: int,
    ttls: ConnTtls,
    now: Instant,
) -> Option<int>
    decreases t.len() - j,
{
    let n = t.len() as int;
    let i = slot_after(start, j, n);
    if j >= n {
        None
    } else if !t[i].occupied || expired(t[i], ttls, now) {
        Some(i)
    } else {
        claimable_slot(t, start, j + 1, ttls, now)
    }
}

/// The table after inserting `cur`, and how the insertion ended.
///
/// The entry of a flow that the table tracks is updated, or replaced if it has
/// expired. The entry of another flow goes into the table if there is a vacant
/// slot, or one whose entry has expired and is removed first; whichever comes
/// first behind the flow's home counts. Without such a slot the entry is dropped
/// and the table stays as it is.
pub open spec fn inserted(
    t: Seq<ConnEntry>,
    cur: ConnEntry,
    ttls: ConnTtls,
    now: Instant,
) -> (Seq<ConnEntry>, InsertResult) {
    let start = home(cur.hash, t.len() as int);
    match slot_of(t, cur.hash) {
        Some(i) => if expired(t[i], ttls, now) {
            (t.update(i, cur), InsertResult::EvictedExpired)
        } else {
            (t.update(i, merged(t[i], cur)), InsertResult::Updated)
        },
        None => match claimable_slot(t, start, 0, ttls, now) {
            Some(i) => if t[i].occupied {
                (placed(removed(t, i), cur, start, t.len()), InsertResult::EvictedExpired)
            } else {
                (placed(t, cur, start, t.len()), InsertResult::Inserted)
            },
            None => (t, InsertResult::DroppedFull),
        },
    }
}

/// Whether the probe for `hash` finds its entry after `j` steps: every slot
/// on the way holds another flow that is at least as far from its home.
pub open spec fn hit(t: Seq<ConnEntry>, hash: u64, j: int) -> bool {
    let n = t.len() as int;
    &&& 0 <= j < n
    &&& t[slot_after(home(hash, n), j, n)].occupied
    &&& t[slot_after(home(hash, n), j, n)].hash == hash
    &&& forall|i: int| 0 <= i < j ==> #[trigger] passable(t, hash, i)
}

/// Whether the probe for `hash` goes on behind its `i`-th slot.
pub open spec fn passable(t: Seq<ConnEntry>, hash: u64, i: int) -> bool {
    let n = t.len() as int;
    let e = t[slot_after(home(hash, n), i, n)];
    e.occupied && e.hash != hash && distance(e.hash, slot_after(home(hash, n), i, n), n) >= i
}

/// The slot where a lookup finds the entry of `hash`.
pub open spec fn slot_of(t: Seq<ConnEntry>, hash: u64) -> Option<int> {
    if exists|j: int| hit(t, hash, j) {
        let j = choose|j: int| hit(t, hash, j);
        Some(slot_after(home(hash, t.len() as int), j, t.len() as int))
    } else {
        None
    }
}

/// The entry that a lookup finds for `hash`, expired or not.
pub open spec fn lookup(t: Seq<ConnEntry>, hash: u64) -> Option<ConnEntry> {
    match slot_of(t, hash) {
        Some(i) => Some(t[i]),
        None => None,
    }
}

/// The backend that `hash` is pinned to at time `now`.
pub open spec fn pinned_backend(
    t: Seq<ConnEntry>,
    hash: u64,
    ttls: ConnTtls,
    now: Instant,
) -> Option<IpAddr> {
    match lookup(t, hash) {
        Some(e) => if expired(e, ttls, now) {
            None
        } else {
            Some(e.backend_ip)
        },
        None => None,
    }
}

/// How many slots are occupied.
pub open spec fn occupancy(t: Seq<ConnEntry>) -> nat
    decreases t.len(),
{
    if t.len() == 0 {
        0
    } else {
        occupancy(t.drop_last()) + if t.last().occupied {
            1nat
        } else {
            0nat
        }
    }
}

pub open spec fn occupied_bit(e: ConnEntry) -> int {
    if e.occupied {
        1
    } else {
        0
    }
}

proof fn lemma_occupancy_update(t: Seq<ConnEntry>, i: int, e: ConnEntry)
    requires
        0 <= i < t.len(),
    ensures
        occupancy(t.update(i, e)) == occupancy(t) - occupied_bit(t[i]) + occupied_bit(e),
    decreases t.len(),
{
    let u = t.update(i, e);
    if i == t.len() - 1 {
        assert(u.drop_last() =~= t.drop_last());
    } else {
        assert(u.drop_last() =~= t.drop_last().update(i, e));
        lemma_occupancy_update(t.drop_last(), i, e);
    }
}

/// A table has no more occupied slots than slots, and as many only if all are.
pub proof fn lemma_occupancy_bound(t: Seq<ConnEntry>)
    ensures
        occupancy(t) <= t.len(),
        forall|i: int| 0 <= i < t.len() && !(#[trigger] t[i]).occupied ==> occupancy(t) < t.len(),
        (forall|i: int| 0 <= i < t.len() ==> (#[trigger] t[i]).occupied) ==> occupancy(t)
            == t.len(),
        (forall|i: int| 0 <= i < t.len() ==> !(#[trigger] t[i]).occupied) ==> occupancy(t) == 0,
    decreases t.len(),
{
    if t.len() > 0 {
        let p = t.drop_last();
        lemma_occupancy_bound(p);
        assert forall|i: int| 0 <= i < t.len() && !(#[trigger] t[i]).occupied implies occupancy(t)
            < t.len() by {
            if i < t.len() - 1 {
                assert(p[i] == t[i]);
            }
        }
        if forall|i: int| 0 <= i < t.len() ==> (#[trigger] t[i]).occupied {
            assert forall|i: int| 0 <= i < p.len() implies (#[trigger] p[i]).occupied by {
                assert(p[i] == t[i]);
            }
            assert(t.last().occupied);
        }
        if forall|i: int| 0 <= i < t.len() ==> !(#[trigger] t[i]).occupied {
            assert forall|i: int| 0 <= i < p.len() implies !(#[trigger] p[i]).occupied by {
                assert(p[i] == t[i]);
            }
            assert(!t.last().occupied);
        }
    }
}

/// The table after the entry of `hash`, if there is one, is replaced by `f` of
/// it.
pub open spec fn adjusted(
    t: Seq<ConnEntry>,
    hash: u64,
    f: spec_fn(ConnEntry) -> ConnEntry,
) -> Seq<ConnEntry> {
    match slot_of(t, hash) {
        Some(i) => t.update(i, f(t[i])),
        None => t,
    }
}

/// The table after a hit on `hash` at `now`.
pub open spec fn touched(t: Seq<ConnEntry>, hash: u64, now: Instant) -> Seq<ConnEntry> {
    adjusted(t, hash, |e: ConnEntry| ConnEntry { last_seen: now, ..e })
}

/// The table after the handshake of `hash` was seen to complete.
pub open spec fn marked_established(
    t: Seq<ConnEntry>,
    hash: u64,
    now: Instant,
) -> Seq<ConnEntry> {
    adjusted(
        t,
        hash,
        |e: ConnEntry|
            if e.proto is Tcp && !(e.tcp_state is Closing) {
                ConnEntry { tcp_state: TcpFlowState::Established, last_seen: now, ..e }
            } else {
                e
            },
    )
}

/// The table after a FIN or RST of `hash` was seen.
pub open spec fn marked_closing(t: Seq<ConnEntry>, hash: u64, now: Instant) -> Seq<ConnEntry> {
    adjusted(
        t,
        hash,
        |e: ConnEntry|
            if e.proto is Tcp {
                ConnEntry { tcp_state: TcpFlowState::Closing, last_seen: now, ..e }
            } else {
                e
            },
    )
}

proof fn lemma_home(hash: u64, n: int)
    requires
        n > 0,
    ensures
        0 <= home(hash, n) < n,
{
    lemma_mod_bound(hash as int, n);
}

/// A lookup has one answer.
proof fn lemma_hit_unique(t: Seq<ConnEntry>, hash: u64, i: int, j: int)
    requires
        hit(t, hash, i),
        hit(t, hash, j),
    ensures
        i == j,
{
    if i < j {
        assert(passable(t, hash, i));
    } else if j < i {
        assert(passable(t, hash, j));
    }
}

proof fn lemma_hit_lookup(t: Seq<ConnEntry>, hash: u64, j: int)
    requires
        hit(t, hash, j),
    ensures
        slot_of(t, hash) == Some(slot_after(home(hash, t.len() as int), j, t.len() as int)),
{
    let k = choose|k: int| hit(t, hash, k);
    lemma_hit_unique(t, hash, j, k);
}

/// Whether every entry away from its home follows one that is at most one
/// step nearer to its own: the order that lets a lookup stop early.
pub open spec fn ordered(t: Seq<ConnEntry>) -> bool {
    forall|i: int|
        0 <= i < t.len() && t[i].occupied ==> #[trigger] follows(t, t[i].hash, i)
}

/// Whether an entry of `hash` may stand in slot `i`, given the slot before.
pub open spec fn follows(t: Seq<ConnEntry>, hash: u64, i: int) -> bool {
    let n = t.len() as int;
    let prev = slot_before(i, n);
    distance(hash, i, n) == 0 || (t[prev].occupied && distance(t[prev].hash, prev, n) + 1
        >= distance(hash, i, n))
}

/// The slot before slot `i`.
pub open spec fn slot_before(i: int, n: int) -> int {
    if i == 0 {
        n - 1
    } else {
        i - 1
    }
}

/// Whether no flow has two entries.
pub open spec fn distinct(t: Seq<ConnEntry>) -> bool {
    forall|i: int, j: int|
        0 <= i < t.len() && 0 <= j < t.len() && (#[trigger] t[i]).occupied && (
        #[trigger] t[j]).occupied && t[i].hash == t[j].hash ==> i == j
}

/// Whether some slot holds `e`.
pub open spec fn holds(t: Seq<ConnEntry>, e: ConnEntry) -> bool {
    exists|i: int| 0 <= i < t.len() && (#[trigger] t[i]).occupied && t[i] == e
}

/// Whether some slot holds an entry of `hash`.
pub open spec fn tracks(t: Seq<ConnEntry>, hash: u64) -> bool {
    exists|i: int| 0 <= i < t.len() && (#[trigger] t[i]).occupied && t[i].hash == hash
}

/// The flows that lookups find, with their entries.
pub open spec fn flows(t: Seq<ConnEntry>) -> Map<u64, ConnEntry> {
    Map::new(|hash: u64| lookup(t, hash) is Some, |hash: u64| lookup(t, hash)->0)
}

/// In an ordered table the slots between an entry's home and the entry are
/// occupied, and their entries are far enough from home not to stop a probe.
proof fn lemma_ordered_path(t: Seq<ConnEntry>, i: int, m: int)
    requires
        ordered(t),
        0 <= i < t.len(),
        t[i].occupied,
        0 <= m <= distance(t[i].hash, i, t.len() as int),
    ensures
        ({
            let n = t.len() as int;
            let q = slot_after(home(t[i].hash, n), m, n);
            t[q].occupied && distance(t[q].hash, q, n) >= m
        }),
    decreases distance(t[i].hash, i, t.len() as int) - m,
{
    let n = t.len() as int;
    lemma_home(t[i].hash, n);
    let q = slot_after(home(t[i].hash, n), m, n);
    if m < distance(t[i].hash, i, n) {
        lemma_ordered_path(t, i, m + 1);
        let r = slot_after(home(t[i].hash, n), m + 1, n);
        lemma_home(t[r].hash, n);
        assert(slot_before(r, n) == q);
        assert(follows(t, t[r].hash, r));
    }
}

/// In an ordered table without duplicates, lookups find exactly what the
/// slots hold.
pub proof fn ordered_lookup(t: Seq<ConnEntry>, hash: u64)
    requires
        t.len() > 0,
        ordered(t),
        distinct(t),
    ensures
        forall|i: int|
            0 <= i < t.len() && (#[trigger] t[i]).occupied && t[i].hash == hash ==> lookup(t, hash)
                == Some(t[i]) && slot_of(t, hash) == Some(i),
        lookup(t, hash) is Some <==> tracks(t, hash),
{
    let n = t.len() as int;
    lemma_home(hash, n);
    assert forall|i: int|
        0 <= i < t.len() && (#[trigger] t[i]).occupied && t[i].hash == hash implies lookup(t, hash)
        == Some(t[i]) && slot_of(t, hash) == Some(i) by {
        let d = distance(hash, i, n);
        assert(slot_after(home(hash, n), d, n) == i);
        assert forall|m: int| 0 <= m < d implies #[trigger] passable(t, hash, m) by {
            lemma_ordered_path(t, i, m);
            let q = slot_after(home(hash, n), m, n);
            assert(q != i);
        }
        assert(hit(t, hash, d));
        lemma_hit_lookup(t, hash, d);
    }
    if lookup(t, hash) is Some {
        let j = choose|j: int| hit(t, hash, j);
        let q = slot_after(home(hash, n), j, n);
        assert(t[q].occupied && t[q].hash == hash);
        assert(tracks(t, hash));
    }
}

/// Placing an entry of a flow that the table does not track, where a slot is
/// vacant, keeps the order and adds just that entry.
proof fn lemma_placed(t: Seq<ConnEntry>, cur: ConnEntry, idx: int, steps: nat, vacancy: int)
    requires
        0 <= idx < t.len(),
        steps <= t.len(),
        cur.occupied,
        ordered(t),
        distinct(t),
        !tracks(t, cur.hash),
        follows(t, cur.hash, idx),
        0 <= vacancy < steps,
        !t[slot_after(idx, vacancy, t.len() as int)].occupied,
    ensures
        ({
            let u = placed(t, cur, idx, steps);
            &&& u.len() == t.len()
            &&& ordered(u)
            &&& distinct(u)
            &&& occupancy(u) == occupancy(t) + 1
            &&& forall|e: ConnEntry| #[trigger] holds(u, e) <==> holds(t, e) || e == cur
        }),
    decreases steps,
{
    let n = t.len() as int;
    assert(slot_after(idx, 0, n) == idx);
    lemma_home(cur.hash, n);
    lemma_home(t[idx].hash, n);
    let next = slot_after(idx, 1, n);
    let left = (steps - 1) as nat;
    let v = t.update(idx, cur);
    let u = placed(t, cur, idx, steps);
    lemma_occupancy_update(t, idx, cur);
    assert(t[idx].occupied ==> t[idx].hash != cur.hash) by {
        if t[idx].occupied && t[idx].hash == cur.hash {
            assert(tracks(t, cur.hash));
        }
    }
    if !t[idx].occupied {
        lemma_update_ordered(t, idx, cur);
        lemma_update_holds(t, idx, cur);
    } else {
        let free = slot_after(idx, vacancy, n);
        assert(vacancy > 0);
        assert(free == slot_after(next, vacancy - 1, n));
        assert(free != idx);
        assert(slot_before(next, n) == idx);
        if distance(t[idx].hash, idx, n) < distance(cur.hash, idx, n) {
            let old = t[idx];
            lemma_update_ordered(t, idx, cur);
            lemma_update_holds(t, idx, cur);
            assert(!tracks(v, old.hash)) by {
                if tracks(v, old.hash) {
                    let i = choose|i: int|
                        0 <= i < v.len() && (#[trigger] v[i]).occupied && v[i].hash == old.hash;
                    if i != idx {
                        assert(v[i] == t[i]);
                    }
                }
            }
            assert(v[idx] == cur);
            assert(v[free] == t[free]);
            assert(follows(v, old.hash, next));
            lemma_placed(v, old, next, left, vacancy - 1);
            assert forall|e: ConnEntry| #[trigger] holds(u, e) <==> holds(t, e) || e == cur by {
                assert(holds(u, e) <==> holds(v, e) || e == old);
                if e == old {
                    assert(holds(t, e));
                }
            }
        } else {
            assert(follows(t, cur.hash, next));
            lemma_placed(t, cur, next, left, vacancy - 1);
        }
    }
}

/// A probe that finds a vacant slot after `k` steps goes no further.
proof fn lemma_placed_outside(
    t: Seq<ConnEntry>,
    cur: ConnEntry,
    idx: int,
    steps: nat,
    k: int,
    q: int,
)
    requires
        0 <= idx < t.len(),
        steps <= t.len(),
        0 <= k < steps,
        !t[slot_after(idx, k, t.len() as int)].occupied,
        0 <= q < t.len(),
        forall|m: int| 0 <= m <= k ==> #[trigger] slot_after(idx, m, t.len() as int) != q,
    ensures
        placed(t, cur, idx, steps)[q] == t[q],
    decreases steps,
{
    let n = t.len() as int;
    assert(slot_after(idx, 0, n) == idx);
    let next = slot_after(idx, 1, n);
    let left = (steps - 1) as nat;
    if t[idx].occupied {
        assert(k > 0);
        let free = slot_after(idx, k, n);
        assert(free == slot_after(next, k - 1, n));
        assert(free != idx);
        assert forall|m: int| 0 <= m <= k - 1 implies #[trigger] slot_after(next, m, n) != q by {
            assert(slot_after(next, m, n) == slot_after(idx, m + 1, n));
        }
        if distance(t[idx].hash, idx, n) < distance(cur.hash, idx, n) {
            let v = t.update(idx, cur);
            assert(v[free] == t[free]);
            lemma_placed_outside(v, t[idx], next, left, k - 1, q);
            assert(v[q] == t[q]);
        } else {
            lemma_placed_outside(t, cur, next, left, k - 1, q);
        }
    }
}

/// Whether some slot is vacant or holds an entry at home. Probes never go all
/// the way round, so that this holds of full tables too.
pub open spec fn settled(t: Seq<ConnEntry>) -> bool {
    exists|i: int| 0 <= i < t.len() && !#[trigger] away(t, i)
}

/// The slot behind the vacant one that a new entry fills holds no entry that
/// is away from home, and the insertion does not reach it.
proof fn lemma_placed_settled(t: Seq<ConnEntry>, cur: ConnEntry, vacancy: int)
    requires
        t.len() > 0,
        ordered(t),
        0 <= vacancy < t.len(),
        !t[slot_after(home(cur.hash, t.len() as int), vacancy, t.len() as int)].occupied,
        placed(t, cur, home(cur.hash, t.len() as int), t.len()).len() == t.len(),
    ensures
        settled(placed(t, cur, home(cur.hash, t.len() as int), t.len())),
{
    let n = t.len() as int;
    lemma_home(cur.hash, n);
    let start = home(cur.hash, n);
    let u = placed(t, cur, start, t.len());
    let v = slot_after(start, vacancy, n);
    let w = slot_after(v, 1, n);
    lemma_home(t[w].hash, n);
    assert(slot_before(w, n) == v);
    assert(!away(t, w)) by {
        if t[w].occupied {
            assert(follows(t, t[w].hash, w));
        }
    }
    assert(slot_after(start, 0, n) == start);
    if vacancy + 1 < n {
        assert(w == slot_after(start, vacancy + 1, n));
        assert forall|m: int| 0 <= m <= vacancy implies #[trigger] slot_after(start, m, n)
            != w by {}
        lemma_placed_outside(t, cur, start, t.len(), vacancy, w);
        assert(u[w] == t[w]);
        assert(!away(u, w));
    } else {
        assert(w == start);
        assert(distance(cur.hash, start, n) == 0);
        if !t[start].occupied {
            assert(u[start] == cur);
            assert(!away(u, start));
        } else {
            let next = slot_after(start, 1, n);
            assert(vacancy > 0);
            assert(v == slot_after(next, vacancy - 1, n));
            assert forall|m: int| 0 <= m <= vacancy - 1 implies #[trigger] slot_after(next, m, n)
                != start by {
                assert(slot_after(next, m, n) == slot_after(start, m + 1, n));
            }
            lemma_placed_outside(t, cur, next, (n - 1) as nat, vacancy - 1, start);
            assert(u[start] == t[start]);
            assert(!away(u, start));
        }
    }
}

proof fn lemma_run_length(t: Seq<ConnEntry>, s: int, k: int)
    requires
        0 <= s < t.len(),
        0 <= k < t.len(),
        forall|j: int| 1 <= j <= k ==> away(t, #[trigger] slot_after(s, j, t.len() as int)),
    ensures
        ({
            let n = t.len() as int;
            let r = run_length(t, s, k);
            &&& k <= r < n
            &&& forall|j: int| 1 <= j <= r ==> away(t, #[trigger] slot_after(s, j, n))
            &&& r + 1 < n ==> !away(t, slot_after(s, r + 1, n))
        }),
    decreases t.len() - k,
{
    let n = t.len() as int;
    if k + 1 < n && away(t, slot_after(s, k + 1, n)) {
        lemma_run_length(t, s, k + 1);
    }
}

/// Moving entries back does not change how many slots are taken.
proof fn lemma_shifted_occupancy(t: Seq<ConnEntry>, s: int, k: int)
    requires
        0 <= s < t.len(),
        0 <= k < t.len(),
        t[s].occupied,
        forall|j: int| 1 <= j <= k ==> away(t, #[trigger] slot_after(s, j, t.len() as int)),
    ensures
        occupancy(shifted(t, s, k)) == occupancy(t),
        k > 0 ==> shifted(t, s, k) == shifted(t, s, k - 1).update(
            slot_after(s, k - 1, t.len() as int),
            t[slot_after(s, k, t.len() as int)],
        ),
    decreases k,
{
    let n = t.len() as int;
    if k == 0 {
        assert(shifted(t, s, 0) =~= t);
    } else {
        lemma_shifted_occupancy(t, s, k - 1);
        let p = shifted(t, s, k - 1);
        let hole = slot_after(s, k - 1, n);
        let from = slot_after(s, k, n);
        assert(offset(s, hole, n) == k - 1);
        assert(away(t, from));
        assert(shifted(t, s, k) =~= p.update(hole, t[from])) by {
            assert forall|i: int| 0 <= i < n implies shifted(t, s, k)[i] == p.update(
                hole,
                t[from],
            )[i] by {
                assert(slot_after(s, offset(s, i, n), n) == i);
            }
        }
        assert(p[hole] == t[hole]);
        if k > 1 {
            assert(away(t, slot_after(s, k - 1, n)));
        } else {
            assert(hole == s);
        }
        lemma_occupancy_update(p, hole, t[from]);
    }
}

/// Removing an entry keeps the table orderly and takes out just that entry.
proof fn lemma_removed(t: Seq<ConnEntry>, s: int)
    requires
        orderly(t),
        0 <= s < t.len(),
        t[s].occupied,
    ensures
        ({
            let u = removed(t, s);
            let n = t.len() as int;
            &&& u.len() == t.len()
            &&& orderly(u)
            &&& occupancy(u) == occupancy(t) - 1
            &&& !u[slot_after(s, run_length(t, s, 0), n)].occupied
            &&& 0 <= run_length(t, s, 0) < n
            &&& forall|e: ConnEntry| #[trigger] holds(u, e) <==> holds(t, e) && e != t[s]
        }),
{
    let n = t.len() as int;
    lemma_run_length(t, s, 0);
    let k = run_length(t, s, 0);
    let last = slot_after(s, k, n);
    let u = removed(t, s);
    assert(offset(s, last, n) == k);
    lemma_shifted_occupancy(t, s, k);
    assert(slot_after(s, 0, n) == s);
    if k > 0 {
        assert(away(t, slot_after(s, k, n)));
    }
    lemma_occupancy_update(shifted(t, s, k), last, ConnEntry { occupied: false, ..t[last] });
    assert(shifted(t, s, k)[last] == t[last]);
    assert forall|i: int| 0 <= i < n implies u[i] == (if offset(s, i, n) < k {
        t[slot_after(s, offset(s, i, n) + 1, n)]
    } else if offset(s, i, n) == k {
        ConnEntry { occupied: false, ..t[last] }
    } else {
        t[i]
    }) by {
        assert(slot_after(s, offset(s, i, n), n) == i);
    }
    assert(!away(u, last));
    assert(settled(u));
    assert forall|i: int| 0 <= i < n && (#[trigger] u[i]).occupied implies follows(
        u,
        u[i].hash,
        i,
    ) by {
        let j = offset(s, i, n);
        assert(slot_after(s, j, n) == i);
        let prev = slot_before(i, n);
        lemma_home(u[i].hash, n);
        if j < k {
            let from = slot_after(s, j + 1, n);
            assert(away(t, from));
            assert(follows(t, t[from].hash, from));
            assert(slot_before(from, n) == i);
            lemma_home(t[i].hash, n);
            assert(distance(t[from].hash, i, n) == distance(t[from].hash, from, n) - 1);
            if j > 0 {
                assert(away(t, slot_after(s, j, n)));
                assert(offset(s, prev, n) == j - 1);
                assert(u[prev] == t[i]);
                assert(distance(t[i].hash, prev, n) == distance(t[i].hash, i, n) - 1);
            } else {
                assert(i == s);
                if distance(t[s].hash, s, n) > 0 {
                    assert(follows(t, t[s].hash, s));
                    assert(offset(s, prev, n) == n - 1);
                    let a = choose|a: int| 0 <= a < t.len() && !#[trigger] away(t, a);
                    let ja = offset(s, a, n);
                    assert(slot_after(s, ja, n) == a);
                    assert(away(t, s));
                    assert(ja > k);
                    assert(u[prev] == t[prev]);
                }
            }
        } else {
            assert(j > k);
            assert(u[i] == t[i]);
            assert(follows(t, t[i].hash, i));
            assert(offset(s, prev, n) == j - 1);
            if j == k + 1 {
                assert(!away(t, i));
            } else {
                assert(u[prev] == t[prev]);
            }
        }
    }
    lemma_removed_holds(t, s);
}

/// The entries that a removal leaves.
proof fn lemma_removed_holds(t: Seq<ConnEntry>, s: int)
    requires
        distinct(t),
        0 <= s < t.len(),
        t[s].occupied,
    ensures
        distinct(removed(t, s)),
        forall|e: ConnEntry| #[trigger]
            holds(removed(t, s), e) <==> holds(t, e) && e != t[s],
{
    let n = t.len() as int;
    lemma_run_length(t, s, 0);
    let k = run_length(t, s, 0);
    let last = slot_after(s, k, n);
    let u = removed(t, s);
    assert(offset(s, last, n) == k);
    // Where the entry in slot `i` came from.
    let origin = |i: int|
        if offset(s, i, n) < k {
            slot_after(s, offset(s, i, n) + 1, n)
        } else {
            i
        };
    assert forall|i: int| 0 <= i < n && (#[trigger] u[i]).occupied implies {
        &&& 0 <= origin(i) < n
        &&& origin(i) != s
        &&& u[i] == t[origin(i)]
        &&& offset(s, i, n) == offset(s, origin(i), n) - (if offset(s, i, n) < k {
            1int
        } else {
            0
        })
    } by {
        assert(slot_after(s, offset(s, i, n), n) == i);
        assert(i != last);
        assert(offset(s, i, n) != k);
    }
    assert forall|i: int, j: int|
        0 <= i < u.len() && 0 <= j < u.len() && (#[trigger] u[i]).occupied && (
        #[trigger] u[j]).occupied && u[i].hash == u[j].hash implies i == j by {
        assert(t[origin(i)].occupied && t[origin(j)].occupied);
        assert(origin(i) == origin(j));
        assert(slot_after(s, offset(s, i, n), n) == i);
        assert(slot_after(s, offset(s, j, n), n) == j);
        assert(offset(s, i, n) != k && offset(s, j, n) != k);
    }
    assert forall|e: ConnEntry| #[trigger] holds(u, e) <==> holds(t, e) && e != t[s] by {
        if holds(u, e) {
            let i = choose|i: int| 0 <= i < u.len() && (#[trigger] u[i]).occupied && u[i] == e;
            assert(t[origin(i)] == e);
            assert(holds(t, e));
            if e == t[s] {
                assert(t[origin(i)].hash == t[s].hash);
            }
        }
        if holds(t, e) && e != t[s] {
            let i = choose|i: int| 0 <= i < t.len() && (#[trigger] t[i]).occupied && t[i] == e;
            let j = offset(s, i, n);
            assert(slot_after(s, j, n) == i);
            assert(j > 0);
            if j <= k {
                let to = slot_after(s, j - 1, n);
                assert(offset(s, to, n) == j - 1);
                assert(to != last);
                assert(u[to] == t[i]);
            } else {
                assert(i != last);
                assert(u[i] == t[i]);
            }
        }
    }
}

/// Putting an entry into a vacant slot, or into that of an entry nearer to its
/// home, keeps the order.
proof fn lemma_update_ordered(t: Seq<ConnEntry>, idx: int, cur: ConnEntry)
    requires
        0 <= idx < t.len(),
        ordered(t),
        cur.occupied,
        follows(t, cur.hash, idx),
        t[idx].occupied ==> distance(t[idx].hash, idx, t.len() as int) <= distance(
            cur.hash,
            idx,
            t.len() as int,
        ),
    ensures
        ordered(t.update(idx, cur)),
{
    let n = t.len() as int;
    let v = t.update(idx, cur);
    lemma_home(cur.hash, n);
    assert forall|i: int| 0 <= i < v.len() && (#[trigger] v[i]).occupied implies follows(
        v,
        v[i].hash,
        i,
    ) by {
        lemma_home(v[i].hash, n);
        if i != idx {
            assert(v[i] == t[i]);
            assert(follows(t, t[i].hash, i));
        }
    }
}

/// An entry of an untracked flow that goes into slot `idx` replaces what that
/// slot held.
proof fn lemma_update_holds(t: Seq<ConnEntry>, idx: int, cur: ConnEntry)
    requires
        0 <= idx < t.len(),
        distinct(t),
        cur.occupied,
        !tracks(t, cur.hash),
    ensures
        distinct(t.update(idx, cur)),
        forall|e: ConnEntry| #[trigger]
            holds(t.update(idx, cur), e) <==> e == cur || (holds(t, e) && !(t[idx].occupied && e
                == t[idx])),
{
    let v = t.update(idx, cur);
    assert forall|i: int, j: int|
        0 <= i < v.len() && 0 <= j < v.len() && (#[trigger] v[i]).occupied && (
        #[trigger] v[j]).occupied && v[i].hash == v[j].hash implies i == j by {
        if i == idx && j != idx {
            assert(v[j] == t[j]);
            assert(tracks(t, cur.hash));
        } else if j == idx && i != idx {
            assert(v[i] == t[i]);
            assert(tracks(t, cur.hash));
        }
    }
    assert forall|e: ConnEntry| #[trigger] holds(v, e) <==> e == cur || (holds(t, e) && !(
    t[idx].occupied && e == t[idx])) by {
        assert(v[idx] == cur);
        if holds(v, e) {
            let i = choose|i: int| 0 <= i < v.len() && (#[trigger] v[i]).occupied && v[i] == e;
            if i != idx {
                assert(v[i] == t[i]);
            }
        }
        if holds(t, e) && !(t[idx].occupied && e == t[idx]) {
            let i = choose|i: int| 0 <= i < t.len() && (#[trigger] t[i]).occupied && t[i] == e;
            assert(v[i] == t[i]);
        }
    }
}

/// Ordered, free of duplicates and settled.
pub open spec fn orderly(t: Seq<ConnEntry>) -> bool {
    ordered(t) && distinct(t) && settled(t)
}

/// Replacing an entry by one of the same flow changes what lookups find
/// for that flow only.
proof fn lemma_replace_entry(t: Seq<ConnEntry>, p: int, e: ConnEntry)
    requires
        orderly(t),
        0 <= p < t.len(),
        t[p].occupied,
        e.occupied,
        e.hash == t[p].hash,
    ensures
        orderly(t.update(p, e)),
        flows(t.update(p, e)) == flows(t).insert(e.hash, e),
{
    let n = t.len() as int;
    let u = t.update(p, e);
    assert forall|i: int| 0 <= i < u.len() && (#[trigger] u[i]).occupied implies follows(
        u,
        u[i].hash,
        i,
    ) by {
        assert(t[i].occupied && t[i].hash == u[i].hash);
        assert(follows(t, t[i].hash, i));
        lemma_home(t[i].hash, n);
        let prev = slot_before(i, n);
        assert(u[prev].occupied == t[prev].occupied && u[prev].hash == t[prev].hash);
    }
    assert(distinct(u)) by {
        assert forall|i: int, j: int|
            0 <= i < u.len() && 0 <= j < u.len() && (#[trigger] u[i]).occupied && (
            #[trigger] u[j]).occupied && u[i].hash == u[j].hash implies i == j by {
            assert(t[i].occupied && t[j].occupied && t[i].hash == t[j].hash);
        }
    }
    assert(settled(u)) by {
        let a = choose|a: int| 0 <= a < t.len() && !#[trigger] away(t, a);
        assert(!away(u, a));
    }
    assert(flows(u) =~= flows(t).insert(e.hash, e)) by {
        assert forall|k: u64| lookup(u, k) == (if k == e.hash {
            Some(e)
        } else {
            lookup(t, k)
        }) by {
            ordered_lookup(t, k);
            ordered_lookup(u, k);
            if k == e.hash {
                assert(u[p].occupied && u[p] == e);
            } else {
                if tracks(t, k) {
                    let i = choose|i: int|
                        0 <= i < t.len() && (#[trigger] t[i]).occupied && t[i].hash == k;
                    assert(u[i] == t[i]);
                }
                if tracks(u, k) {
                    let i = choose|i: int|
                        0 <= i < u.len() && (#[trigger] u[i]).occupied && u[i].hash == k;
                    assert(u[i] == t[i]);
                }
            }
        }
    }
}

proof fn lemma_claimable_slot(
    t: Seq<ConnEntry>,
    start: int,
    j: int,
    ttls: ConnTtls,
    now: Instant,
)
    requires
        0 <= start < t.len(),
        0 <= j <= t.len(),
    ensures
        match claimable_slot(t, start, j, ttls, now) {
            Some(i) => {
                &&& 0 <= i < t.len()
                &&& j <= offset(start, i, t.len() as int) < t.len()
                &&& slot_after(start, offset(start, i, t.len() as int), t.len() as int) == i
                &&& !t[i].occupied || expired(t[i], ttls, now)
            },
            None => forall|m: int|
                j <= m < t.len() ==> {
                    let e = t[#[trigger] slot_after(start, m, t.len() as int)];
                    e.occupied && !expired(e, ttls, now)
                },
        },
    decreases t.len() - j,
{
    let n = t.len() as int;
    if j < n {
        let i = slot_after(start, j, n);
        assert(offset(start, i, n) == j);
        if t[i].occupied && !expired(t[i], ttls, now) {
            lemma_claimable_slot(t, start, j + 1, ttls, now);
        }
    }
}

/// Two orderly tables of which one holds an entry more find the same but for
/// that entry.
proof fn lemma_flows_added(t: Seq<ConnEntry>, u: Seq<ConnEntry>, e: ConnEntry)
    requires
        t.len() > 0,
        u.len() > 0,
        orderly(t),
        orderly(u),
        e.occupied,
        !tracks(t, e.hash),
        forall|x: ConnEntry| #[trigger] holds(u, x) <==> holds(t, x) || x == e,
    ensures
        flows(u) == flows(t).insert(e.hash, e),
        flows(t) == flows(u).remove(e.hash),
{
    assert forall|k: u64| lookup(u, k) == (if k == e.hash {
        Some(e)
    } else {
        lookup(t, k)
    }) by {
        ordered_lookup(t, k);
        ordered_lookup(u, k);
        if k == e.hash {
            assert(holds(u, e));
        } else {
            if tracks(t, k) {
                let i = choose|i: int|
                    0 <= i < t.len() && (#[trigger] t[i]).occupied && t[i].hash == k;
                assert(holds(t, t[i]));
                assert(holds(u, t[i]));
            }
            if tracks(u, k) {
                let i = choose|i: int|
                    0 <= i < u.len() && (#[trigger] u[i]).occupied && u[i].hash == k;
                assert(holds(u, u[i]));
                assert(holds(t, u[i]));
            }
        }
    }
    ordered_lookup(t, e.hash);
    assert(flows(u) =~= flows(t).insert(e.hash, e));
    assert(flows(t) =~= flows(u).remove(e.hash));
}

/// Inserting an entry of an untracked flow where a slot is vacant.
proof fn lemma_placed_flows(t: Seq<ConnEntry>, cur: ConnEntry, vacancy: int)
    requires
        t.len() > 0,
        orderly(t),
        cur.occupied,
        !tracks(t, cur.hash),
        0 <= vacancy < t.len(),
        !t[slot_after(home(cur.hash, t.len() as int), vacancy, t.len() as int)].occupied,
    ensures
        ({
            let u = placed(t, cur, home(cur.hash, t.len() as int), t.len());
            &&& u.len() == t.len()
            &&& orderly(u)
            &&& occupancy(u) == occupancy(t) + 1
            &&& flows(u) == flows(t).insert(cur.hash, cur)
        }),
{
    let n = t.len() as int;
    lemma_home(cur.hash, n);
    let start = home(cur.hash, n);
    assert(follows(t, cur.hash, start));
    lemma_placed(t, cur, start, t.len(), vacancy);
    lemma_placed_settled(t, cur, vacancy);
    lemma_flows_added(t, placed(t, cur, start, t.len()), cur);
}

/// In an orderly table an insertion does exactly what its result says, keeps
/// the table orderly, and leaves every other flow alone, except that reclaiming
/// ends an expired flow. The entry is dropped only if every slot is taken by
/// another flow that has not expired.
pub proof fn insertion_keeps_other_flows(
    t: Seq<ConnEntry>,
    cur: ConnEntry,
    ttls: ConnTtls,
    now: Instant,
)
    requires
        t.len() > 0,
        cur.occupied,
        orderly(t),
    ensures
        ({
            let (u, r) = inserted(t, cur, ttls, now);
            &&& u.len() == t.len()
            &&& orderly(u)
            &&& match r {
                InsertResult::Updated => {
                    &&& flows(t).contains_key(cur.hash)
                    &&& !expired(flows(t)[cur.hash], ttls, now)
                    &&& flows(u) == flows(t).insert(cur.hash, merged(flows(t)[cur.hash], cur))
                },
                InsertResult::Inserted => {
                    &&& !flows(t).contains_key(cur.hash)
                    &&& flows(u) == flows(t).insert(cur.hash, cur)
                },
                InsertResult::EvictedExpired => exists|gone: u64| #[trigger]
                    flows(t).contains_key(gone) && expired(flows(t)[gone], ttls, now) && (flows(
                        t,
                    ).contains_key(cur.hash) ==> gone == cur.hash) && flows(u) == flows(t).remove(
                        gone,
                    ).insert(cur.hash, cur),
                InsertResult::DroppedFull => {
                    &&& !flows(t).contains_key(cur.hash)
                    &&& u == t
                    &&& forall|i: int|
                        0 <= i < t.len() ==> (#[trigger] t[i]).occupied && !expired(
                            t[i],
                            ttls,
                            now,
                        )
                },
            }
        }),
{
    let n = t.len() as int;
    lemma_home(cur.hash, n);
    let start = home(cur.hash, n);
    ordered_lookup(t, cur.hash);
    let (u, r) = inserted(t, cur, ttls, now);
    match slot_of(t, cur.hash) {
        Some(p) => {
            let i = choose|i: int|
                0 <= i < t.len() && (#[trigger] t[i]).occupied && t[i].hash == cur.hash;
            assert(p == i);
            assert(flows(t).contains_key(cur.hash) && flows(t)[cur.hash] == t[p]);
            if expired(t[p], ttls, now) {
                lemma_replace_entry(t, p, cur);
                assert(flows(t).insert(cur.hash, cur) =~= flows(t).remove(cur.hash).insert(
                    cur.hash,
                    cur,
                ));
            } else {
                lemma_replace_entry(t, p, merged(t[p], cur));
            }
        },
        None => {
            lemma_claimable_slot(t, start, 0, ttls, now);
            match claimable_slot(t, start, 0, ttls, now) {
                Some(i) => {
                    if t[i].occupied {
                        let v = removed(t, i);
                        lemma_removed(t, i);
                        let free = slot_after(i, run_length(t, i, 0), n);
                        let vacancy = offset(start, free, n);
                        assert(slot_after(start, vacancy, n) == free);
                        assert(!tracks(v, cur.hash)) by {
                            if tracks(v, cur.hash) {
                                let j = choose|j: int|
                                    0 <= j < v.len() && (#[trigger] v[j]).occupied && v[j].hash
                                        == cur.hash;
                                assert(holds(v, v[j]));
                                assert(holds(t, v[j]));
                                assert(tracks(t, cur.hash));
                            }
                        }
                        lemma_placed_flows(v, cur, vacancy);
                        assert(!tracks(v, t[i].hash)) by {
                            if tracks(v, t[i].hash) {
                                let j = choose|j: int|
                                    0 <= j < v.len() && (#[trigger] v[j]).occupied && v[j].hash
                                        == t[i].hash;
                                assert(holds(v, v[j]));
                                assert(holds(t, v[j]));
                            }
                        }
                        assert forall|x: ConnEntry| #[trigger] holds(t, x) <==> holds(v, x) || x
                            == t[i] by {
                            assert(holds(v, x) <==> holds(t, x) && x != t[i]);
                            assert(holds(t, t[i]));
                        }
                        lemma_flows_added(v, t, t[i]);
                        ordered_lookup(t, t[i].hash);
                        let gone = t[i].hash;
                        assert(flows(t).contains_key(gone) && flows(t)[gone] == t[i]);
                    } else {
                        lemma_placed_flows(t, cur, offset(start, i, n));
                    }
                },
                None => {
                    assert forall|i: int| 0 <= i < t.len() implies (#[trigger] t[i]).occupied
                        && !expired(t[i], ttls, now) by {
                        assert(slot_after(start, offset(start, i, n), n) == i);
                    }
                },
            }
        },
    }
}

/// Inserting one flow hides no other: every other flow is pinned to the backend
/// that it was pinned to, now and later.
pub proof fn insertion_hides_no_flow(
    t: Seq<ConnEntry>,
    cur: ConnEntry,
    ttls: ConnTtls,
    now: Instant,
    hash: u64,
    later: Instant,
)
    requires
        t.len() > 0,
        cur.occupied,
        orderly(t),
        hash != cur.hash,
        now.nanos <= later.nanos,
    ensures
        pinned_backend(inserted(t, cur, ttls, now).0, hash, ttls, later) == pinned_backend(
            t,
            hash,
            ttls,
            later,
        ),
        lookup(t, hash) matches Some(e) ==> expired(e, ttls, now) || lookup(
            inserted(t, cur, ttls, now).0,
            hash,
        ) == Some(e),
{
    insertion_keeps_other_flows(t, cur, ttls, now);
    let (u, r) = inserted(t, cur, ttls, now);
    assert(flows(u).contains_key(hash) <==> lookup(u, hash) is Some);
    assert(flows(t).contains_key(hash) <==> lookup(t, hash) is Some);
    if lookup(u, hash) is Some {
        assert(flows(u)[hash] == lookup(u, hash)->0);
    }
    if lookup(t, hash) is Some {
        assert(flows(t)[hash] == lookup(t, hash)->0);
    }
    if r is EvictedExpired {
        let gone = choose|gone: u64| #[trigger]
            flows(t).contains_key(gone) && expired(flows(t)[gone], ttls, now) && (flows(
                t,
            ).contains_key(cur.hash) ==> gone == cur.hash) && flows(u) == flows(t).remove(
                gone,
            ).insert(cur.hash, cur);
        if gone == hash {
            assert(expired(flows(t)[gone], ttls, later));
        }
    }
}

/// What was inserted is found: unless the entry was dropped, a lookup finds an
/// entry with the backend that was inserted and the time of the insertion.
pub proof fn insertion_is_found(
    t: Seq<ConnEntry>,
    cur: ConnEntry,
    ttls: ConnTtls,
    now: Instant,
)
    requires
        t.len() > 0,
        orderly(t),
        cur.occupied,
        cur.last_seen == now,
    ensures
        inserted(t, cur, ttls, now).0.len() == t.len(),
        inserted(t, cur, ttls, now).1 != InsertResult::DroppedFull ==> (lookup(
            inserted(t, cur, ttls, now).0,
            cur.hash,
        ) matches Some(e) && e.backend_ip == cur.backend_ip && e.last_seen == now),
        inserted(t, cur, ttls, now).1 != InsertResult::DroppedFull ==> pinned_backend(
            inserted(t, cur, ttls, now).0,
            cur.hash,
            ttls,
            now,
        ) == Some(cur.backend_ip),
        inserted(t, cur, ttls, now).1 == InsertResult::DroppedFull ==> inserted(
            t,
            cur,
            ttls,
            now,
        ).0 == t,
{
    insertion_keeps_other_flows(t, cur, ttls, now);
    let (u, r) = inserted(t, cur, ttls, now);
    if !(r is DroppedFull) {
        assert(flows(u).contains_key(cur.hash));
        assert(flows(u)[cur.hash] == lookup(u, cur.hash)->0);
    }
}

/// The size of the table grows by one where a fresh slot was claimed, and stays
/// as it is otherwise.
pub proof fn insertion_reports_its_effect(
    t: Seq<ConnEntry>,
    cur: ConnEntry,
    ttls: ConnTtls,
    now: Instant,
)
    requires
        t.len() > 0,
        orderly(t),
        cur.occupied,
    ensures
        ({
            let (u, r) = inserted(t, cur, ttls, now);
            occupancy(u) == occupancy(t) + (if r is Inserted {
                1int
            } else {
                0
            })
        }),
{
    let n = t.len() as int;
    let start = home(cur.hash, n);
    lemma_home(cur.hash, n);
    ordered_lookup(t, cur.hash);
    match slot_of(t, cur.hash) {
        Some(p) => {
            let i = choose|i: int|
                0 <= i < t.len() && (#[trigger] t[i]).occupied && t[i].hash == cur.hash;
            assert(p == i);
            lemma_occupancy_update(t, p, cur);
            lemma_occupancy_update(t, p, merged(t[p], cur));
        },
        None => {
            lemma_claimable_slot(t, start, 0, ttls, now);
            if let Some(i) = claimable_slot(t, start, 0, ttls, now) {
                if t[i].occupied {
                    let v = removed(t, i);
                    lemma_removed(t, i);
                    let free = slot_after(i, run_length(t, i, 0), n);
                    assert(slot_after(start, offset(start, free, n), n) == free);
                    assert(!tracks(v, cur.hash)) by {
                        if tracks(v, cur.hash) {
                            let j = choose|j: int|
                                0 <= j < v.len() && (#[trigger] v[j]).occupied && v[j].hash
                                    == cur.hash;
                            assert(holds(v, v[j]));
                            assert(holds(t, v[j]));
                            assert(tracks(t, cur.hash));
                        }
                    }
                    lemma_placed_flows(v, cur, offset(start, free, n));
                } else {
                    lemma_placed_flows(t, cur, offset(start, i, n));
                }
            }
        },
    }
}

/// An entry is dropped if and only if its flow is not tracked and every slot
/// holds an entry that has not expired.
pub proof fn insertion_needs_a_slot(
    t: Seq<ConnEntry>,
    cur: ConnEntry,
    ttls: ConnTtls,
    now: Instant,
)
    requires
        t.len() > 0,
    ensures
        inserted(t, cur, ttls, now).1 is DroppedFull <==> lookup(t, cur.hash) is None && forall|
            i: int,
        |
            0 <= i < t.len() ==> (#[trigger] t[i]).occupied && !expired(t[i], ttls, now),
{
    let n = t.len() as int;
    let start = home(cur.hash, n);
    lemma_home(cur.hash, n);
    lemma_claimable_slot(t, start, 0, ttls, now);
    if lookup(t, cur.hash) is None && claimable_slot(t, start, 0, ttls, now) is None {
        assert forall|i: int| 0 <= i < n implies (#[trigger] t[i]).occupied && !expired(
            t[i],
            ttls,
            now,
        ) by {
            assert(slot_after(start, offset(start, i, n), n) == i);
        }
    }
}

/// A table without entries is orderly and tracks no flow.
pub proof fn vacant_table_is_orderly(t: Seq<ConnEntry>)
    requires
        t.len() > 0,
        forall|i: int| 0 <= i < t.len() ==> !(#[trigger] t[i]).occupied,
    ensures
        orderly(t),
        flows(t) == Map::<u64, ConnEntry>::empty(),
{
    assert(!away(t, 0));
    assert forall|k: u64| lookup(t, k) is None by {
        ordered_lookup(t, k);
    }
    assert(flows(t) =~= Map::<u64, ConnEntry>::empty());
}

/// Refreshing or marking a flow changes what lookups find for that flow only.
pub proof fn adjustment_is_local(
    t: Seq<ConnEntry>,
    hash: u64,
    f: spec_fn(ConnEntry) -> ConnEntry,
    k: u64,
)
    requires
        t.len() > 0,
        forall|e: ConnEntry| (#[trigger] f(e)).hash == e.hash && f(e).occupied == e.occupied,
    ensures
        lookup(adjusted(t, hash, f), k) == (if k == hash {
            match lookup(t, k) {
                Some(e) => Some(f(e)),
                None => None,
            }
        } else {
            lookup(t, k)
        }),
{
    let n = t.len() as int;
    let u = adjusted(t, hash, f);
    lemma_home(hash, n);
    lemma_home(k, n);
    if slot_of(t, hash) is Some {
        let jh = choose|j: int| hit(t, hash, j);
        let p = slot_after(home(hash, n), jh, n);
        assert(f(t[p]).hash == t[p].hash);
        assert forall|i: int| 0 <= i < n implies passable(u, k, i) == passable(t, k, i) by {
            let q = slot_after(home(k, n), i, n);
            if q == p {
                assert(u[q].hash == t[q].hash);
            }
        }
        assert forall|j: int| hit(u, k, j) == hit(t, k, j) by {
            let q = slot_after(home(k, n), j, n);
            if hit(u, k, j) {
                assert forall|i: int| 0 <= i < j implies #[trigger] passable(t, k, i) by {
                    assert(passable(u, k, i));
                }
            }
            if hit(t, k, j) {
                assert forall|i: int| 0 <= i < j implies #[trigger] passable(u, k, i) by {
                    assert(passable(t, k, i));
                }
            }
        }
        if exists|j: int| hit(t, k, j) {
            let j = choose|j: int| hit(t, k, j);
            lemma_hit_lookup(t, k, j);
            assert(hit(u, k, j));
            lemma_hit_lookup(u, k, j);
        }
    }
}

/// Refreshing or marking a flow keeps the table orderly.
pub proof fn adjustment_keeps_order(
    t: Seq<ConnEntry>,
    hash: u64,
    f: spec_fn(ConnEntry) -> ConnEntry,
)
    requires
        t.len() > 0,
        orderly(t),
        forall|e: ConnEntry| (#[trigger] f(e)).hash == e.hash && f(e).occupied == e.occupied,
    ensures
        adjusted(t, hash, f).len() == t.len(),
        orderly(adjusted(t, hash, f)),
{
    ordered_lookup(t, hash);
    if let Some(p) = slot_of(t, hash) {
        let i = choose|i: int| 0 <= i < t.len() && (#[trigger] t[i]).occupied && t[i].hash == hash;
        assert(p == i);
        assert(f(t[p]).hash == t[p].hash);
        lemma_replace_entry(t, p, f(t[p]));
    }
}

/// A flow that is closing stays in that state until it expires: marking it
/// established and inserting it again do not demote it.
pub proof fn closing_is_terminal(
    t: Seq<ConnEntry>,
    cur: ConnEntry,
    ttls: ConnTtls,
    now: Instant,
)
    requires
        t.len() > 0,
        orderly(t),
        cur.occupied,
        lookup(t, cur.hash) matches Some(e) && e.tcp_state is Closing && !expired(e, ttls, now),
    ensures
        lookup(marked_established(t, cur.hash, now), cur.hash) == lookup(t, cur.hash),
        lookup(inserted(t, cur, ttls, now).0, cur.hash) matches Some(e) && e.tcp_state is Closing,
{
    let f = |e: ConnEntry|
        if e.proto is Tcp && !(e.tcp_state is Closing) {
            ConnEntry { tcp_state: TcpFlowState::Established, last_seen: now, ..e }
        } else {
            e
        };
    adjustment_is_local(t, cur.hash, f, cur.hash);
    insertion_keeps_other_flows(t, cur, ttls, now);
    let u = inserted(t, cur, ttls, now).0;
    assert(flows(t).contains_key(cur.hash));
    assert(inserted(t, cur, ttls, now).1 is Updated);
    assert(flows(u)[cur.hash] == merged(flows(t)[cur.hash], cur));
    assert(flows(u).contains_key(cur.hash));
}

/// Fixed-size per-thread connection tracking table.
///
/// Uses open addressing with Robin Hood hashing. Size must be a power of two.
/// Entries carry a protocol/TCP-state tag so different flow families can
/// expire on different schedules: TCP handshake (SYN without data) expires
/// fast to clear half-open connections, established TCP uses the long
/// operator-chosen TTL, TCP closing (FIN/RST observed) expires promptly so
/// slots are reclaimed, UDP gets its own bucket.
///
/// Robin Hood hashing keeps probe distances balanced: on insert, if the new
/// entry has traveled farther from its home slot than the incumbent, they
/// swap. This bounds worst-case probe length and allows miss lookups to
/// terminate early, when the current probe distance exceeds the incumbent's,
/// because no matching entry could be further out. An expired entry is taken
/// out by moving the entries behind it back, so that this stays so.
pub struct ConnTable {
    entries: Vec<ConnEntry>,
    ttls: ConnTtls,
    size: usize,
}

impl ConnTable {
    /// The slots of the table.
    pub closed spec fn slots(self) -> Seq<ConnEntry> {
        self.entries@
    }

    /// The TTLs by which entries expire.
    pub closed spec fn ttls(self) -> ConnTtls {
        self.ttls
    }

    /// The table has slots, its size counts the occupied ones, and they are
    /// orderly.
    pub closed spec fn wf(self) -> bool {
        &&& self.entries@.len() > 0
        &&& self.size == occupancy(self.entries@)
        &&& orderly(self.entries@)
    }

    /// A well-formed table has at least one slot and is orderly.
    pub proof fn lemma_wf(self)
        requires
            self.wf(),
        ensures
            self.slots().len() > 0,
            self.slots().len() <= usize::MAX,
            orderly(self.slots()),
    {
        assert(self.entries@.len() == self.entries.len());
    }

    /// Create a new connection table. `capacity` must be a power of two.
    pub fn new(capacity: usize, ttls: ConnTtls) -> (t: ConnTable)
        requires
            is_power_of_two(capacity as int),
        ensures
            t.wf(),
            t.ttls() == ttls,
            t.slots().len() == capacity,
            forall|i: int| 0 <= i < capacity ==> !(#[trigger] t.slots()[i]).occupied,
    {
        proof {
            let k = choose|k: nat| capacity == pow2(k);
            lemma_pow2_pos(k);
        }
        let empty = ConnEntry {
            hash: 0,
            backend_ip: IpAddr::V4(Ipv4Addr::new(0, 0, 0, 0)),
            last_seen: Instant { nanos: 0 },
            proto: FlowProto::Other,
            tcp_state: TcpFlowState::NotTcp,
            occupied: false,
        };
        let entries: Vec<ConnEntry> = vec![empty; capacity];
        proof {
            lemma_occupancy_bound(entries@);
            vacant_table_is_orderly(entries@);
        }
        ConnTable { entries, ttls, size: 0 }
    }

    /// Capacity of the backing storage (constant after construction).
    pub fn capacity(&self) -> (n: usize)
        ensures
            n == self.slots().len(),
    {
        self.entries.len()
    }

    /// Effective TTL for a given protocol/state combination.
    fn ttl_for(&self, proto: FlowProto, state: TcpFlowState) -> (d: Duration)
        ensures
            d == ttl_of(self.ttls, proto, state),
    {
        match (proto, state) {
            (FlowProto::Tcp, TcpFlowState::Handshake) => self.ttls.tcp_handshake,
            (FlowProto::Tcp, TcpFlowState::Closing) => self.ttls.tcp_closing,
            (FlowProto::Tcp, _) => self.ttls.tcp_established,
            (FlowProto::Udp, _) => self.ttls.udp,
            (FlowProto::Other, _) => self.ttls.other,
        }
    }

    fn is_expired(&self, entry: &ConnEntry, now: Instant) -> (b: bool)
        ensures
            b == expired(*entry, self.ttls, now),
    {
        let ttl = self.ttl_for(entry.proto, entry.tcp_state);
        now.duration_since(entry.last_seen).nanos > ttl.nanos
    }

    fn home_slot(&self, hash: u64) -> (i: usize)
        requires
            self.entries@.len() > 0,
        ensures
            i == home(hash, self.entries@.len() as int),
            i < self.entries@.len(),
    {
        proof {
            lemma_home(hash, self.entries@.len() as int);
        }
        (hash % self.entries.len() as u64) as usize
    }

    /// Probe distance: how far `idx` is from the home slot for `hash`.
    fn probe_distance(&self, hash: u64, idx: usize) -> (d: usize)
        requires
            idx < self.entries@.len(),
        ensures
            d == distance(hash, idx as int, self.entries@.len() as int),
            d < self.entries@.len(),
    {
        let start: usize = self.home_slot(hash);
        if idx >= start {
            idx - start
        } else {
            idx + (self.entries.len() - start)
        }
    }

    fn next_slot(&self, idx: usize) -> (i: usize)
        requires
            idx < self.entries@.len(),
        ensures
            i == slot_after(idx as int, 1, self.entries@.len() as int),
            i < self.entries@.len(),
    {
        if self.entries.len() - idx > 1 {
            idx + 1
        } else {
            0
        }
    }

    /// The slot that holds the entry for `hash`.
    fn find(&self, hash: u64) -> (r: Option<usize>)
        requires
            self.wf(),
        ensures
            match r {
                Some(i) => slot_of(self.entries@, hash) == Some(i as int) && i
                    < self.entries@.len() && self.entries@[i as int].occupied
                    && self.entries@[i as int].hash == hash,
                None => slot_of(self.entries@, hash) is None,
            },
    {
        let n: usize = self.entries.len();
        let mut idx: usize = self.home_slot(hash);
        let mut dist: usize = 0;
        let ghost t = self.entries@;
        while dist < n
            invariant
                t == self.entries@,
                n == t.len(),
                n > 0,
                dist <= n,
                0 <= home(hash, n as int) < n,
                dist < n ==> idx == slot_after(home(hash, n as int), dist as int, n as int),
                idx < n,
                forall|i: int| 0 <= i < dist ==> #[trigger] passable(t, hash, i),
            decreases n - dist,
        {
            let entry: &ConnEntry = &self.entries[idx];
            proof {
                if !passable(t, hash, dist as int) && !(t[idx as int].occupied && t[idx as int].hash
                    == hash) {
                    assert forall|j: int| !hit(t, hash, j) by {
                        if hit(t, hash, j) {
                            if j < dist {
                                assert(passable(t, hash, j));
                            } else if j > dist {
                                assert(passable(t, hash, dist as int));
                            }
                        }
                    }
                }
            }
            if !entry.occupied {
                return None;
            }
            if entry.hash == hash {
                proof {
                    lemma_hit_lookup(t, hash, dist as int);
                }
                return Some(idx);
            }
            if self.probe_distance(entry.hash, idx) < dist {
                return None;
            }
            assert(passable(t, hash, dist as int));
            idx = self.next_slot(idx);
            dist = dist + 1;
        }
        proof {
            assert forall|j: int| !hit(t, hash, j) by {
                if hit(t, hash, j) {
                    assert(passable(t, hash, j));
                }
            }
        }
        None
    }

    /// Look up a backend for a given flow hash.
    /// Returns `Some(backend_ip)` if found and not expired.
    ///
    /// `now` should be grabbed once per batch and reused for all lookups in
    /// that batch.
    pub fn get(&self, hash: u64, now: Instant) -> (r: Option<IpAddr>)
        requires
            self.wf(),
        ensures
            r == pinned_backend(self.slots(), hash, self.ttls(), now),
    {
        match self.find(hash) {
            Some(i) => {
                let entry: &ConnEntry = &self.entries[i];
                if self.is_expired(entry, now) {
                    None
                } else {
                    Some(entry.backend_ip)
                }
            },
            None => None,
        }
    }

    /// The first slot behind the home of `hash` that is vacant or holds an
    /// expired entry.
    fn find_claimable(&self, hash: u64, now: Instant) -> (r: Option<usize>)
        requires
            self.wf(),
        ensures
            match r {
                Some(i) => claimable_slot(
                    self.entries@,
                    home(hash, self.entries@.len() as int),
                    0,
                    self.ttls,
                    now,
                ) == Some(i as int) && i < self.entries@.len(),
                None => claimable_slot(
                    self.entries@,
                    home(hash, self.entries@.len() as int),
                    0,
                    self.ttls,
                    now,
                ) is None,
            },
    {
        let n: usize = self.entries.len();
        let start: usize = self.home_slot(hash);
        let mut idx: usize = start;
        let mut j: usize = 0;
        let ghost t = self.entries@;
        while j < n
            invariant
                t == self.entries@,
                n == t.len(),
                start == home(hash, n as int),
                start < n,
                idx < n,
                j <= n,
                j < n ==> idx == slot_after(start as int, j as int, n as int),
                claimable_slot(t, start as int, j as int, self.ttls, now) == claimable_slot(
                    t,
                    start as int,
                    0,
                    self.ttls,
                    now,
                ),
            decreases n - j,
        {
            let entry: &ConnEntry = &self.entries[idx];
            if !entry.occupied || self.is_expired(entry, now) {
                return Some(idx);
            }
            idx = self.next_slot(idx);
            j = j + 1;
        }
        None
    }

    /// Takes the entry out of a slot: the entries behind it that are not at
    /// home move back by one slot.
    fn remove_slot(&mut self, s: usize)
        requires
            old(self).wf(),
            s < old(self).entries@.len(),
            old(self).entries@[s as int].occupied,
        ensures
            final(self).wf(),
            final(self).ttls == old(self).ttls,
            final(self).entries@ == removed(old(self).entries@, s as int),
    {
        let ghost t = self.entries@;
        let n: usize = self.entries.len();
        let mut hole: usize = s;
        let mut k: usize = 0;
        proof {
            lemma_run_length(t, s as int, 0);
            assert(shifted(t, s as int, 0) =~= t);
            assert(slot_after(s as int, 0, n as int) == s);
        }
        while k + 1 < n
            invariant
                n == t.len(),
                n == self.entries@.len(),
                s < n,
                t[s as int].occupied,
                k < n,
                hole == slot_after(s as int, k as int, n as int),
                hole < n,
                self.ttls == old(self).ttls,
                self.size == old(self).size,
                self.entries@ == shifted(t, s as int, k as int),
                run_length(t, s as int, k as int) == run_length(t, s as int, 0),
                forall|j: int|
                    1 <= j <= k ==> away(t, #[trigger] slot_after(s as int, j, n as int)),
            ensures
                run_length(t, s as int, 0) == k,
                k < n,
                n == t.len(),
                n == self.entries@.len(),
                hole == slot_after(s as int, k as int, n as int),
                hole < n,
                self.ttls == old(self).ttls,
                self.size == old(self).size,
                self.entries@ == shifted(t, s as int, k as int),
            decreases n - k,
        {
            let next: usize = self.next_slot(hole);
            let entry: ConnEntry = self.entries[next];
            proof {
                assert(next == slot_after(s as int, k + 1, n as int));
                assert(offset(s as int, next as int, n as int) == k + 1);
                assert(entry == t[next as int]);
            }
            if !entry.occupied || self.probe_distance(entry.hash, next) == 0 {
                break ;
            }
            proof {
                assert(away(t, next as int));
                assert forall|j: int| 1 <= j <= k + 1 implies away(
                    t,
                    #[trigger] slot_after(s as int, j, n as int),
                ) by {}
                lemma_shifted_occupancy(t, s as int, k + 1);
            }
            self.entries[hole] = entry;
            hole = next;
            k = k + 1;
        }
        proof {
            lemma_removed(t, s as int);
            assert(offset(s as int, hole as int, n as int) == k);
            assert(self.entries@[hole as int] == t[hole as int]);
            lemma_occupancy_bound(t);
        }
        self.entries[hole].occupied = false;
        self.size = self.size - 1;
        assert(self.entries@ =~= removed(t, s as int));
    }

    /// Puts the entry of an untracked flow into a table with a vacant slot.
    fn place(&mut self, new: ConnEntry, Ghost(vacancy): Ghost<int>)
        requires
            old(self).wf(),
            new.occupied,
            !tracks(old(self).entries@, new.hash),
            0 <= vacancy < old(self).entries@.len(),
            !old(self).entries@[slot_after(
                home(new.hash, old(self).entries@.len() as int),
                vacancy,
                old(self).entries@.len() as int,
            )].occupied,
        ensures
            final(self).wf(),
            final(self).ttls == old(self).ttls,
            final(self).entries@ == placed(
                old(self).entries@,
                new,
                home(new.hash, old(self).entries@.len() as int),
                old(self).entries@.len(),
            ),
    {
        let ghost t = self.entries@;
        let n: usize = self.entries.len();
        let mut idx: usize = self.home_slot(new.hash);
        let mut left: usize = n;
        let mut cur: ConnEntry = new;
        let ghost goal = placed(t, new, idx as int, n as nat);
        let ghost mut ahead = vacancy;
        proof {
            lemma_placed_flows(t, new, vacancy);
            lemma_occupancy_bound(t);
            lemma_occupancy_bound(goal);
        }
        while left > 0
            invariant
                n == self.entries@.len(),
                n > 0,
                self.ttls == old(self).ttls,
                self.size == old(self).size,
                left <= n,
                idx < n,
                0 <= ahead < left,
                !self.entries@[slot_after(idx as int, ahead, n as int)].occupied,
                goal == placed(self.entries@, cur, idx as int, left as nat),
                goal == placed(old(self).entries@, new, home(new.hash, n as int), n as nat),
                old(self).entries@.len() == n,
                goal.len() == n,
                orderly(goal),
                occupancy(goal) == old(self).size + 1,
                occupancy(goal) <= n,
            decreases left,
        {
            let entry: ConnEntry = self.entries[idx];
            if !entry.occupied {
                self.entries[idx] = cur;
                self.size = self.size + 1;
                return;
            }
            let next: usize = self.next_slot(idx);
            proof {
                assert(ahead > 0);
                assert(slot_after(idx as int, ahead, n as int) == slot_after(
                    next as int,
                    ahead - 1,
                    n as int,
                ));
            }
            if self.probe_distance(entry.hash, idx) < self.probe_distance(cur.hash, idx) {
                self.entries[idx] = cur;
                cur = entry;
            }
            proof {
                ahead = ahead - 1;
            }
            idx = next;
            left = left - 1;
        }
    }

    /// Insert or update a connection tracking entry.
    ///
    /// Returns an [`InsertResult`] describing what happened, so the caller
    /// can drive eviction/drop metrics without needing the table to keep
    /// internal counters.
    pub fn insert(
        &mut self,
        hash: u64,
        backend_ip: IpAddr,
        proto: FlowProto,
        tcp_state: TcpFlowState,
        now: Instant,
    ) -> (r: InsertResult)
        requires
            old(self).wf(),
        ensures
            final(self).wf(),
            final(self).ttls() == old(self).ttls(),
            (final(self).slots(), r) == inserted(
                old(self).slots(),
                (ConnEntry { hash, backend_ip, last_seen: now, proto, tcp_state, occupied: true }),
                old(self).ttls(),
                now,
            ),
    {
        let new = ConnEntry { hash, backend_ip, last_seen: now, proto, tcp_state, occupied: true };
        let ghost t = self.entries@;
        let ghost n = t.len() as int;
        let ghost start = home(hash, n);
        proof {
            lemma_home(hash, n);
            ordered_lookup(t, hash);
        }
        if let Some(i) = self.find(hash) {
            let entry: ConnEntry = self.entries[i];
            if self.is_expired(&entry, now) {
                self.set_slot(i, new);
                return InsertResult::EvictedExpired;
            }
            let updated = ConnEntry {
                hash: entry.hash,
                backend_ip,
                last_seen: now,
                proto,
                tcp_state: promote_state(entry.tcp_state, tcp_state),
                occupied: entry.occupied,
            };
            self.set_slot(i, updated);
            return InsertResult::Updated;
        }
        proof {
            lemma_claimable_slot(t, start, 0, self.ttls, now);
        }
        match self.find_claimable(hash, now) {
            Some(i) => {
                if self.entries[i].occupied {
                    self.remove_slot(i);
                    let ghost free = slot_after(i as int, run_length(t, i as int, 0), n);
                    proof {
                        lemma_removed(t, i as int);
                        assert(slot_after(start, offset(start, free, n), n) == free);
                        let v = self.entries@;
                        if tracks(v, hash) {
                            let j = choose|j: int|
                                0 <= j < v.len() && (#[trigger] v[j]).occupied && v[j].hash == hash;
                            assert(holds(v, v[j]));
                            assert(holds(t, v[j]));
                        }
                    }
                    self.place(new, Ghost(offset(start, free, n)));
                    InsertResult::EvictedExpired
                } else {
                    self.place(new, Ghost(offset(start, i as int, n)));
                    InsertResult::Inserted
                }
            },
            None => InsertResult::DroppedFull,
        }
    }

    /// Replaces the entry in an occupied slot by one of the same flow.
    fn set_slot(&mut self, i: usize, e: ConnEntry)
        requires
            old(self).wf(),
            i < old(self).entries@.len(),
            old(self).entries@[i as int].occupied,
            e.occupied,
            e.hash == old(self).entries@[i as int].hash,
        ensures
            final(self).wf(),
            final(self).ttls == old(self).ttls,
            final(self).entries@ == old(self).entries@.update(i as int, e),
    {
        proof {
            lemma_occupancy_update(self.entries@, i as int, e);
            lemma_replace_entry(self.entries@, i as int, e);
        }
        self.entries[i] = e;
    }

    /// Touch an entry to refresh its timestamp (on cache hit).
    pub fn touch(&mut self, hash: u64, now: Instant)
        requires
            old(self).wf(),
        ensures
            final(self).wf(),
            final(self).ttls() == old(self).ttls(),
            final(self).slots() == touched(old(self).slots(), hash, now),
    {
        if let Some(i) = self.find(hash) {
            let mut e: ConnEntry = self.entries[i];
            e.last_seen = now;
            self.set_slot(i, e);
        }
    }

    /// Promote a matching TCP flow to `Established`. No-op if the flow is not
    /// present or is already in `Closing` (a closing flow must not be
    /// resurrected by a late SYN-ACK retransmit).
    pub fn mark_established(&mut self, hash: u64, now: Instant)
        requires
            old(self).wf(),
        ensures
            final(self).wf(),
            final(self).ttls() == old(self).ttls(),
            final(self).slots() == marked_established(old(self).slots(), hash, now),
    {
        if let Some(i) = self.find(hash) {
            let mut e: ConnEntry = self.entries[i];
            if e.proto == FlowProto::Tcp && e.tcp_state != TcpFlowState::Closing {
                e.tcp_state = TcpFlowState::Established;
                e.last_seen = now;
                self.set_slot(i, e);
            }
        }
    }

    /// Move a matching TCP flow to `Closing` so it expires on the short TTL.
    /// No-op if the flow is not present.
    pub fn mark_closing(&mut self, hash: u64, now: Instant)
        requires
            old(self).wf(),
        ensures
            final(self).wf(),
            final(self).ttls() == old(self).ttls(),
            final(self).slots() == marked_closing(old(self).slots(), hash, now),
    {
        if let Some(i) = self.find(hash) {
            let mut e: ConnEntry = self.entries[i];
            if e.proto == FlowProto::Tcp {
                e.tcp_state = TcpFlowState::Closing;
                e.last_seen = now;
                self.set_slot(i, e);
            }
        }
    }

    /// Current number of occupied entries.
    pub fn len(&self) -> (n: usize)
        requires
            self.wf(),
        ensures
            n == occupancy(self.slots()),
            n <= self.slots().len(),
    {
        proof {
            lemma_occupancy_bound(self.entries@);
        }
        self.size
    }

    pub fn is_empty(&self) -> (b: bool)
        requires
            self.wf(),
        ensures
            b == (occupancy(self.slots()) == 0),
    {
        self.size == 0
    }

    /// Fill ratio in basis points (parts per 10 000). Cheap integer maths,
    /// safe to call once per batch for a Prometheus gauge.
    pub fn fill_bp(&self) -> (bp: i64)
        requires
            self.wf(),
        ensures
            bp == occupancy(self.slots()) as int * 10_000 / self.slots().len() as int,
            0 <= bp <= 10_000,
    {
        proof {
            lemma_occupancy_bound(self.entries@);
            let s = self.size as int;
            let n = self.entries@.len() as int;
            lemma_div_is_ordered(s * 10_000, n * 10_000, n);
            lemma_div_by_multiple(10_000, n);
            lemma_div_pos_is_pos(s * 10_000, n);
        }
        (self.size as u128 * 10_000 / self.entries.len() as u128) as i64
    }
}

/// Rule for merging an existing TCP state with an incoming one on duplicate
/// insert. `Closing` is terminal; `Established` beats `Handshake`.
pub fn promote_state(existing: TcpFlowState, incoming: TcpFlowState) -> (r: TcpFlowState)
    ensures
        r == promoted(existing, incoming),
{
    match (existing, incoming) {
        (TcpFlowState::Closing, _) | (_, TcpFlowState::Closing) => TcpFlowState::Closing,
        (TcpFlowState::Established, _) | (_, TcpFlowState::Established) =>
            TcpFlowState::Established,
        (TcpFlowState::NotTcp, _) | (_, TcpFlowState::NotTcp) => TcpFlowState::NotTcp,
        _ => TcpFlowState::Handshake,
    }
}

} // verus!
