//! How packets travel from stage to stage, and what is counted on the way.

use vstd::arithmetic::div_mod::{
    lemma_fundamental_div_mod, lemma_fundamental_div_mod_converse, lemma_mod_bound,
};
use vstd::prelude::*;

use crate::base::hash::xxh3_digest;
use crate::base::net::IpAddr;
use crate::base::time::Instant;
use crate::forwarder::arena::{
    full_capacities, muxed, muxed_frames, muxed_packets, oversized_in_work, rewritten, steered,
    taken, ArenaState,
};
use crate::forwarder::conn_table::{
    inserted, insertion_is_found, insertion_needs_a_slot, occupancy, orderly, pinned_backend,
    ConnEntry,
};
use crate::forwarder::engine::{cycled, with_sent};
use crate::forwarder::fragment_table::{fragment_entry, uniform_ttls};
use crate::forwarder::icmp::{too_big_for_tunnel, VipLimits};
use crate::forwarder::metrics::{counted, counts_between, ForwarderCounts};
use crate::forwarder::pipeline::{
    all_freed, collected, frames_needed, freed, rewrite, rewrite_run, rewrite_step, room_at,
    steer_run, steer_step, taken_of, worker_gauges, RewriteStage, SteerStage, WorkerState,
};
use crate::forwarder::rewriter::{
    process_all, table_gauges, with_gauges, ForwardingView, RewriterState,
};
use crate::forwarder::steering::{
    lemma_choice_in_range, lemma_queue_mark, queue_mark, steer_choice, steer_choices,
    SteeringState,
};
use crate::forwarder::vip_matcher::{entries_map, VipKey};
use crate::laws::forwarding::{carries_a_flow, fragment_hash_of_bytes, has_room, hash_of_bytes};
use crate::laws::packets::{
    flow_key_is_cut_from_the_packet, fragments_stand_in_the_header, ipv4_flow_stands_in_the_header,
    ipv6_flow_key_is_cut_from_the_packet, ipv6_flow_stands_in_the_header,
};
use crate::laws::tracking::pins_last_for_their_ttl;
use crate::laws::tunnel::oversized_is_told_by_the_header;
use crate::types::backend::BackendPoolId;
use crate::types::vip::Protocol;

verus! {

/// Of the entries for one destination the last counts, and a destination without
/// an entry has no pool.
pub proof fn last_entry_of_a_destination_counts(
    entries: Seq<(IpAddr, Protocol, u16, BackendPoolId)>,
    k: VipKey,
    i: int,
)
    ensures
        entries_map(entries).contains_key(k) <==> exists|j: int|
            0 <= j < entries.len() && (#[trigger] entries[j]).0 == k.ip && entries[j].1 == k.protocol
                && entries[j].2 == k.port,
        0 <= i < entries.len() && entries[i].0 == k.ip && entries[i].1 == k.protocol && entries[i].2
            == k.port && (forall|j: int|
            i < j < entries.len() ==> !((#[trigger] entries[j]).0 == k.ip && entries[j].1
                == k.protocol && entries[j].2 == k.port)) ==> entries_map(entries)[k]
            == entries[i].3,
    decreases entries.len(),
{
    if entries.len() > 0 {
        let r = entries.drop_last();
        last_entry_of_a_destination_counts(r, k, i);
        assert(entries[entries.len() - 1] == entries.last());
        assert(forall|j: int| 0 <= j < r.len() ==> #[trigger] r[j] == entries[j]);
        if exists|j: int|
            0 <= j < entries.len() && (#[trigger] entries[j]).0 == k.ip && entries[j].1 == k.protocol
                && entries[j].2 == k.port {
            let j = choose|j: int|
                0 <= j < entries.len() && (#[trigger] entries[j]).0 == k.ip && entries[j].1
                    == k.protocol && entries[j].2 == k.port;
            if j < r.len() {
                assert(r[j] == entries[j]);
            }
        }
        if entries_map(r).contains_key(k) {
            let j = choose|j: int|
                0 <= j < r.len() && (#[trigger] r[j]).0 == k.ip && r[j].1 == k.protocol && r[j].2
                    == k.port;
            assert(entries[j] == r[j]);
        }
    }
}

/// A packet that is not a later fragment goes to the queue that its flow hash
/// leaves when the number of queues is taken off as often as it goes; a packet
/// that belongs to no flow goes to the first queue. Nothing is noted of a packet
/// that is not a fragment.
pub proof fn flows_are_spread_by_their_hash(
    s: SteeringState,
    d: Seq<u8>,
    num_queues: int,
    now: Instant,
    q: int,
    c: int,
)
    requires
        0 <= c < num_queues,
        d.len() < 20 || (d[6] % 32 == 0 && d[7] == 0) || d[0] / 16 != 4,
    ensures
        carries_a_flow(d) && hash_of_bytes(d) == q * num_queues + c ==> steer_choice(
            s,
            d,
            num_queues,
            now,
        ).1 == c,
        d.len() == 0 || (d[0] / 16 == 4 && !carries_a_flow(d)) || (d[0] / 16 == 6 && (d.len() < 44
            || (d[6] != 6 && d[6] != 17))) || (d[0] / 16 != 4 && d[0] / 16 != 6) ==> steer_choice(
            s,
            d,
            num_queues,
            now,
        ).1 == 0,
        d.len() >= 44 && d[0] / 16 == 6 && (d[6] == 6 || d[6] == 17)
            && xxh3_digest(d.subrange(8, 44) + seq![d[6]]) == q * num_queues + c
            ==> steer_choice(s, d, num_queues, now).1 == c,
        d.len() < 20 || (d[6] / 32) % 2 == 0 ==> steer_choice(s, d, num_queues, now).0 == s,
{
    fragments_stand_in_the_header(d);
    ipv4_flow_stands_in_the_header(d);
    ipv6_flow_stands_in_the_header(d);
    if carries_a_flow(d) {
        flow_key_is_cut_from_the_packet(d);
        if hash_of_bytes(d) == q * num_queues + c {
            lemma_fundamental_div_mod_converse(hash_of_bytes(d) as int, num_queues, q, c);
        }
    }
    if d.len() >= 44 && d[0] / 16 == 6 && (d[6] == 6 || d[6] == 17) {
        ipv6_flow_key_is_cut_from_the_packet(d);
        let h = xxh3_digest(d.subrange(8, 44) + seq![d[6]]);
        if h == q * num_queues + c {
            lemma_fundamental_div_mod_converse(h as int, num_queues, q, c);
        }
    }
}

/// Steering sends a later fragment where the first one went: if the first was
/// noted and the later one, of the same packet, comes within the TTL, both go to
/// the same queue.
#[verifier::spinoff_prover]
pub proof fn fragments_are_steered_alike(
    s: SteeringState,
    first: Seq<u8>,
    later: Seq<u8>,
    num_queues: int,
    now: Instant,
    then: Instant,
)
    requires
        0 < num_queues <= 0x1_0000_0000,
        s.fragments.len() > 0,
        orderly(s.fragments),
        first.len() >= 20 && first[0] / 16 == 4,
        first[6] % 32 == 0 && first[7] == 0 && (first[6] / 32) % 2 == 1,
        later.len() >= 20 && later[0] / 16 == 4,
        later[6] % 32 != 0 || later[7] != 0,
        later.subrange(4, 6) == first.subrange(4, 6),
        later.subrange(12, 20) == first.subrange(12, 20),
        has_room(s.fragments, uniform_ttls(s.ttl), fragment_hash_of_bytes(first), now),
        then.nanos <= now.nanos + s.ttl.nanos,
    ensures
        ({
            let (after, q) = steer_choice(s, first, num_queues, now);
            &&& steer_choice(after, later, num_queues, then) == (after, q)
        }),
{
    fragments_stand_in_the_header(first);
    fragments_stand_in_the_header(later);
    assert(later.subrange(12, 16) =~= later.subrange(12, 20).take(4));
    assert(first.subrange(12, 16) =~= first.subrange(12, 20).take(4));
    assert(later.subrange(16, 20) =~= later.subrange(12, 20).skip(4));
    assert(first.subrange(16, 20) =~= first.subrange(12, 20).skip(4));
    let hash = fragment_hash_of_bytes(first);
    let (after, q) = steer_choice(s, first, num_queues, now);
    lemma_choice_in_range(s, first, num_queues, now);
    lemma_queue_mark(q);
    let ttls = uniform_ttls(s.ttl);
    let entry = fragment_entry(hash, queue_mark(q), now);
    insertion_is_found(s.fragments, entry, ttls, now);
    insertion_needs_a_slot(s.fragments, entry, ttls, now);
    let t = inserted(s.fragments, entry, ttls, now).0;
    pins_last_for_their_ttl(t, hash, ttls, then);
}

/// A later fragment whose first one is not known goes by its own hash.
pub proof fn stray_fragments_are_spread_by_their_hash(
    s: SteeringState,
    d: Seq<u8>,
    num_queues: int,
    now: Instant,
    q: int,
    c: int,
)
    requires
        0 <= c < num_queues,
        d.len() >= 20 && d[0] / 16 == 4,
        d[6] % 32 != 0 || d[7] != 0,
        pinned_backend(s.fragments, fragment_hash_of_bytes(d), uniform_ttls(s.ttl), now) is None,
        fragment_hash_of_bytes(d) == q * num_queues + c,
    ensures
        steer_choice(s, d, num_queues, now) == (s, c),
{
    fragments_stand_in_the_header(d);
    lemma_fundamental_div_mod_converse(fragment_hash_of_bytes(d) as int, num_queues, q, c);
}

/// Packets are steered one by one, each with what those before it left.
pub proof fn packets_are_steered_in_order(
    s: SteeringState,
    inputs: Seq<Seq<u8>>,
    d: Seq<u8>,
    num_queues: int,
    now: Instant,
)
    ensures
        steer_choices(s, Seq::empty(), num_queues, now) == (s, Seq::<int>::empty()),
        ({
            let (s1, queues) = steer_choices(s, inputs, num_queues, now);
            let (s2, q) = steer_choice(s1, d, num_queues, now);
            steer_choices(s, inputs.push(d), num_queues, now) == (s2, queues.push(q))
        }),
{
    assert(inputs.push(d).drop_last() =~= inputs);
    assert(inputs.push(d).last() == d);
}

/// A received packet is put, as it came, into the frame that has been free
/// longest, and the frame at the end of its queue; if the queue is full the frame
/// is free again, and without a free frame nothing changes. No other frame and no
/// other queue is touched.
pub proof fn received_packets_are_queued(
    s: SteerStage,
    d: Seq<u8>,
    q: int,
    capacities: Seq<nat>,
    other: int,
    k: int,
)
    requires
        0 <= q < s.queues.len(),
        forall|i: int| 0 <= i < s.free.len() ==> (#[trigger] s.free[i]) < s.packets.len(),
        s.free.len() <= s.packets.len(),
    ensures
        ({
            let r = steer_step(s, d, q, capacities);
            &&& r.packets.len() == s.packets.len() && r.queues.len() == s.queues.len()
            &&& s.free.len() == 0 ==> r == s
            &&& s.free.len() > 0 ==> {
                let idx = s.free[0];
                &&& r.packets[idx as int] == d
                &&& 0 <= other < s.packets.len() && other != idx ==> r.packets[other]
                    == s.packets[other]
                &&& 0 <= k < s.queues.len() && k != q ==> r.queues[k] == s.queues[k]
                &&& s.queues[q].len() < capacities[q] ==> r.queues[q] == s.queues[q].push(idx)
                    && r.free == s.free.drop_first()
                &&& s.queues[q].len() >= capacities[q] ==> r.queues[q] == s.queues[q] && r.free
                    == s.free.drop_first().push(idx)
            }
        }),
{
    if s.free.len() > 0 {
        assert(s.free[0] < s.packets.len());
    }
}

/// What a rewriter does with a frame: if its packet is to be sent, the frame
/// holds what is sent and goes to the end of the outgoing queue; if not, or if
/// that queue is full, the frame is free again. No other frame is touched.
pub proof fn rewritten_frames_are_queued_or_freed(
    b: RewriteStage,
    idx: u32,
    tx_capacity: nat,
    v: ForwardingView,
    now: Instant,
    other: int,
)
    requires
        idx < b.packets.len(),
        b.free.len() < b.packets.len(),
    ensures
        ({
            let r = rewrite_step(b, idx, tx_capacity, v, now);
            let (w, left, out) = rewrite(b.worker, b.limits, b.packets[idx as int], v, now);
            &&& r.worker == w && r.limits == left
            &&& r.packets.len() == b.packets.len()
            &&& 0 <= other < b.packets.len() && other != idx ==> r.packets[other]
                == b.packets[other]
            &&& out matches Some(p) ==> r.packets[idx as int] == p
            &&& out is Some && b.tx.len() < tx_capacity ==> r.tx == b.tx.push(idx) && r.free
                == b.free
            &&& out is None || b.tx.len() >= tx_capacity ==> r.tx == b.tx && r.free == b.free.push(
                idx,
            )
        }),
{
}

/// A rewriter works on its frames one by one, in order.
pub proof fn frames_are_rewritten_in_order(
    b: RewriteStage,
    indices: Seq<u32>,
    idx: u32,
    tx_capacity: nat,
    v: ForwardingView,
    now: Instant,
)
    ensures
        rewrite_run(b, Seq::empty(), tx_capacity, v, now) == b,
        rewrite_run(b, indices.push(idx), tx_capacity, v, now) == rewrite_step(
            rewrite_run(b, indices, tx_capacity, v, now),
            idx,
            tx_capacity,
            v,
            now,
        ),
{
    assert(indices.push(idx).drop_last() =~= indices);
    assert(indices.push(idx).last() == idx);
}

/// Received packets are queued one by one, in order.
pub proof fn packets_are_queued_in_order(
    s: SteerStage,
    inputs: Seq<Seq<u8>>,
    targets: Seq<int>,
    d: Seq<u8>,
    q: int,
    capacities: Seq<nat>,
)
    ensures
        steer_run(s, Seq::empty(), targets, capacities) == s,
        steer_run(s, inputs.push(d), targets.push(q), capacities) == steer_step(
            steer_run(s, inputs, targets, capacities),
            d,
            q,
            capacities,
        ),
{
    assert(inputs.push(d).drop_last() =~= inputs);
    assert(targets.push(q).drop_last() =~= targets);
    assert(inputs.push(d).last() == d);
    assert(targets.push(q).last() == q);
}

/// The first `j` queues, one behind the other.
pub open spec fn end_to_end(queues: Seq<Seq<u32>>, j: int) -> Seq<u32>
    decreases j,
{
    if j <= 0 {
        Seq::empty()
    } else {
        end_to_end(queues, j - 1) + queues[j - 1]
    }
}

/// A batch of the muxer is the beginning of the outgoing queues, put end to end:
/// as much as fits the batch, and all of it if that is less.
pub proof fn batches_are_taken_from_the_front(queues: Seq<Seq<u32>>, batch_size: int, j: int)
    requires
        0 <= j <= queues.len(),
        batch_size >= 0,
    ensures
        ({
            let all = end_to_end(queues, j);
            let n = if batch_size < all.len() {
                batch_size
            } else {
                all.len() as int
            };
            collected(queues, batch_size, j) == all.take(n)
        }),
        room_at(queues, batch_size, j) == (if batch_size < end_to_end(queues, j).len() {
            0
        } else {
            batch_size - end_to_end(queues, j).len()
        }),
    decreases j,
{
    let all = end_to_end(queues, j);
    if j > 0 {
        batches_are_taken_from_the_front(queues, batch_size, j - 1);
        let p = end_to_end(queues, j - 1);
        let k = taken_of(queues, batch_size, j - 1);
        let n = if batch_size < all.len() {
            batch_size
        } else {
            all.len() as int
        };
        assert(collected(queues, batch_size, j) =~= all.take(n));
    } else {
        assert(collected(queues, batch_size, j) =~= all.take(0));
    }
}

/// What a round of the muxer leaves in a queue is what it did not take, and what
/// it hands out is what the frames hold.
pub proof fn muxing_leaves_the_rest(s: ArenaState, batch_size: int, j: int, k: int)
    requires
        0 <= j < s.tx.len(),
        batch_size >= 0,
    ensures
        ({
            let r = muxed(s, batch_size);
            let before = end_to_end(s.tx, j).len();
            let room = if batch_size < before {
                0
            } else {
                batch_size - before
            };
            &&& r.tx.len() == s.tx.len()
            &&& r.tx[j] == s.tx[j].skip(if room < s.tx[j].len() {
                room
            } else {
                s.tx[j].len() as int
            })
            &&& r.free == s.free + muxed_frames(s, batch_size)
            &&& r.packets == s.packets && r.rx == s.rx && r.working == s.working && r.steering
                == s.steering
            &&& muxed_packets(s, batch_size).len() == muxed_frames(s, batch_size).len()
            &&& 0 <= k < muxed_frames(s, batch_size).len() ==> muxed_packets(s, batch_size)[k]
                == s.packets[muxed_frames(s, batch_size)[k] as int]
            &&& muxed_frames(s, batch_size) == collected(s.tx, batch_size, s.tx.len() as int)
        }),
{
    batches_are_taken_from_the_front(s.tx, batch_size, j);
}

/// A rewriter takes the first 64 frames of its queue, or all of them if there are
/// fewer, and none while it has some in work; no other rewriter's frames move.
pub proof fn rewriters_take_from_the_front(s: ArenaState, i: int, other: int)
    requires
        0 <= i < s.rx.len(),
        s.working.len() == s.rx.len(),
    ensures
        ({
            let r = taken(s, i);
            let n = if s.rx[i].len() < 64 {
                s.rx[i].len() as int
            } else {
                64
            };
            &&& s.working[i].len() > 0 ==> r == s
            &&& s.working[i].len() == 0 ==> {
                &&& r.working[i] == s.rx[i].take(n)
                &&& r.rx[i] == s.rx[i].skip(n)
                &&& 0 <= other < s.rx.len() && other != i ==> r.rx[other] == s.rx[other]
                    && r.working[other] == s.working[other]
                &&& r.packets == s.packets && r.free == s.free && r.tx == s.tx && r.steering
                    == s.steering
            }
        }),
{
}

/// A freed frame goes to the end of the free list, unless that is full.
pub proof fn freed_frames_come_last(free: Seq<u32>, indices: Seq<u32>, idx: u32, cap: nat)
    ensures
        free.len() < cap ==> freed(free, idx, cap) == free.push(idx),
        free.len() >= cap ==> freed(free, idx, cap) == free,
        free.len() + indices.len() <= cap ==> all_freed(free, indices, cap) == free + indices,
    decreases indices.len(),
{
    if indices.len() == 0 {
        assert(free + indices =~= free);
    } else {
        freed_frames_come_last(free, indices.drop_last(), idx, cap);
        if free.len() + indices.len() <= cap {
            assert((free + indices.drop_last()).push(indices.last()) =~= free + indices);
        }
    }
}

/// The packet pool holds a frame for everything in flight: two queues of 4096
/// frames for each rewriter and two batches.
pub proof fn pool_covers_what_is_in_flight(num_rewriters: int, batch_size: int)
    ensures
        num_rewriters >= 1 ==> frames_needed(num_rewriters, batch_size) == 8192 * num_rewriters + 2
            * batch_size,
        num_rewriters < 1 ==> frames_needed(num_rewriters, batch_size) == 8192 + 2 * batch_size,
{
}

/// A cycle without packets changes nothing and sends nothing; otherwise the
/// packets are processed and the gauges show how full the connection table is
/// then. A batch to send is handed over exactly if it is not empty.
pub proof fn cycles_process_what_comes(
    s: RewriterState,
    inputs: Seq<Seq<u8>>,
    v: ForwardingView,
    now: Instant,
    handed: Seq<Seq<Seq<u8>>>,
    sent: Seq<Seq<u8>>,
)
    ensures
        cycled(s, Seq::empty(), v, now) == (s, Seq::<Seq<u8>>::empty()),
        inputs.len() > 0 ==> {
            let (t, out) = process_all(s, inputs, v, now);
            let (r, batch) = cycled(s, inputs, v, now);
            &&& batch == out
            &&& r == RewriterState { metrics: r.metrics, ..t }
            &&& r.metrics == ForwarderCounts {
                conn_table_size: r.metrics.conn_table_size,
                conn_table_fill_bp: r.metrics.conn_table_fill_bp,
                ..t.metrics
            }
            &&& 0 < t.conns.len() <= 0x7fff_ffff_ffff_ffff && occupancy(t.conns) * 10_000
                <= 0x7fff_ffff_ffff_ffff ==> {
                &&& r.metrics.conn_table_size == occupancy(t.conns)
                &&& r.metrics.conn_table_fill_bp * t.conns.len() <= occupancy(t.conns) * 10_000 < (
                r.metrics.conn_table_fill_bp + 1) * t.conns.len()
            }
        },
        sent.len() > 0 ==> with_sent(handed, sent) == handed.push(sent),
        sent.len() == 0 ==> with_sent(handed, sent) == handed,
{
    let (t, _) = process_all(s, inputs, v, now);
    if 0 < t.conns.len() <= 0x7fff_ffff_ffff_ffff && occupancy(t.conns) * 10_000
        <= 0x7fff_ffff_ffff_ffff {
        gauges_show_the_fill(t.metrics, t.conns);
    }
}

/// The gauges of a connection table show how many of its slots are taken, and how
/// many in ten thousand, rounded down.
pub proof fn gauges_show_the_fill(m: ForwarderCounts, t: Seq<ConnEntry>)
    requires
        0 < t.len() <= 0x7fff_ffff_ffff_ffff,
        occupancy(t) * 10_000 <= 0x7fff_ffff_ffff_ffff,
    ensures
        ({
            let n = table_gauges(m, t);
            let used = occupancy(t) as int;
            &&& n.conn_table_size == used
            &&& n.conn_table_fill_bp * t.len() <= used * 10_000 < (n.conn_table_fill_bp + 1)
                * t.len()
            &&& n == ForwarderCounts {
                conn_table_size: n.conn_table_size,
                conn_table_fill_bp: n.conn_table_fill_bp,
                ..m
            }
        }),
{
    let used = occupancy(t) as int;
    let len = t.len() as int;
    let bp = used * 10_000 / len;
    lemma_fundamental_div_mod(used * 10_000, len);
    lemma_mod_bound(used * 10_000, len);
    assert(0 <= bp <= used * 10_000) by (nonlinear_arith)
        requires
            used * 10_000 == len * bp + used * 10_000 % len,
            0 <= used * 10_000 % len < len,
            len > 0,
            used >= 0,
            bp == used * 10_000 / len,
    ;
    assert(bp * len <= used * 10_000 < (bp + 1) * len) by (nonlinear_arith)
        requires
            used * 10_000 == len * bp + used * 10_000 % len,
            0 <= used * 10_000 % len < len,
    ;
}

/// After a batch, whoever worked on it shows how full its own connection table is,
/// and is otherwise as the batch left it.
pub proof fn batches_end_with_the_fill(w: WorkerState, s: RewriterState)
    requires
        0 < w.conns.len() <= 0x7fff_ffff_ffff_ffff,
        occupancy(w.conns) * 10_000 <= 0x7fff_ffff_ffff_ffff,
        0 < s.conns.len() <= 0x7fff_ffff_ffff_ffff,
        occupancy(s.conns) * 10_000 <= 0x7fff_ffff_ffff_ffff,
    ensures
        ({
            let m = worker_gauges(w).metrics;
            &&& m.conn_table_size == occupancy(w.conns)
            &&& m.conn_table_fill_bp * w.conns.len() <= occupancy(w.conns) * 10_000 < (
            m.conn_table_fill_bp + 1) * w.conns.len()
            &&& m == ForwarderCounts {
                conn_table_size: m.conn_table_size,
                conn_table_fill_bp: m.conn_table_fill_bp,
                ..w.metrics
            }
            &&& worker_gauges(w) == WorkerState { metrics: m, ..w }
        }),
        ({
            let m = with_gauges(s).metrics;
            &&& m.conn_table_size == occupancy(s.conns)
            &&& m.conn_table_fill_bp * s.conns.len() <= occupancy(s.conns) * 10_000 < (
            m.conn_table_fill_bp + 1) * s.conns.len()
            &&& m == ForwarderCounts {
                conn_table_size: m.conn_table_size,
                conn_table_fill_bp: m.conn_table_fill_bp,
                ..s.metrics
            }
            &&& with_gauges(s) == RewriterState { metrics: m, ..s }
        }),
{
    gauges_show_the_fill(w.metrics, w.conns);
    gauges_show_the_fill(s.metrics, s.conns);
}

/// The occupancy counts the slots that are taken, one by one.
pub proof fn occupancy_counts_slots(t: Seq<ConnEntry>, e: ConnEntry)
    ensures
        occupancy(Seq::<ConnEntry>::empty()) == 0,
        occupancy(t.push(e)) == occupancy(t) + (if e.occupied {
            1nat
        } else {
            0nat
        }),
{
    assert(t.push(e).drop_last() =~= t);
}

/// One event takes a counter one further, the last value back to zero.
pub proof fn counters_wrap_around(n: u64)
    ensures
        counted(n) == (n + 1) % 0x1_0000_0000_0000_0000,
{
}

/// What was counted between two times, added to what had been counted before,
/// gives what has been counted since, for every counter; gauges are as they are.
pub proof fn counts_add_up(from: ForwarderCounts, to: ForwarderCounts)
    ensures
        ({
            let d = counts_between(from, to);
            let wrap = 0x1_0000_0000_0000_0000int;
            &&& (from.packets_received + d.packets_received) % wrap == to.packets_received
            &&& (from.packets_forwarded + d.packets_forwarded) % wrap == to.packets_forwarded
            &&& (from.packets_dropped + d.packets_dropped) % wrap == to.packets_dropped
            &&& (from.conn_table_hits + d.conn_table_hits) % wrap == to.conn_table_hits
            &&& (from.conn_table_misses + d.conn_table_misses) % wrap == to.conn_table_misses
            &&& (from.conn_table_inserts_total + d.conn_table_inserts_total) % wrap
                == to.conn_table_inserts_total
            &&& (from.eviction_expired_on_insert + d.eviction_expired_on_insert) % wrap
                == to.eviction_expired_on_insert
            &&& (from.eviction_dropped_full + d.eviction_dropped_full) % wrap
                == to.eviction_dropped_full
            &&& (from.tcp_transition_established + d.tcp_transition_established) % wrap
                == to.tcp_transition_established
            &&& (from.tcp_transition_closing_fin + d.tcp_transition_closing_fin) % wrap
                == to.tcp_transition_closing_fin
            &&& (from.tcp_transition_closing_rst + d.tcp_transition_closing_rst) % wrap
                == to.tcp_transition_closing_rst
            &&& (from.conn_table_fallback_to_maglev_total + d.conn_table_fallback_to_maglev_total)
                % wrap == to.conn_table_fallback_to_maglev_total
            &&& (from.mss_clamp_total + d.mss_clamp_total) % wrap == to.mss_clamp_total
            &&& (from.mss_clamp_noop_total + d.mss_clamp_noop_total) % wrap
                == to.mss_clamp_noop_total
            &&& (from.mss_clamp_missing_total + d.mss_clamp_missing_total) % wrap
                == to.mss_clamp_missing_total
            &&& (from.icmp_frag_needed_sent_total + d.icmp_frag_needed_sent_total) % wrap
                == to.icmp_frag_needed_sent_total
            &&& (from.icmp_frag_needed_ratelimited_total + d.icmp_frag_needed_ratelimited_total)
                % wrap == to.icmp_frag_needed_ratelimited_total
            &&& (from.packets_oversized_dropped_total + d.packets_oversized_dropped_total) % wrap
                == to.packets_oversized_dropped_total
            &&& (from.fragment_first_total + d.fragment_first_total) % wrap
                == to.fragment_first_total
            &&& (from.fragment_subsequent_forwarded_total + d.fragment_subsequent_forwarded_total)
                % wrap == to.fragment_subsequent_forwarded_total
            &&& (from.fragment_drop_no_mapping_total + d.fragment_drop_no_mapping_total) % wrap
                == to.fragment_drop_no_mapping_total
            &&& d.conn_table_size == to.conn_table_size
            &&& d.conn_table_fill_bp == to.conn_table_fill_bp
        }),
{
}

/// The arena steers packets one by one: each is queued, in a queue of at most 4096
/// frames, for the rewriter that steering chooses.
pub proof fn arena_steers_in_order(s: ArenaState, inputs: Seq<Seq<u8>>, d: Seq<u8>, now: Instant)
    ensures
        steered(s, Seq::empty(), now) == s,
        ({
            let t = steered(s, inputs, now);
            let (steering, q) = steer_choice(t.steering, d, s.rx.len() as int, now);
            let r = steer_step(
                SteerStage { packets: t.packets, free: t.free, queues: t.rx },
                d,
                q,
                Seq::new(s.rx.len(), |i: int| 4096nat),
            );
            steered(s, inputs.push(d), now) == ArenaState {
                packets: r.packets,
                free: r.free,
                rx: r.queues,
                steering,
                ..s
            }
        }),
{
    let n = s.rx.len() as int;
    let (_, targets) = steer_choices(s.steering, inputs, n, now);
    packets_are_steered_in_order(s.steering, inputs, d, n, now);
    let caps = Seq::new(s.rx.len(), |i: int| 4096nat);
    assert(full_capacities(s.rx.len()) =~= caps);
    let (s1, _) = steer_choices(s.steering, inputs, n, now);
    let (_, q) = steer_choice(s1, d, n, now);
    packets_are_queued_in_order(
        SteerStage { packets: s.packets, free: s.free, queues: s.rx },
        inputs,
        targets,
        d,
        q,
        caps,
    );
}

/// A rewriter works on what it has taken, with an outgoing queue of at most 4096
/// frames, and has nothing in work afterwards; no other rewriter's frames move.
pub proof fn arena_rewrites_what_is_in_work(
    s: ArenaState,
    i: int,
    w: WorkerState,
    limits: VipLimits,
    v: ForwardingView,
    now: Instant,
    other: int,
)
    requires
        0 <= i < s.tx.len(),
        s.working.len() == s.tx.len(),
    ensures
        ({
            let r = rewritten(s, i, w, limits, v, now);
            let b = rewrite_run(
                RewriteStage { worker: w, limits, packets: s.packets, free: s.free, tx: s.tx[i] },
                s.working[i],
                4096,
                v,
                now,
            );
            &&& r.packets == b.packets && r.free == b.free && r.tx[i] == b.tx
            &&& r.working[i].len() == 0
            &&& 0 <= other < s.tx.len() && other != i ==> r.tx[other] == s.tx[other]
                && r.working[other] == s.working[other]
            &&& r.rx == s.rx && r.steering == s.steering
        }),
{
}

/// A rewriter has an oversized packet in work if one of its frames holds an IPv4
/// packet that must not be fragmented and leaves no room for the tunnel headers.
pub proof fn oversized_packets_are_noticed(s: ArenaState, i: int, network_mtu: u16)
    ensures
        oversized_in_work(s, i, network_mtu) <==> exists|k: int|
            0 <= k < s.working[i].len() && {
                let d = s.packets[(#[trigger] s.working[i][k]) as int];
                d.len() >= 20 && d[0] / 16 == 4 && (d[6] / 64) % 2 == 1 && d[2] * 256 + d[3] + 24
                    > network_mtu
            },
{
    if oversized_in_work(s, i, network_mtu) {
        let k = choose|k: int|
            0 <= k < s.working[i].len() && too_big_for_tunnel(
                s.packets[(#[trigger] s.working[i][k]) as int],
                network_mtu,
            );
        let d = s.packets[s.working[i][k] as int];
        oversized_is_told_by_the_header(d, network_mtu);
        assert(d.len() >= 20 && d[0] / 16 == 4 && (d[6] / 64) % 2 == 1 && d[2] * 256 + d[3] + 24
            > network_mtu);
    }
    if exists|k: int|
        0 <= k < s.working[i].len() && {
            let d = s.packets[(#[trigger] s.working[i][k]) as int];
            d.len() >= 20 && d[0] / 16 == 4 && (d[6] / 64) % 2 == 1 && d[2] * 256 + d[3] + 24
                > network_mtu
        } {
        let k = choose|k: int|
            0 <= k < s.working[i].len() && {
                let d = s.packets[(#[trigger] s.working[i][k]) as int];
                d.len() >= 20 && d[0] / 16 == 4 && (d[6] / 64) % 2 == 1 && d[2] * 256 + d[3] + 24
                    > network_mtu
            };
        oversized_is_told_by_the_header(s.packets[s.working[i][k] as int], network_mtu);
    }
}

} // verus!
