//! The packet arena: the frames, and the queues through which their indices
//! travel from stage to stage.
//!
//! Whatever the stages do, every frame is in exactly one place: on the free
//! list or in one of the queues.

use vstd::multiset::Multiset;
use vstd::prelude::*;

use crate::base::power::is_power_of_two;
use crate::base::time::{Duration, Instant};
use crate::config_manager::applier::{tables_wf, LookupTables};
use crate::forwarder::conn_table::orderly;
use crate::forwarder::icmp::{
    exceeds_tunnel, too_big_for_tunnel, VipLimits, VipRateLimiters,
};
use crate::forwarder::packet_pool::{FrameIndex, FrameQueue, PacketPool};
use crate::forwarder::pipeline::{
    collected, drain_len, frame_packets, frames_needed, lemma_collected_len,
    limits_serve_oversized_packets, mux_drain, mux_frames, mux_release, pool_size,
    queue_capacities, queue_contents, queued_frames, releasing_conserves_frames, rewrite,
    rewrite_run, rewrite_step, rewriting_conserves_frames, steer_batch, steer_run, steer_step,
    steering_conserves_frames, take_frames, taken_of, worker_gauges, RewriteStage,
    RewriterWorker, SteerStage, WorkerState, QUEUE_CAPACITY,
};
use crate::forwarder::rewriter::{forwarding_view, ForwardingView};
use crate::forwarder::steering::{
    lemma_choice_in_range, steer_choice, steer_choices, steering_stays_in_range, Steering,
    SteeringState, MAX_QUEUES,
};
use crate::forwarder::vip_matcher::VipMatcher;
use crate::health::status_map::HealthMap;
use crate::io::packet_buf::{packets_of, PacketBuf};

verus! {

/// What an arena holds: the packets in its frames, the free list, the queues in
/// front of and behind each rewriter, what each rewriter has in work, and what
/// steering remembers.
pub struct ArenaState {
    pub packets: Seq<Seq<u8>>,
    pub free: Seq<u32>,
    pub rx: Seq<Seq<u32>>,
    pub working: Seq<Seq<u32>>,
    pub tx: Seq<Seq<u32>>,
    pub steering: SteeringState,
}

/// The indices of `n` frames, in order.
pub open spec fn frame_indices(n: nat) -> Seq<u32> {
    Seq::new(n, |i: int| i as u32)
}

/// All indices on the free list, in the queues and in work.
pub open spec fn frames_held(s: ArenaState) -> Multiset<u32> {
    s.free.to_multiset().add(queued_frames(s.rx)).add(queued_frames(s.working)).add(
        queued_frames(s.tx),
    )
}

/// Every frame is in exactly one place.
pub open spec fn intact(s: ArenaState) -> bool {
    &&& s.packets.len() <= u32::MAX
    &&& s.rx.len() == s.tx.len()
    &&& s.rx.len() == s.working.len()
    &&& s.rx.len() > 0
    &&& frames_held(s) == frame_indices(s.packets.len()).to_multiset()
}

/// The capacities of `n` queues.
pub open spec fn full_capacities(n: nat) -> Seq<nat> {
    Seq::new(n, |i: int| QUEUE_CAPACITY as nat)
}

/// The arena after the packets `inputs` were steered to the rewriters.
pub open spec fn steered(s: ArenaState, inputs: Seq<Seq<u8>>, now: Instant) -> ArenaState {
    let (steering, targets) = steer_choices(s.steering, inputs, s.rx.len() as int, now);
    let r = steer_run(
        SteerStage { packets: s.packets, free: s.free, queues: s.rx },
        inputs,
        targets,
        full_capacities(s.rx.len()),
    );
    ArenaState { packets: r.packets, free: r.free, rx: r.queues, steering, ..s }
}

/// The arena after rewriter `i` took the frames for a round from its queue. It
/// takes none while it has some in work.
pub open spec fn taken(s: ArenaState, i: int) -> ArenaState {
    if s.working[i].len() > 0 {
        s
    } else {
        let n = drain_len(s.rx[i].len()) as int;
        ArenaState {
            rx: s.rx.update(i, s.rx[i].skip(n)),
            working: s.working.update(i, s.rx[i].take(n)),
            ..s
        }
    }
}

/// The stage of rewriter `i` after it has worked on what it has taken.
pub open spec fn rewriter_round(
    s: ArenaState,
    i: int,
    w: WorkerState,
    limits: VipLimits,
    v: ForwardingView,
    now: Instant,
) -> RewriteStage {
    rewrite_run(
        RewriteStage { worker: w, limits, packets: s.packets, free: s.free, tx: s.tx[i] },
        s.working[i],
        QUEUE_CAPACITY as nat,
        v,
        now,
    )
}

/// The arena after rewriter `i` has worked on what it has taken.
pub open spec fn rewritten(
    s: ArenaState,
    i: int,
    w: WorkerState,
    limits: VipLimits,
    v: ForwardingView,
    now: Instant,
) -> ArenaState {
    let r = rewriter_round(s, i, w, limits, v, now);
    ArenaState {
        packets: r.packets,
        free: r.free,
        working: s.working.update(i, Seq::empty()),
        tx: s.tx.update(i, r.tx),
        ..s
    }
}

/// Whether rewriter `i` has an oversized packet in work.
pub open spec fn oversized_in_work(s: ArenaState, i: int, network_mtu: u16) -> bool {
    exists|k: int|
        0 <= k < s.working[i].len() && too_big_for_tunnel(
            s.packets[(#[trigger] s.working[i][k]) as int],
            network_mtu,
        )
}

/// The indices that one round of the muxer takes from the outgoing queues.
pub open spec fn muxed_frames(s: ArenaState, batch_size: int) -> Seq<u32> {
    collected(s.tx, batch_size, s.tx.len() as int)
}

/// What one round of the muxer leaves in the outgoing queues.
pub open spec fn left_in_queues(queues: Seq<Seq<u32>>, batch_size: int) -> Seq<Seq<u32>> {
    Seq::new(queues.len(), |j: int| queues[j].skip(taken_of(queues, batch_size, j)))
}

/// The arena after one round of the muxer.
pub open spec fn muxed(s: ArenaState, batch_size: int) -> ArenaState {
    ArenaState {
        free: s.free + muxed_frames(s, batch_size),
        tx: left_in_queues(s.tx, batch_size),
        ..s
    }
}

/// The packets that one round of the muxer hands out, in order.
pub open spec fn muxed_packets(s: ArenaState, batch_size: int) -> Seq<Seq<u8>> {
    let indices = muxed_frames(s, batch_size);
    Seq::new(indices.len(), |k: int| s.packets[indices[k] as int])
}

proof fn lemma_queued_update(queues: Seq<Seq<u32>>, i: int, q: Seq<u32>)
    requires
        0 <= i < queues.len(),
    ensures
        queued_frames(queues.update(i, q)).add(queues[i].to_multiset()) == queued_frames(
            queues,
        ).add(q.to_multiset()),
    decreases queues.len(),
{
    let u = queues.update(i, q);
    if i == queues.len() - 1 {
        assert(u.drop_last() =~= queues.drop_last());
    } else {
        assert(u.drop_last() =~= queues.drop_last().update(i, q));
        lemma_queued_update(queues.drop_last(), i, q);
        assert(queued_frames(u.drop_last()).add(queues[i].to_multiset()) == queued_frames(
            queues.drop_last(),
        ).add(q.to_multiset()));
    }
    assert(queued_frames(u).add(queues[i].to_multiset()) =~= queued_frames(queues).add(
        q.to_multiset(),
    )) by {
        if i < queues.len() - 1 {
            let a = queued_frames(u.drop_last()).add(queues[i].to_multiset());
            let b = queued_frames(queues.drop_last()).add(q.to_multiset());
            assert(a == b);
            assert(queued_frames(u).add(queues[i].to_multiset()) =~= a.add(
                queues.last().to_multiset(),
            ));
            assert(queued_frames(queues).add(q.to_multiset()) =~= b.add(
                queues.last().to_multiset(),
            ));
        }
    }
}

proof fn lemma_queued_at_least(queues: Seq<Seq<u32>>, i: int)
    requires
        0 <= i < queues.len(),
    ensures
        queues[i].len() <= queued_frames(queues).len(),
        forall|x: u32|
            #![trigger queued_frames(queues).count(x)]
            queues[i].to_multiset().count(x) <= queued_frames(queues).count(x),
    decreases queues.len(),
{
    broadcast use vstd::seq_lib::group_to_multiset_ensures;

    if i < queues.len() - 1 {
        lemma_queued_at_least(queues.drop_last(), i);
    }
}

proof fn lemma_queued_empty(queues: Seq<Seq<u32>>)
    requires
        forall|i: int| 0 <= i < queues.len() ==> (#[trigger] queues[i]).len() == 0,
    ensures
        queued_frames(queues) == Multiset::<u32>::empty(),
    decreases queues.len(),
{
    broadcast use vstd::seq_lib::group_to_multiset_ensures;

    if queues.len() > 0 {
        assert forall|i: int| 0 <= i < queues.drop_last().len() implies (
        #[trigger] queues.drop_last()[i]).len() == 0 by {
            assert(queues.drop_last()[i] == queues[i]);
        }
        lemma_queued_empty(queues.drop_last());
        assert(queues.last() =~= Seq::<u32>::empty());
        assert(queued_frames(queues) =~= Multiset::<u32>::empty());
    }
}

proof fn lemma_collected_conserves(queues: Seq<Seq<u32>>, batch_size: int, j: int)
    requires
        0 <= j <= queues.len(),
        batch_size >= 0,
    ensures
        queued_frames(left_in_queues(queues, batch_size).take(j)).add(
            collected(queues, batch_size, j).to_multiset(),
        ) == queued_frames(queues.take(j)),
    decreases j,
{
    broadcast use vstd::seq_lib::group_to_multiset_ensures;

    let left = left_in_queues(queues, batch_size);
    if j == 0 {
        assert(queued_frames(left.take(0)).add(collected(queues, batch_size, 0).to_multiset())
            =~= queued_frames(queues.take(0)));
    } else {
        lemma_collected_conserves(queues, batch_size, j - 1);
        lemma_collected_len(queues, batch_size, j - 1);
        let k = taken_of(queues, batch_size, j - 1);
        let q = queues[j - 1];
        assert(left.take(j).drop_last() =~= left.take(j - 1));
        assert(left.take(j).last() == q.skip(k));
        assert(queues.take(j).drop_last() =~= queues.take(j - 1));
        assert(queues.take(j).last() == q);
        assert(q =~= q.take(k) + q.skip(k));
        vstd::seq_lib::lemma_multiset_commutative(q.take(k), q.skip(k));
        vstd::seq_lib::lemma_multiset_commutative(
            collected(queues, batch_size, j - 1),
            q.take(k),
        );
        let a = queued_frames(left.take(j - 1));
        let c = collected(queues, batch_size, j - 1).to_multiset();
        assert(queued_frames(left.take(j)).add(collected(queues, batch_size, j).to_multiset())
            =~= a.add(c).add(q.to_multiset()));
    }
}

proof fn lemma_indices(n: nat, x: u32)
    requires
        n <= u32::MAX,
    ensures
        frame_indices(n).to_multiset().count(x) == (if x < n {
            1nat
        } else {
            0nat
        }),
        frame_indices(n).to_multiset().len() == n,
{
    broadcast use vstd::seq_lib::group_to_multiset_ensures;

    let s = frame_indices(n);
    assert(s.no_duplicates());
    s.lemma_multiset_has_no_duplicates();
    if x < n {
        assert(s[x as int] == x);
        assert(s.contains(x));
    } else {
        assert(!s.contains(x));
    }
}

/// Every frame of an arena is on the free list, in a queue or in work, and in one
/// place only.
pub proof fn each_frame_is_in_one_place(s: ArenaState, x: u32)
    requires
        intact(s),
    ensures
        frames_held(s).count(x) == (if x < s.packets.len() {
            1nat
        } else {
            0nat
        }),
{
    lemma_indices(s.packets.len(), x);
}

/// With nothing under way, every frame is on the free list.
pub proof fn idle_arena_has_every_frame_free(s: ArenaState)
    requires
        intact(s),
        forall|i: int| 0 <= i < s.rx.len() ==> (#[trigger] s.rx[i]).len() == 0,
        forall|i: int| 0 <= i < s.working.len() ==> (#[trigger] s.working[i]).len() == 0,
        forall|i: int| 0 <= i < s.tx.len() ==> (#[trigger] s.tx[i]).len() == 0,
    ensures
        s.free.to_multiset() == frame_indices(s.packets.len()).to_multiset(),
        s.free.len() == s.packets.len(),
{
    broadcast use vstd::seq_lib::group_to_multiset_ensures;

    lemma_queued_empty(s.rx);
    lemma_queued_empty(s.working);
    lemma_queued_empty(s.tx);
    lemma_indices(s.packets.len(), 0);
    assert(frames_held(s) =~= s.free.to_multiset());
}

/// What can be relied on wherever every frame is in exactly one place.
proof fn lemma_intact(s: ArenaState, i: int)
    requires
        intact(s),
        0 <= i < s.rx.len(),
    ensures
        s.free.len() + queued_frames(s.tx).len() <= s.packets.len(),
        s.free.len() + s.working[i].len() + s.tx[i].len() <= s.packets.len(),
        forall|k: int| 0 <= k < s.free.len() ==> (#[trigger] s.free[k]) < s.packets.len(),
        forall|k: int|
            0 <= k < s.working[i].len() ==> (#[trigger] s.working[i][k]) < s.packets.len(),
{
    broadcast use vstd::seq_lib::group_to_multiset_ensures;

    let n = s.packets.len();
    lemma_indices(n, 0);
    lemma_queued_at_least(s.working, i);
    lemma_queued_at_least(s.tx, i);
    assert(frames_held(s).len() == s.free.len() + queued_frames(s.rx).len() + queued_frames(
        s.working,
    ).len() + queued_frames(s.tx).len());
    assert forall|k: int| 0 <= k < s.free.len() implies (#[trigger] s.free[k]) < n by {
        let x = s.free[k];
        assert(s.free.contains(x));
        assert(s.free.to_multiset().count(x) > 0);
        each_frame_is_in_one_place(s, x);
    }
    assert forall|k: int| 0 <= k < s.working[i].len() implies (#[trigger] s.working[i][k]) < n by {
        let x = s.working[i][k];
        assert(s.working[i].contains(x));
        assert(s.working[i].to_multiset().count(x) > 0);
        assert(queued_frames(s.working).count(x) > 0);
        each_frame_is_in_one_place(s, x);
    }
}

/// Steering leaves every frame in exactly one place.
pub proof fn steering_keeps_arena_intact(s: ArenaState, inputs: Seq<Seq<u8>>, now: Instant)
    requires
        intact(s),
    ensures
        intact(steered(s, inputs, now)),
        steered(s, inputs, now).packets.len() == s.packets.len(),
{
    lemma_intact(s, 0);
    let t = SteerStage { packets: s.packets, free: s.free, queues: s.rx };
    let n = s.rx.len() as int;
    steering_stays_in_range(s.steering, inputs, n, now);
    let targets = steer_choices(s.steering, inputs, n, now).1;
    steering_conserves_frames(t, inputs, targets, full_capacities(s.rx.len()));
    assert(frames_held(steered(s, inputs, now)) =~= frames_held(s));
}

/// Taking frames for a round leaves every frame in exactly one place.
pub proof fn taking_keeps_arena_intact(s: ArenaState, i: int)
    requires
        intact(s),
        0 <= i < s.rx.len(),
    ensures
        intact(taken(s, i)),
{
    broadcast use vstd::seq_lib::group_to_multiset_ensures;

    if s.working[i].len() == 0 {
        let n = drain_len(s.rx[i].len()) as int;
        let moved = s.rx[i].take(n);
        let rest = s.rx[i].skip(n);
        lemma_queued_update(s.rx, i, rest);
        lemma_queued_update(s.working, i, moved);
        assert(s.rx[i] =~= moved + rest);
        vstd::seq_lib::lemma_multiset_commutative(moved, rest);
        assert(s.working[i] =~= Seq::<u32>::empty());
        let rx0 = queued_frames(s.rx);
        let rx1 = queued_frames(s.rx.update(i, rest));
        let w0 = queued_frames(s.working);
        let w1 = queued_frames(s.working.update(i, moved));
        assert forall|x: u32| #![trigger rx1.count(x)]
            rx1.count(x) + w1.count(x) == rx0.count(x) + w0.count(x) by {
            assert(rx1.add(s.rx[i].to_multiset()).count(x) == rx0.add(rest.to_multiset()).count(x));
            assert(w1.add(s.working[i].to_multiset()).count(x) == w0.add(
                moved.to_multiset(),
            ).count(x));
            assert(s.rx[i].to_multiset().count(x) == moved.to_multiset().count(x)
                + rest.to_multiset().count(x));
            assert(s.working[i].to_multiset().count(x) == 0);
        }
        assert(frames_held(taken(s, i)) =~= frames_held(s));
    }
}

/// A round of a rewriter leaves every frame in exactly one place.
pub proof fn rewriting_keeps_arena_intact(
    s: ArenaState,
    i: int,
    w: WorkerState,
    limits: VipLimits,
    v: ForwardingView,
    now: Instant,
)
    requires
        intact(s),
        0 <= i < s.rx.len(),
    ensures
        intact(rewritten(s, i, w, limits, v, now)),
        rewritten(s, i, w, limits, v, now).packets.len() == s.packets.len(),
{
    broadcast use vstd::seq_lib::group_to_multiset_ensures;

    lemma_intact(s, i);
    let indices = s.working[i];
    let none = Seq::<u32>::empty();
    let b = RewriteStage { worker: w, limits, packets: s.packets, free: s.free, tx: s.tx[i] };
    let r = rewriter_round(s, i, w, limits, v, now);
    rewriting_conserves_frames(b, indices, QUEUE_CAPACITY as nat, v, now);
    lemma_queued_update(s.working, i, none);
    lemma_queued_update(s.tx, i, r.tx);
    let w0 = queued_frames(s.working);
    let w1 = queued_frames(s.working.update(i, none));
    let tx0 = queued_frames(s.tx);
    let tx1 = queued_frames(s.tx.update(i, r.tx));
    assert forall|x: u32|
        #![trigger r.free.to_multiset().count(x)]
        r.free.to_multiset().count(x) + w1.count(x) + tx1.count(x) == s.free.to_multiset().count(x)
            + w0.count(x) + tx0.count(x) by {
        assert(w1.add(indices.to_multiset()).count(x) == w0.add(none.to_multiset()).count(x));
        assert(none.to_multiset().count(x) == 0);
        assert(tx1.add(s.tx[i].to_multiset()).count(x) == tx0.add(r.tx.to_multiset()).count(x));
        assert(r.free.to_multiset().add(r.tx.to_multiset()).count(x)
            == s.free.to_multiset().add(s.tx[i].to_multiset()).add(
            indices.to_multiset(),
        ).count(x));
    }
    assert(frames_held(rewritten(s, i, w, limits, v, now)) =~= frames_held(s));
}

proof fn lemma_run_without_oversized(
    b: RewriteStage,
    indices: Seq<u32>,
    other: VipLimits,
    tx_capacity: nat,
    v: ForwardingView,
    now: Instant,
)
    requires
        indices.no_duplicates(),
        forall|k: int|
            0 <= k < indices.len() ==> (#[trigger] indices[k]) < b.packets.len()
                && !too_big_for_tunnel(b.packets[indices[k] as int], b.worker.mtu.network_mtu),
    ensures
        ({
            let r = rewrite_run(b, indices, tx_capacity, v, now);
            let c = RewriteStage { limits: other, ..b };
            &&& r.limits == b.limits
            &&& r.worker.mtu == b.worker.mtu
            &&& rewrite_run(c, indices, tx_capacity, v, now) == RewriteStage { limits: other, ..r }
            &&& r.packets.len() == b.packets.len()
            &&& forall|x: int|
                0 <= x < b.packets.len() && (forall|k: int|
                    0 <= k < indices.len() ==> (#[trigger] indices[k]) != x) ==> #[trigger]
                r.packets[x] == b.packets[x]
        }),
    decreases indices.len(),
{
    if indices.len() > 0 {
        let p = indices.drop_last();
        let idx = indices.last();
        assert forall|k: int| 0 <= k < p.len() implies (#[trigger] p[k]) < b.packets.len()
            && !too_big_for_tunnel(b.packets[p[k] as int], b.worker.mtu.network_mtu) by {
            assert(p[k] == indices[k]);
        }
        assert(p.no_duplicates());
        lemma_run_without_oversized(b, p, other, tx_capacity, v, now);
        let q = rewrite_run(b, p, tx_capacity, v, now);
        assert(forall|k: int| 0 <= k < p.len() ==> (#[trigger] p[k]) != idx) by {
            assert forall|k: int| 0 <= k < p.len() implies (#[trigger] p[k]) != idx by {
                assert(p[k] == indices[k]);
                assert(idx == indices[indices.len() - 1]);
            }
        }
        assert(idx == indices[indices.len() - 1]);
        assert(q.packets[idx as int] == b.packets[idx as int]);
        limits_serve_oversized_packets(
            q.worker,
            q.limits,
            other,
            q.packets[idx as int],
            v,
            now,
        );
        let r = rewrite_run(b, indices, tx_capacity, v, now);
        assert forall|x: int|
            0 <= x < b.packets.len() && (forall|k: int|
                0 <= k < indices.len() ==> (#[trigger] indices[k]) != x) implies #[trigger]
        r.packets[x] == b.packets[x] by {
            assert forall|k: int| 0 <= k < p.len() implies (#[trigger] p[k]) != x by {
                assert(p[k] == indices[k]);
            }
            assert(indices[indices.len() - 1] != x);
            assert(q.packets[x] == b.packets[x]);
        }
    }
}

/// A rewriter that has no oversized packet in work draws on no limit, and does
/// the same whatever the limits are.
pub proof fn limits_wait_for_oversized(
    s: ArenaState,
    i: int,
    w: WorkerState,
    limits: VipLimits,
    other: VipLimits,
    v: ForwardingView,
    now: Instant,
)
    requires
        intact(s),
        0 <= i < s.rx.len(),
        !oversized_in_work(s, i, w.mtu.network_mtu),
    ensures
        rewriter_round(s, i, w, limits, v, now).limits == limits,
        rewriter_round(s, i, w, limits, v, now).worker == rewriter_round(
            s,
            i,
            w,
            other,
            v,
            now,
        ).worker,
        rewritten(s, i, w, limits, v, now) == rewritten(s, i, w, other, v, now),
{
    lemma_intact(s, i);
    lemma_working_distinct(s, i);
    let b = RewriteStage { worker: w, limits, packets: s.packets, free: s.free, tx: s.tx[i] };
    lemma_run_without_oversized(b, s.working[i], other, QUEUE_CAPACITY as nat, v, now);
}

/// What a rewriter has in work are different frames.
proof fn lemma_working_distinct(s: ArenaState, i: int)
    requires
        intact(s),
        0 <= i < s.rx.len(),
    ensures
        s.working[i].no_duplicates(),
{
    broadcast use vstd::seq_lib::group_to_multiset_ensures;

    lemma_queued_at_least(s.working, i);
    let q = s.working[i];
    assert forall|x: u32| q.to_multiset().contains(x) implies q.to_multiset().count(x) == 1 by {
        each_frame_is_in_one_place(s, x);
        assert(q.to_multiset().count(x) <= queued_frames(s.working).count(x));
        assert(queued_frames(s.working).count(x) <= frames_held(s).count(x));
    }
    q.lemma_multiset_has_no_duplicates_conv();
}

/// What one round of the muxer takes are frames of the arena, for which there
/// is room on the free list.
proof fn lemma_muxed_frames(s: ArenaState, batch_size: int)
    requires
        intact(s),
        batch_size >= 0,
    ensures
        queued_frames(left_in_queues(s.tx, batch_size)).add(
            muxed_frames(s, batch_size).to_multiset(),
        ) == queued_frames(s.tx),
        s.free.len() + muxed_frames(s, batch_size).len() <= s.packets.len(),
        forall|k: int|
            0 <= k < muxed_frames(s, batch_size).len() ==> (#[trigger] muxed_frames(
                s,
                batch_size,
            )[k]) < s.packets.len(),
{
    broadcast use vstd::seq_lib::group_to_multiset_ensures;

    let m = s.tx.len() as int;
    let indices = muxed_frames(s, batch_size);
    let left = left_in_queues(s.tx, batch_size);
    lemma_collected_conserves(s.tx, batch_size, m);
    assert(left.take(m) =~= left);
    assert(s.tx.take(m) =~= s.tx);
    lemma_intact(s, 0);
    assert(queued_frames(s.tx).len() == queued_frames(left).len() + indices.len());
    assert forall|k: int| 0 <= k < indices.len() implies (#[trigger] indices[k])
        < s.packets.len() by {
        let x = indices[k];
        assert(indices.contains(x));
        assert(indices.to_multiset().count(x) > 0);
        assert(queued_frames(s.tx).count(x) > 0);
        each_frame_is_in_one_place(s, x);
    }
}

/// A round of the muxer leaves every frame in exactly one place.
pub proof fn muxing_keeps_arena_intact(s: ArenaState, batch_size: int)
    requires
        intact(s),
        batch_size >= 0,
    ensures
        intact(muxed(s, batch_size)),
        muxed(s, batch_size).packets.len() == s.packets.len(),
{
    let indices = muxed_frames(s, batch_size);
    lemma_muxed_frames(s, batch_size);
    vstd::seq_lib::lemma_multiset_commutative(s.free, indices);
    assert(frames_held(muxed(s, batch_size)) =~= frames_held(s));
}

proof fn lemma_collected_single(queues: Seq<Seq<u32>>, i: int, idx: u32, batch_size: int, j: int)
    requires
        0 <= i < queues.len(),
        queues[i] == seq![idx],
        forall|k: int| 0 <= k < queues.len() && k != i ==> (#[trigger] queues[k]).len() == 0,
        batch_size >= 1,
        0 <= j <= queues.len(),
    ensures
        collected(queues, batch_size, j) == (if j <= i {
            Seq::<u32>::empty()
        } else {
            seq![idx]
        }),
    decreases j,
{
    if j > 0 {
        lemma_collected_single(queues, i, idx, batch_size, j - 1);
        lemma_collected_len(queues, batch_size, j - 1);
        let k = taken_of(queues, batch_size, j - 1);
        if j - 1 == i {
            assert(queues[i].take(1) =~= seq![idx]);
            assert(collected(queues, batch_size, j) =~= seq![idx]);
        } else {
            assert(queues[j - 1].take(k) =~= Seq::<u32>::empty());
            assert(collected(queues, batch_size, j) =~= collected(queues, batch_size, j - 1));
        }
    }
}

proof fn lemma_collected_none(queues: Seq<Seq<u32>>, batch_size: int, j: int)
    requires
        forall|k: int| 0 <= k < queues.len() ==> (#[trigger] queues[k]).len() == 0,
        batch_size >= 0,
        0 <= j <= queues.len(),
    ensures
        collected(queues, batch_size, j) == Seq::<u32>::empty(),
    decreases j,
{
    if j > 0 {
        lemma_collected_none(queues, batch_size, j - 1);
        lemma_collected_len(queues, batch_size, j - 1);
        let k = taken_of(queues, batch_size, j - 1);
        assert(queues[j - 1].take(k) =~= Seq::<u32>::empty());
        assert(collected(queues, batch_size, j) =~= Seq::<u32>::empty());
    }
}

/// A packet goes through an arena in which nothing else is under way as if the
/// rewriter of its flow had been handed it directly: what the muxer sends is
/// what that rewriter makes of the packet, and nothing if it drops it.
pub proof fn stages_compose(
    s: ArenaState,
    d: Seq<u8>,
    w: WorkerState,
    limits: VipLimits,
    v: ForwardingView,
    now: Instant,
    batch_size: int,
)
    requires
        intact(s),
        s.packets.len() > 0,
        forall|i: int| 0 <= i < s.rx.len() ==> (#[trigger] s.rx[i]).len() == 0,
        forall|i: int| 0 <= i < s.working.len() ==> (#[trigger] s.working[i]).len() == 0,
        forall|i: int| 0 <= i < s.tx.len() ==> (#[trigger] s.tx[i]).len() == 0,
        batch_size >= 1,
    ensures
        ({
            let i = steer_choice(s.steering, d, s.rx.len() as int, now).1;
            let s1 = steered(s, seq![d], now);
            let s2 = taken(s1, i);
            let s3 = rewritten(s2, i, w, limits, v, now);
            let r = rewriter_round(s2, i, w, limits, v, now);
            &&& (r.worker, r.limits) == (
                rewrite(w, limits, d, v, now).0,
                rewrite(w, limits, d, v, now).1,
            )
            &&& muxed_packets(s3, batch_size) == (match rewrite(w, limits, d, v, now).2 {
                Some(p) => seq![p],
                None => Seq::<Seq<u8>>::empty(),
            })
        }),
{
    idle_arena_has_every_frame_free(s);
    lemma_intact(s, 0);
    let i = steer_choice(s.steering, d, s.rx.len() as int, now).1;
    lemma_choice_in_range(s.steering, d, s.rx.len() as int, now);
    let idx = s.free[0];
    assert(idx < s.packets.len());
    let t = SteerStage { packets: s.packets, free: s.free, queues: s.rx };
    let caps = full_capacities(s.rx.len());
    assert(seq![d].drop_last() =~= Seq::<Seq<u8>>::empty());
    let n = s.rx.len() as int;
    assert(steer_choices(s.steering, Seq::<Seq<u8>>::empty(), n, now).0 == s.steering);
    let targets = steer_choices(s.steering, seq![d], n, now).1;
    assert(targets =~= seq![i]);
    assert(targets.drop_last() =~= Seq::<int>::empty());
    assert(steer_run(t, Seq::<Seq<u8>>::empty(), Seq::<int>::empty(), caps) == t);
    assert(steer_run(t, seq![d], targets, caps) == steer_step(t, d, i, caps));
    let s1 = steered(s, seq![d], now);
    assert(s1.rx[i] =~= seq![idx]);
    assert(s1.packets[idx as int] == d);
    let s2 = taken(s1, i);
    let b = RewriteStage { worker: w, limits, packets: s2.packets, free: s2.free, tx: s2.tx[i] };
    let cap = QUEUE_CAPACITY as nat;
    assert(s1.rx[i].take(1) =~= seq![idx]);
    assert(s2.working[i] == seq![idx]);
    assert(seq![idx].drop_last() =~= Seq::<u32>::empty());
    assert(rewrite_run(b, Seq::<u32>::empty(), cap, v, now) == b);
    let r = rewriter_round(s2, i, w, limits, v, now);
    assert(r == rewrite_step(b, idx, cap, v, now));
    let s3 = rewritten(s2, i, w, limits, v, now);
    let m = s3.tx.len() as int;
    match rewrite(w, limits, d, v, now).2 {
        Some(p) => {
            assert(s3.tx[i] =~= seq![idx]);
            lemma_collected_single(s3.tx, i, idx, batch_size, m);
            assert(muxed_packets(s3, batch_size) =~= seq![p]);
        },
        None => {
            lemma_collected_none(s3.tx, batch_size, m);
            assert(muxed_packets(s3, batch_size) =~= Seq::<Seq<u8>>::empty());
        },
    }
}

/// The frames of a forwarder and the queues between its stages.
pub struct Arena {
    pool: PacketPool,
    rx_queues: Vec<FrameQueue>,
    working: Vec<Vec<FrameIndex>>,
    tx_queues: Vec<FrameQueue>,
    steering: Steering,
}

impl View for Arena {
    type V = ArenaState;

    closed spec fn view(&self) -> ArenaState {
        ArenaState {
            packets: frame_packets(self.pool.frames()),
            free: self.pool.free_frames(),
            rx: queue_contents(self.rx_queues@),
            working: lists(self.working@),
            tx: queue_contents(self.tx_queues@),
            steering: self.steering@,
        }
    }
}

/// The indices in some lists.
pub open spec fn lists(v: Seq<Vec<u32>>) -> Seq<Seq<u32>> {
    Seq::new(v.len(), |i: int| v[i]@)
}

fn empty_lists(n: usize) -> (v: Vec<Vec<FrameIndex>>)
    ensures
        v@.len() == n,
        forall|i: int| 0 <= i < n ==> (#[trigger] v@[i])@.len() == 0,
{
    let mut v: Vec<Vec<FrameIndex>> = Vec::with_capacity(n);
    let mut i: usize = 0;
    while i < n
        invariant
            i <= n,
            v@.len() == i,
            forall|j: int| 0 <= j < i ==> (#[trigger] v@[j])@.len() == 0,
        decreases n - i,
    {
        v.push(Vec::new());
        i = i + 1;
    }
    v
}

/// Queues as the stages of a forwarder have them between them.
spec fn stage_queues(queues: Seq<FrameQueue>) -> bool {
    forall|i: int|
        0 <= i < queues.len() ==> (#[trigger] queues[i]).wf() && queues[i].capacity()
            == QUEUE_CAPACITY
}

fn empty_queues(n: usize) -> (queues: Vec<FrameQueue>)
    ensures
        queues@.len() == n,
        stage_queues(queues@),
        forall|i: int| 0 <= i < n ==> (#[trigger] queues@[i])@.len() == 0,
{
    let mut queues: Vec<FrameQueue> = Vec::with_capacity(n);
    let mut i: usize = 0;
    while i < n
        invariant
            i <= n,
            queues@.len() == i,
            stage_queues(queues@),
            forall|j: int| 0 <= j < i ==> (#[trigger] queues@[j])@.len() == 0,
        decreases n - i,
    {
        queues.push(FrameQueue::new(QUEUE_CAPACITY));
        i = i + 1;
    }
    queues
}

impl Arena {
    /// Every frame is in exactly one place, and queues and packets are in
    /// order.
    pub closed spec fn wf(self) -> bool {
        &&& self.pool.wf()
        &&& stage_queues(self.rx_queues@)
        &&& stage_queues(self.tx_queues@)
        &&& self.rx_queues@.len() <= MAX_QUEUES
        &&& self.steering.wf()
        &&& intact(self@)
    }

    /// What well-formedness says of the contents.
    pub proof fn lemma_wf(self)
        requires
            self.wf(),
        ensures
            intact(self@),
            self@.rx.len() <= MAX_QUEUES,
            self@.steering.fragments.len() > 0,
            orderly(self@.steering.fragments),
    {
        self.steering.lemma_wf();
    }

    /// An arena for some rewriters, with enough frames for all packets in
    /// flight. All frames start on the free list. `fragment_table_size` must be a
    /// power of two.
    pub fn new(
        num_rewriters: usize,
        batch_size: usize,
        fragment_table_size: usize,
        fragment_ttl: Duration,
    ) -> (a: Arena)
        requires
            is_power_of_two(fragment_table_size as int),
            frames_needed(num_rewriters as int, batch_size as int) <= u32::MAX,
            frames_needed(num_rewriters as int, batch_size as int) <= usize::MAX / 64,
        ensures
            a.wf(),
            a@.packets.len() == frames_needed(num_rewriters as int, batch_size as int),
            a@.free == frame_indices(a@.packets.len()),
            a@.rx.len() == (if num_rewriters < 1 {
                1
            } else {
                num_rewriters as int
            }),
            a@.tx.len() == a@.rx.len(),
            a@.steering.ttl == fragment_ttl,
            a@.steering.fragments.len() == fragment_table_size,
            forall|i: int|
                0 <= i < fragment_table_size ==> !(
                #[trigger] a@.steering.fragments[i]).occupied,
            forall|i: int| 0 <= i < a@.rx.len() ==> (#[trigger] a@.rx[i]).len() == 0,
            forall|i: int| 0 <= i < a@.working.len() ==> (#[trigger] a@.working[i]).len() == 0,
            forall|i: int| 0 <= i < a@.tx.len() ==> (#[trigger] a@.tx[i]).len() == 0,
    {
        let rewriters: usize = if num_rewriters < 1 {
            1
        } else {
            num_rewriters
        };
        let pool = PacketPool::new(pool_size(num_rewriters, batch_size));
        let a = Arena {
            pool,
            rx_queues: empty_queues(rewriters),
            working: empty_lists(rewriters),
            tx_queues: empty_queues(rewriters),
            steering: Steering::new(fragment_table_size, fragment_ttl),
        };
        proof {
            lemma_queued_empty(a@.rx);
            lemma_queued_empty(a@.working);
            lemma_queued_empty(a@.tx);
            assert(a@.free =~= frame_indices(a@.packets.len()));
            assert(frames_held(a@) =~= a@.free.to_multiset());
        }
        a
    }

    /// How many rewriters the arena has queues for.
    pub fn num_rewriters(&self) -> (n: usize)
        ensures
            n == self@.rx.len(),
    {
        self.rx_queues.len()
    }

    /// Number of frames currently on the free list.
    pub fn available(&self) -> (n: usize)
        ensures
            n == self@.free.len(),
    {
        self.pool.available()
    }

    /// Total number of frames.
    pub fn capacity(&self) -> (n: usize)
        ensures
            n == self@.packets.len(),
    {
        self.pool.capacity()
    }

    /// One round of the steering stage: the received packets go to the
    /// rewriter queues.
    pub fn steer(&mut self, received: &[PacketBuf], now: Instant)
        requires
            old(self).wf(),
            forall|i: int| 0 <= i < received@.len() ==> (#[trigger] received@[i]).wf(),
        ensures
            final(self).wf(),
            final(self)@ == steered(old(self)@, packets_of(received@), now),
    {
        proof {
            steering_keeps_arena_intact(self@, packets_of(received@), now);
            assert(queue_capacities(self.rx_queues@) =~= full_capacities(self@.rx.len()));
        }
        let num_queues: usize = self.rx_queues.len();
        let targets: Vec<usize> = self.steering.assign_batch(received, num_queues, now);
        steer_batch(&mut self.pool, &mut self.rx_queues, received, &targets);
        proof {
            assert forall|i: int| 0 <= i < self.rx_queues@.len() implies (
            #[trigger] self.rx_queues@[i]).wf() && self.rx_queues@[i].capacity()
                == QUEUE_CAPACITY by {
                assert(queue_capacities(self.rx_queues@)[i] == full_capacities(
                    old(self)@.rx.len(),
                )[i]);
            }
        }
    }

    /// Takes frames from the queue of rewriter `i` for one round, unless it has
    /// some in work. Returns how many it has in work.
    pub fn take(&mut self, i: usize) -> (n: usize)
        requires
            old(self).wf(),
            i < old(self)@.rx.len(),
        ensures
            final(self).wf(),
            final(self)@ == taken(old(self)@, i as int),
            n == final(self)@.working[i as int].len(),
    {
        let ghost s = self@;
        proof {
            taking_keeps_arena_intact(s, i as int);
            assert(s.rx[i as int] == self.rx_queues@[i as int]@);
            assert(s.working[i as int] == self.working@[i as int]@);
        }
        if self.working[i].len() == 0 {
            let indices: Vec<FrameIndex> = take_frames(&mut self.rx_queues[i]);
            self.working[i] = indices;
            proof {
                let t = taken(s, i as int);
                assert(self@.rx =~= t.rx);
                assert(self@.working =~= t.working);
            }
        }
        assert(self@.working[i as int] == self.working@[i as int]@);
        self.working[i].len()
    }

    /// Whether rewriter `i` has a packet in work that must not be fragmented and
    /// does not fit the tunnel.
    pub fn has_oversized(&self, i: usize, network_mtu: u16) -> (b: bool)
        requires
            self.wf(),
            i < self@.rx.len(),
        ensures
            b == oversized_in_work(self@, i as int, network_mtu),
    {
        let ghost s = self@;
        proof {
            lemma_intact(s, i as int);
            assert(s.working[i as int] == self.working@[i as int]@);
        }
        let n: usize = self.working[i].len();
        let mut k: usize = 0;
        while k < n
            invariant
                self.wf(),
                s == self@,
                i < s.rx.len(),
                k <= n,
                n == s.working[i as int].len(),
                s.working[i as int] == self.working@[i as int]@,
                forall|j: int|
                    0 <= j < n ==> (#[trigger] s.working[i as int][j]) < s.packets.len(),
                forall|j: int|
                    0 <= j < k ==> !too_big_for_tunnel(
                        s.packets[(#[trigger] s.working[i as int][j]) as int],
                        network_mtu,
                    ),
            decreases n - k,
        {
            let idx: FrameIndex = self.working[i][k];
            assert(idx == s.working[i as int][k as int]);
            if exceeds_tunnel(self.pool.get(idx).as_slice(), network_mtu) {
                return true;
            }
            k = k + 1;
        }
        false
    }

    /// Rewriter `i` works on what it has taken. `limiters` are those of all
    /// rewriters; without an oversized packet in work they are left alone.
    pub fn rewrite(
        &mut self,
        i: usize,
        worker: &mut RewriterWorker,
        vip_matcher: &VipMatcher,
        lookup_tables: &LookupTables,
        health_status: &HealthMap,
        limiters: &mut VipRateLimiters,
        now: Instant,
    )
        requires
            old(self).wf(),
            i < old(self)@.rx.len(),
            old(worker).wf(),
            old(limiters).wf(),
            vip_matcher.wf(),
            tables_wf(*lookup_tables),
        ensures
            final(self).wf(),
            final(worker).wf(),
            final(limiters).wf(),
            ({
                let v = forwarding_view(vip_matcher, lookup_tables, health_status);
                let s = old(self)@;
                let r = rewriter_round(s, i as int, old(worker)@, old(limiters)@, v, now);
                &&& final(self)@ == rewritten(
                    s,
                    i as int,
                    old(worker)@,
                    old(limiters)@,
                    v,
                    now,
                )
                &&& final(limiters)@ == r.limits
                &&& final(worker)@ == (if s.working[i as int].len() == 0 {
                    r.worker
                } else {
                    worker_gauges(r.worker)
                })
            }),
    {
        let ghost v = forwarding_view(vip_matcher, lookup_tables, health_status);
        let ghost s = self@;
        proof {
            lemma_intact(s, i as int);
            rewriting_keeps_arena_intact(s, i as int, worker@, limiters@, v, now);
            assert(s.working[i as int] == self.working@[i as int]@);
            assert(s.tx[i as int] == self.tx_queues@[i as int]@);
        }
        worker.rewrite_frames(
            &mut self.pool,
            &self.working[i],
            &mut self.tx_queues[i],
            vip_matcher,
            lookup_tables,
            health_status,
            limiters,
            now,
        );
        self.working[i] = Vec::new();
        proof {
            let t = rewritten(s, i as int, old(worker)@, old(limiters)@, v, now);
            assert(self@.packets =~= t.packets);
            assert(self@.working =~= t.working);
            assert(self@.tx =~= t.tx);
        }
    }

    /// One round of the muxer: the packets to send, up to a batch. Their
    /// frames go back to the pool.
    pub fn mux(&mut self, batch_size: usize) -> (packets: Vec<PacketBuf>)
        requires
            old(self).wf(),
        ensures
            final(self).wf(),
            final(self)@ == muxed(old(self)@, batch_size as int),
            packets_of(packets@) == muxed_packets(old(self)@, batch_size as int),
            forall|k: int| 0 <= k < packets@.len() ==> (#[trigger] packets@[k]).wf(),
    {
        let ghost s = self@;
        let ghost caps = queue_capacities(self.tx_queues@);
        proof {
            lemma_muxed_frames(s, batch_size as int);
            muxing_keeps_arena_intact(s, batch_size as int);
        }
        let indices: Vec<FrameIndex> = mux_drain(&mut self.tx_queues, batch_size);
        let packets: Vec<PacketBuf> = mux_frames(&self.pool, &indices);
        mux_release(&mut self.pool, &indices);
        proof {
            releasing_conserves_frames(s.free, indices@, s.packets.len());
            assert(packets_of(packets@) =~= muxed_packets(s, batch_size as int));
            assert(self@.tx =~= left_in_queues(s.tx, batch_size as int));
            assert forall|i: int| 0 <= i < self.tx_queues@.len() implies (
            #[trigger] self.tx_queues@[i]).wf() && self.tx_queues@[i].capacity()
                == QUEUE_CAPACITY by {
                assert(queue_capacities(self.tx_queues@)[i] == caps[i]);
            }
        }
        packets
    }
}

} // verus!
