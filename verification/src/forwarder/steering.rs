//! Which rewriter a packet goes to.

use vstd::arithmetic::div_mod::lemma_mod_bound;
use vstd::prelude::*;

use crate::base::hash::xxh3_digest;
use crate::base::net::{IpAddr, Ipv4Addr};
use crate::base::power::is_power_of_two;
use crate::base::time::{elapsed_nanos, Duration, Instant};
use crate::forwarder::conn_table::{
    inserted, insertion_hides_no_flow, insertion_is_found, insertion_keeps_other_flows, orderly,
    pinned_backend, ConnEntry, InsertResult,
};
use crate::forwarder::fragment_table::{fragment_entry, uniform_ttls, FragmentTable};
use crate::io::packet_buf::{packets_of, PacketBuf};
use crate::types::packet::{
    flow_key_bytes, fragment, fragment_key_bytes, ip_meta, ipv4_fragment_id, is_fragment,
    is_non_first_fragment, later_fragment, FragmentId, PacketMeta,
};

verus! {

/// The queue of a flow hash.
pub open spec fn queue_of_hash(hash: u64, num_queues: int) -> int {
    hash as int % num_queues
}

/// The queue for a flow hash.
pub fn queue_for_hash(hash: u64, num_queues: usize) -> (q: usize)
    requires
        num_queues > 0,
    ensures
        q == queue_of_hash(hash, num_queues as int),
        q < num_queues,
{
    proof {
        lemma_mod_bound(hash as int, num_queues as int);
    }
    (hash % num_queues as u64) as usize
}

/// Assign a packet to a rewriter thread queue based on its 5-tuple hash.
///
/// Ensures all packets of the same flow go to the same thread.
pub fn assign_queue(meta: &PacketMeta, num_queues: usize) -> (q: usize)
    requires
        num_queues > 0,
    ensures
        q == queue_of_hash(xxh3_digest(flow_key_bytes(*meta)), num_queues as int),
        q < num_queues,
{
    queue_for_hash(meta.flow_hash(), num_queues)
}

/// All packets of one 5-tuple go to the same queue.
pub proof fn same_flow_same_queue(x: PacketMeta, y: PacketMeta, num_queues: int)
    requires
        x.src_ip == y.src_ip,
        x.dst_ip == y.dst_ip,
        x.src_port == y.src_port,
        x.dst_port == y.dst_port,
        x.protocol == y.protocol,
    ensures
        queue_of_hash(xxh3_digest(flow_key_bytes(x)), num_queues) == queue_of_hash(
            xxh3_digest(flow_key_bytes(y)),
            num_queues,
        ),
{
}

/// What steering remembers: where the first fragments of packets went.
pub struct SteeringState {
    pub fragments: Seq<ConnEntry>,
    pub ttl: Duration,
}

/// A queue in the form in which a fragment table holds it: its number, written as
/// an IPv4 address.
pub open spec fn queue_mark(q: int) -> IpAddr {
    IpAddr::V4(
        Ipv4Addr {
            a: (q / 0x100_0000) as u8,
            b: (q / 0x1_0000 % 256) as u8,
            c: (q / 256 % 256) as u8,
            d: (q % 256) as u8,
        },
    )
}

/// The queue that a mark stands for.
pub open spec fn marked_queue(mark: IpAddr) -> int {
    match mark {
        IpAddr::V4(m) => m.a * 0x100_0000 + m.b * 0x1_0000 + m.c * 256 + m.d,
        IpAddr::V6(_) => 0,
    }
}

/// How many queues can be told apart by their marks.
pub const MAX_QUEUES: u64 = 0x1_0000_0000;

/// A mark stands for the queue that it was made for.
pub proof fn lemma_queue_mark(q: int)
    requires
        0 <= q < MAX_QUEUES,
    ensures
        marked_queue(queue_mark(q)) == q,
{
}

/// The fragment hash of a packet that is a fragment other than the first.
pub open spec fn later_fragment_hash(d: Seq<u8>) -> Option<u64> {
    match ipv4_fragment_id(d) {
        Some(f) => if later_fragment(d) {
            Some(xxh3_digest(fragment_key_bytes(f)))
        } else {
            None
        },
        None => None,
    }
}

/// The fragment hash of a packet that is the first of several fragments.
pub open spec fn first_fragment_hash(d: Seq<u8>) -> Option<u64> {
    match ipv4_fragment_id(d) {
        Some(f) => if fragment(d) && !later_fragment(d) {
            Some(xxh3_digest(fragment_key_bytes(f)))
        } else {
            None
        },
        None => None,
    }
}

/// The queue of a packet by its 5-tuple. What is not IP TCP or UDP goes to the
/// first one.
pub open spec fn flow_queue(d: Seq<u8>, num_queues: int) -> int {
    match ip_meta(d) {
        Some(meta) => queue_of_hash(xxh3_digest(flow_key_bytes(meta)), num_queues),
        None => 0,
    }
}

/// What steering remembers after the packet `d`, and the queue of the packet.
///
/// A packet goes by its 5-tuple, and if it is the first of several fragments,
/// where it went is noted. A later fragment has no ports: it goes where the
/// first one went, or by its own hash if that is not known (any more).
pub open spec fn steer_choice(
    s: SteeringState,
    d: Seq<u8>,
    num_queues: int,
    now: Instant,
) -> (SteeringState, int) {
    match later_fragment_hash(d) {
        Some(hash) => match pinned_backend(s.fragments, hash, uniform_ttls(s.ttl), now) {
            Some(mark) => (
                s,
                if marked_queue(mark) < num_queues {
                    marked_queue(mark)
                } else {
                    queue_of_hash(hash, num_queues)
                },
            ),
            None => (s, queue_of_hash(hash, num_queues)),
        },
        None => {
            let q = flow_queue(d, num_queues);
            match first_fragment_hash(d) {
                Some(hash) => (
                    SteeringState {
                        fragments: inserted(
                            s.fragments,
                            fragment_entry(hash, queue_mark(q), now),
                            uniform_ttls(s.ttl),
                            now,
                        ).0,
                        ..s
                    },
                    q,
                ),
                None => (s, q),
            }
        },
    }
}

/// What steering remembers after the packets `inputs`, and their queues.
pub open spec fn steer_choices(
    s: SteeringState,
    inputs: Seq<Seq<u8>>,
    num_queues: int,
    now: Instant,
) -> (SteeringState, Seq<int>)
    decreases inputs.len(),
{
    if inputs.len() == 0 {
        (s, Seq::empty())
    } else {
        let (s1, queues) = steer_choices(s, inputs.drop_last(), num_queues, now);
        let (s2, q) = steer_choice(s1, inputs.last(), num_queues, now);
        (s2, queues.push(q))
    }
}

/// Every packet gets one of the queues.
pub proof fn steering_stays_in_range(
    s: SteeringState,
    inputs: Seq<Seq<u8>>,
    num_queues: int,
    now: Instant,
)
    requires
        num_queues > 0,
    ensures
        steer_choices(s, inputs, num_queues, now).1.len() == inputs.len(),
        forall|i: int|
            0 <= i < inputs.len() ==> 0 <= (#[trigger] steer_choices(
                s,
                inputs,
                num_queues,
                now,
            ).1[i]) < num_queues,
    decreases inputs.len(),
{
    if inputs.len() > 0 {
        steering_stays_in_range(s, inputs.drop_last(), num_queues, now);
        let (s1, _) = steer_choices(s, inputs.drop_last(), num_queues, now);
        lemma_choice_in_range(s1, inputs.last(), num_queues, now);
    }
}

pub proof fn lemma_choice_in_range(
    s: SteeringState,
    d: Seq<u8>,
    num_queues: int,
    now: Instant,
)
    requires
        num_queues > 0,
    ensures
        0 <= steer_choice(s, d, num_queues, now).1 < num_queues,
        0 <= flow_queue(d, num_queues) < num_queues,
{
    match ip_meta(d) {
        Some(meta) => {
            lemma_mod_bound(xxh3_digest(flow_key_bytes(meta)) as int, num_queues);
        },
        None => {},
    }
    match later_fragment_hash(d) {
        Some(hash) => {
            lemma_mod_bound(hash as int, num_queues);
        },
        None => {},
    }
}

/// A packet and when it came.
pub struct Arrival {
    pub packet: Seq<u8>,
    pub now: Instant,
}

/// What steering remembers after some packets, in order.
pub open spec fn steered_past(
    s: SteeringState,
    arrivals: Seq<Arrival>,
    num_queues: int,
) -> SteeringState
    decreases arrivals.len(),
{
    if arrivals.len() == 0 {
        s
    } else {
        let a = arrivals.last();
        steer_choice(
            steered_past(s, arrivals.drop_last(), num_queues),
            a.packet,
            num_queues,
            a.now,
        ).0
    }
}

proof fn lemma_steered_past(
    s: SteeringState,
    arrivals: Seq<Arrival>,
    num_queues: int,
    hash: u64,
    later: Instant,
)
    requires
        s.fragments.len() > 0,
        orderly(s.fragments),
        forall|i: int|
            0 <= i < arrivals.len() ==> first_fragment_hash((#[trigger] arrivals[i]).packet)
                != Some(hash) && arrivals[i].now.nanos <= later.nanos,
    ensures
        ({
            let t = steered_past(s, arrivals, num_queues);
            &&& t.ttl == s.ttl
            &&& t.fragments.len() == s.fragments.len()
            &&& orderly(t.fragments)
            &&& pinned_backend(t.fragments, hash, uniform_ttls(s.ttl), later) == pinned_backend(
                s.fragments,
                hash,
                uniform_ttls(s.ttl),
                later,
            )
        }),
    decreases arrivals.len(),
{
    if arrivals.len() > 0 {
        let p = arrivals.drop_last();
        let a = arrivals.last();
        assert forall|i: int| 0 <= i < p.len() implies first_fragment_hash(
            (#[trigger] p[i]).packet,
        ) != Some(hash) && p[i].now.nanos <= later.nanos by {
            assert(p[i] == arrivals[i]);
        }
        assert(a == arrivals[arrivals.len() - 1]);
        lemma_steered_past(s, p, num_queues, hash, later);
        let t = steered_past(s, p, num_queues);
        if let Some(other) = first_fragment_hash(a.packet) {
            let e = fragment_entry(
                other,
                queue_mark(flow_queue(a.packet, num_queues)),
                a.now,
            );
            insertion_keeps_other_flows(t.fragments, e, uniform_ttls(s.ttl), a.now);
            insertion_hides_no_flow(t.fragments, e, uniform_ttls(s.ttl), a.now, hash, later);
        }
    }
}

/// All fragments of a packet go to one queue: once the first fragment was
/// noted, a later one that comes within the TTL goes where the first one went,
/// whatever came in between.
pub proof fn fragments_share_a_queue(
    s: SteeringState,
    first: Arrival,
    others: Seq<Arrival>,
    later: Arrival,
    num_queues: int,
)
    requires
        s.fragments.len() > 0,
        orderly(s.fragments),
        0 < num_queues <= MAX_QUEUES,
        first_fragment_hash(first.packet) is Some,
        later_fragment_hash(later.packet) == first_fragment_hash(first.packet),
        inserted(
            s.fragments,
            fragment_entry(
                first_fragment_hash(first.packet)->0,
                queue_mark(flow_queue(first.packet, num_queues)),
                first.now,
            ),
            uniform_ttls(s.ttl),
            first.now,
        ).1 != InsertResult::DroppedFull,
        forall|i: int|
            0 <= i < others.len() ==> first_fragment_hash((#[trigger] others[i]).packet)
                != first_fragment_hash(first.packet) && others[i].now.nanos <= later.now.nanos,
        elapsed_nanos(first.now, later.now) <= s.ttl.nanos,
    ensures
        ({
            let (s1, q) = steer_choice(s, first.packet, num_queues, first.now);
            let s2 = steered_past(s1, others, num_queues);
            steer_choice(s2, later.packet, num_queues, later.now).1 == q
        }),
{
    let hash = first_fragment_hash(first.packet)->0;
    let (s1, q) = steer_choice(s, first.packet, num_queues, first.now);
    let e = fragment_entry(hash, queue_mark(q), first.now);
    assert(later_fragment_hash(first.packet) is None);
    lemma_choice_in_range(s, first.packet, num_queues, first.now);
    lemma_queue_mark(q);
    insertion_is_found(s.fragments, e, uniform_ttls(s.ttl), first.now);
    insertion_keeps_other_flows(s.fragments, e, uniform_ttls(s.ttl), first.now);
    lemma_steered_past(s1, others, num_queues, hash, later.now);
}

/// The packets of one flow that are no later fragments go to the same queue,
/// whatever steering remembers.
pub proof fn flows_share_a_queue(
    s: SteeringState,
    t: SteeringState,
    x: Seq<u8>,
    y: Seq<u8>,
    num_queues: int,
    now: Instant,
    later: Instant,
)
    requires
        later_fragment_hash(x) is None,
        later_fragment_hash(y) is None,
        ip_meta(x) matches Some(a) && (ip_meta(y) matches Some(b) && flow_key_bytes(a)
            == flow_key_bytes(b)),
    ensures
        steer_choice(s, x, num_queues, now).1 == steer_choice(t, y, num_queues, later).1,
{
}

/// Decides which rewriter each packet goes to.
pub struct Steering {
    fragments: FragmentTable,
}

impl View for Steering {
    type V = SteeringState;

    closed spec fn view(&self) -> SteeringState {
        SteeringState { fragments: self.fragments.slots(), ttl: self.fragments.ttl() }
    }
}

impl Steering {
    pub closed spec fn wf(self) -> bool {
        self.fragments.wf()
    }

    /// The table of a well-formed steering stage has slots and is orderly.
    pub proof fn lemma_wf(self)
        requires
            self.wf(),
        ensures
            self@.fragments.len() > 0,
            orderly(self@.fragments),
    {
        self.fragments.lemma_wf();
    }

    /// Steering that remembers nothing yet; `fragment_table_size` must be a power
    /// of two.
    pub fn new(fragment_table_size: usize, fragment_ttl: Duration) -> (s: Steering)
        requires
            is_power_of_two(fragment_table_size as int),
        ensures
            s.wf(),
            s@.ttl == fragment_ttl,
            s@.fragments.len() == fragment_table_size,
            forall|i: int|
                0 <= i < fragment_table_size ==> !(#[trigger] s@.fragments[i]).occupied,
    {
        Steering { fragments: FragmentTable::new(fragment_table_size, fragment_ttl) }
    }

    /// The queue of a packet.
    pub fn assign(&mut self, data: &[u8], num_queues: usize, now: Instant) -> (q: usize)
        requires
            old(self).wf(),
            0 < num_queues <= MAX_QUEUES,
        ensures
            final(self).wf(),
            (final(self)@, q as int) == steer_choice(old(self)@, data@, num_queues as int, now),
            q < num_queues,
    {
        proof {
            lemma_choice_in_range(self@, data@, num_queues as int, now);
        }
        let id = FragmentId::from_ipv4_bytes(data);
        if let Some(f) = id {
            if is_non_first_fragment(data) {
                let hash: u64 = f.fragment_hash();
                return match self.fragments.get(hash, now) {
                    Some(IpAddr::V4(m)) => {
                        let q: u64 = m.a as u64 * 0x100_0000 + m.b as u64 * 0x1_0000 + m.c as u64
                            * 256 + m.d as u64;
                        if q < num_queues as u64 {
                            q as usize
                        } else {
                            queue_for_hash(hash, num_queues)
                        }
                    },
                    Some(IpAddr::V6(_)) => 0,
                    None => queue_for_hash(hash, num_queues),
                };
            }
        }
        let q: usize = match PacketMeta::from_ip_bytes(data) {
            Some(meta) => assign_queue(&meta, num_queues),
            None => 0,
        };
        if let Some(f) = id {
            if is_fragment(data) {
                let n: u64 = q as u64;
                let mark = IpAddr::V4(
                    Ipv4Addr::new(
                        (n / 0x100_0000) as u8,
                        (n / 0x1_0000 % 256) as u8,
                        (n / 256 % 256) as u8,
                        (n % 256) as u8,
                    ),
                );
                assert(mark == queue_mark(q as int));
                self.fragments.insert(f.fragment_hash(), mark, now);
            }
        }
        q
    }

    /// The queues of a batch of packets.
    pub fn assign_batch(
        &mut self,
        received: &[PacketBuf],
        num_queues: usize,
        now: Instant,
    ) -> (queues: Vec<usize>)
        requires
            old(self).wf(),
            0 < num_queues <= MAX_QUEUES,
            forall|i: int| 0 <= i < received@.len() ==> (#[trigger] received@[i]).wf(),
        ensures
            final(self).wf(),
            (final(self)@, queue_numbers(queues@)) == steer_choices(
                old(self)@,
                packets_of(received@),
                num_queues as int,
                now,
            ),
            queues@.len() == received@.len(),
            forall|i: int| 0 <= i < queues@.len() ==> (#[trigger] queues@[i]) < num_queues,
    {
        let ghost inputs = packets_of(received@);
        let ghost s0 = self@;
        let mut queues: Vec<usize> = Vec::with_capacity(received.len());
        let mut i: usize = 0;
        assert(queue_numbers(queues@) =~= Seq::<int>::empty());
        while i < received.len()
            invariant
                i <= received@.len(),
                i == queues@.len(),
                self.wf(),
                0 < num_queues <= MAX_QUEUES,
                inputs == packets_of(received@),
                forall|j: int| 0 <= j < received@.len() ==> (#[trigger] received@[j]).wf(),
                forall|j: int| 0 <= j < queues@.len() ==> (#[trigger] queues@[j]) < num_queues,
                (self@, queue_numbers(queues@)) == steer_choices(
                    s0,
                    inputs.take(i as int),
                    num_queues as int,
                    now,
                ),
            decreases received@.len() - i,
        {
            let ghost before = queues@;
            let q: usize = self.assign(received[i].as_slice(), num_queues, now);
            queues.push(q);
            proof {
                assert(inputs.take(i + 1).drop_last() =~= inputs.take(i as int));
                assert(inputs.take(i + 1).last() == received@[i as int]@);
                assert(queue_numbers(queues@) =~= queue_numbers(before).push(q as int));
            }
            i = i + 1;
        }
        assert(inputs.take(i as int) =~= inputs);
        queues
    }
}

/// Queues as plain numbers.
pub open spec fn queue_numbers(queues: Seq<usize>) -> Seq<int> {
    Seq::new(queues.len(), |i: int| queues[i] as int)
}

} // verus!
