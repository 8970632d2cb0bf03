//! What the data plane counts.

use vstd::prelude::*;

verus! {

/// What a forwarder thread has counted. Counters wrap around.
#[derive(Clone, Copy, Debug, PartialEq, Eq, Structural)]
pub struct ForwarderCounts {
    pub packets_received: u64,
    pub packets_forwarded: u64,
    pub packets_dropped: u64,
    pub conn_table_hits: u64,
    pub conn_table_misses: u64,
    pub conn_table_size: i64,
    pub conn_table_inserts_total: u64,
    /// Evictions because an expired slot was reclaimed on insert.
    pub eviction_expired_on_insert: u64,
    /// Entries dropped because every probe slot was occupied.
    pub eviction_dropped_full: u64,
    pub tcp_transition_established: u64,
    pub tcp_transition_closing_fin: u64,
    pub tcp_transition_closing_rst: u64,
    pub conn_table_fallback_to_maglev_total: u64,
    pub conn_table_fill_bp: i64,
    pub mss_clamp_total: u64,
    pub mss_clamp_noop_total: u64,
    pub mss_clamp_missing_total: u64,
    pub icmp_frag_needed_sent_total: u64,
    pub icmp_frag_needed_ratelimited_total: u64,
    pub packets_oversized_dropped_total: u64,
    pub fragment_first_total: u64,
    pub fragment_subsequent_forwarded_total: u64,
    pub fragment_drop_no_mapping_total: u64,
}

/// A counter after one more event.
pub open spec fn counted(n: u64) -> u64 {
    if n == u64::MAX {
        0
    } else {
        (n + 1) as u64
    }
}

/// Counts one event.
pub fn count(n: u64) -> (r: u64)
    ensures
        r == counted(n),
{
    if n == u64::MAX {
        0
    } else {
        n + 1
    }
}

impl ForwarderCounts {
    /// Nothing counted yet.
    pub open spec fn zero() -> ForwarderCounts {
        ForwarderCounts {
            packets_received: 0,
            packets_forwarded: 0,
            packets_dropped: 0,
            conn_table_hits: 0,
            conn_table_misses: 0,
            conn_table_size: 0,
            conn_table_inserts_total: 0,
            eviction_expired_on_insert: 0,
            eviction_dropped_full: 0,
            tcp_transition_established: 0,
            tcp_transition_closing_fin: 0,
            tcp_transition_closing_rst: 0,
            conn_table_fallback_to_maglev_total: 0,
            conn_table_fill_bp: 0,
            mss_clamp_total: 0,
            mss_clamp_noop_total: 0,
            mss_clamp_missing_total: 0,
            icmp_frag_needed_sent_total: 0,
            icmp_frag_needed_ratelimited_total: 0,
            packets_oversized_dropped_total: 0,
            fragment_first_total: 0,
            fragment_subsequent_forwarded_total: 0,
            fragment_drop_no_mapping_total: 0,
        }
    }

    pub fn new() -> (m: ForwarderCounts)
        ensures
            m == ForwarderCounts::zero(),
    {
        ForwarderCounts {
            packets_received: 0,
            packets_forwarded: 0,
            packets_dropped: 0,
            conn_table_hits: 0,
            conn_table_misses: 0,
            conn_table_size: 0,
            conn_table_inserts_total: 0,
            eviction_expired_on_insert: 0,
            eviction_dropped_full: 0,
            tcp_transition_established: 0,
            tcp_transition_closing_fin: 0,
            tcp_transition_closing_rst: 0,
            conn_table_fallback_to_maglev_total: 0,
            conn_table_fill_bp: 0,
            mss_clamp_total: 0,
            mss_clamp_noop_total: 0,
            mss_clamp_missing_total: 0,
            icmp_frag_needed_sent_total: 0,
            icmp_frag_needed_ratelimited_total: 0,
            packets_oversized_dropped_total: 0,
            fragment_first_total: 0,
            fragment_subsequent_forwarded_total: 0,
            fragment_drop_no_mapping_total: 0,
        }
    }
}

/// How far a counter went from `before` to `after`, around the end if need be.
pub open spec fn progress(before: u64, after: u64) -> u64 {
    if after >= before {
        (after - before) as u64
    } else {
        (after + u64::MAX + 1 - before) as u64
    }
}

fn progress_of(before: u64, after: u64) -> (d: u64)
    ensures
        d == progress(before, after),
{
    if after >= before {
        after - before
    } else {
        u64::MAX - (before - after) + 1
    }
}

/// What was counted between two times: counters by how far they went, gauges as
/// they are at the end.
pub open spec fn counts_between(from: ForwarderCounts, to: ForwarderCounts) -> ForwarderCounts {
    ForwarderCounts {
        packets_received: progress(from.packets_received, to.packets_received),
        packets_forwarded: progress(from.packets_forwarded, to.packets_forwarded),
        packets_dropped: progress(from.packets_dropped, to.packets_dropped),
        conn_table_hits: progress(from.conn_table_hits, to.conn_table_hits),
        conn_table_misses: progress(from.conn_table_misses, to.conn_table_misses),
        conn_table_size: to.conn_table_size,
        conn_table_inserts_total: progress(
            from.conn_table_inserts_total,
            to.conn_table_inserts_total,
        ),
        eviction_expired_on_insert: progress(
            from.eviction_expired_on_insert,
            to.eviction_expired_on_insert,
        ),
        eviction_dropped_full: progress(from.eviction_dropped_full, to.eviction_dropped_full),
        tcp_transition_established: progress(
            from.tcp_transition_established,
            to.tcp_transition_established,
        ),
        tcp_transition_closing_fin: progress(
            from.tcp_transition_closing_fin,
            to.tcp_transition_closing_fin,
        ),
        tcp_transition_closing_rst: progress(
            from.tcp_transition_closing_rst,
            to.tcp_transition_closing_rst,
        ),
        conn_table_fallback_to_maglev_total: progress(
            from.conn_table_fallback_to_maglev_total,
            to.conn_table_fallback_to_maglev_total,
        ),
        conn_table_fill_bp: to.conn_table_fill_bp,
        mss_clamp_total: progress(from.mss_clamp_total, to.mss_clamp_total),
        mss_clamp_noop_total: progress(from.mss_clamp_noop_total, to.mss_clamp_noop_total),
        mss_clamp_missing_total: progress(from.mss_clamp_missing_total, to.mss_clamp_missing_total),
        icmp_frag_needed_sent_total: progress(
            from.icmp_frag_needed_sent_total,
            to.icmp_frag_needed_sent_total,
        ),
        icmp_frag_needed_ratelimited_total: progress(
            from.icmp_frag_needed_ratelimited_total,
            to.icmp_frag_needed_ratelimited_total,
        ),
        packets_oversized_dropped_total: progress(
            from.packets_oversized_dropped_total,
            to.packets_oversized_dropped_total,
        ),
        fragment_first_total: progress(from.fragment_first_total, to.fragment_first_total),
        fragment_subsequent_forwarded_total: progress(
            from.fragment_subsequent_forwarded_total,
            to.fragment_subsequent_forwarded_total,
        ),
        fragment_drop_no_mapping_total: progress(
            from.fragment_drop_no_mapping_total,
            to.fragment_drop_no_mapping_total,
        ),
    }
}

impl ForwarderCounts {
    /// What was counted since `earlier`.
    pub fn since(&self, earlier: &ForwarderCounts) -> (d: ForwarderCounts)
        ensures
            d == counts_between(*earlier, *self),
    {
        ForwarderCounts {
            packets_received: progress_of(earlier.packets_received, self.packets_received),
            packets_forwarded: progress_of(earlier.packets_forwarded, self.packets_forwarded),
            packets_dropped: progress_of(earlier.packets_dropped, self.packets_dropped),
            conn_table_hits: progress_of(earlier.conn_table_hits, self.conn_table_hits),
            conn_table_misses: progress_of(earlier.conn_table_misses, self.conn_table_misses),
            conn_table_size: self.conn_table_size,
            conn_table_inserts_total: progress_of(
                earlier.conn_table_inserts_total,
                self.conn_table_inserts_total,
            ),
            eviction_expired_on_insert: progress_of(
                earlier.eviction_expired_on_insert,
                self.eviction_expired_on_insert,
            ),
            eviction_dropped_full: progress_of(
                earlier.eviction_dropped_full,
                self.eviction_dropped_full,
            ),
            tcp_transition_established: progress_of(
                earlier.tcp_transition_established,
                self.tcp_transition_established,
            ),
            tcp_transition_closing_fin: progress_of(
                earlier.tcp_transition_closing_fin,
                self.tcp_transition_closing_fin,
            ),
            tcp_transition_closing_rst: progress_of(
                earlier.tcp_transition_closing_rst,
                self.tcp_transition_closing_rst,
            ),
            conn_table_fallback_to_maglev_total: progress_of(
                earlier.conn_table_fallback_to_maglev_total,
                self.conn_table_fallback_to_maglev_total,
            ),
            conn_table_fill_bp: self.conn_table_fill_bp,
            mss_clamp_total: progress_of(earlier.mss_clamp_total, self.mss_clamp_total),
            mss_clamp_noop_total: progress_of(
                earlier.mss_clamp_noop_total,
                self.mss_clamp_noop_total,
            ),
            mss_clamp_missing_total: progress_of(
                earlier.mss_clamp_missing_total,
                self.mss_clamp_missing_total,
            ),
            icmp_frag_needed_sent_total: progress_of(
                earlier.icmp_frag_needed_sent_total,
                self.icmp_frag_needed_sent_total,
            ),
            icmp_frag_needed_ratelimited_total: progress_of(
                earlier.icmp_frag_needed_ratelimited_total,
                self.icmp_frag_needed_ratelimited_total,
            ),
            packets_oversized_dropped_total: progress_of(
                earlier.packets_oversized_dropped_total,
                self.packets_oversized_dropped_total,
            ),
            fragment_first_total: progress_of(
                earlier.fragment_first_total,
                self.fragment_first_total,
            ),
            fragment_subsequent_forwarded_total: progress_of(
                earlier.fragment_subsequent_forwarded_total,
                self.fragment_subsequent_forwarded_total,
            ),
            fragment_drop_no_mapping_total: progress_of(
                earlier.fragment_drop_no_mapping_total,
                self.fragment_drop_no_mapping_total,
            ),
        }
    }
}

/// One more event takes a counter one step further.
pub proof fn progress_counts_events(before: u64, after: u64)
    ensures
        progress(before, before) == 0,
        progress(before, after) < u64::MAX ==> progress(before, counted(after)) == progress(
            before,
            after,
        ) + 1,
{
}

} // verus!
