//! Which backends are probed, and what a probe result means for them.

use vstd::prelude::*;

use crate::base::time::Duration;
use crate::health::probe::ProbeResult;
use crate::health::state_machine::{recorded, HealthState};
use crate::types::backend::{Backend, HealthStatus};

verus! {

/// Whether two backends are probed by the same probe: same address and port.
pub open spec fn same_target(a: Backend, b: Backend) -> bool {
    a.ip == b.ip && a.port == b.port
}

/// Whether a backend with the address and port of `b` is among `s`.
pub open spec fn has_target(s: Seq<Backend>, b: Backend) -> bool {
    exists|i: int| 0 <= i < s.len() && same_target(#[trigger] s[i], b)
}

/// The backends without those whose address and port occurred before.
pub open spec fn unique_backends(s: Seq<Backend>) -> Seq<Backend>
    decreases s.len(),
{
    if s.len() == 0 {
        Seq::empty()
    } else if has_target(unique_backends(s.drop_last()), s.last()) {
        unique_backends(s.drop_last())
    } else {
        unique_backends(s.drop_last()).push(s.last())
    }
}

/// The backends to probe: a backend that is in several pools is probed once.
pub fn probe_targets(backends: &Vec<Backend>) -> (out: Vec<Backend>)
    ensures
        out@ == unique_backends(backends@),
{
    let mut out: Vec<Backend> = Vec::new();
    let mut i: usize = 0;
    while i < backends.len()
        invariant
            i <= backends@.len(),
            out@ == unique_backends(backends@.take(i as int)),
        decreases backends@.len() - i,
    {
        let b: Backend = backends[i];
        let mut known = false;
        let mut j: usize = 0;
        while j < out.len() && !known
            invariant
                j <= out@.len(),
                known ==> has_target(out@, b),
                !known ==> forall|k: int| 0 <= k < j ==> !same_target(#[trigger] out@[k], b),
            decreases out@.len() - j,
        {
            if out[j].ip == b.ip && out[j].port == b.port {
                assert(same_target(out@[j as int], b));
                known = true;
            }
            j = j + 1;
        }
        assert(backends@.take(i + 1).drop_last() =~= backends@.take(i as int));
        if !known {
            out.push(b);
        }
        i = i + 1;
    }
    assert(backends@.take(i as int) =~= backends@);
    out
}

/// No two backends to probe have the same address and port, each of them is one
/// of the given ones, and each of the given ones is covered.
pub proof fn targets_are_unique(s: Seq<Backend>)
    ensures
        forall|i: int, j: int|
            0 <= i < j < unique_backends(s).len() ==> !same_target(
                #[trigger] unique_backends(s)[i],
                #[trigger] unique_backends(s)[j],
            ),
        forall|i: int|
            0 <= i < unique_backends(s).len() ==> s.contains(#[trigger] unique_backends(s)[i]),
        forall|i: int| 0 <= i < s.len() ==> has_target(unique_backends(s), #[trigger] s[i]),
    decreases s.len(),
{
    if s.len() > 0 {
        let p = s.drop_last();
        let before = unique_backends(p);
        let after = unique_backends(s);
        targets_are_unique(p);
        assert forall|i: int| 0 <= i < after.len() implies s.contains(#[trigger] after[i]) by {
            if i < before.len() {
                assert(p.contains(before[i]));
                let k = choose|k: int| 0 <= k < p.len() && p[k] == before[i];
                assert(s[k] == after[i]);
            } else {
                assert(s[s.len() - 1] == after[i]);
            }
        }
        assert forall|i: int| 0 <= i < s.len() implies has_target(after, #[trigger] s[i]) by {
            if i < p.len() {
                assert(has_target(before, p[i]));
                let k = choose|k: int| 0 <= k < before.len() && same_target(before[k], p[i]);
                assert(same_target(after[k], s[i]));
            } else if has_target(before, s.last()) {
            } else {
                assert(same_target(after[before.len() as int], s[i]));
            }
        }
    }
}

/// How backends are checked.
#[derive(Debug, Clone, Copy)]
pub struct HealthChecker {
    pub interval: Duration,
    pub timeout: Duration,
    pub healthy_threshold: u32,
    pub unhealthy_threshold: u32,
}

impl HealthChecker {
    pub fn new(
        interval: Duration,
        timeout: Duration,
        healthy_threshold: u32,
        unhealthy_threshold: u32,
    ) -> (c: HealthChecker)
        ensures
            c == (HealthChecker { interval, timeout, healthy_threshold, unhealthy_threshold }),
    {
        HealthChecker { interval, timeout, healthy_threshold, unhealthy_threshold }
    }

    /// Takes in a probe result of a backend: `Some` new status if it changed.
    pub fn observe(&self, state: &mut HealthState, result: &ProbeResult) -> (r: Option<
        HealthStatus,
    >)
        requires
            *result is Success ==> old(state).consecutive_successes < u32::MAX,
            !(*result is Success) ==> old(state).consecutive_failures < u32::MAX,
        ensures
            *final(state) == recorded(
                *old(state),
                *result is Success,
                self.healthy_threshold,
                self.unhealthy_threshold,
            ),
            r == (if final(state).status != old(state).status {
                Some(final(state).status)
            } else {
                None
            }),
    {
        state.record_result(result.is_success(), self.healthy_threshold, self.unhealthy_threshold)
    }
}

} // verus!
