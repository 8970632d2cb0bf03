//! Health transitions of a single backend.

use vstd::prelude::*;

use crate::types::backend::HealthStatus;

verus! {

/// Tracks health state transitions for a single backend.
#[derive(Debug, Clone, Copy)]
pub struct HealthState {
    pub status: HealthStatus,
    pub consecutive_successes: u32,
    pub consecutive_failures: u32,
}

/// The status that the counters lead to.
pub open spec fn next_status(
    status: HealthStatus,
    successes: int,
    failures: int,
    healthy_threshold: u32,
    unhealthy_threshold: u32,
) -> HealthStatus {
    match status {
        HealthStatus::Unknown => if successes >= healthy_threshold {
            HealthStatus::Healthy
        } else if failures >= unhealthy_threshold {
            HealthStatus::Unhealthy
        } else {
            status
        },
        HealthStatus::Healthy => if failures >= unhealthy_threshold {
            HealthStatus::Unhealthy
        } else {
            status
        },
        HealthStatus::Unhealthy => if successes >= healthy_threshold {
            HealthStatus::Healthy
        } else {
            status
        },
    }
}

/// The state after one more probe result.
pub open spec fn recorded(
    s: HealthState,
    success: bool,
    healthy_threshold: u32,
    unhealthy_threshold: u32,
) -> HealthState {
    let successes = if success {
        s.consecutive_successes + 1
    } else {
        0
    };
    let failures = if success {
        0
    } else {
        s.consecutive_failures + 1
    };
    HealthState {
        status: next_status(
            s.status,
            successes,
            failures,
            healthy_threshold,
            unhealthy_threshold,
        ),
        consecutive_successes: successes as u32,
        consecutive_failures: failures as u32,
    }
}

impl HealthState {
    pub fn new() -> (s: HealthState)
        ensures
            s == initial_state(),
    {
        HealthState {
            status: HealthStatus::Unknown,
            consecutive_successes: 0,
            consecutive_failures: 0,
        }
    }

    /// Record a probe result. Returns `Some(new_status)` on state transition.
    pub fn record_result(
        &mut self,
        success: bool,
        healthy_threshold: u32,
        unhealthy_threshold: u32,
    ) -> (r: Option<HealthStatus>)
        requires
            success ==> old(self).consecutive_successes < u32::MAX,
            !success ==> old(self).consecutive_failures < u32::MAX,
        ensures
            *final(self) == recorded(
                *old(self),
                success,
                healthy_threshold,
                unhealthy_threshold,
            ),
            r == (if final(self).status != old(self).status {
                Some(final(self).status)
            } else {
                None
            }),
    {
        if success {
            self.consecutive_successes = self.consecutive_successes + 1;
            self.consecutive_failures = 0;
        } else {
            self.consecutive_failures = self.consecutive_failures + 1;
            self.consecutive_successes = 0;
        }

        match self.status {
            HealthStatus::Unknown => {
                if self.consecutive_successes >= healthy_threshold {
                    self.status = HealthStatus::Healthy;
                    Some(HealthStatus::Healthy)
                } else if self.consecutive_failures >= unhealthy_threshold {
                    self.status = HealthStatus::Unhealthy;
                    Some(HealthStatus::Unhealthy)
                } else {
                    None
                }
            },
            HealthStatus::Healthy => {
                if self.consecutive_failures >= unhealthy_threshold {
                    self.status = HealthStatus::Unhealthy;
                    Some(HealthStatus::Unhealthy)
                } else {
                    None
                }
            },
            HealthStatus::Unhealthy => {
                if self.consecutive_successes >= healthy_threshold {
                    self.status = HealthStatus::Healthy;
                    Some(HealthStatus::Healthy)
                } else {
                    None
                }
            },
        }
    }
}

impl Default for HealthState {
    fn default() -> (s: HealthState)
        ensures
            s == initial_state(),
    {
        HealthState::new()
    }
}

/// The state before the first probe.
pub open spec fn initial_state() -> HealthState {
    HealthState {
        status: HealthStatus::Unknown,
        consecutive_successes: 0,
        consecutive_failures: 0,
    }
}

/// The state after a series of probe results.
pub open spec fn state_after(
    results: Seq<bool>,
    healthy_threshold: u32,
    unhealthy_threshold: u32,
) -> HealthState
    decreases results.len(),
{
    if results.len() == 0 {
        initial_state()
    } else {
        recorded(
            state_after(results.drop_last(), healthy_threshold, unhealthy_threshold),
            results.last(),
            healthy_threshold,
            unhealthy_threshold,
        )
    }
}

/// How many of the last results in a row are `b`.
pub open spec fn final_run(results: Seq<bool>, b: bool) -> nat
    decreases results.len(),
{
    if results.len() == 0 || results.last() != b {
        0
    } else {
        final_run(results.drop_last(), b) + 1
    }
}

proof fn lemma_final_run_bound(results: Seq<bool>, b: bool)
    ensures
        final_run(results, b) <= results.len(),
    decreases results.len(),
{
    if results.len() > 0 {
        lemma_final_run_bound(results.drop_last(), b);
    }
}

/// The counters hold how many of the last results in a row were successes and
/// failures.
pub proof fn counters_hold_final_runs(
    results: Seq<bool>,
    healthy_threshold: u32,
    unhealthy_threshold: u32,
)
    requires
        results.len() <= u32::MAX,
    ensures
        state_after(results, healthy_threshold, unhealthy_threshold).consecutive_successes
            == final_run(results, true),
        state_after(results, healthy_threshold, unhealthy_threshold).consecutive_failures
            == final_run(results, false),
    decreases results.len(),
{
    lemma_final_run_bound(results, true);
    lemma_final_run_bound(results, false);
    if results.len() > 0 {
        counters_hold_final_runs(results.drop_last(), healthy_threshold, unhealthy_threshold);
    }
}

/// As many successes in a row as the healthy threshold asks for make a backend
/// healthy, as many failures in a row as the unhealthy threshold asks for make
/// it unhealthy, and shorter runs leave its status as it was.
pub proof fn runs_decide_status(
    results: Seq<bool>,
    healthy_threshold: u32,
    unhealthy_threshold: u32,
)
    requires
        results.len() <= u32::MAX,
        healthy_threshold > 0,
        unhealthy_threshold > 0,
    ensures
        final_run(results, true) >= healthy_threshold ==> state_after(
            results,
            healthy_threshold,
            unhealthy_threshold,
        ).status is Healthy,
        final_run(results, false) >= unhealthy_threshold ==> state_after(
            results,
            healthy_threshold,
            unhealthy_threshold,
        ).status is Unhealthy,
        results.len() > 0 && final_run(results, true) < healthy_threshold && final_run(
            results,
            false,
        ) < unhealthy_threshold ==> state_after(
            results,
            healthy_threshold,
            unhealthy_threshold,
        ).status == state_after(
            results.drop_last(),
            healthy_threshold,
            unhealthy_threshold,
        ).status,
{
    counters_hold_final_runs(results, healthy_threshold, unhealthy_threshold);
    if results.len() > 0 {
        counters_hold_final_runs(results.drop_last(), healthy_threshold, unhealthy_threshold);
    }
}

} // verus!
