//! What the operations HTTP server answers.
//!
//! * `/healthz` — liveness. 200 as long as the process is up.
//! * `/readyz` — readiness. 200 iff the initial config has been applied *and*
//!   the multi-threaded forwarder is still running.

use vstd::prelude::*;

verus! {

pub const STATUS_OK: u16 = 200;

pub const STATUS_SERVICE_UNAVAILABLE: u16 = 503;

/// A status code and a plain-text body.
#[derive(Debug)]
pub struct Answer {
    pub status: u16,
    pub body: &'static str,
}

/// Liveness. A failing liveness probe triggers restart, not de-pooling, so we
/// don't gate this on anything.
pub fn healthz() -> (a: Answer)
    ensures
        a.status == STATUS_OK,
        a.body@ == "ok\n"@,
{
    Answer { status: STATUS_OK, body: "ok\n" }
}

/// Readiness.
pub fn readyz(ready: bool, forwarder_running: bool) -> (a: Answer)
    ensures
        a.status == (if ready && forwarder_running {
            STATUS_OK
        } else {
            STATUS_SERVICE_UNAVAILABLE
        }),
        a.body@ == (if !ready {
            "config not applied\n"@
        } else if !forwarder_running {
            "forwarder stopped\n"@
        } else {
            "ok\n"@
        }),
{
    if !ready {
        return Answer { status: STATUS_SERVICE_UNAVAILABLE, body: "config not applied\n" };
    }
    if !forwarder_running {
        return Answer { status: STATUS_SERVICE_UNAVAILABLE, body: "forwarder stopped\n" };
    }
    Answer { status: STATUS_OK, body: "ok\n" }
}

} // verus!
