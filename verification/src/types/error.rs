//! Errors of the load balancer.

use vstd::prelude::*;

verus! {

#[derive(Debug)]
pub enum LbError {
    Config(String),
    Validation(String),
    Io(String),
    NoHealthyBackends(String),
    VipNotFound(String),
    PoolNotFound(String),
}

impl LbError {
    /// The error in words.
    pub open spec fn text(self) -> Seq<char> {
        match self {
            LbError::Config(s) => "configuration error: "@ + s@,
            LbError::Validation(s) => "validation error: "@ + s@,
            LbError::Io(s) => "I/O error: "@ + s@,
            LbError::NoHealthyBackends(s) => "no healthy backends for pool "@ + s@,
            LbError::VipNotFound(s) => "VIP not found: "@ + s@,
            LbError::PoolNotFound(s) => "pool not found: "@ + s@,
        }
    }

    /// The error in words.
    pub fn message(&self) -> (m: String)
        ensures
            m@ == self.text(),
    {
        let (prefix, detail) = match self {
            LbError::Config(s) => ("configuration error: ", s),
            LbError::Validation(s) => ("validation error: ", s),
            LbError::Io(s) => ("I/O error: ", s),
            LbError::NoHealthyBackends(s) => ("no healthy backends for pool ", s),
            LbError::VipNotFound(s) => ("VIP not found: ", s),
            LbError::PoolNotFound(s) => ("pool not found: ", s),
        };
        let mut m = prefix.to_owned();
        m.append(detail.as_str());
        m
    }
}

} // verus!
