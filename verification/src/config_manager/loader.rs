//! The load balancer configuration.

use vstd::prelude::*;

use crate::types::backend::BackendPool;
use crate::types::vip::Vip;

verus! {

/// The full LB configuration.
#[derive(Debug)]
pub struct LbConfig {
    pub vips: Vec<Vip>,
    pub pools: Vec<BackendPool>,
}

} // verus!
