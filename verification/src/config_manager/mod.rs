//! Loading, checking and applying the load balancer configuration.

pub mod applier;
pub mod loader;
pub mod pool_set;
pub mod validator;
pub mod watcher;
