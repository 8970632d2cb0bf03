//! Health of the backends.

pub mod checker;
pub mod probe;
pub mod state_machine;
pub mod status_map;
