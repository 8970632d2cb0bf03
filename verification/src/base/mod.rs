//! Foundations shared by every part of the crate.

pub mod addr_set;
pub mod assoc;
pub mod checksum;
pub mod hash;
pub mod net;
pub mod power;
pub mod text;
pub mod time;
