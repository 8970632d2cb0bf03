//! The BGP side: messages, sessions and the supervisor's rules.

pub mod error_code;
pub mod framing;
pub mod md5;
pub mod messages;
pub mod session;
pub mod speaker;
