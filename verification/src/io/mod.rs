//! Packet buffers and the packet I/O backends.

pub mod af_xdp;
pub mod dpdk;
pub mod mock;
pub mod mock_lockfree;
pub mod packet_buf;
pub mod packet_io;
