//! DPDK packet I/O backend.
//!
//! The backend is bound to a port and a queue; receive and transmit bursts
//! are not wired up yet.

use vstd::prelude::*;

use crate::io::packet_buf::{packets_of, PacketBuf};
use crate::io::packet_io::{IoError, PacketIo};

verus! {

/// Configuration for the DPDK I/O backend.
#[derive(Debug)]
pub struct DpdkConfig {
    /// EAL arguments (e.g., ["-l", "0-3", "--", "-p", "0x1"]).
    pub eal_args: Vec<String>,
    /// Port ID to use.
    pub port_id: u16,
    /// Number of RX queues.
    pub num_rx_queues: u16,
    /// Number of TX queues.
    pub num_tx_queues: u16,
    /// RX ring size.
    pub rx_ring_size: u16,
    /// TX ring size.
    pub tx_ring_size: u16,
    /// Mempool size (number of mbufs).
    pub mempool_size: u32,
}

impl Default for DpdkConfig {
    fn default() -> (c: DpdkConfig)
        ensures
            c.eal_args@.len() == 4,
            c.eal_args@[0]@ == "-l"@,
            c.eal_args@[1]@ == "0-7"@,
            c.eal_args@[2]@ == "-n"@,
            c.eal_args@[3]@ == "4"@,
            c.port_id == 0,
            c.num_rx_queues == 1,
            c.num_tx_queues == 1,
            c.rx_ring_size == 1024,
            c.tx_ring_size == 1024,
            c.mempool_size == 8192,
    {
        let mut eal_args: Vec<String> = Vec::new();
        eal_args.push("-l".to_owned());
        eal_args.push("0-7".to_owned());
        eal_args.push("-n".to_owned());
        eal_args.push("4".to_owned());
        DpdkConfig {
            eal_args,
            port_id: 0,
            num_rx_queues: 1,
            num_tx_queues: 1,
            rx_ring_size: 1024,
            tx_ring_size: 1024,
            mempool_size: 8192,
        }
    }
}

/// DPDK packet I/O backend.
///
/// Each instance is bound to a specific (port, queue) pair.
pub struct DpdkIo {
    port_id: u16,
    queue_id: u16,
    /// What came of each time that a batch was asked for.
    polled: Ghost<Seq<Option<Seq<Seq<u8>>>>>,
    /// The batches that were handed in.
    handed: Ghost<Seq<Seq<Seq<u8>>>>,
}

impl DpdkIo {
    /// The port that the backend is bound to.
    pub closed spec fn port(self) -> u16 {
        self.port_id
    }

    /// The queue that the backend is bound to.
    pub closed spec fn queue(self) -> u16 {
        self.queue_id
    }

    /// Create a port/queue binding.
    pub fn new(config: &DpdkConfig, queue_id: u16) -> (r: Result<DpdkIo, IoError>)
        ensures
            r matches Ok(io) && io.port() == config.port_id && io.queue() == queue_id
                && io.polled() == Seq::<Option<Seq<Seq<u8>>>>::empty() && io.handed()
                == Seq::<Seq<Seq<u8>>>::empty(),
    {
        Ok(
            DpdkIo {
                port_id: config.port_id,
                queue_id,
                polled: Ghost(Seq::empty()),
                handed: Ghost(Seq::empty()),
            },
        )
    }

    /// The port and the queue that the backend is bound to.
    pub fn binding(&self) -> (r: (u16, u16))
        ensures
            r == (self.port(), self.queue()),
    {
        (self.port_id, self.queue_id)
    }
}

impl PacketIo for DpdkIo {
    closed spec fn polled(&self) -> Seq<Option<Seq<Seq<u8>>>> {
        self.polled@
    }

    closed spec fn handed(&self) -> Seq<Seq<Seq<u8>>> {
        self.handed@
    }

    fn recv_batch(&mut self, buf: &mut [PacketBuf]) -> (r: Result<usize, IoError>)
        ensures
            r matches Ok(n) && n == 0,
            final(buf)@ == old(buf)@,
            final(self).port() == old(self).port(),
            final(self).queue() == old(self).queue(),
    {
        self.polled = Ghost(self.polled@.push(Some(packets_of(buf@.take(0)))));
        Ok(0)
    }

    fn send_batch(&mut self, buf: &[PacketBuf]) -> (r: Result<usize, IoError>)
        ensures
            r matches Ok(n) && n == 0,
            final(self).port() == old(self).port(),
            final(self).queue() == old(self).queue(),
    {
        self.handed = Ghost(self.handed@.push(packets_of(buf@)));
        Ok(0)
    }
}

} // verus!
