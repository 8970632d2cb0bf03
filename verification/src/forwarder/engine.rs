//! Single-threaded forwarder engine.
//!
//! **Not for production.** The multi-threaded pipeline of
//! [`crate::forwarder::pipeline`] is what carries traffic. The engine exists
//! as the test and development driver: one rewriter on the calling thread, no
//! queues in between.

use vstd::prelude::*;

use crate::base::net::IpAddr;
use crate::base::time::{Duration, Instant};
use crate::config_manager::applier::{tables_wf, LookupTables};
use crate::forwarder::icmp::VipLimits;
use crate::forwarder::metrics::ForwarderCounts;
use crate::forwarder::rewriter::{
    forwarding_view, process_all, table_size_valid, with_gauges, ForwardingView,
    RewriterState, RewriterThread,
};
use crate::forwarder::vip_matcher::VipMatcher;
use crate::health::status_map::HealthMap;
use crate::io::packet_buf::{packets_of, PacketBuf};
use crate::io::packet_io::{buffers_wf, PacketIo};
use crate::types::config::ConnTtls;
use crate::types::mtu::MtuConfig;

verus! {

/// Configuration for the ForwarderEngine.
pub struct ForwarderConfig {
    pub src_ip: IpAddr,
    pub connection_table_size: usize,
    pub conn_ttls: ConnTtls,
    pub fragment_table_size: usize,
    pub fragment_ttl: Duration,
    pub batch_size: usize,
    pub mtu_config: MtuConfig,
    pub icmp_rate_limit: u32,
}

/// Single-threaded forwarder engine.
pub struct ForwarderEngine<T: PacketIo> {
    io: T,
    rewriter: RewriterThread,
    batch_size: usize,
}

/// A rewriter after a cycle in which the packets `inputs` were received, and
/// the packets it sends on.
pub open spec fn cycled(
    s: RewriterState,
    inputs: Seq<Seq<u8>>,
    v: ForwardingView,
    now: Instant,
) -> (RewriterState, Seq<Seq<u8>>) {
    if inputs.len() == 0 {
        (s, Seq::empty())
    } else {
        let (t, sent) = process_all(s, inputs, v, now);
        (with_gauges(t), sent)
    }
}

/// The batches handed to the backend after a cycle that sends `sent`: an empty
/// batch is not handed over.
pub open spec fn with_sent(
    handed: Seq<Seq<Seq<u8>>>,
    sent: Seq<Seq<u8>>,
) -> Seq<Seq<Seq<u8>>> {
    if sent.len() == 0 {
        handed
    } else {
        handed.push(sent)
    }
}

impl<T: PacketIo> ForwarderEngine<T> {
    pub closed spec fn wf(self) -> bool {
        self.rewriter.wf()
    }

    /// What the engine's rewriter remembers.
    pub closed spec fn state(self) -> RewriterState {
        self.rewriter@
    }

    /// What came of each time that the backend was asked for a batch.
    pub closed spec fn polled(self) -> Seq<Option<Seq<Seq<u8>>>> {
        self.io.polled()
    }

    /// The batches that the backend was given to send.
    pub closed spec fn handed(self) -> Seq<Seq<Seq<u8>>> {
        self.io.handed()
    }

    pub closed spec fn batch(self) -> nat {
        self.batch_size as nat
    }

    pub fn new(io: T, config: ForwarderConfig, metrics: ForwarderCounts) -> (e:
        ForwarderEngine<T>)
        requires
            table_size_valid(config.connection_table_size),
        ensures
            e.wf(),
            e.batch() == config.batch_size,
            e.polled() == io.polled(),
            e.handed() == io.handed(),
            e.state().src_ip == config.src_ip,
            e.state().ttls == config.conn_ttls,
            e.state().mtu == config.mtu_config,
            e.state().metrics == metrics,
            e.state().limits == (VipLimits {
                max_per_second: config.icmp_rate_limit,
                per_vip: Map::empty(),
            }),
            e.state().conns.len() == config.connection_table_size,
            forall|i: int|
                0 <= i < config.connection_table_size ==> !(
                #[trigger] e.state().conns[i]).occupied,
    {
        let rewriter = RewriterThread::new(
            config.src_ip,
            config.connection_table_size,
            config.conn_ttls,
            metrics,
            config.mtu_config,
            config.icmp_rate_limit,
        );
        ForwarderEngine { io, rewriter, batch_size: config.batch_size }
    }

    /// The counters so far.
    pub fn metrics(&self) -> (m: &ForwarderCounts)
        ensures
            *m == self.state().metrics,
    {
        self.rewriter.metrics()
    }

    /// Run a single receive-process-send cycle. Returns the number of packets
    /// forwarded.
    ///
    /// The backend is asked for one batch. What the rewriter makes of the
    /// packets that it delivers is handed to it to send. If it fails, nothing
    /// changes.
    pub fn run_once(
        &mut self,
        vip_matcher: &VipMatcher,
        lookup_tables: &LookupTables,
        health_status: &HealthMap,
        now: Instant,
    ) -> (n: usize)
        requires
            old(self).wf(),
            vip_matcher.wf(),
            tables_wf(*lookup_tables),
        ensures
            final(self).wf(),
            final(self).batch() == old(self).batch(),
            final(self).polled().len() == old(self).polled().len() + 1,
            final(self).polled().drop_last() == old(self).polled(),
            match final(self).polled().last() {
                None => {
                    &&& final(self).handed() == old(self).handed()
                    &&& final(self).state() == old(self).state()
                    &&& n == 0
                },
                Some(inputs) => {
                    let (t, sent) = cycled(
                        old(self).state(),
                        inputs,
                        forwarding_view(vip_matcher, lookup_tables, health_status),
                        now,
                    );
                    &&& inputs.len() <= old(self).batch()
                    &&& final(self).state() == t
                    &&& final(self).handed() == with_sent(old(self).handed(), sent)
                    &&& n == sent.len()
                    &&& n <= old(self).batch()
                },
            },
    {
        let ghost v = forwarding_view(vip_matcher, lookup_tables, health_status);
        let ghost s0 = self.state();
        let mut rx_buf: Vec<PacketBuf> = vec![PacketBuf::new(); self.batch_size];
        assert(buffers_wf(rx_buf@));
        let received: usize = match self.io.recv_batch(rx_buf.as_mut_slice()) {
            Ok(n) => n,
            Err(_) => {
                return 0;
            },
        };
        if received == 0 {
            return 0;
        }
        rx_buf.truncate(received);
        let ghost inputs = packets_of(rx_buf@);
        assert(self.io.polled().last() == Some(inputs));
        let processed: usize = self.rewriter.process_batch(
            rx_buf.as_mut_slice(),
            vip_matcher,
            lookup_tables,
            health_status,
            now,
        );
        assert(cycled(s0, inputs, v, now).0 == self.state());
        if processed > 0 {
            rx_buf.truncate(processed);
            let _ = self.io.send_batch(rx_buf.as_slice());
        }
        processed
    }
}

} // verus!
