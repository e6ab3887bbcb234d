//! The upstream relay record: its address, probed inner protocol, ping
//! history, traffic meter, usage counters and health flag, with the state
//! transitions the checker and the sessions drive.
use vstd::prelude::*;

use crate::meter::{Meter, Sample};
use crate::net::Endpoint;
use crate::ping::{spec_add_clipped, spec_add_losses, Delay, PingHistory};
use crate::upstream::{AtomicInnerProto, Health, InnerProto, Usage};

verus! {

/// Mutable status of one upstream.
#[derive(Debug)]
pub struct ServerStatus {
    pub pings: PingHistory,
    pub usage: Usage,
    pub meter: Meter,
    pub health: Health,
}

/// One upstream SOCKSv5 relay.
#[derive(Debug)]
pub struct SocksServer {
    pub name: String,
    pub udp_addr: Endpoint,
    pub inner_proto: AtomicInnerProto,
    pub status: ServerStatus,
}

impl SocksServer {
    /// Structural invariant: bounded rings, and the meter never holds a
    /// snapshot past the cumulative counters it samples.
    pub open spec fn wf(&self) -> bool {
        &&& self.status.pings.wf()
        &&& self.status.meter.wf()
        &&& (self.status.meter.spec_samples().len() > 0
            ==> self.status.meter.spec_samples().last().traffic.tx_bytes
            <= self.status.usage.spec_traffic().tx_bytes
            && self.status.meter.spec_samples().last().traffic.rx_bytes
            <= self.status.usage.spec_traffic().rx_bytes)
    }

    pub fn new(udp_addr: Endpoint, name: String, inner_proto: InnerProto) -> (r: Self)
        ensures
            r.wf(),
            r.udp_addr == udp_addr,
            r.name == name,
            r.inner_proto.spec_get() == inner_proto,
            !r.status.health.spec_in_trouble(),
            r.status.pings.spec_slots().len() == 0,
            r.status.meter.spec_samples().len() == 0,
    {
        SocksServer {
            name,
            udp_addr,
            inner_proto: AtomicInnerProto::new(inner_proto),
            status: ServerStatus {
                pings: PingHistory::new(),
                usage: Usage::new(),
                meter: Meter::new(),
                health: Health::new(),
            },
        }
    }

    pub fn is_healthy(&self) -> (r: bool)
        ensures
            r == !self.status.health.spec_in_trouble(),
    {
        self.status.health.is_healthy()
    }

    /// Flips the health flag; true when this call changed it, so the caller
    /// logs each transition exactly once.
    pub fn set_troubleness(&mut self, trouble: bool) -> (changed: bool)
        ensures
            final(self).status.health.spec_in_trouble() == trouble,
            changed == (old(self).status.health.spec_in_trouble() != trouble),
            final(self).status.pings == old(self).status.pings,
            final(self).status.meter == old(self).status.meter,
            final(self).status.usage == old(self).status.usage,
            final(self).inner_proto == old(self).inner_proto,
            final(self).name == old(self).name,
            final(self).udp_addr == old(self).udp_addr,
            old(self).wf() ==> final(self).wf(),
    {
        self.status.health.set_troubleness(trouble)
    }

    /// Accounts bytes sent towards this upstream.
    pub fn note_tx(&mut self, bytes: usize)
        requires
            old(self).wf(),
            old(self).status.usage.spec_traffic().tx_bytes + bytes <= u64::MAX,
        ensures
            final(self).wf(),
            final(self).status.usage.spec_traffic().tx_bytes == old(self).status.usage.spec_traffic().tx_bytes + bytes,
            final(self).status.usage.spec_traffic().rx_bytes == old(self).status.usage.spec_traffic().rx_bytes,
            final(self).status.health == old(self).status.health,
            final(self).status.meter == old(self).status.meter,
    {
        self.status.usage.add_tx(bytes);
    }

    /// Accounts bytes received back through this upstream.
    pub fn note_rx(&mut self, bytes: usize)
        requires
            old(self).wf(),
            old(self).status.usage.spec_traffic().rx_bytes + bytes <= u64::MAX,
        ensures
            final(self).wf(),
            final(self).status.usage.spec_traffic().rx_bytes == old(self).status.usage.spec_traffic().rx_bytes + bytes,
            final(self).status.usage.spec_traffic().tx_bytes == old(self).status.usage.spec_traffic().tx_bytes,
            final(self).status.health == old(self).status.health,
            final(self).status.meter == old(self).status.meter,
    {
        self.status.usage.add_rx(bytes);
    }

    /// One meter tick: snapshots the cumulative counters into the meter
    /// ring; any receive traffic observed since startup clears the trouble
    /// flag at once.
    pub fn sample_traffic(&mut self)
        requires
            old(self).wf(),
        ensures
            final(self).wf(),
            final(self).status.meter.spec_samples().len() > 0,
            final(self).status.meter.spec_samples().last() == (Sample {
                traffic: old(self).status.usage.spec_traffic(),
            }),
            old(self).status.usage.spec_traffic().rx_bytes > 0
                ==> !final(self).status.health.spec_in_trouble(),
            old(self).status.usage.spec_traffic().rx_bytes == 0 ==> final(self).status.health
                == old(self).status.health,
            final(self).status.usage == old(self).status.usage,
    {
        let sample = self.status.usage.traffic_snapshot();
        self.status.meter.add_sample(sample);
        if sample.rx_bytes > 0 {
            self.status.health.set_troubleness(false);
        }
    }

    /// Records one ping batch outcome: `loss` probes lost before a match
    /// (or the whole batch on timeout), then the measured sample if any;
    /// exactly those slots enter the ring, oldest clipped past its bound.
    pub fn record_ping(&mut self, loss: usize, delay: Option<Delay>)
        requires
            old(self).wf(),
            loss <= 1000,
            delay matches Some(d) ==> d.wf(),
        ensures
            final(self).wf(),
            final(self).status.pings.spec_slots() == spec_add_clipped(
                spec_add_losses(old(self).status.pings.spec_slots(), loss as int),
                delay,
            ),
            final(self).status.pings.spec_slots().len() > 0,
            final(self).status.pings.spec_slots().last() == delay,
            final(self).status.health == old(self).status.health,
            final(self).status.meter == old(self).status.meter,
            final(self).status.usage == old(self).status.usage,
    {
        let mut i: usize = 0;
        while i < loss
            invariant
                i <= loss,
                self.status.pings.wf(),
                self.status.pings.spec_slots() == spec_add_losses(
                    old(self).status.pings.spec_slots(),
                    i as int,
                ),
                self.status.health == old(self).status.health,
                self.status.meter == old(self).status.meter,
                self.status.usage == old(self).status.usage,
                self.name == old(self).name,
                self.udp_addr == old(self).udp_addr,
                self.inner_proto == old(self).inner_proto,
                old(self).wf(),
            decreases loss - i,
        {
            self.status.pings.add_measurement(None);
            i = i + 1;
        }
        self.status.pings.add_measurement(delay);
    }
}

} // verus!
