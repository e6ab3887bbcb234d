//! Upstream relay records: inner-protocol classification, traffic counters,
//! session usage accounting, and the health flag.
use vstd::prelude::*;

verus! {

/// IP family an upstream relay can reach on its inner side.
#[derive(Debug, Clone, Copy, PartialEq, Eq, Structural)]
pub enum InnerProto {
    Unspecified,
    IPv4,
    IPv6,
    Inet,
}

/// IP family a flow's target requires.
#[derive(Debug, Clone, Copy, PartialEq, Eq, Structural)]
pub enum AppProto {
    IPv4,
    IPv6,
    Any,
}

pub open spec fn spec_capable(inner: InnerProto, app: AppProto) -> bool {
    match (inner, app) {
        (_, AppProto::Any) => true,
        (InnerProto::Unspecified, _) => true,
        (InnerProto::Inet, _) => true,
        (InnerProto::IPv4, AppProto::IPv4) => true,
        (InnerProto::IPv6, AppProto::IPv6) => true,
        _ => false,
    }
}

impl InnerProto {
    /// Capability matrix: unknown or dual-stack uppers match anything; a
    /// single-family upper matches its own family or a wildcard target.
    pub fn capable(&self, app: AppProto) -> (r: bool)
        ensures
            r == spec_capable(*self, app),
    {
        match (self, app) {
            (_, AppProto::Any) => true,
            (InnerProto::Unspecified, _) => true,
            (InnerProto::Inet, _) => true,
            (InnerProto::IPv4, AppProto::IPv4) => true,
            (InnerProto::IPv6, AppProto::IPv6) => true,
            _ => false,
        }
    }
}

/// Inner-protocol slot of an upstream.  The running system stores it as one
/// raw byte written by the prober and read by the selector; any unknown byte
/// reads back as `Unspecified`.
#[derive(Debug)]
pub struct AtomicInnerProto {
    raw: u8,
}

impl AtomicInnerProto {
    pub closed spec fn spec_get(&self) -> InnerProto {
        if self.raw == 1 {
            InnerProto::IPv4
        } else if self.raw == 2 {
            InnerProto::IPv6
        } else if self.raw == 3 {
            InnerProto::Inet
        } else {
            InnerProto::Unspecified
        }
    }

    pub fn new(p: InnerProto) -> (r: Self)
        ensures
            r.spec_get() == p,
    {
        AtomicInnerProto { raw: match p {
            InnerProto::Unspecified => 0,
            InnerProto::IPv4 => 1,
            InnerProto::IPv6 => 2,
            InnerProto::Inet => 3,
        } }
    }

    pub fn get(&self) -> (r: InnerProto)
        ensures
            r == self.spec_get(),
    {
        if self.raw == 1 {
            InnerProto::IPv4
        } else if self.raw == 2 {
            InnerProto::IPv6
        } else if self.raw == 3 {
            InnerProto::Inet
        } else {
            InnerProto::Unspecified
        }
    }

    pub fn set(&mut self, p: InnerProto)
        ensures
            final(self).spec_get() == p,
    {
        self.raw = match p {
            InnerProto::Unspecified => 0,
            InnerProto::IPv4 => 1,
            InnerProto::IPv6 => 2,
            InnerProto::Inet => 3,
        };
    }
}

/// Cumulative byte counters of one direction pair.
#[derive(Debug, Clone, Copy, PartialEq, Eq, Structural)]
pub struct Traffic {
    pub tx_bytes: u64,
    pub rx_bytes: u64,
}

impl Traffic {
    pub fn new() -> (r: Self)
        ensures
            r.tx_bytes == 0 && r.rx_bytes == 0,
    {
        Traffic { tx_bytes: 0, rx_bytes: 0 }
    }

    /// Delta of two cumulative snapshots; the later snapshot must dominate.
    pub fn sub(self, rhs: Self) -> (r: Self)
        requires
            rhs.tx_bytes <= self.tx_bytes,
            rhs.rx_bytes <= self.rx_bytes,
        ensures
            r.tx_bytes == self.tx_bytes - rhs.tx_bytes,
            r.rx_bytes == self.rx_bytes - rhs.rx_bytes,
    {
        Traffic {
            tx_bytes: self.tx_bytes - rhs.tx_bytes,
            rx_bytes: self.rx_bytes - rhs.rx_bytes,
        }
    }
}

/// Running cumulative traffic counters of an upstream or a session.
#[derive(Debug)]
pub struct AtomicTraffic {
    tx_bytes: u64,
    rx_bytes: u64,
}

impl AtomicTraffic {
    pub closed spec fn spec_get(&self) -> Traffic {
        Traffic { tx_bytes: self.tx_bytes, rx_bytes: self.rx_bytes }
    }

    pub fn new() -> (r: Self)
        ensures
            r.spec_get() == (Traffic { tx_bytes: 0, rx_bytes: 0 }),
    {
        AtomicTraffic { tx_bytes: 0, rx_bytes: 0 }
    }

    pub fn add_tx(&mut self, bytes: usize)
        requires
            old(self).spec_get().tx_bytes + bytes <= u64::MAX,
        ensures
            final(self).spec_get().tx_bytes == old(self).spec_get().tx_bytes + bytes,
            final(self).spec_get().rx_bytes == old(self).spec_get().rx_bytes,
    {
        self.tx_bytes = self.tx_bytes + bytes as u64;
    }

    pub fn add_rx(&mut self, bytes: usize)
        requires
            old(self).spec_get().rx_bytes + bytes <= u64::MAX,
        ensures
            final(self).spec_get().rx_bytes == old(self).spec_get().rx_bytes + bytes,
            final(self).spec_get().tx_bytes == old(self).spec_get().tx_bytes,
    {
        self.rx_bytes = self.rx_bytes + bytes as u64;
    }

    pub fn get(&self) -> (r: Traffic)
        ensures
            r == self.spec_get(),
    {
        Traffic { tx_bytes: self.tx_bytes, rx_bytes: self.rx_bytes }
    }
}

/// Session counters of an upstream: how many relay sessions were ever opened
/// and how many are open now.
#[derive(Debug)]
pub struct Usage {
    pub traffic: AtomicTraffic,
    session_active: u64,
    session_total: u64,
}

impl Usage {
    pub closed spec fn spec_active(&self) -> u64 {
        self.session_active
    }

    pub closed spec fn spec_total(&self) -> u64 {
        self.session_total
    }

    pub closed spec fn spec_traffic(&self) -> Traffic {
        self.traffic.spec_get()
    }

    pub fn new() -> (r: Self)
        ensures
            r.spec_active() == 0 && r.spec_total() == 0,
            r.spec_traffic() == (Traffic { tx_bytes: 0, rx_bytes: 0 }),
    {
        Usage { traffic: AtomicTraffic::new(), session_active: 0, session_total: 0 }
    }

    pub fn open_session(&mut self)
        requires
            old(self).spec_active() < u64::MAX,
            old(self).spec_total() < u64::MAX,
        ensures
            final(self).spec_active() == old(self).spec_active() + 1,
            final(self).spec_total() == old(self).spec_total() + 1,
            final(self).spec_traffic() == old(self).spec_traffic(),
    {
        self.session_total = self.session_total + 1;
        self.session_active = self.session_active + 1;
    }

    pub fn close_session(&mut self)
        requires
            old(self).spec_active() >= 1,
        ensures
            final(self).spec_active() == old(self).spec_active() - 1,
            final(self).spec_total() == old(self).spec_total(),
            final(self).spec_traffic() == old(self).spec_traffic(),
    {
        self.session_active = self.session_active - 1;
    }

    /// Accounts transmitted bytes on the cumulative counters.
    pub fn add_tx(&mut self, bytes: usize)
        requires
            old(self).spec_traffic().tx_bytes + bytes <= u64::MAX,
        ensures
            final(self).spec_traffic().tx_bytes == old(self).spec_traffic().tx_bytes + bytes,
            final(self).spec_traffic().rx_bytes == old(self).spec_traffic().rx_bytes,
            final(self).spec_active() == old(self).spec_active(),
            final(self).spec_total() == old(self).spec_total(),
    {
        self.traffic.add_tx(bytes);
    }

    /// Accounts received bytes on the cumulative counters.
    pub fn add_rx(&mut self, bytes: usize)
        requires
            old(self).spec_traffic().rx_bytes + bytes <= u64::MAX,
        ensures
            final(self).spec_traffic().rx_bytes == old(self).spec_traffic().rx_bytes + bytes,
            final(self).spec_traffic().tx_bytes == old(self).spec_traffic().tx_bytes,
            final(self).spec_active() == old(self).spec_active(),
            final(self).spec_total() == old(self).spec_total(),
    {
        self.traffic.add_rx(bytes);
    }

    /// Snapshot of the cumulative traffic counters.
    pub fn traffic_snapshot(&self) -> (r: Traffic)
        ensures
            r == self.spec_traffic(),
    {
        self.traffic.get()
    }

    pub fn active_sessions(&self) -> (r: u64)
        ensures
            r == self.spec_active(),
    {
        self.session_active
    }
}

/// Health flag of an upstream: `in_trouble` says it currently fails to carry
/// traffic both ways.
#[derive(Debug)]
pub struct Health {
    in_trouble: bool,
}

impl Health {
    pub closed spec fn spec_in_trouble(&self) -> bool {
        self.in_trouble
    }

    pub fn new() -> (r: Self)
        ensures
            !r.spec_in_trouble(),
    {
        Health { in_trouble: false }
    }

    pub fn is_healthy(&self) -> (r: bool)
        ensures
            r == !self.spec_in_trouble(),
    {
        !self.in_trouble
    }

    /// Sets the flag; reports whether the value changed, so that the caller
    /// can log each transition exactly once.
    pub fn set_troubleness(&mut self, trouble: bool) -> (changed: bool)
        ensures
            final(self).spec_in_trouble() == trouble,
            changed == (old(self).spec_in_trouble() != trouble),
    {
        let changed = self.in_trouble != trouble;
        self.in_trouble = trouble;
        changed
    }
}

/// Default of the `enabled` flag of a configured upstream entry.
pub fn bool_true() -> (r: bool)
    ensures
        r,
{
    true
}

} // verus!
