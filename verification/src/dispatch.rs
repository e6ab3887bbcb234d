//! Flow dispatcher decisions: what a flow is bound to, when it migrates
//! away from an unhealthy upstream, and which upstream a new binding picks
//! from the ranked pool.
use vstd::prelude::*;

use crate::net::{ClientAddr, RemoteAddr};
use crate::server::SocksServer;
use crate::socks5::{spec_target_from_endpoint, spec_target_proto, SocksTarget};
use crate::upstream::{spec_capable, AppProto};

verus! {

/// An upstream qualifies for a target family when its probed inner protocol
/// can reach it and its health flag is clear.
pub open spec fn spec_qualifies(s: &SocksServer, proto: AppProto) -> bool {
    spec_capable(s.inner_proto.spec_get(), proto) && !s.status.health.spec_in_trouble()
}

/// Picks the first qualifying upstream of the pool, which the checker keeps
/// sorted best-first; `None` when every upstream is ruled out.
pub fn select_proxy(servers: &Vec<SocksServer>, proto: AppProto) -> (r: Option<usize>)
    ensures
        match r {
            Some(i) => i < servers@.len() && spec_qualifies(&servers@[i as int], proto) && forall|
                j: int,
            | 0 <= j < i ==> !spec_qualifies(&servers@[j], proto),
            None => forall|j: int| 0 <= j < servers@.len() ==> !spec_qualifies(&servers@[j], proto),
        },
{
    let mut i: usize = 0;
    while i < servers.len()
        invariant
            i <= servers@.len(),
            forall|j: int| 0 <= j < i ==> !spec_qualifies(&servers@[j], proto),
        decreases servers@.len() - i,
    {
        let s = &servers[i];
        if s.inner_proto.get().capable(proto) && s.is_healthy() {
            return Some(i);
        }
        i = i + 1;
    }
    None
}

/// Two targets name the same destination.
pub open spec fn spec_same_target(a: SocksTarget, b: SocksTarget) -> bool {
    match (a, b) {
        (SocksTarget::V4(x, p), SocksTarget::V4(y, q)) => x == y && p == q,
        (SocksTarget::V6(x, p), SocksTarget::V6(y, q)) => x == y && p == q,
        (SocksTarget::Name(x, p), SocksTarget::Name(y, q)) => x@ == y@ && p == q,
        _ => false,
    }
}

/// The target a flow asks its relay session for: the extracted server name
/// with the remote port when remote DNS is in use, else the remote address
/// itself.
pub fn flow_target(remote_name: &Option<Vec<u8>>, remote: RemoteAddr) -> (r: SocksTarget)
    ensures
        spec_same_target(r, spec_flow_target(remote_name, remote)),
{
    match remote_name {
        Some(name) => SocksTarget::Name(clone_bytes(name), remote.0.port),
        None => SocksTarget::from_endpoint(remote.0),
    }
}

fn clone_bytes(v: &Vec<u8>) -> (r: Vec<u8>)
    ensures
        r@ == v@,
{
    let mut out: Vec<u8> = Vec::new();
    let mut i: usize = 0;
    while i < v.len()
        invariant
            i <= v@.len(),
            out@ == v@.take(i as int),
        decreases v@.len() - i,
    {
        out.push(v[i]);
        proof {
            assert(v@.take(i + 1) =~= v@.take(i as int).push(v@[i as int]));
        }
        i = i + 1;
    }
    proof {
        assert(v@.take(v@.len() as int) =~= v@);
    }
    out
}

/// What the dispatcher does with one packet burst of a flow.
#[derive(Debug, PartialEq, Eq)]
pub enum DispatchDecision {
    /// The flow keeps its bound session.
    UseBound,
    /// Bind (or rebind) to the upstream at this pool index, for this target.
    Bind(usize, SocksTarget),
    /// Every upstream is ruled out: the packet is dropped.
    NoProxy,
}

/// Per-packet dispatch rule.  A flow bound to a healthy upstream keeps its
/// session; one bound to an upstream now in trouble is unbound and
/// reselected with the same target encoding; an unbound flow selects fresh.
pub fn dispatch_decision(
    bound_healthy: Option<bool>,
    remote_name: &Option<Vec<u8>>,
    remote: RemoteAddr,
    servers: &Vec<SocksServer>,
) -> (r: DispatchDecision)
    ensures
        bound_healthy == Some(true) ==> r == DispatchDecision::UseBound,
        bound_healthy != Some(true) ==> {
            let target = spec_flow_target(remote_name, remote);
            match r {
                DispatchDecision::UseBound => false,
                DispatchDecision::Bind(i, t) => spec_same_target(t, target) && i < servers@.len()
                    && spec_qualifies(&servers@[i as int], spec_target_proto(target)) && forall|
                    j: int,
                | 0 <= j < i ==> !spec_qualifies(&servers@[j], spec_target_proto(target)),
                DispatchDecision::NoProxy => forall|j: int|
                    0 <= j < servers@.len() ==> !spec_qualifies(
                        &servers@[j],
                        spec_target_proto(spec_flow_target(remote_name, remote)),
                    ),
            }
        },
{
    match bound_healthy {
        Some(true) => DispatchDecision::UseBound,
        _ => {
            let target = flow_target(remote_name, remote);
            let proto = target.proto();
            match select_proxy(servers, proto) {
                Some(i) => DispatchDecision::Bind(i, target),
                None => DispatchDecision::NoProxy,
            }
        },
    }
}

/// Spec twin of `flow_target`.
pub open spec fn spec_flow_target(remote_name: &Option<Vec<u8>>, remote: RemoteAddr) -> SocksTarget {
    match remote_name {
        Some(name) => SocksTarget::Name(*name, remote.0.port),
        None => spec_target_from_endpoint(remote.0),
    }
}

/// One tracked flow: its key, the server name its first packet revealed,
/// and the pool index its current session is bound to, if any.
#[derive(Debug)]
pub struct FlowState {
    pub client: ClientAddr,
    pub remote: RemoteAddr,
    pub remote_name: Option<Vec<u8>>,
    pub bound: Option<usize>,
}

impl FlowState {
    pub open spec fn spec_bound(&self) -> Option<usize> {
        self.bound
    }

    /// A flow starts unbound: it holds no session until a packet selects
    /// an upstream.
    pub fn new(client: ClientAddr, remote: RemoteAddr, remote_name: Option<Vec<u8>>) -> (r: Self)
        ensures
            r.client == client,
            r.remote == remote,
            r.remote_name == remote_name,
            r.spec_bound() is None,
    {
        FlowState { client, remote, remote_name, bound: None }
    }

    /// Binds the flow to one upstream; it holds at most one at a time.
    pub fn set_proxy(&mut self, server_index: usize)
        ensures
            final(self).spec_bound() == Some(server_index),
            final(self).client == old(self).client,
            final(self).remote == old(self).remote,
            final(self).remote_name == old(self).remote_name,
    {
        self.bound = Some(server_index);
    }

    /// Unbinds the flow; it must acquire a new session before forwarding.
    pub fn clear_proxy(&mut self)
        ensures
            final(self).spec_bound() is None,
            final(self).client == old(self).client,
            final(self).remote == old(self).remote,
            final(self).remote_name == old(self).remote_name,
    {
        self.bound = None;
    }

    pub fn proxy(&self) -> (r: Option<usize>)
        ensures
            r == self.spec_bound(),
    {
        self.bound
    }
}

} // verus!
