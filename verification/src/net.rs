//! Socket-address model of the proxy: plain IPv4/IPv6 endpoints, the
//! canonical form used as flow keys, and the grouping of received datagram
//! batches by flow.
use vstd::prelude::*;

verus! {

/// An IP address held as its raw bits.
#[derive(Debug, Clone, Copy, PartialEq, Eq, PartialOrd, Ord, Hash, Structural)]
pub enum IpAddress {
    V4(u32),
    V6(u128),
}

/// A UDP endpoint: address and port.
#[derive(Debug, Clone, Copy, PartialEq, Eq, PartialOrd, Ord, Hash, Structural)]
pub struct Endpoint {
    pub ip: IpAddress,
    pub port: u16,
}

/// An IPv4-mapped IPv6 address (`::ffff:a.b.c.d`) collapses to the IPv4
/// address it maps; every other address stays as it is.
pub open spec fn spec_canonical(e: Endpoint) -> Endpoint {
    match e.ip {
        IpAddress::V4(_) => e,
        IpAddress::V6(bits) => if bits >> 32 == 0xffff {
            Endpoint { ip: IpAddress::V4((bits & 0xffff_ffff) as u32), port: e.port }
        } else {
            e
        },
    }
}

pub fn canonicalize_endpoint(e: Endpoint) -> (r: Endpoint)
    ensures
        r == spec_canonical(e),
{
    match e.ip {
        IpAddress::V4(_) => e,
        IpAddress::V6(bits) => if bits >> 32 == 0xffff {
            Endpoint { ip: IpAddress::V4((bits & 0xffff_ffff) as u32), port: e.port }
        } else {
            e
        },
    }
}

/// Source address of a flow, in canonical form.
#[derive(Debug, Clone, Copy, PartialEq, Eq, PartialOrd, Ord, Hash, Structural)]
pub struct ClientAddr(pub Endpoint);

/// Original destination of a flow, in canonical form.
#[derive(Debug, Clone, Copy, PartialEq, Eq, PartialOrd, Ord, Hash, Structural)]
pub struct RemoteAddr(pub Endpoint);

impl ClientAddr {
    pub fn from_endpoint(e: Endpoint) -> (r: Self)
        ensures
            r.0 == spec_canonical(e),
    {
        ClientAddr(canonicalize_endpoint(e))
    }
}

impl RemoteAddr {
    pub fn from_endpoint(e: Endpoint) -> (r: Self)
        ensures
            r.0 == spec_canonical(e),
    {
        RemoteAddr(canonicalize_endpoint(e))
    }
}

/// Extra socket options the proxy's receive path needs; implemented by the
/// unverified socket layer on the operating system's socket type.
pub trait SocketExt {
    /// Asks the kernel to surface the original destination of each received
    /// datagram in its ancillary data; `Err(())` when the option cannot be set.
    fn set_ip_recv_orig_dst_addr(&self, enable: bool) -> Result<(), ()>;
}


/// One received datagram as the batched socket surfaces it: source,
/// original destination out of the ancillary data, and payload.
#[derive(Debug)]
pub struct RecvMsg {
    pub src: Option<Endpoint>,
    pub dst: Option<Endpoint>,
    pub payload: Vec<u8>,
}

/// One flow's burst: the canonical key and its payloads in arrival order.
#[derive(Debug)]
pub struct PacketGroup {
    pub client: ClientAddr,
    pub remote: RemoteAddr,
    pub pkts: Vec<Vec<u8>>,
}

/// Canonical flow key of a message; nothing when source or destination is
/// missing, and such messages are dropped.
pub open spec fn spec_msg_key(m: &RecvMsg) -> Option<(ClientAddr, RemoteAddr)> {
    match (m.src, m.dst) {
        (Some(s), Some(d)) => Some(
            (ClientAddr(spec_canonical(s)), RemoteAddr(spec_canonical(d))),
        ),
        _ => None,
    }
}

/// The payloads of a batch that belong to one flow key, in arrival order.
pub open spec fn spec_payloads_for(
    msgs: Seq<RecvMsg>,
    key: (ClientAddr, RemoteAddr),
) -> Seq<Seq<u8>>
    decreases msgs.len(),
{
    if msgs.len() == 0 {
        Seq::empty()
    } else {
        spec_payloads_for(msgs.drop_last(), key) + if spec_msg_key(&msgs.last()) == Some(key) {
            seq![msgs.last().payload@]
        } else {
            Seq::empty()
        }
    }
}

fn msg_key(m: &RecvMsg) -> (r: Option<(ClientAddr, RemoteAddr)>)
    ensures
        r == spec_msg_key(m),
{
    match (m.src, m.dst) {
        (Some(s), Some(d)) => Some((ClientAddr::from_endpoint(s), RemoteAddr::from_endpoint(d))),
        _ => None,
    }
}

fn payloads_for(msgs: &Vec<RecvMsg>, key: (ClientAddr, RemoteAddr)) -> (r: Vec<Vec<u8>>)
    ensures
        r@.map_values(|v: Vec<u8>| v@) == spec_payloads_for(msgs@, key),
{
    let mut out: Vec<Vec<u8>> = Vec::new();
    let mut i: usize = 0;
    proof {
        assert(out@.map_values(|v: Vec<u8>| v@) =~= spec_payloads_for(msgs@.take(0), key));
    }
    while i < msgs.len()
        invariant
            i <= msgs@.len(),
            out@.map_values(|v: Vec<u8>| v@) == spec_payloads_for(msgs@.take(i as int), key),
        decreases msgs@.len() - i,
    {
        proof {
            assert(msgs@.take(i + 1).drop_last() =~= msgs@.take(i as int));
            assert(msgs@.take(i + 1).last() == msgs@[i as int]);
        }
        match msg_key(&msgs[i]) {
            Some(k) => {
                if k.0 == key.0 && k.1 == key.1 {
                    let mut p: Vec<u8> = Vec::new();
                    let mut b: usize = 0;
                    while b < msgs[i].payload.len()
                        invariant
                            i < msgs@.len(),
                            b <= msgs@[i as int].payload@.len(),
                            p@ == msgs@[i as int].payload@.take(b as int),
                        decreases msgs@[i as int].payload@.len() - b,
                    {
                        p.push(msgs[i].payload[b]);
                        proof {
                            assert(msgs@[i as int].payload@.take(b + 1) =~= msgs@[i as int].payload@.take(b as int).push(msgs@[i as int].payload@[b as int]));
                        }
                        b = b + 1;
                    }
                    proof {
                        assert(p@ =~= msgs@[i as int].payload@);
                    }
                    out.push(p);
                    proof {
                        assert(out@.map_values(|v: Vec<u8>| v@) =~= spec_payloads_for(
                            msgs@.take(i + 1),
                            key,
                        ));
                    }
                } else {
                    proof {
                        assert(out@.map_values(|v: Vec<u8>| v@) =~= spec_payloads_for(
                            msgs@.take(i + 1),
                            key,
                        ));
                    }
                }
            },
            None => {
                proof {
                    assert(out@.map_values(|v: Vec<u8>| v@) =~= spec_payloads_for(
                        msgs@.take(i + 1),
                        key,
                    ));
                }
            },
        }
        i = i + 1;
    }
    proof {
        assert(msgs@.take(msgs@.len() as int) =~= msgs@);
    }
    out
}

/// Groups one received batch by canonical flow key.  Messages missing an
/// address are dropped; each flow that appears gets exactly one group whose
/// payloads keep their arrival order.
pub fn group_messages(msgs: &Vec<RecvMsg>) -> (r: Vec<PacketGroup>)
    ensures
        forall|a: int, b: int|
            0 <= a < b < r@.len() ==> ((#[trigger] r@[a]).client, r@[a].remote) != ((
            #[trigger] r@[b]).client, r@[b].remote),
        forall|g: int|
            0 <= g < r@.len() ==> (#[trigger] r@[g]).pkts@.map_values(|v: Vec<u8>| v@)
                == spec_payloads_for(msgs@, (r@[g].client, r@[g].remote)),
        forall|m: int|
            0 <= m < msgs@.len() && spec_msg_key(&msgs@[m]) is Some ==> exists|g: int|
                0 <= g < r@.len() && Some(((#[trigger] r@[g]).client, r@[g].remote))
                    == spec_msg_key(&msgs@[m]),
        forall|g: int|
            0 <= g < r@.len() ==> exists|m: int|
                0 <= m < msgs@.len() && spec_msg_key(&msgs@[m]) == Some(
                    ((#[trigger] r@[g]).client, r@[g].remote),
                ),
{
    let mut keys: Vec<(ClientAddr, RemoteAddr)> = Vec::new();
    let mut i: usize = 0;
    while i < msgs.len()
        invariant
            i <= msgs@.len(),
            forall|m: int|
                0 <= m < i && spec_msg_key(&msgs@[m]) is Some ==> exists|g: int|
                    0 <= g < keys@.len() && Some(#[trigger] keys@[g]) == spec_msg_key(&msgs@[m]),
            forall|a: int, b: int|
                0 <= a < b < keys@.len() ==> #[trigger] keys@[a] != #[trigger] keys@[b],
            forall|t: int|
                0 <= t < keys@.len() ==> exists|m: int|
                    0 <= m < i && spec_msg_key(&msgs@[m]) == Some(#[trigger] keys@[t]),
        decreases msgs@.len() - i,
    {
        match msg_key(&msgs[i]) {
            Some(k) => {
                let mut found = false;
                let mut g: usize = 0;
                while g < keys.len()
                    invariant
                        g <= keys@.len(),
                        found == exists|t: int| 0 <= t < g && #[trigger] keys@[t] == k,
                    decreases keys@.len() - g,
                {
                    if keys[g].0 == k.0 && keys[g].1 == k.1 {
                        found = true;
                    }
                    g = g + 1;
                }
                let ghost old_keys = keys@;
                if !found {
                    keys.push(k);
                    proof {
                        assert(keys@[keys@.len() - 1] == k);
                    }
                }
                proof {
                    assert(exists|t: int| 0 <= t < keys@.len() && #[trigger] keys@[t] == k);
                    assert(spec_msg_key(&msgs@[i as int]) == Some(k));
                    assert forall|m: int|
                        0 <= m < i && spec_msg_key(&msgs@[m]) is Some implies exists|g: int|
                        0 <= g < keys@.len() && Some(#[trigger] keys@[g]) == spec_msg_key(
                            &msgs@[m],
                        ) by {
                        let t = choose|t: int|
                            0 <= t < old_keys.len() && Some(#[trigger] old_keys[t])
                                == spec_msg_key(&msgs@[m]);
                        assert(keys@[t] == old_keys[t]);
                    }
                }
            },
            None => {},
        }
        i = i + 1;
    }
    let mut out: Vec<PacketGroup> = Vec::new();
    let mut q: usize = 0;
    while q < keys.len()
        invariant
            q <= keys@.len(),
            out@.len() == q,
            forall|a: int, b: int|
                0 <= a < b < keys@.len() ==> #[trigger] keys@[a] != #[trigger] keys@[b],
            forall|g: int|
                0 <= g < q ==> ((#[trigger] out@[g]).client, out@[g].remote) == keys@[g],
            forall|g: int|
                0 <= g < q ==> (#[trigger] out@[g]).pkts@.map_values(|v: Vec<u8>| v@)
                    == spec_payloads_for(msgs@, (out@[g].client, out@[g].remote)),
        decreases keys@.len() - q,
    {
        let key = (keys[q].0, keys[q].1);
        let pkts = payloads_for(msgs, key);
        out.push(PacketGroup { client: key.0, remote: key.1, pkts });
        q = q + 1;
    }
    proof {
        assert forall|m: int|
            0 <= m < msgs@.len() && spec_msg_key(&msgs@[m]) is Some implies exists|g: int|
            0 <= g < out@.len() && Some(((#[trigger] out@[g]).client, out@[g].remote))
                == spec_msg_key(&msgs@[m]) by {
            let t = choose|t: int|
                0 <= t < keys@.len() && Some(#[trigger] keys@[t]) == spec_msg_key(&msgs@[m]);
            assert(((out@[t]).client, out@[t].remote) == keys@[t]);
        }
        assert forall|a: int, b: int|
            0 <= a < b < out@.len() implies ((#[trigger] out@[a]).client, out@[a].remote) != ((
        #[trigger] out@[b]).client, out@[b].remote) by {
            assert(((out@[a]).client, out@[a].remote) == keys@[a]);
            assert(((out@[b]).client, out@[b].remote) == keys@[b]);
        }
    }
    out
}


/// The list with repeats removed, each element kept at its first
/// occurrence, in order.
pub open spec fn spec_dedup(s: Seq<Endpoint>) -> Seq<Endpoint>
    decreases s.len(),
{
    if s.len() == 0 {
        Seq::empty()
    } else {
        let p = spec_dedup(s.drop_last());
        if p.contains(s.last()) {
            p
        } else {
            p.push(s.last())
        }
    }
}

/// Drops repeated endpoints of a configured list, keeping first
/// occurrences in order: the pool holds each relay address once.
pub fn dedup_endpoints(addrs: &Vec<Endpoint>) -> (r: Vec<Endpoint>)
    ensures
        r@ == spec_dedup(addrs@),
        forall|a: int, b: int| 0 <= a < b < r@.len() ==> r@[a] != r@[b],
        forall|i: int| 0 <= i < addrs@.len() ==> r@.contains(#[trigger] addrs@[i]),
        forall|j: int| 0 <= j < r@.len() ==> addrs@.contains(#[trigger] r@[j]),
{
    let mut out: Vec<Endpoint> = Vec::new();
    let mut i: usize = 0;
    proof {
        assert(addrs@.take(0) =~= Seq::<Endpoint>::empty());
    }
    while i < addrs.len()
        invariant
            i <= addrs@.len(),
            out@ == spec_dedup(addrs@.take(i as int)),
            forall|a: int, b: int| 0 <= a < b < out@.len() ==> out@[a] != out@[b],
            forall|m: int| 0 <= m < i ==> out@.contains(#[trigger] addrs@[m]),
            forall|j: int| 0 <= j < out@.len() ==> addrs@.contains(#[trigger] out@[j]),
        decreases addrs@.len() - i,
    {
        proof {
            assert(addrs@.take(i + 1).drop_last() =~= addrs@.take(i as int));
            assert(addrs@.take(i + 1).last() == addrs@[i as int]);
        }
        let x = addrs[i];
        let mut found = false;
        let mut g: usize = 0;
        while g < out.len()
            invariant
                g <= out@.len(),
                found == exists|t: int| 0 <= t < g && out@[t] == x,
            decreases out@.len() - g,
        {
            if out[g] == x {
                found = true;
            }
            g = g + 1;
        }
        let ghost before = out@;
        if !found {
            out.push(x);
            proof {
                assert(out@[out@.len() - 1] == x);
                assert(addrs@.contains(x)) by {
                    assert(addrs@[i as int] == x);
                }
            }
        }
        proof {
            assert(out@.contains(x)) by {
                if found {
                    let t = choose|t: int| 0 <= t < before.len() && before[t] == x;
                    assert(out@[t] == x);
                } else {
                    assert(out@[out@.len() - 1] == x);
                }
            }
            assert forall|m: int| 0 <= m < i + 1 implies out@.contains(
                #[trigger] addrs@[m],
            ) by {
                if m < i {
                    let t = choose|t: int| 0 <= t < before.len() && before[t] == addrs@[m];
                    assert(out@[t] == addrs@[m]);
                }
            }
        }
        i = i + 1;
    }
    proof {
        assert(addrs@.take(addrs@.len() as int) =~= addrs@);
    }
    out
}

} // verus!
