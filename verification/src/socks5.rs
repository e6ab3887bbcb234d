//! SOCKSv5 UDP relay framing: the RSV/FRAG/ATYP/DST.ADDR/DST.PORT header,
//! its encoder for outgoing requests, and the decoder that strips it from
//! relay replies.
use vstd::prelude::*;

use crate::net::{Endpoint, IpAddress};
use crate::upstream::AppProto;

verus! {

pub const ATYP_IPV4: u8 = 0x01;
pub const ATYP_NAME: u8 = 0x03;
pub const ATYP_IPV6: u8 = 0x04;

/// Destination a relay session is bound to: a socket address, or a host name
/// with a port when the relay resolves names itself.
#[derive(Debug, Clone, PartialEq, Eq)]
pub enum SocksTarget {
    V4(u32, u16),
    V6(u128, u16),
    Name(Vec<u8>, u16),
}

impl SocksTarget {
    pub fn from_endpoint(e: Endpoint) -> (r: SocksTarget)
        ensures
            r == spec_target_from_endpoint(e),
    {
        match e.ip {
            IpAddress::V4(ip) => SocksTarget::V4(ip, e.port),
            IpAddress::V6(ip) => SocksTarget::V6(ip, e.port),
        }
    }

    /// The IP family this target requires of an upstream.
    pub fn proto(&self) -> (r: AppProto)
        ensures
            r == spec_target_proto(*self),
    {
        match self {
            SocksTarget::V4(_, _) => AppProto::IPv4,
            SocksTarget::V6(_, _) => AppProto::IPv6,
            SocksTarget::Name(_, _) => AppProto::Any,
        }
    }
}

/// Spec twin of `SocksTarget::from_endpoint`.
pub open spec fn spec_target_from_endpoint(e: Endpoint) -> SocksTarget {
    match e.ip {
        IpAddress::V4(ip) => SocksTarget::V4(ip, e.port),
        IpAddress::V6(ip) => SocksTarget::V6(ip, e.port),
    }
}

pub open spec fn spec_target_proto(t: SocksTarget) -> AppProto {
    match t {
        SocksTarget::V4(_, _) => AppProto::IPv4,
        SocksTarget::V6(_, _) => AppProto::IPv6,
        SocksTarget::Name(_, _) => AppProto::Any,
    }
}

/// `x` written as `n` big-endian bytes.
pub open spec fn spec_be_bytes(x: int, n: nat) -> Seq<u8>
    decreases n,
{
    if n == 0 {
        Seq::empty()
    } else {
        spec_be_bytes(x / 256, (n - 1) as nat).push((x % 256) as u8)
    }
}

/// Big-endian value of a byte string.
pub open spec fn spec_from_be(s: Seq<u8>) -> int
    decreases s.len(),
{
    if s.len() == 0 {
        0
    } else {
        spec_from_be(s.drop_last()) * 256 + s.last()
    }
}

pub open spec fn pow256(n: nat) -> int
    decreases n,
{
    if n == 0 {
        1
    } else {
        256 * pow256((n - 1) as nat)
    }
}

/// The encoding always yields exactly `n` bytes.
pub proof fn lemma_be_len(x: int, n: nat)
    ensures
        spec_be_bytes(x, n).len() == n,
    decreases n,
{
    if n > 0 {
        lemma_be_len(x / 256, (n - 1) as nat);
    }
}

/// Decoding inverts encoding for values that fit in `n` bytes.
pub proof fn lemma_be_round_trip(x: int, n: nat)
    requires
        0 <= x < pow256(n),
    ensures
        spec_be_bytes(x, n).len() == n,
        spec_from_be(spec_be_bytes(x, n)) == x,
    decreases n,
{
    if n > 0 {
        lemma_be_round_trip(x / 256, (n - 1) as nat);
        assert(spec_be_bytes(x, n).drop_last() =~= spec_be_bytes(x / 256, (n - 1) as nat));
        assert(x / 256 * 256 + x % 256 == x) by (nonlinear_arith);
        assert(x / 256 < pow256((n - 1) as nat)) by (nonlinear_arith)
            requires
                0 <= x < 256 * pow256((n - 1) as nat),
        ;
    }
}

/// Appends the big-endian form of `x` in `n` bytes.
pub fn push_be_bytes(out: &mut Vec<u8>, x: u128, n: usize)
    requires
        old(out)@.len() + n <= usize::MAX,
    ensures
        final(out)@ == old(out)@ + spec_be_bytes(x as int, n as nat),
        final(out)@.len() == old(out)@.len() + n,
    decreases n,
{
    if n == 0 {
        proof {
            assert(out@ =~= old(out)@ + spec_be_bytes(x as int, 0));
        }
    } else {
        push_be_bytes(out, x / 256, n - 1);
        out.push((x % 256) as u8);
        proof {
            assert(out@ =~= old(out)@ + spec_be_bytes(x as int, n as nat));
        }
    }
}

/// ATYP, address and port of a target, as the wire puts them.
pub open spec fn spec_target_bytes(t: SocksTarget) -> Seq<u8> {
    match t {
        SocksTarget::V4(ip, port) => seq![ATYP_IPV4] + spec_be_bytes(ip as int, 4)
            + spec_be_bytes(port as int, 2),
        SocksTarget::V6(ip, port) => seq![ATYP_IPV6] + spec_be_bytes(ip as int, 16)
            + spec_be_bytes(port as int, 2),
        SocksTarget::Name(name, port) => seq![ATYP_NAME, name@.len() as u8] + name@
            + spec_be_bytes(port as int, 2),
    }
}

/// The full SOCKSv5 UDP request header: RSV, RSV, FRAG=0, then the target.
pub open spec fn spec_udp_header(t: SocksTarget) -> Seq<u8> {
    seq![0u8, 0u8, 0u8] + spec_target_bytes(t)
}

/// Appends ATYP, address and port of `target`.
pub fn write_target(out: &mut Vec<u8>, target: &SocksTarget)
    requires
        target matches SocksTarget::Name(name, _) ==> name@.len() <= 255,
        old(out)@.len() + 275 <= usize::MAX,
    ensures
        final(out)@ == old(out)@ + spec_target_bytes(*target),
{
    match target {
        SocksTarget::V4(ip, port) => {
            out.push(ATYP_IPV4);
            push_be_bytes(out, *ip as u128, 4);
            push_be_bytes(out, *port as u128, 2);
            proof {
                assert(out@ =~= old(out)@ + spec_target_bytes(*target));
            }
        },
        SocksTarget::V6(ip, port) => {
            out.push(ATYP_IPV6);
            push_be_bytes(out, *ip as u128, 16);
            push_be_bytes(out, *port as u128, 2);
            proof {
                assert(out@ =~= old(out)@ + spec_target_bytes(*target));
            }
        },
        SocksTarget::Name(name, port) => {
            out.push(ATYP_NAME);
            out.push(name.len() as u8);
            let mut i: usize = 0;
            while i < name.len()
                invariant
                    i <= name@.len(),
                    name@.len() <= 255,
                    out@ == old(out)@ + seq![ATYP_NAME, name@.len() as u8] + name@.take(i as int),
                    out@.len() <= old(out)@.len() + 2 + i,
                decreases name@.len() - i,
            {
                out.push(name[i]);
                proof {
                    assert(name@.take(i + 1) =~= name@.take(i as int).push(name@[i as int]));
                }
                i = i + 1;
            }
            proof {
                assert(name@.take(name@.len() as int) =~= name@);
            }
            push_be_bytes(out, *port as u128, 2);
            proof {
                assert(out@ =~= old(out)@ + spec_target_bytes(*target));
            }
        },
    }
}

/// Builds one relay datagram: the header for `target` followed by `payload`.
pub fn encode_udp_request(target: &SocksTarget, payload: &Vec<u8>) -> (r: Vec<u8>)
    requires
        target matches SocksTarget::Name(name, _) ==> name@.len() <= 255,
        payload@.len() + 300 <= usize::MAX,
    ensures
        r@ == spec_udp_header(*target) + payload@,
{
    let mut out: Vec<u8> = Vec::new();
    out.push(0);
    out.push(0);
    out.push(0);
    write_target(&mut out, target);
    let mut i: usize = 0;
    let ghost head = out@;
    while i < payload.len()
        invariant
            i <= payload@.len(),
            out@ == head + payload@.take(i as int),
        decreases payload@.len() - i,
    {
        out.push(payload[i]);
        proof {
            assert(payload@.take(i + 1) =~= payload@.take(i as int).push(payload@[i as int]));
        }
        i = i + 1;
    }
    proof {
        assert(payload@.take(payload@.len() as int) =~= payload@);
        assert(head =~= spec_udp_header(*target));
        assert(out@ =~= spec_udp_header(*target) + payload@);
    }
    out
}

/// What a well-formed relay datagram decodes to: the destination it names
/// and the payload behind the header.  Fragments (FRAG != 0), unknown
/// address types and short packets decode to nothing and are dropped.
pub open spec fn spec_decode_udp(pkt: Seq<u8>) -> Option<(Endpoint, Seq<u8>)> {
    if pkt.len() < 10 {
        None
    } else if pkt[2] != 0 {
        None
    } else if pkt[3] == ATYP_IPV4 {
        Some(
            (
                Endpoint {
                    ip: IpAddress::V4(spec_from_be(pkt.subrange(4, 8)) as u32),
                    port: spec_from_be(pkt.subrange(8, 10)) as u16,
                },
                pkt.skip(10),
            ),
        )
    } else if pkt[3] == ATYP_IPV6 {
        if pkt.len() >= 22 {
            Some(
                (
                    Endpoint {
                        ip: IpAddress::V6(spec_from_be(pkt.subrange(4, 20)) as u128),
                        port: spec_from_be(pkt.subrange(20, 22)) as u16,
                    },
                    pkt.skip(22),
                ),
            )
        } else {
            None
        }
    } else {
        None
    }
}

/// Reads `n` big-endian bytes at `at`.
pub fn read_be(pkt: &Vec<u8>, at: usize, n: usize) -> (r: u128)
    requires
        at + n <= pkt@.len(),
        n <= 16,
    ensures
        r == spec_from_be(pkt@.subrange(at as int, at + n)),
        r < pow256(n as nat),
{
    let total: usize = pkt.len();
    let mut x: u128 = 0;
    let mut i: usize = 0;
    proof {
        lemma_pow256_bounds(16);
        assert(pkt@.subrange(at as int, at as int) =~= Seq::<u8>::empty());
    }
    while i < n
        invariant
            at + n <= pkt@.len(),
            pkt@.len() == total,
            n <= 16,
            i <= n,
            x == spec_from_be(pkt@.subrange(at as int, at + i)),
            x < pow256(i as nat),
            pow256(16) == 0x100000000000000000000000000000000,
            pow256(i as nat) <= pow256(16),
        decreases n - i,
    {
        proof {
            assert(pkt@.subrange(at as int, at + i + 1).drop_last() =~= pkt@.subrange(
                at as int,
                at + i,
            ));
            lemma_pow256_monotone(i as nat + 1, 16);
            assert(x * 256 + pkt@[at + i] < pow256(i as nat + 1)) by (nonlinear_arith)
                requires
                    x < pow256(i as nat),
                    pkt@[at + i] < 256,
                    pow256(i as nat + 1) == 256 * pow256(i as nat),
            ;
        }
        x = x * 256 + pkt[at + i] as u128;
        i = i + 1;
    }
    x
}

/// Small powers of 256 that the codecs use.
pub proof fn lemma_pow256_all()
    ensures
        pow256(0) == 1,
        pow256(1) == 0x100,
        pow256(2) == 0x10000,
        pow256(3) == 0x1000000,
        pow256(4) == 0x100000000,
        pow256(7) == 0x100000000000000,
        pow256(8) == 0x10000000000000000,
        pow256(16) == 0x100000000000000000000000000000000,
{
    assert(pow256(16) == 0x100000000000000000000000000000000 && pow256(8)
        == 0x10000000000000000 && pow256(7) == 0x100000000000000 && pow256(4) == 0x100000000
        && pow256(3) == 0x1000000 && pow256(2) == 0x10000 && pow256(1) == 0x100 && pow256(0)
        == 1) by {
        reveal_with_fuel(pow256, 17);
    }
}

proof fn lemma_pow256_bounds(n: nat)
    ensures
        pow256(16) == 0x100000000000000000000000000000000,
        pow256(n) >= 1,
    decreases n,
{
    if n > 0 {
        lemma_pow256_bounds((n - 1) as nat);
    } else {
        assert(pow256(16) == 0x100000000000000000000000000000000) by {
            reveal_with_fuel(pow256, 17);
        }
    }
}

pub proof fn lemma_pow256_monotone(a: nat, b: nat)
    requires
        a <= b,
    ensures
        pow256(a) <= pow256(b),
        pow256(a) >= 1,
    decreases b,
{
    lemma_pow256_bounds(a);
    if a < b {
        lemma_pow256_monotone(a, (b - 1) as nat);
        assert(pow256(b) == 256 * pow256((b - 1) as nat));
        assert(256 * pow256((b - 1) as nat) >= pow256((b - 1) as nat)) by (nonlinear_arith)
            requires
                pow256((b - 1) as nat) >= 1,
        ;
    }
}

/// Strips the relay header of one received datagram; `None` drops it.
pub fn decode_udp_datagram(pkt: &Vec<u8>) -> (r: Option<(Endpoint, Vec<u8>)>)
    ensures
        match r {
            Some((ep, payload)) => spec_decode_udp(pkt@) == Some((ep, payload@)),
            None => spec_decode_udp(pkt@) is None,
        },
{
    if pkt.len() < 10 {
        return None;
    }
    if pkt[2] != 0 {
        return None;
    }
    let (ep, off): (Endpoint, usize) = if pkt[3] == ATYP_IPV4 {
        proof {
            lemma_pow256_bounds(4);
            lemma_pow256_monotone(4, 16);
            assert(pow256(4) == 0x100000000) by {
                reveal_with_fuel(pow256, 5);
            }
            assert(pow256(2) == 0x10000) by {
                reveal_with_fuel(pow256, 3);
            }
        }
        let ip = read_be(pkt, 4, 4) as u32;
        let port = read_be(pkt, 8, 2) as u16;
        (Endpoint { ip: IpAddress::V4(ip), port }, 10)
    } else if pkt[3] == ATYP_IPV6 {
        if pkt.len() < 22 {
            return None;
        }
        proof {
            lemma_pow256_bounds(16);
            assert(pow256(2) == 0x10000) by {
                reveal_with_fuel(pow256, 3);
            }
        }
        let ip = read_be(pkt, 4, 16);
        let port = read_be(pkt, 20, 2) as u16;
        (Endpoint { ip: IpAddress::V6(ip), port }, 22)
    } else {
        return None;
    };
    let mut payload: Vec<u8> = Vec::new();
    let mut i: usize = off;
    while i < pkt.len()
        invariant
            off <= i <= pkt@.len(),
            payload@ == pkt@.subrange(off as int, i as int),
        decreases pkt@.len() - i,
    {
        payload.push(pkt[i]);
        proof {
            assert(pkt@.subrange(off as int, i + 1) =~= pkt@.subrange(off as int, i as int).push(
                pkt@[i as int],
            ));
        }
        i = i + 1;
    }
    proof {
        assert(payload@ =~= pkt@.skip(off as int));
    }
    Some((ep, payload))
}

/// Round trip: a datagram encoded for an IPv4 or IPv6 target decodes back to
/// the same address, port and payload.
pub proof fn lemma_udp_round_trip_v4(ip: u32, port: u16, payload: Seq<u8>)
    ensures
        spec_decode_udp(spec_udp_header(SocksTarget::V4(ip, port)) + payload) == Some(
            (Endpoint { ip: IpAddress::V4(ip), port }, payload),
        ),
{
    let hdr = spec_udp_header(SocksTarget::V4(ip, port));
    let pkt = hdr + payload;
    assert(pow256(4) == 0x100000000 && pow256(2) == 0x10000) by {
        reveal_with_fuel(pow256, 5);
    }
    lemma_be_round_trip(ip as int, 4);
    lemma_be_round_trip(port as int, 2);
    assert(pkt.subrange(4, 8) =~= spec_be_bytes(ip as int, 4));
    assert(pkt.subrange(8, 10) =~= spec_be_bytes(port as int, 2));
    assert(pkt.skip(10) =~= payload);
    assert(pkt[2] == 0 && pkt[3] == ATYP_IPV4);
}

/// Same for an IPv6 target.
pub proof fn lemma_udp_round_trip_v6(ip: u128, port: u16, payload: Seq<u8>)
    ensures
        spec_decode_udp(spec_udp_header(SocksTarget::V6(ip, port)) + payload) == Some(
            (Endpoint { ip: IpAddress::V6(ip), port }, payload),
        ),
{
    let hdr = spec_udp_header(SocksTarget::V6(ip, port));
    let pkt = hdr + payload;
    assert(pow256(16) == 0x100000000000000000000000000000000 && pow256(2) == 0x10000) by {
        reveal_with_fuel(pow256, 17);
    }
    lemma_be_round_trip(ip as int, 16);
    lemma_be_round_trip(port as int, 2);
    assert(pkt.subrange(4, 20) =~= spec_be_bytes(ip as int, 16));
    assert(pkt.subrange(20, 22) =~= spec_be_bytes(port as int, 2));
    assert(pkt.skip(22) =~= payload);
    assert(pkt[2] == 0 && pkt[3] == ATYP_IPV6);
}

/// A datagram whose FRAG byte is not zero always decodes to "drop".
pub proof fn lemma_fragment_dropped(pkt: Seq<u8>)
    requires
        pkt.len() >= 3,
        pkt[2] != 0,
    ensures
        spec_decode_udp(pkt) is None,
        spec_decode_udp_payload(pkt) is None,
{
}

/// Payload behind the relay header of a received datagram; the address field
/// is only skipped here, and may also be a host name.
pub open spec fn spec_decode_udp_payload(pkt: Seq<u8>) -> Option<Seq<u8>> {
    if pkt.len() < 10 {
        None
    } else if pkt[2] != 0 {
        None
    } else if pkt[3] == ATYP_IPV4 {
        Some(pkt.skip(10))
    } else if pkt[3] == ATYP_IPV6 {
        if pkt.len() >= 22 {
            Some(pkt.skip(22))
        } else {
            None
        }
    } else if pkt[3] == ATYP_NAME {
        if pkt.len() >= 7 + pkt[4] {
            Some(pkt.skip(7 + pkt[4]))
        } else {
            None
        }
    } else {
        None
    }
}

/// Strips the relay header, skipping whatever address form it carries.
pub fn decode_udp_payload(pkt: &Vec<u8>) -> (r: Option<Vec<u8>>)
    ensures
        match r {
            Some(payload) => spec_decode_udp_payload(pkt@) == Some(payload@),
            None => spec_decode_udp_payload(pkt@) is None,
        },
{
    if pkt.len() < 10 {
        return None;
    }
    if pkt[2] != 0 {
        return None;
    }
    let off: usize = if pkt[3] == ATYP_IPV4 {
        10
    } else if pkt[3] == ATYP_IPV6 {
        if pkt.len() < 22 {
            return None;
        }
        22
    } else if pkt[3] == ATYP_NAME {
        let n = pkt[4] as usize;
        if pkt.len() < 7 + n {
            return None;
        }
        7 + n
    } else {
        return None;
    };
    let mut payload: Vec<u8> = Vec::new();
    let mut i: usize = off;
    while i < pkt.len()
        invariant
            off <= i <= pkt@.len(),
            payload@ == pkt@.subrange(off as int, i as int),
        decreases pkt@.len() - i,
    {
        payload.push(pkt[i]);
        proof {
            assert(pkt@.subrange(off as int, i + 1) =~= pkt@.subrange(off as int, i as int).push(
                pkt@[i as int],
            ));
        }
        i = i + 1;
    }
    proof {
        assert(payload@ =~= pkt@.skip(off as int));
    }
    Some(payload)
}

/// Keeps the payloads of the datagrams that decode, in arrival order.
pub open spec fn spec_decoded_payloads(msgs: Seq<Seq<u8>>) -> Seq<Seq<u8>>
    decreases msgs.len(),
{
    if msgs.len() == 0 {
        Seq::empty()
    } else {
        spec_decoded_payloads(msgs.drop_last()) + match spec_decode_udp_payload(msgs.last()) {
            Some(payload) => seq![payload],
            None => Seq::empty(),
        }
    }
}

/// Byte total of the payloads that decode; what the receive accounting
/// adds.
pub open spec fn spec_decoded_total(msgs: Seq<Seq<u8>>) -> int
    decreases msgs.len(),
{
    if msgs.len() == 0 {
        0
    } else {
        spec_decoded_total(msgs.drop_last()) + match spec_decode_udp_payload(msgs.last()) {
            Some(payload) => payload.len() as int,
            None => 0,
        }
    }
}

/// Decodes a received batch, dropping malformed datagrams and fragments;
/// also reports the decoded byte total for traffic accounting.
pub fn decode_incoming_batch(msgs: &Vec<Vec<u8>>) -> (r: (Vec<Vec<u8>>, u64))
    requires
        msgs@.len() <= 1024,
        forall|i: int| 0 <= i < msgs@.len() ==> #[trigger] msgs@[i]@.len() <= 65536,
    ensures
        r.0@.map_values(|v: Vec<u8>| v@) == spec_decoded_payloads(msgs@.map_values(|v: Vec<u8>| v@)),
        r.1 == spec_decoded_total(msgs@.map_values(|v: Vec<u8>| v@)),
{
    let mut out: Vec<Vec<u8>> = Vec::new();
    let mut total: u64 = 0;
    let mut i: usize = 0;
    while i < msgs.len()
        invariant
            i <= msgs@.len(),
            msgs@.len() <= 1024,
            forall|j: int| 0 <= j < msgs@.len() ==> #[trigger] msgs@[j]@.len() <= 65536,
            out@.map_values(|v: Vec<u8>| v@) == spec_decoded_payloads(
                msgs@.take(i as int).map_values(|v: Vec<u8>| v@),
            ),
            total == spec_decoded_total(msgs@.take(i as int).map_values(|v: Vec<u8>| v@)),
            total <= i * 65536,
        decreases msgs@.len() - i,
    {
        proof {
            assert(msgs@.take(i + 1).map_values(|v: Vec<u8>| v@).drop_last() =~= msgs@.take(
                i as int,
            ).map_values(|v: Vec<u8>| v@));
            assert(msgs@.take(i + 1).map_values(|v: Vec<u8>| v@).last() == msgs@[i as int]@);
        }
        match decode_udp_payload(&msgs[i]) {
            Some(payload) => {
                let n = payload.len();
                proof {
                    assert(spec_decode_udp_payload(msgs@[i as int]@) matches Some(p) ==> p.len()
                        <= msgs@[i as int]@.len());
                }
                total = total + n as u64;
                out.push(payload);
                proof {
                    assert(out@.map_values(|v: Vec<u8>| v@) =~= spec_decoded_payloads(
                        msgs@.take(i + 1).map_values(|v: Vec<u8>| v@),
                    ));
                }
            },
            None => {
                proof {
                    assert(out@.map_values(|v: Vec<u8>| v@) =~= spec_decoded_payloads(
                        msgs@.take(i + 1).map_values(|v: Vec<u8>| v@),
                    ));
                }
            },
        }
        i = i + 1;
    }
    proof {
        assert(msgs@.take(msgs@.len() as int) =~= msgs@);
    }
    (out, total)
}

/// Local address family a relay socket should bind on, mirroring the
/// relay's own address: loopback stays loopback, anything else binds the
/// unspecified address of the same family.
pub fn pick_bind_ip(relay: Endpoint) -> (r: IpAddress)
    ensures
        r == spec_pick_bind_ip(relay),
{
    match relay.ip {
        IpAddress::V4(ip) => if ip == 0x7f000001 {
            IpAddress::V4(0x7f000001)
        } else {
            IpAddress::V4(0)
        },
        IpAddress::V6(ip) => if ip == 1 {
            IpAddress::V6(1)
        } else {
            IpAddress::V6(0)
        },
    }
}

pub open spec fn spec_pick_bind_ip(relay: Endpoint) -> IpAddress {
    match relay.ip {
        IpAddress::V4(ip) => if ip == 0x7f000001 {
            IpAddress::V4(0x7f000001)
        } else {
            IpAddress::V4(0)
        },
        IpAddress::V6(ip) => if ip == 1 {
            IpAddress::V6(1)
        } else {
            IpAddress::V6(0)
        },
    }
}

} // verus!
