//! The checker's decision rules: which DNS family a probe targets, how a
//! probe batch is framed and matched, how probe rounds classify an
//! upstream's inner protocol, when a health probe runs, and how the pool is
//! re-ranked by score.
use vstd::multiset::Multiset;
use vstd::prelude::*;

use crate::meter::spec_tx_only;
use crate::ping::spec_score;
use crate::server::SocksServer;
use crate::socks5::{spec_be_bytes, spec_from_be, push_be_bytes};
use crate::upstream::InnerProto;

verus! {

/// How many probes one availability check sends.
pub const PING_MAX_RETRY: usize = 2;

/// Which DNS target a probe run uses.
#[derive(Debug, Clone, Copy, PartialEq, Eq, Structural)]
pub enum PingPlan {
    V4,
    V6,
    Race,
}

/// Target choice of the periodic ping pass: a known single-family upstream
/// is probed on a family it carries, dual-stack on IPv6, an unknown one
/// races both families.
pub fn ping_all_plan(p: InnerProto) -> (r: PingPlan)
    ensures
        p == InnerProto::IPv4 ==> r == PingPlan::V4,
        p == InnerProto::IPv6 || p == InnerProto::Inet ==> r == PingPlan::V6,
        p == InnerProto::Unspecified ==> r == PingPlan::Race,
{
    match p {
        InnerProto::IPv4 => PingPlan::V4,
        InnerProto::IPv6 => PingPlan::V6,
        InnerProto::Inet => PingPlan::V6,
        InnerProto::Unspecified => PingPlan::Race,
    }
}

/// Target choice of the on-demand health check; dual-stack is probed on
/// IPv4 here.
pub fn health_check_plan(p: InnerProto) -> (r: PingPlan)
    ensures
        p == InnerProto::IPv4 || p == InnerProto::Inet ==> r == PingPlan::V4,
        p == InnerProto::IPv6 ==> r == PingPlan::V6,
        p == InnerProto::Unspecified ==> r == PingPlan::Race,
{
    match p {
        InnerProto::IPv4 => PingPlan::V4,
        InnerProto::Inet => PingPlan::V4,
        InnerProto::IPv6 => PingPlan::V6,
        InnerProto::Unspecified => PingPlan::Race,
    }
}

/// What one availability check came to.
#[derive(Debug, Clone, Copy, PartialEq, Eq, Structural)]
pub enum PingOutcome {
    /// The probe errored out.
    Failed,
    /// Every probe of the batch timed out.
    Unreachable,
    /// A reply matched.
    Reached,
}

/// A failed or unreachable check marks the upstream in trouble.
pub fn ping_marks_trouble(o: PingOutcome) -> (r: bool)
    ensures
        r == (o != PingOutcome::Reached),
{
    match o {
        PingOutcome::Reached => false,
        _ => true,
    }
}

/// Classification after the inner-protocol probe rounds: any success marks
/// that family capable, so a family with the only successes is exclusive,
/// successes on both sides mark dual-stack, and none at all leaves the
/// upstream unknown.
pub fn classify_inner_proto(v4_ok: usize, v6_ok: usize) -> (r: InnerProto)
    ensures
        v4_ok > 0 && v6_ok == 0 ==> r == InnerProto::IPv4,
        v4_ok == 0 && v6_ok > 0 ==> r == InnerProto::IPv6,
        v4_ok == 0 && v6_ok == 0 ==> r == InnerProto::Unspecified,
        v4_ok > 0 && v6_ok > 0 ==> r == InnerProto::Inet,
{
    if v4_ok > 0 && v6_ok == 0 {
        InnerProto::IPv4
    } else if v4_ok == 0 && v6_ok > 0 {
        InnerProto::IPv6
    } else if v4_ok == 0 && v6_ok == 0 {
        InnerProto::Unspecified
    } else {
        InnerProto::Inet
    }
}

/// A health probe runs for an upstream that still looks healthy while its
/// meter shows traffic leaving and nothing coming back.
pub fn needs_health_probe(s: &SocksServer) -> (r: bool)
    requires
        s.wf(),
    ensures
        r == (!s.status.health.spec_in_trouble() && spec_tx_only(s.status.meter.spec_samples())),
{
    s.is_healthy() && s.status.meter.tx_only()
}

/// After the probe: an upstream whose probe failed while the meter still
/// shows the TX-only condition is marked in trouble; anything else leaves
/// the flag alone.
pub fn apply_health_probe(s: &mut SocksServer, probe_failed: bool)
    requires
        old(s).wf(),
    ensures
        final(s).wf(),
        probe_failed && spec_tx_only(old(s).status.meter.spec_samples()) ==> final(s).status.health.spec_in_trouble(),
        !(probe_failed && spec_tx_only(old(s).status.meter.spec_samples())) ==> final(s).status.health == old(s).status.health,
        final(s).status.meter == old(s).status.meter,
        final(s).status.pings == old(s).status.pings,
        final(s).status.usage == old(s).status.usage,
{
    if probe_failed && s.status.meter.tx_only() {
        s.set_troubleness(true);
    }
}

/// Fixed part of the synthetic DNS query: flags, one TXT IN question for a
/// well-known name, and an EDNS0 record announcing 1200-byte payloads.
pub open spec fn spec_dns_query_head() -> Seq<u8> {
    seq![
        0x01u8, 0x20, 0x00, 0x01, 0x00, 0x00, 0x00, 0x00, 0x00, 0x01, 0x06, 0x67, 0x6f, 0x6f,
        0x67, 0x6c, 0x65, 0x03, 0x63, 0x6f, 0x6d, 0x00, 0x00, 0x10, 0x00, 0x01, 0x00, 0x00,
        0x29, 0x04, 0xb0, 0x00, 0x00, 0x00, 0x00,
    ]
}

/// Total size of one probe datagram.
pub const DNS_QUERY_SIZE: usize = 500;

/// The full probe datagram: transaction ID, the fixed query, then a
/// vendor-range EDNS option padding the query out with caller-provided
/// filler.
pub open spec fn spec_ping_query(tid: u16, fill: Seq<u8>) -> Seq<u8> {
    spec_be_bytes(tid as int, 2) + spec_dns_query_head() + spec_be_bytes(461, 2) + spec_be_bytes(
        65001,
        2,
    ) + spec_be_bytes(457, 2) + fill
}

/// Frames one probe: 500 bytes, opening with the transaction ID.
pub fn build_ping_query(tid: u16, fill: &Vec<u8>) -> (r: Vec<u8>)
    requires
        fill@.len() == 457,
    ensures
        r@ == spec_ping_query(tid, fill@),
        r@.len() == DNS_QUERY_SIZE,
        r@.subrange(0, 2) == spec_be_bytes(tid as int, 2),
{
    let mut out: Vec<u8> = Vec::new();
    push_be_bytes(&mut out, tid as u128, 2);
    let head: Vec<u8> = vec![
        0x01, 0x20, 0x00, 0x01, 0x00, 0x00, 0x00, 0x00, 0x00, 0x01, 0x06, 0x67, 0x6f, 0x6f, 0x67,
        0x6c, 0x65, 0x03, 0x63, 0x6f, 0x6d, 0x00, 0x00, 0x10, 0x00, 0x01, 0x00, 0x00, 0x29, 0x04,
        0xb0, 0x00, 0x00, 0x00, 0x00,
    ];
    proof {
        assert(head@ =~= spec_dns_query_head());
    }
    let mut i: usize = 0;
    let ghost pre = out@;
    while i < head.len()
        invariant
            i <= head@.len(),
            out@ == pre + head@.take(i as int),
        decreases head@.len() - i,
    {
        out.push(head[i]);
        proof {
            assert(head@.take(i + 1) =~= head@.take(i as int).push(head@[i as int]));
        }
        i = i + 1;
    }
    proof {
        assert(head@.take(head@.len() as int) =~= head@);
    }
    push_be_bytes(&mut out, 461, 2);
    push_be_bytes(&mut out, 65001, 2);
    push_be_bytes(&mut out, 457, 2);
    let mut j: usize = 0;
    let ghost mid = out@;
    while j < fill.len()
        invariant
            j <= fill@.len(),
            out@ == mid + fill@.take(j as int),
        decreases fill@.len() - j,
    {
        out.push(fill[j]);
        proof {
            assert(fill@.take(j + 1) =~= fill@.take(j as int).push(fill@[j as int]));
        }
        j = j + 1;
    }
    proof {
        assert(fill@.take(fill@.len() as int) =~= fill@);
        assert(out@ =~= spec_ping_query(tid, fill@));
        crate::socks5::lemma_be_len(tid as int, 2);
        crate::socks5::lemma_be_len(461, 2);
        crate::socks5::lemma_be_len(65001, 2);
        crate::socks5::lemma_be_len(457, 2);
        assert(out@.subrange(0, 2) =~= spec_be_bytes(tid as int, 2));
    }
    out
}

/// The transaction ID a reply opens with.
pub open spec fn spec_reply_tid(reply: Seq<u8>) -> int {
    spec_from_be(reply.subrange(0, 2))
}

/// Matches a reply against the outstanding transaction IDs: replies shorter
/// than a DNS header are dropped; otherwise the index of the first matching
/// ID, if any.
pub fn match_ping_reply(reply: &Vec<u8>, tids: &Vec<u16>) -> (r: Option<usize>)
    ensures
        match r {
            Some(n) => reply@.len() >= 12 && n < tids@.len() && tids@[n as int] as int
                == spec_reply_tid(reply@) && forall|j: int|
                0 <= j < n ==> tids@[j] as int != spec_reply_tid(reply@),
            None => reply@.len() < 12 || forall|j: int|
                0 <= j < tids@.len() ==> tids@[j] as int != spec_reply_tid(reply@),
        },
{
    if reply.len() < 12 {
        return None;
    }
    proof {
        crate::socks5::lemma_pow256_all();
    }
    let tid = crate::socks5::read_be(reply, 0, 2) as u16;
    let mut i: usize = 0;
    proof {
        assert(tid as int == spec_reply_tid(reply@));
    }
    while i < tids.len()
        invariant
            i <= tids@.len(),
            tid as int == spec_reply_tid(reply@),
            reply@.len() >= 12,
            forall|j: int| 0 <= j < i ==> tids@[j] as int != spec_reply_tid(reply@),
        decreases tids@.len() - i,
    {
        if tids[i] == tid {
            return Some(i);
        }
        i = i + 1;
    }
    None
}

/// The pool, sorted by score.
pub open spec fn spec_sorted_by_score(s: Seq<SocksServer>) -> bool {
    forall|i: int, j: int| #![trigger s[i], s[j]]
        0 <= i <= j < s.len() ==> spec_score(s[i].status.pings.spec_slots()) <= spec_score(
            s[j].status.pings.spec_slots(),
        )
}

/// Re-ranks the pool ascending by score (best first), keeping exactly the
/// same upstreams.
pub fn rank_servers(servers: &mut Vec<SocksServer>)
    requires
        forall|i: int| 0 <= i < old(servers)@.len() ==> (#[trigger] old(servers)@[i]).wf(),
    ensures
        spec_sorted_by_score(final(servers)@),
        final(servers)@.to_multiset() == old(servers)@.to_multiset(),
        forall|i: int| 0 <= i < final(servers)@.len() ==> (#[trigger] final(servers)@[i]).wf(),
{
    let ghost orig = servers@;
    let mut out: Vec<SocksServer> = Vec::new();
    proof {
        broadcast use vstd::seq_lib::group_to_multiset_ensures;

        assert(out@.to_multiset().add(servers@.to_multiset()) =~= orig.to_multiset());
    }
    while servers.len() > 0
        invariant
            out@.to_multiset().add(servers@.to_multiset()) == orig.to_multiset(),
            spec_sorted_by_score(out@),
            forall|i: int, j: int|
                0 <= i < out@.len() && 0 <= j < servers@.len() ==> spec_score(
                    (#[trigger] out@[i]).status.pings.spec_slots(),
                ) <= spec_score((#[trigger] servers@[j]).status.pings.spec_slots()),
            forall|i: int| 0 <= i < out@.len() ==> (#[trigger] out@[i]).wf(),
            forall|i: int| 0 <= i < servers@.len() ==> (#[trigger] servers@[i]).wf(),
        decreases servers@.len(),
    {
        let mut best: usize = 0;
        let mut bi: usize = 1;
        let mut best_score: i16 = servers[0].status.pings.score();
        while bi < servers.len()
            invariant
                best < bi <= servers@.len(),
                servers@.len() > 0,
                forall|i: int| 0 <= i < servers@.len() ==> (#[trigger] servers@[i]).wf(),
                best_score == spec_score(servers@[best as int].status.pings.spec_slots()),
                forall|j: int|
                    0 <= j < bi ==> best_score as int <= spec_score(
                        (#[trigger] servers@[j]).status.pings.spec_slots(),
                    ),
            decreases servers@.len() - bi,
        {
            let sc = servers[bi].status.pings.score();
            if sc < best_score {
                best = bi;
                best_score = sc;
            }
            bi = bi + 1;
        }
        let picked = servers.remove(best);
        proof {
            broadcast use vstd::seq_lib::group_to_multiset_ensures;

        }
        out.push(picked);
        proof {
            broadcast use vstd::seq_lib::group_to_multiset_ensures;

            assert(out@.to_multiset().add(servers@.to_multiset()) =~= orig.to_multiset());
        }
    }
    proof {
        broadcast use vstd::seq_lib::group_to_multiset_ensures;

        assert(servers@.to_multiset() =~= Multiset::<SocksServer>::empty());
        assert(out@.to_multiset().add(servers@.to_multiset()) =~= out@.to_multiset());
    }
    *servers = out;
}

} // verus!
