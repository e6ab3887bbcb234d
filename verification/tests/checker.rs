use udproxy::checking::{
    apply_health_probe, build_ping_query, classify_inner_proto, health_check_plan,
    match_ping_reply, needs_health_probe, ping_all_plan, ping_marks_trouble, rank_servers,
    PingOutcome, PingPlan, DNS_QUERY_SIZE,
};
use udproxy::net::{Endpoint, IpAddress};
use udproxy::ping::Delay;
use udproxy::server::SocksServer;
use udproxy::upstream::{bool_true, AtomicInnerProto, InnerProto, Traffic, Usage};

fn ep(ip: u32) -> Endpoint {
    Endpoint { ip: IpAddress::V4(ip), port: 1080 }
}

#[test]
fn ping_plans_follow_inner_proto() {
    assert_eq!(ping_all_plan(InnerProto::IPv4), PingPlan::V4);
    assert_eq!(ping_all_plan(InnerProto::IPv6), PingPlan::V6);
    assert_eq!(ping_all_plan(InnerProto::Inet), PingPlan::V6);
    assert_eq!(ping_all_plan(InnerProto::Unspecified), PingPlan::Race);
    assert_eq!(health_check_plan(InnerProto::Inet), PingPlan::V4);
    assert_eq!(health_check_plan(InnerProto::IPv6), PingPlan::V6);
    assert_eq!(health_check_plan(InnerProto::Unspecified), PingPlan::Race);
}

#[test]
fn failed_pings_mark_trouble() {
    assert!(ping_marks_trouble(PingOutcome::Failed));
    assert!(ping_marks_trouble(PingOutcome::Unreachable));
    assert!(!ping_marks_trouble(PingOutcome::Reached));
}

#[test]
fn probe_rounds_classify_families() {
    assert_eq!(classify_inner_proto(3, 0), InnerProto::IPv4);
    assert_eq!(classify_inner_proto(0, 3), InnerProto::IPv6);
    assert_eq!(classify_inner_proto(0, 0), InnerProto::Unspecified);
    assert_eq!(classify_inner_proto(1, 2), InnerProto::Inet);
    assert_eq!(classify_inner_proto(3, 1), InnerProto::Inet);
    // A family with the only successes is exclusive even on a partial run.
    assert_eq!(classify_inner_proto(2, 0), InnerProto::IPv4);
    assert_eq!(classify_inner_proto(0, 1), InnerProto::IPv6);
}

#[test]
fn ping_query_layout() {
    let fill = vec![0xabu8; 457];
    let q = build_ping_query(0x1234, &fill);
    assert_eq!(q.len(), DNS_QUERY_SIZE);
    assert_eq!(&q[..2], &[0x12, 0x34]);
    // Flags, then one question and one additional record.
    assert_eq!(&q[2..4], &[0x01, 0x20]);
    assert_eq!(&q[4..6], &[0x00, 0x01]);
    // The vendor-range option code rides behind the fixed query.
    assert_eq!(&q[39..41], &[0xfd, 0xe9]);
    assert_eq!(&q[DNS_QUERY_SIZE - 457..], &fill[..]);
}

#[test]
fn reply_matching_by_transaction_id() {
    let tids: Vec<u16> = vec![7, 0x1234, 9];
    let mut reply = vec![0u8; 12];
    reply[0] = 0x12;
    reply[1] = 0x34;
    assert_eq!(match_ping_reply(&reply, &tids), Some(1));

    let short = vec![0x12u8, 0x34];
    assert_eq!(match_ping_reply(&short, &tids), None);

    let mut unknown = vec![0u8; 40];
    unknown[1] = 0xff;
    assert_eq!(match_ping_reply(&unknown, &tids), None);
}

#[test]
fn ranking_sorts_by_score_ascending() {
    let mut a = SocksServer::new(ep(1), String::from("a"), InnerProto::IPv4);
    let mut b = SocksServer::new(ep(2), String::from("b"), InnerProto::IPv4);
    let c = SocksServer::new(ep(3), String::from("c"), InnerProto::IPv4);
    // a: slow, b: fast, c: unknown (worst).
    a.record_ping(0, Some(Delay::from_millis(900)));
    b.record_ping(0, Some(Delay::from_millis(20)));
    let mut pool = vec![a, b, c];
    rank_servers(&mut pool);
    assert_eq!(pool[0].name, "b");
    assert_eq!(pool[1].name, "a");
    assert_eq!(pool[2].name, "c");
    assert!(pool[0].status.pings.score() <= pool[1].status.pings.score());
    assert!(pool[1].status.pings.score() <= pool[2].status.pings.score());
}

#[test]
fn health_probe_runs_only_on_tx_only_healthy_upstreams() {
    let mut s = SocksServer::new(ep(1), String::from("a"), InnerProto::IPv4);
    for tx in [0u64, 1, 2, 3, 3, 3] {
        if tx > 0 {
            let already = s.status.usage.traffic_snapshot().tx_bytes;
            s.note_tx((tx - already) as usize);
        }
        s.sample_traffic();
    }
    assert!(needs_health_probe(&s));
    // A failed probe with the meter still TX-only marks trouble.
    apply_health_probe(&mut s, true);
    assert!(!s.is_healthy());
    // Once in trouble it is no longer probed.
    assert!(!needs_health_probe(&s));
}

#[test]
fn successful_probe_leaves_health_alone() {
    let mut s = SocksServer::new(ep(1), String::from("a"), InnerProto::IPv4);
    apply_health_probe(&mut s, false);
    assert!(s.is_healthy());
}

#[test]
fn usage_counts_sessions() {
    let mut u = Usage::new();
    u.open_session();
    u.open_session();
    u.close_session();
    assert_eq!(u.active_sessions(), 1);
    u.add_tx(10);
    u.add_rx(4);
    let t = u.traffic_snapshot();
    assert_eq!(t, Traffic { tx_bytes: 10, rx_bytes: 4 });
    assert_eq!(t.sub(Traffic { tx_bytes: 4, rx_bytes: 4 }), Traffic { tx_bytes: 6, rx_bytes: 0 });
}

#[test]
fn inner_proto_slot_round_trips() {
    let mut slot = AtomicInnerProto::new(InnerProto::Unspecified);
    assert_eq!(slot.get(), InnerProto::Unspecified);
    slot.set(InnerProto::Inet);
    assert_eq!(slot.get(), InnerProto::Inet);
    slot.set(InnerProto::IPv4);
    assert_eq!(slot.get(), InnerProto::IPv4);
}

#[test]
fn enabled_defaults_to_true() {
    assert!(bool_true());
}
