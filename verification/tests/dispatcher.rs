use udproxy::dispatch::{dispatch_decision, select_proxy, DispatchDecision, FlowState};
use udproxy::net::{ClientAddr, Endpoint, IpAddress, RemoteAddr};
use udproxy::server::SocksServer;
use udproxy::socks5::SocksTarget;
use udproxy::upstream::{AppProto, InnerProto};

fn ep(ip: u32, port: u16) -> Endpoint {
    Endpoint { ip: IpAddress::V4(ip), port }
}

fn pool(protos: &[(InnerProto, bool)]) -> Vec<SocksServer> {
    let mut out = Vec::new();
    for (i, (proto, healthy)) in protos.iter().enumerate() {
        let mut s = SocksServer::new(ep(0x0a000001 + i as u32, 1080), format!("up{}", i), *proto);
        if !healthy {
            s.set_troubleness(true);
        }
        out.push(s);
    }
    out
}

#[test]
fn new_flow_with_sni_binds_by_name() {
    let servers = pool(&[(InnerProto::IPv4, true)]);
    let remote = RemoteAddr(ep(0x5db8d822, 443));
    let name = Some(b"example.com".to_vec());
    let decision = dispatch_decision(None, &name, remote, &servers);
    match decision {
        DispatchDecision::Bind(i, SocksTarget::Name(n, port)) => {
            assert_eq!(i, 0);
            assert_eq!(n, b"example.com".to_vec());
            assert_eq!(port, 443);
        }
        other => panic!("unexpected decision {:?}", other),
    }
}

#[test]
fn migration_rebinds_with_same_target() {
    // Upstream A (index 0) went into trouble; B is healthy.
    let servers = pool(&[(InnerProto::IPv4, false), (InnerProto::IPv4, true)]);
    let remote = RemoteAddr(ep(0x01020304, 8443));
    let name = Some(b"example.com".to_vec());
    let decision = dispatch_decision(Some(false), &name, remote, &servers);
    match decision {
        DispatchDecision::Bind(i, SocksTarget::Name(n, port)) => {
            assert_eq!(i, 1);
            assert_eq!(n, b"example.com".to_vec());
            assert_eq!(port, 8443);
        }
        other => panic!("unexpected decision {:?}", other),
    }
}

#[test]
fn healthy_binding_is_kept() {
    let servers = pool(&[(InnerProto::IPv4, true)]);
    let remote = RemoteAddr(ep(0x01020304, 443));
    let decision = dispatch_decision(Some(true), &None, remote, &servers);
    assert_eq!(decision, DispatchDecision::UseBound);
}

#[test]
fn exhausted_pool_fails_without_panic() {
    let servers = pool(&[(InnerProto::IPv4, false), (InnerProto::Inet, false)]);
    let remote = RemoteAddr(ep(0x01020304, 443));
    let decision = dispatch_decision(None, &None, remote, &servers);
    assert_eq!(decision, DispatchDecision::NoProxy);

    // An existing healthy binding is untouched by the exhaustion.
    let kept = dispatch_decision(Some(true), &None, remote, &servers);
    assert_eq!(kept, DispatchDecision::UseBound);
}

#[test]
fn selection_skips_incapable_upstreams() {
    // A v6-only upstream cannot carry a v4 target.
    let servers = pool(&[(InnerProto::IPv6, true), (InnerProto::Inet, true)]);
    assert_eq!(select_proxy(&servers, AppProto::IPv4), Some(1));
    assert_eq!(select_proxy(&servers, AppProto::IPv6), Some(0));
    assert_eq!(select_proxy(&servers, AppProto::Any), Some(0));
}

#[test]
fn flow_holds_at_most_one_binding() {
    let client = ClientAddr(ep(0x0a000002, 40000));
    let remote = RemoteAddr(ep(0x01020304, 443));
    let mut flow = FlowState::new(client, remote, None);
    assert_eq!(flow.proxy(), None);
    flow.set_proxy(0);
    assert_eq!(flow.proxy(), Some(0));
    flow.set_proxy(2);
    assert_eq!(flow.proxy(), Some(2));
    flow.clear_proxy();
    assert_eq!(flow.proxy(), None);
}

#[test]
fn capability_matrix() {
    let cases = [
        (InnerProto::Unspecified, AppProto::IPv4, true),
        (InnerProto::Unspecified, AppProto::IPv6, true),
        (InnerProto::Unspecified, AppProto::Any, true),
        (InnerProto::Inet, AppProto::IPv4, true),
        (InnerProto::Inet, AppProto::IPv6, true),
        (InnerProto::Inet, AppProto::Any, true),
        (InnerProto::IPv4, AppProto::IPv4, true),
        (InnerProto::IPv4, AppProto::IPv6, false),
        (InnerProto::IPv4, AppProto::Any, true),
        (InnerProto::IPv6, AppProto::IPv4, false),
        (InnerProto::IPv6, AppProto::IPv6, true),
        (InnerProto::IPv6, AppProto::Any, true),
    ];
    for (inner, app, want) in cases {
        assert_eq!(inner.capable(app), want, "{:?} vs {:?}", inner, app);
    }
}
