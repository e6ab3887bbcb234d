use udproxy::net::{
    canonicalize_endpoint, group_messages, ClientAddr, Endpoint, IpAddress, RecvMsg, RemoteAddr,
};

fn ep4(ip: u32, port: u16) -> Endpoint {
    Endpoint { ip: IpAddress::V4(ip), port }
}

#[test]
fn three_messages_make_two_groups_in_order() {
    let c1 = ep4(0x0a000001, 1111);
    let r1 = ep4(0x08080808, 53);
    let c2 = ep4(0x0a000002, 2222);
    let r2 = ep4(0x09090909, 443);
    let msgs = vec![
        RecvMsg { src: Some(c1), dst: Some(r1), payload: vec![1] },
        RecvMsg { src: Some(c1), dst: Some(r1), payload: vec![2] },
        RecvMsg { src: Some(c2), dst: Some(r2), payload: vec![3] },
    ];
    let groups = group_messages(&msgs);
    assert_eq!(groups.len(), 2);
    let g1 = groups.iter().find(|g| g.client == ClientAddr(c1)).unwrap();
    assert_eq!(g1.remote, RemoteAddr(r1));
    assert_eq!(g1.pkts, vec![vec![1], vec![2]]);
    let g2 = groups.iter().find(|g| g.client == ClientAddr(c2)).unwrap();
    assert_eq!(g2.remote, RemoteAddr(r2));
    assert_eq!(g2.pkts, vec![vec![3]]);
}

#[test]
fn messages_missing_addresses_are_dropped() {
    let c1 = ep4(0x0a000001, 1111);
    let r1 = ep4(0x08080808, 53);
    let msgs = vec![
        RecvMsg { src: None, dst: Some(r1), payload: vec![1] },
        RecvMsg { src: Some(c1), dst: None, payload: vec![2] },
        RecvMsg { src: Some(c1), dst: Some(r1), payload: vec![3] },
    ];
    let groups = group_messages(&msgs);
    assert_eq!(groups.len(), 1);
    assert_eq!(groups[0].pkts, vec![vec![3]]);
}

#[test]
fn mapped_v6_addresses_collapse_to_v4() {
    // ::ffff:10.0.0.1 groups together with 10.0.0.1.
    let mapped = Endpoint { ip: IpAddress::V6(0xffff_0a000001), port: 1111 };
    let plain = ep4(0x0a000001, 1111);
    assert_eq!(canonicalize_endpoint(mapped), plain);
    let r1 = ep4(0x08080808, 53);
    let msgs = vec![
        RecvMsg { src: Some(mapped), dst: Some(r1), payload: vec![1] },
        RecvMsg { src: Some(plain), dst: Some(r1), payload: vec![2] },
    ];
    let groups = group_messages(&msgs);
    assert_eq!(groups.len(), 1);
    assert_eq!(groups[0].pkts, vec![vec![1], vec![2]]);
}

#[test]
fn duplicate_endpoints_collapse() {
    let a = ep4(0x0a000001, 1080);
    let b = ep4(0x0a000002, 1080);
    let addrs = vec![a, b, a, a, b];
    let unique = udproxy::net::dedup_endpoints(&addrs);
    assert_eq!(unique, vec![a, b]);
}

#[test]
fn plain_v6_addresses_stay_v6() {
    let v6 = Endpoint { ip: IpAddress::V6(0x20010db8_0000_0000_0000_0000_0000_0001), port: 443 };
    assert_eq!(canonicalize_endpoint(v6), v6);
}
