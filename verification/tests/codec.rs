use udproxy::net::{Endpoint, IpAddress};
use udproxy::quic::decode_var_int;
use udproxy::socks5::{
    decode_udp_datagram, decode_udp_payload, encode_udp_request, SocksTarget,
};

#[test]
fn test_decode_var_int() {
    let buf: Vec<u8> = vec![0, 0x40, 0x47];
    let mut pos: usize = 0;
    assert_eq!(decode_var_int(&buf, &mut pos), 0);
    assert_eq!(decode_var_int(&buf, &mut pos), 71);
}

#[test]
fn varint_lengths_follow_top_bits() {
    let one: Vec<u8> = vec![0x00];
    let mut p: usize = 0;
    assert_eq!(decode_var_int(&one, &mut p), 0);
    assert_eq!(p, 1);

    let two: Vec<u8> = vec![0x40, 0x47];
    p = 0;
    assert_eq!(decode_var_int(&two, &mut p), 71);
    assert_eq!(p, 2);

    let four: Vec<u8> = vec![0x80, 0x00, 0x40, 0x47];
    p = 0;
    assert_eq!(decode_var_int(&four, &mut p), 16455);
    assert_eq!(p, 4);
}

#[test]
fn socks_udp_v4_round_trip() {
    let target = SocksTarget::V4(0x0a000001, 4433);
    let payload: Vec<u8> = vec![1, 2, 3, 4, 5];
    let datagram = encode_udp_request(&target, &payload);
    assert_eq!(datagram.len(), 3 + 1 + 4 + 2 + 5);
    assert_eq!(&datagram[..4], &[0, 0, 0, 0x01]);
    let (ep, data) = decode_udp_datagram(&datagram).expect("well-formed datagram");
    assert_eq!(ep, Endpoint { ip: IpAddress::V4(0x0a000001), port: 4433 });
    assert_eq!(data, payload);
}

#[test]
fn socks_udp_v6_round_trip() {
    let ip: u128 = 0x20010db8_00000000_00000000_00000001;
    let target = SocksTarget::V6(ip, 443);
    let payload: Vec<u8> = vec![0xde, 0xad, 0xbe, 0xef];
    let datagram = encode_udp_request(&target, &payload);
    let (ep, data) = decode_udp_datagram(&datagram).expect("well-formed datagram");
    assert_eq!(ep, Endpoint { ip: IpAddress::V6(ip), port: 443 });
    assert_eq!(data, payload);
}

#[test]
fn fragments_are_dropped() {
    let target = SocksTarget::V4(0x7f000001, 53);
    let payload: Vec<u8> = vec![9, 9, 9];
    let mut datagram = encode_udp_request(&target, &payload);
    datagram[2] = 1; // FRAG != 0
    assert!(decode_udp_datagram(&datagram).is_none());
    assert!(decode_udp_payload(&datagram).is_none());
}

#[test]
fn short_and_malformed_datagrams_are_dropped() {
    let short: Vec<u8> = vec![0, 0, 0, 1, 2];
    assert!(decode_udp_datagram(&short).is_none());
    let mut bad_atyp: Vec<u8> = vec![0, 0, 0, 9];
    bad_atyp.extend_from_slice(&[0u8; 10]);
    assert!(decode_udp_datagram(&bad_atyp).is_none());
}

#[test]
fn name_header_is_skipped_on_replies() {
    let name = b"example.com".to_vec();
    let target = SocksTarget::Name(name, 443);
    let payload: Vec<u8> = vec![7, 8, 9];
    let datagram = encode_udp_request(&target, &payload);
    // The address form only gets skipped: the payload comes back.
    let data = decode_udp_payload(&datagram).expect("name form accepted");
    assert_eq!(data, payload);
    // But the address-returning decoder only takes socket addresses.
    assert!(decode_udp_datagram(&datagram).is_none());
}

#[test]
fn batch_decode_filters_malformed() {
    let t = SocksTarget::V4(0x01020304, 1);
    let good1 = encode_udp_request(&t, &vec![1]);
    let mut frag = encode_udp_request(&t, &vec![2]);
    frag[2] = 3;
    let good2 = encode_udp_request(&t, &vec![3, 3]);
    let msgs = vec![good1, frag, good2];
    let (pkts, total) = udproxy::socks5::decode_incoming_batch(&msgs);
    assert_eq!(pkts.len(), 2);
    assert_eq!(pkts[0], vec![1]);
    assert_eq!(pkts[1], vec![3, 3]);
    assert_eq!(total, 3);
}
