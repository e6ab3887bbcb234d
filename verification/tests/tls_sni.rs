use udproxy::tls::get_server_name_from_client_hello;

fn hex(s: &str) -> Vec<u8> {
    let mut out = Vec::new();
    let mut hi: Option<u8> = None;
    for c in s.chars() {
        let v = match c {
            '0'..='9' => c as u8 - b'0',
            'a'..='f' => c as u8 - b'a' + 10,
            'A'..='F' => c as u8 - b'A' + 10,
            _ => continue,
        };
        match hi {
            None => hi = Some(v),
            Some(h) => {
                out.push(h * 16 + v);
                hi = None;
            }
        }
    }
    out
}

const HELLO: &str = "
    0100011e03032d9a20d602eadf5581c4 3119415208653176e86fb0c535c8a0c3
    aa8742dc65c300000613011302130301 0000ef00390060fb5c27d8ca3e448804
    a09432370f00030245c080ff73db0c00 0000018aaa3a0a000000017127048002
    ae500802406409024067040480f00000 06048060000001048000753020048001
    00000704806000008000475204000000 01050480600000001000050003026833
    00000013001100000e7777772e676f6f 676c652e636f6d000a00080006001d00
    170018002d0002010100330026002400 1d00203e65bd93cf09572df162e5e1f1
    e67c2aa7a2c25faa35d289a422aa2462 e24a47000d0014001204030804040105
    0308050501080606010201001b000302 0002002b000302030444690005000302
    6833
";

#[test]
fn test_parse_client_hello() {
    let buf = hex(HELLO);
    let name = get_server_name_from_client_hello(&buf).unwrap();
    assert_eq!(&name, "www.google.com");
}

/// Builds a minimal ClientHello whose only extension carries `name` as the
/// server-name indication.
fn hello_with_name(name: &[u8]) -> Vec<u8> {
    let sni_list_len = (3 + name.len()) as u16;
    let ext_data_len = 2 + sni_list_len as usize;
    let ext_total = (4 + ext_data_len) as u16;
    let mut body: Vec<u8> = Vec::new();
    body.extend_from_slice(&[0x03, 0x03]); // legacy version
    body.extend_from_slice(&[0u8; 32]); // random
    body.push(0); // session id
    body.extend_from_slice(&[0x00, 0x02, 0x13, 0x01]); // cipher suites
    body.extend_from_slice(&[0x01, 0x00]); // compression
    body.extend_from_slice(&ext_total.to_be_bytes());
    body.extend_from_slice(&[0x00, 0x00]); // SNI extension tag
    body.extend_from_slice(&(ext_data_len as u16).to_be_bytes());
    body.extend_from_slice(&sni_list_len.to_be_bytes());
    body.push(0x00); // name type: host name
    body.extend_from_slice(&(name.len() as u16).to_be_bytes());
    body.extend_from_slice(name);
    let mut out: Vec<u8> = vec![0x01];
    let len = body.len() as u32;
    out.push((len >> 16) as u8);
    out.push((len >> 8) as u8);
    out.push(len as u8);
    out.extend_from_slice(&body);
    out
}

#[test]
fn plain_names_are_accepted() {
    let hello = hello_with_name(b"example-host.test_1.net");
    let name = get_server_name_from_client_hello(&hello).unwrap();
    assert_eq!(&name, "example-host.test_1.net");
}

#[test]
fn percent_is_rejected() {
    let hello = hello_with_name(b"bad%name.com");
    assert!(get_server_name_from_client_hello(&hello).is_none());
}

#[test]
fn space_is_rejected() {
    let hello = hello_with_name(b"bad name.com");
    assert!(get_server_name_from_client_hello(&hello).is_none());
}

#[test]
fn non_ascii_is_rejected() {
    let hello = hello_with_name("b\u{00e9}b\u{00e9}.com".as_bytes());
    assert!(get_server_name_from_client_hello(&hello).is_none());
}

#[test]
fn truncated_hello_yields_nothing() {
    let mut hello = hello_with_name(b"ok.com");
    hello.truncate(hello.len() - 3);
    assert!(get_server_name_from_client_hello(&hello).is_none());
}
