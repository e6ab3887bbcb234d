//! TLS 1.3 ClientHello inspection: walks the handshake message and its
//! extensions to the server-name indication, accepting only plain host
//! names.
use vstd::prelude::*;

verus! {

/// Characters a server name may carry: ASCII letters, digits, `-`, `.`, `_`.
pub open spec fn spec_allowed_byte(c: u8) -> bool {
    (0x30 <= c <= 0x39) || (0x41 <= c <= 0x5a) || (0x61 <= c <= 0x7a) || c == 0x2d || c == 0x2e
        || c == 0x5f
}

pub fn allowed_byte(c: u8) -> (r: bool)
    ensures
        r == spec_allowed_byte(c),
{
    (0x30 <= c && c <= 0x39) || (0x41 <= c && c <= 0x5a) || (0x61 <= c && c <= 0x7a) || c == 0x2d
        || c == 0x2e || c == 0x5f
}

pub open spec fn spec_all_allowed(s: Seq<u8>) -> bool {
    forall|i: int| 0 <= i < s.len() ==> spec_allowed_byte(#[trigger] s[i])
}

/// ASCII bytes seen as text.
pub open spec fn spec_bytes_as_chars(s: Seq<u8>) -> Seq<char> {
    Seq::new(s.len(), |i: int| s[i] as char)
}

/// Relies on std's `String::from_utf8`: ASCII bytes decode to themselves.
#[verifier::external_body]
fn ascii_bytes_to_string(b: Vec<u8>) -> (r: String)
    requires
        forall|i: int| 0 <= i < b@.len() ==> #[trigger] b@[i] < 128,
    ensures
        r@ == spec_bytes_as_chars(b@),
{
    String::from_utf8(b).unwrap()
}

pub open spec fn spec_be16_at(b: Seq<u8>, p: int) -> int {
    (b[p] as int) * 256 + b[p + 1]
}

/// Walk of one server-name list.  The result code says what the walk did:
/// 0 ran off the list (keep scanning extensions), 1 gave up on the whole
/// message, 2 found a host name.
pub open spec fn spec_name_walk(b: Seq<u8>, q: int, rem: int) -> (int, Seq<u8>)
    decreases rem,
{
    if rem <= 3 {
        (0, Seq::empty())
    } else if q + 3 > b.len() {
        (1, Seq::empty())
    } else {
        let nt = b[q];
        let nl = spec_be16_at(b, q + 1);
        let rem2 = rem - 3;
        if nl > rem2 {
            (1, Seq::empty())
        } else if nt == 0 {
            if nl == 0 {
                (1, Seq::empty())
            } else if q + 3 + nl > b.len() {
                (1, Seq::empty())
            } else {
                let name = b.subrange(q + 3, q + 3 + nl);
                if spec_all_allowed(name) {
                    (2, name)
                } else {
                    (1, Seq::empty())
                }
            }
        } else {
            if q + 3 + nl > b.len() {
                (1, Seq::empty())
            } else {
                spec_name_walk(b, q + 3 + nl, rem2 - nl)
            }
        }
    }
}

/// Walk of the extension list from `pos` to the first server-name match.
pub open spec fn spec_ext_walk(b: Seq<u8>, pos: int) -> Option<Seq<u8>>
    decreases b.len() - pos,
{
    if pos < 0 || pos >= b.len() {
        None
    } else if pos + 4 > b.len() {
        None
    } else {
        let tag = spec_be16_at(b, pos);
        let elen = spec_be16_at(b, pos + 2);
        if b.len() - (pos + 4) < elen {
            None
        } else if tag == 0 {
            if elen < 2 {
                None
            } else {
                let stot = spec_be16_at(b, pos + 4);
                if stot > elen - 2 {
                    None
                } else {
                    let walk = spec_name_walk(b, pos + 6, stot);
                    if walk.0 == 2 {
                        Some(walk.1)
                    } else if walk.0 == 1 {
                        None
                    } else {
                        spec_ext_walk(b, pos + 6 + stot)
                    }
                }
            }
        } else {
            spec_ext_walk(b, pos + 4 + elen)
        }
    }
}

/// The server name a ClientHello carries, if its framing checks out and the
/// name is plain; mirrors the handshake layout of RFC 8446, 4.1.2.
pub open spec fn spec_server_name(b: Seq<u8>) -> Option<Seq<u8>> {
    if b.len() < 4 {
        None
    } else if b[0] != 0x01 {
        None
    } else if (b[1] as int) * 65536 + (b[2] as int) * 256 + b[3] != b.len() - 4 {
        None
    } else if b.len() < 39 {
        None
    } else {
        let sid = b[38] as int;
        let p1 = 39 + sid;
        if p1 + 2 > b.len() {
            None
        } else {
            let cl = spec_be16_at(b, p1);
            let p2 = p1 + 2 + cl;
            if p2 + 2 > b.len() {
                None
            } else if spec_be16_at(b, p2) != 0x0100 {
                None
            } else {
                let p3 = p2 + 2;
                if p3 + 2 > b.len() {
                    None
                } else if b.len() - (p3 + 2) != spec_be16_at(b, p3) {
                    None
                } else {
                    spec_ext_walk(b, p3 + 2)
                }
            }
        }
    }
}

/// A name the walk finds satisfies the character restriction.
pub proof fn lemma_name_walk_valid(b: Seq<u8>, q: int, rem: int)
    ensures
        spec_name_walk(b, q, rem).0 == 2 ==> spec_all_allowed(spec_name_walk(b, q, rem).1),
    decreases rem,
{
    if rem <= 3 {
    } else if q + 3 > b.len() {
    } else {
        let nl = spec_be16_at(b, q + 1);
        if nl <= rem - 3 && b[q] != 0 && q + 3 + nl <= b.len() {
            lemma_name_walk_valid(b, q + 3 + nl, rem - 3 - nl);
        }
    }
}

/// Whatever extension the name came from, it satisfies the restriction.
pub proof fn lemma_ext_walk_valid(b: Seq<u8>, pos: int)
    ensures
        spec_ext_walk(b, pos) matches Some(name) ==> spec_all_allowed(name),
    decreases b.len() - pos,
{
    if pos < 0 || pos >= b.len() || pos + 4 > b.len() {
    } else {
        let tag = spec_be16_at(b, pos);
        let elen = spec_be16_at(b, pos + 2);
        if b.len() - (pos + 4) < elen {
        } else if tag == 0 {
            if elen >= 2 {
                let stot = spec_be16_at(b, pos + 4);
                if stot <= elen - 2 {
                    lemma_name_walk_valid(b, pos + 6, stot);
                    lemma_ext_walk_valid(b, pos + 6 + stot);
                }
            }
        } else {
            lemma_ext_walk_valid(b, pos + 4 + elen);
        }
    }
}

/// Every name this parser yields is a plain host name: nothing outside
/// letters, digits, `-`, `.` and `_`.
pub proof fn lemma_server_name_valid(b: Seq<u8>)
    ensures
        spec_server_name(b) matches Some(name) ==> spec_all_allowed(name),
{
    if b.len() >= 39 && b[0] == 0x01 && (b[1] as int) * 65536 + (b[2] as int) * 256 + b[3] == b.len() - 4 {
        let sid = b[38] as int;
        let p1 = 39 + sid;
        if p1 + 2 <= b.len() {
            let cl = spec_be16_at(b, p1);
            let p2 = p1 + 2 + cl;
            if p2 + 2 <= b.len() && spec_be16_at(b, p2) == 0x0100 {
                let p3 = p2 + 2;
                if p3 + 2 <= b.len() && b.len() - (p3 + 2) == spec_be16_at(b, p3) {
                    lemma_ext_walk_valid(b, p3 + 2);
                }
            }
        }
    }
}

fn be16_at(b: &Vec<u8>, p: usize) -> (r: u32)
    requires
        p + 2 <= b@.len(),
    ensures
        r == spec_be16_at(b@, p as int),
        r < 0x10000,
{
    let l = b.len();
    let hi = b[p] as u32;
    let lo = b[p + 1] as u32;
    hi * 256 + lo
}

/// Scans one server-name list; mirrors `spec_name_walk`.
fn name_walk(b: &Vec<u8>, q0: usize, rem0: usize) -> (r: (u8, Vec<u8>))
    requires
        q0 <= b@.len(),
    ensures
        r.0 as int == spec_name_walk(b@, q0 as int, rem0 as int).0,
        r.0 == 2 ==> r.1@ == spec_name_walk(b@, q0 as int, rem0 as int).1,
    decreases rem0,
{
    let len = b.len();
    if rem0 <= 3 {
        return (0, Vec::new());
    }
    if len - q0 < 3 {
        return (1, Vec::new());
    }
    let nt = b[q0];
    let nl = be16_at(b, q0 + 1) as usize;
    let rem2 = rem0 - 3;
    if nl > rem2 {
        return (1, Vec::new());
    }
    if nt == 0 {
        if nl == 0 {
            return (1, Vec::new());
        }
        if nl > len - (q0 + 3) {
            return (1, Vec::new());
        }
        let name = crate::quic::copy_range(b, q0 + 3, q0 + 3 + nl);
        let mut ok = true;
        let mut i: usize = 0;
        while i < name.len()
            invariant
                i <= name@.len(),
                ok == (forall|j: int| 0 <= j < i ==> spec_allowed_byte(#[trigger] name@[j])),
            decreases name@.len() - i,
        {
            if !allowed_byte(name[i]) {
                ok = false;
            }
            i = i + 1;
        }
        if ok {
            (2, name)
        } else {
            (1, Vec::new())
        }
    } else {
        if nl > len - (q0 + 3) {
            return (1, Vec::new());
        }
        name_walk(b, q0 + 3 + nl, rem2 - nl)
    }
}

/// Scans the extension list; mirrors `spec_ext_walk`.
fn ext_walk(b: &Vec<u8>, pos0: usize) -> (r: Option<Vec<u8>>)
    ensures
        match r {
            Some(name) => spec_ext_walk(b@, pos0 as int) == Some(name@),
            None => spec_ext_walk(b@, pos0 as int) is None,
        },
    decreases b@.len() - pos0,
{
    let len = b.len();
    if pos0 >= len {
        return None;
    }
    if len - pos0 < 4 {
        return None;
    }
    let tag = be16_at(b, pos0);
    let elen = be16_at(b, pos0 + 2) as usize;
    if len - (pos0 + 4) < elen {
        return None;
    }
    if tag == 0 {
        if elen < 2 {
            return None;
        }
        let stot = be16_at(b, pos0 + 4) as usize;
        if stot > elen - 2 {
            return None;
        }
        let walk = name_walk(b, pos0 + 6, stot);
        if walk.0 == 2 {
            Some(walk.1)
        } else if walk.0 == 1 {
            None
        } else {
            ext_walk(b, pos0 + 6 + stot)
        }
    } else {
        ext_walk(b, pos0 + 4 + elen)
    }
}

/// Extracts the raw server-name bytes of a ClientHello, or nothing when a
/// framing check fails or the name is not plain.
pub fn server_name_bytes(b: &Vec<u8>) -> (r: Option<Vec<u8>>)
    ensures
        match r {
            Some(nb) => spec_server_name(b@) == Some(nb@) && spec_all_allowed(nb@),
            None => spec_server_name(b@) is None,
        },
{
    let len = b.len();
    if len < 4 {
        return None;
    }
    if b[0] != 0x01 {
        return None;
    }
    let mlen = (b[1] as usize) * 65536 + (b[2] as usize) * 256 + b[3] as usize;
    if mlen != len - 4 {
        return None;
    }
    if len < 39 {
        return None;
    }
    let sid = b[38] as usize;
    let p1 = 39 + sid;
    if p1 + 2 > len {
        return None;
    }
    let cl = be16_at(b, p1) as usize;
    let p2 = p1 + 2 + cl;
    if p2 > len || p2 + 2 > len {
        return None;
    }
    if be16_at(b, p2) != 0x0100 {
        return None;
    }
    let p3 = p2 + 2;
    if p3 + 2 > len {
        return None;
    }
    let elen_total = be16_at(b, p3) as usize;
    if len - (p3 + 2) != elen_total {
        return None;
    }
    match ext_walk(b, p3 + 2) {
        None => None,
        Some(name) => {
            proof {
                lemma_ext_walk_valid(b@, p3 + 2);
            }
            Some(name)
        },
    }
}

/// Extracts the server name of a ClientHello as text.
pub fn get_server_name_from_client_hello(b: &Vec<u8>) -> (r: Option<String>)
    ensures
        match r {
            Some(s) => spec_server_name(b@) matches Some(nb) && s@ == spec_bytes_as_chars(nb),
            None => spec_server_name(b@) is None,
        },
        r matches Some(s) ==> forall|i: int|
            0 <= i < s@.len() ==> spec_allowed_byte(#[trigger] s@[i] as u8),
{
    match server_name_bytes(b) {
        None => None,
        Some(name) => {
            proof {
                assert(forall|i: int| 0 <= i < name@.len() ==> #[trigger] name@[i] < 128);
            }
            let s = ascii_bytes_to_string(name);
            Some(s)
        },
    }
}

} // verus!
