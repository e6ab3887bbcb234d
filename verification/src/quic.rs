//! QUIC v1 Initial packet inspection: variable-length integers, the long
//! header, header-protection removal, payload decryption, and reassembly of
//! the CRYPTO stream that carries the TLS ClientHello.
use vstd::prelude::*;

use crate::crypto::{
    aead_open, aes128_gcm_open_of, aes128_hp_mask_of, derive_client_hp, derive_client_iv,
    derive_client_key, derive_client_secret, hp_mask, spec_client_hp, spec_client_iv,
    spec_client_key, spec_client_secret,
};
use crate::socks5::{pow256, spec_be_bytes, spec_from_be};

verus! {

/// A datagram must be this large before it is tried as a QUIC Initial.
pub const MIN_INITIAL_PACKET_SIZE_BYTES: usize = 1200;

#[derive(Debug, Clone, Copy, PartialEq, Eq, Structural)]
pub enum ParseError {
    NotValidQuicPacket,
    NotInitialPacket,
    NoEnoughData,
}

/// Wire length of a variable-length integer, from the top two bits of its
/// first byte.
pub open spec fn spec_varint_len(first: u8) -> int {
    if first >> 6 == 0 {
        1
    } else if first >> 6 == 1 {
        2
    } else if first >> 6 == 2 {
        4
    } else {
        8
    }
}

/// Value of a variable-length integer laid out in `s`: the first byte with
/// its top two bits cleared, then the rest, big-endian.
pub open spec fn spec_varint(s: Seq<u8>) -> int {
    spec_from_be(seq![(s[0] & 0x3f)] + s.skip(1))
}

/// Reads the variable-length integer at `*pos`, advancing past it.
pub fn decode_var_int(buf: &Vec<u8>, pos: &mut usize) -> (r: u64)
    requires
        *old(pos) < buf@.len(),
        *old(pos) + spec_varint_len(buf@[*old(pos) as int]) <= buf@.len(),
    ensures
        *final(pos) == *old(pos) + spec_varint_len(buf@[*old(pos) as int]),
        r == spec_varint(buf@.subrange(*old(pos) as int, *final(pos) as int)),
{
    let first = buf[*pos];
    let tag = first >> 6;
    let len: usize = if tag == 0 {
        1
    } else if tag == 1 {
        2
    } else if tag == 2 {
        4
    } else {
        8
    };
    let masked = first & 0x3f;
    proof {
        assert(first & 0x3f < 64) by (bit_vector);
    }
    let ghost start = *pos as int;
    let ghost vbytes = seq![(buf@[start] & 0x3f)] + buf@.subrange(start, start + len as int).skip(
        1,
    );
    let total: usize = buf.len();
    let mut x: u64 = masked as u64;
    let mut i: usize = 1;
    proof {
        crate::socks5::lemma_pow256_all();
        assert(vbytes.take(1) =~= seq![(buf@[start] & 0x3f)]);
        assert(vbytes.take(1).drop_last() =~= Seq::<u8>::empty());
        reveal_with_fuel(crate::socks5::spec_from_be, 3);
        assert(spec_from_be(vbytes.take(1)) == buf@[start] & 0x3f);
        assert(x < 64 * pow256(0));
    }
    while i < len
        invariant
            1 <= i <= len,
            len <= 8,
            start + len <= buf@.len(),
            buf@.len() == total,
            *pos == start,
            vbytes.len() == len,
            vbytes == seq![(buf@[start] & 0x3f)] + buf@.subrange(start, start + len as int).skip(
                1,
            ),
            x == spec_from_be(vbytes.take(i as int)),
            x < 64 * pow256((i - 1) as nat),
            pow256(7) == 0x100000000000000,
        decreases len - i,
    {
        proof {
            assert(vbytes.take(i + 1).drop_last() =~= vbytes.take(i as int));
            assert(vbytes.take(i + 1).last() == buf@[start + i]);
            crate::socks5::lemma_pow256_all();
            crate::socks5::lemma_pow256_monotone(i as nat, 7);
            assert(x * 256 + buf@[start + i] < 64 * pow256(i as nat)) by (nonlinear_arith)
                requires
                    x < 64 * pow256((i - 1) as nat),
                    buf@[start + i] < 256,
                    pow256(i as nat) == 256 * pow256((i - 1) as nat),
                    pow256((i - 1) as nat) >= 1,
            ;
            assert(64 * pow256(i as nat) <= 64 * pow256(7)) by (nonlinear_arith)
                requires
                    pow256(i as nat) <= pow256(7),
            ;
        }
        x = x * 256 + buf[*pos + i] as u64;
        i = i + 1;
    }
    proof {
        assert(vbytes.take(len as int) =~= vbytes);
        assert(vbytes =~= seq![
            (buf@.subrange(start, start + len as int)[0] & 0x3f),
        ] + buf@.subrange(start, start + len as int).skip(1));
    }
    *pos = *pos + len;
    x
}

/// One reassembly chunk of the CRYPTO stream: offset and data.
pub open spec fn spec_chunk_end(c: (int, Seq<u8>)) -> int {
    c.0 + c.1.len()
}

/// Walks the decrypted payload frame by frame.  PADDING and PING are
/// skipped; ACK or any unknown frame type rejects the packet; CRYPTO frames
/// contribute (offset, data) chunks in arrival order.
pub open spec fn spec_frames(p: Seq<u8>, pos: int, acc: Seq<(int, Seq<u8>)>) -> Result<
    Seq<(int, Seq<u8>)>,
    ParseError,
>
    decreases p.len() - pos,
{
    if pos < 0 || pos >= p.len() {
        Ok(acc)
    } else if p[pos] == 0x00 || p[pos] == 0x01 {
        spec_frames(p, pos + 1, acc)
    } else if p[pos] == 0x02 || p[pos] == 0x03 {
        Err(ParseError::NotInitialPacket)
    } else if p[pos] != 0x06 {
        Err(ParseError::NotValidQuicPacket)
    } else {
        let p1 = pos + 1;
        if p1 >= p.len() || p1 + spec_varint_len(p[p1]) > p.len() {
            Err(ParseError::NoEnoughData)
        } else {
            let off = spec_varint(p.subrange(p1, p1 + spec_varint_len(p[p1])));
            let p2 = p1 + spec_varint_len(p[p1]);
            if p2 >= p.len() || p2 + spec_varint_len(p[p2]) > p.len() {
                Err(ParseError::NoEnoughData)
            } else {
                let clen = spec_varint(p.subrange(p2, p2 + spec_varint_len(p[p2])));
                let p3 = p2 + spec_varint_len(p[p2]);
                if off < 0 || clen < 0 {
                    Err(ParseError::NotValidQuicPacket)
                } else if off + clen > p.len() {
                    Err(ParseError::NotValidQuicPacket)
                } else if clen > p.len() - p3 {
                    Err(ParseError::NoEnoughData)
                } else {
                    spec_frames(p, p3 + clen, acc.push((off, p.subrange(p3, p3 + clen))))
                }
            }
        }
    }
}

/// Some chunk covers byte `i` of the stream.
pub open spec fn spec_covered(chunks: Seq<(int, Seq<u8>)>, i: int) -> bool {
    exists|j: int| 0 <= j < chunks.len() && (#[trigger] chunks[j]).0 <= i < spec_chunk_end(chunks[j])
}

/// Byte `i` of the reassembled stream: what the latest chunk covering it
/// wrote, zero where nothing did.
pub open spec fn spec_value_at(chunks: Seq<(int, Seq<u8>)>, i: int) -> u8
    decreases chunks.len(),
{
    if chunks.len() == 0 {
        0
    } else if chunks.last().0 <= i < spec_chunk_end(chunks.last()) {
        chunks.last().1[i - chunks.last().0]
    } else {
        spec_value_at(chunks.drop_last(), i)
    }
}

pub open spec fn spec_end_max(chunks: Seq<(int, Seq<u8>)>) -> int
    decreases chunks.len(),
{
    if chunks.len() == 0 {
        0
    } else if spec_chunk_end(chunks.last()) >= spec_end_max(chunks.drop_last()) {
        spec_chunk_end(chunks.last())
    } else {
        spec_end_max(chunks.drop_last())
    }
}

/// The reassembled CRYPTO message: the longest gap-free prefix of the
/// stream, each byte from the latest chunk that wrote it.
pub open spec fn spec_message_ok(chunks: Seq<(int, Seq<u8>)>, msg: Seq<u8>) -> bool {
    &&& msg.len() <= spec_end_max(chunks)
    &&& forall|i: int| 0 <= i < msg.len() ==> #[trigger] msg[i] == spec_value_at(chunks, i)
    &&& forall|i: int| 0 <= i < msg.len() ==> #[trigger] spec_covered(chunks, i)
    &&& (msg.len() == spec_end_max(chunks) || !spec_covered(chunks, msg.len() as int))
}

/// The reassembled message is pinned: any two sequences satisfying
/// `spec_message_ok` for the same chunks are equal.
pub proof fn lemma_message_unique(chunks: Seq<(int, Seq<u8>)>, a: Seq<u8>, b: Seq<u8>)
    requires
        spec_message_ok(chunks, a),
        spec_message_ok(chunks, b),
    ensures
        a == b,
{
    if a.len() < b.len() {
        assert(spec_covered(chunks, a.len() as int));
        assert(a.len() != spec_end_max(chunks));
        assert(false);
    }
    if b.len() < a.len() {
        assert(spec_covered(chunks, b.len() as int));
        assert(b.len() != spec_end_max(chunks));
        assert(false);
    }
    assert(a =~= b);
}

/// Copies `p[a..b]` into a fresh vector.
pub fn copy_range(p: &Vec<u8>, a: usize, b: usize) -> (r: Vec<u8>)
    requires
        a <= b <= p@.len(),
    ensures
        r@ == p@.subrange(a as int, b as int),
{
    let mut out: Vec<u8> = Vec::new();
    let mut i: usize = a;
    proof {
        assert(out@ =~= p@.subrange(a as int, a as int));
    }
    while i < b
        invariant
            a <= i <= b <= p@.len(),
            out@ == p@.subrange(a as int, i as int),
        decreases b - i,
    {
        out.push(p[i]);
        proof {
            assert(p@.subrange(a as int, i + 1) =~= p@.subrange(a as int, i as int).push(
                p@[i as int],
            ));
        }
        i = i + 1;
    }
    out
}

pub open spec fn spec_map_chunks(chunks: Seq<(usize, Vec<u8>)>) -> Seq<(int, Seq<u8>)> {
    chunks.map_values(|c: (usize, Vec<u8>)| (c.0 as int, c.1@))
}

/// Collects the CRYPTO chunks of a decrypted Initial payload.
fn parse_frames(p: &Vec<u8>) -> (r: Result<Vec<(usize, Vec<u8>)>, ParseError>)
    ensures
        match r {
            Ok(chunks) => spec_frames(p@, 0, Seq::empty()) == Ok::<_, ParseError>(
                spec_map_chunks(chunks@),
            ) && forall|j: int|
                0 <= j < chunks@.len() ==> (#[trigger] chunks@[j]).0 + chunks@[j].1@.len()
                    <= p@.len(),
            Err(e) => spec_frames(p@, 0, Seq::empty()) == Err::<Seq<(int, Seq<u8>)>, _>(e),
        },
{
    let len = p.len();
    let mut pos: usize = 0;
    let mut chunks: Vec<(usize, Vec<u8>)> = Vec::new();
    proof {
        assert(spec_map_chunks(chunks@) =~= Seq::<(int, Seq<u8>)>::empty());
    }
    loop
        invariant
            pos <= len,
            len == p@.len(),
            spec_frames(p@, 0, Seq::empty()) == spec_frames(p@, pos as int, spec_map_chunks(
                chunks@,
            )),
            forall|j: int|
                0 <= j < chunks@.len() ==> (#[trigger] chunks@[j]).0 + chunks@[j].1@.len()
                    <= p@.len(),
        ensures
            pos == len,
        decreases len - pos,
    {
        if pos >= len {
            break ;
        }
        let ft = p[pos];
        if ft == 0x00 || ft == 0x01 {
            pos = pos + 1;
        } else if ft == 0x02 || ft == 0x03 {
            return Err(ParseError::NotInitialPacket);
        } else if ft != 0x06 {
            return Err(ParseError::NotValidQuicPacket);
        } else {
            let p1 = pos + 1;
            if p1 >= len {
                return Err(ParseError::NoEnoughData);
            }
            let vl1 = varint_len_at(p, p1);
            if len - p1 < vl1 {
                return Err(ParseError::NoEnoughData);
            }
            let mut cur: usize = p1;
            let off = decode_var_int(p, &mut cur);
            let p2 = cur;
            if p2 >= len {
                return Err(ParseError::NoEnoughData);
            }
            let vl2 = varint_len_at(p, p2);
            if len - p2 < vl2 {
                return Err(ParseError::NoEnoughData);
            }
            let clen = decode_var_int(p, &mut cur);
            let p3 = cur;
            if off > len as u64 || clen > len as u64 - off {
                return Err(ParseError::NotValidQuicPacket);
            }
            if clen > (len - p3) as u64 {
                return Err(ParseError::NoEnoughData);
            }
            let off_us = off as usize;
            let clen_us = clen as usize;
            let data = copy_range(p, p3, p3 + clen_us);
            let ghost before = chunks@;
            chunks.push((off_us, data));
            proof {
                assert(spec_map_chunks(chunks@) =~= spec_map_chunks(before).push(
                    (off as int, p@.subrange(p3 as int, p3 + clen as int)),
                ));
            }
            pos = p3 + clen_us;
        }
    }
    Ok(chunks)
}

/// Exec mirror of `spec_varint_len`.
fn varint_len_at(p: &Vec<u8>, at: usize) -> (r: usize)
    requires
        at < p@.len(),
    ensures
        r == spec_varint_len(p@[at as int]),
        1 <= r <= 8,
{
    let tag = p[at] >> 6;
    if tag == 0 {
        1
    } else if tag == 1 {
        2
    } else if tag == 2 {
        4
    } else {
        8
    }
}

proof fn lemma_end_max_nonneg(chunks: Seq<(int, Seq<u8>)>)
    ensures
        spec_end_max(chunks) >= 0,
    decreases chunks.len(),
{
    if chunks.len() > 0 {
        lemma_end_max_nonneg(chunks.drop_last());
    }
}

proof fn lemma_end_le_max(chunks: Seq<(int, Seq<u8>)>, j: int)
    requires
        0 <= j < chunks.len(),
    ensures
        spec_chunk_end(chunks[j]) <= spec_end_max(chunks),
    decreases chunks.len(),
{
    if j == chunks.len() - 1 {
    } else {
        lemma_end_le_max(chunks.drop_last(), j);
        assert(chunks.drop_last()[j] == chunks[j]);
    }
}

proof fn lemma_value_beyond_end(chunks: Seq<(int, Seq<u8>)>, i: int)
    requires
        i >= spec_end_max(chunks),
        forall|j: int| 0 <= j < chunks.len() ==> (#[trigger] chunks[j]).0 >= 0,
    ensures
        spec_value_at(chunks, i) == 0,
        !spec_covered(chunks, i),
    decreases chunks.len(),
{
    if chunks.len() > 0 {
        lemma_end_max_nonneg(chunks.drop_last());
        assert(forall|j: int|
            0 <= j < chunks.drop_last().len() ==> (#[trigger] chunks.drop_last()[j]).0 >= 0);
        lemma_value_beyond_end(chunks.drop_last(), i);
        assert forall|j: int|
            0 <= j < chunks.len() implies !((#[trigger] chunks[j]).0 <= i < spec_chunk_end(
            chunks[j],
        )) by {
            if j < chunks.len() - 1 {
                assert(chunks.drop_last()[j] == chunks[j]);
                assert(!spec_covered(chunks.drop_last(), i));
            } else {
                lemma_end_le_max(chunks, j);
            }
        }
    }
}


/// Reassembles the CRYPTO chunks into the longest gap-free prefix of the
/// stream; later chunks win where ranges overlap.
fn assemble_message(chunks: &Vec<(usize, Vec<u8>)>) -> (r: Vec<u8>)
    requires
        forall|j: int|
            0 <= j < chunks@.len() ==> (#[trigger] chunks@[j]).0 + chunks@[j].1@.len()
                <= usize::MAX,
    ensures
        spec_message_ok(spec_map_chunks(chunks@), r@),
{
    let ghost all = spec_map_chunks(chunks@);
    proof {
        assert(forall|j: int| 0 <= j < all.len() ==> (#[trigger] all[j]).0 >= 0);
    }
    let mut buf: Vec<u8> = Vec::new();
    let mut k: usize = 0;
    proof {
        assert(spec_map_chunks(chunks@).take(0) =~= Seq::<(int, Seq<u8>)>::empty());
    }
    while k < chunks.len()
        invariant
            k <= chunks@.len(),
            all == spec_map_chunks(chunks@),
            forall|j: int|
                0 <= j < chunks@.len() ==> (#[trigger] chunks@[j]).0 + chunks@[j].1@.len()
                    <= usize::MAX,
            buf@.len() == spec_end_max(all.take(k as int)),
            forall|i: int|
                0 <= i < buf@.len() ==> #[trigger] buf@[i] == spec_value_at(
                    all.take(k as int),
                    i,
                ),
        decreases chunks@.len() - k,
    {
        let cpos = chunks[k].0;
        let clen = chunks[k].1.len();
        let cend = cpos + clen;
        proof {
            assert(all.take(k + 1).drop_last() =~= all.take(k as int));
            assert(all.take(k + 1).last() == all[k as int]);
            lemma_end_max_nonneg(all.take(k as int));
        }
        while buf.len() < cend
            invariant
                cend <= usize::MAX,
                k < chunks@.len(),
                all == spec_map_chunks(chunks@),
                spec_end_max(all.take(k as int)) <= buf@.len(),
                buf@.len() <= spec_end_max(all.take(k as int)) || buf@.len() <= cend,
                forall|i: int|
                    0 <= i < buf@.len() ==> #[trigger] buf@[i] == spec_value_at(
                        all.take(k as int),
                        i,
                    ),
            decreases cend - buf@.len(),
        {
            proof {
                assert(forall|j: int|
                    0 <= j < all.take(k as int).len() ==> (#[trigger] all.take(k as int)[j]).0
                        >= 0);
                lemma_value_beyond_end(all.take(k as int), buf@.len() as int);
            }
            buf.push(0);
        }
        proof {
            assert(all.take(k + 1).drop_last() =~= all.take(k as int));
            assert(buf@.len() == spec_end_max(all.take(k + 1)));
        }
        let mut j: usize = 0;
        while j < clen
            invariant
                j <= clen,
                clen == chunks@[k as int].1@.len(),
                cpos == chunks@[k as int].0,
                cend == cpos + clen,
                k < chunks@.len(),
                all == spec_map_chunks(chunks@),
                cend <= buf@.len(),
                buf@.len() == spec_end_max(all.take(k + 1)),
                spec_end_max(all.take(k as int)) <= buf@.len(),
                forall|i: int|
                    0 <= i < buf@.len() && !(cpos <= i < cpos + j) ==> #[trigger] buf@[i]
                        == spec_value_at(all.take(k as int), i),
                forall|i: int|
                    cpos <= i < cpos + j ==> #[trigger] buf@[i] == chunks@[k as int].1@[i - cpos],
            decreases clen - j,
        {
            buf.set(cpos + j, chunks[k].1[j]);
            j = j + 1;
        }
        proof {
            assert forall|i: int| 0 <= i < buf@.len() implies #[trigger] buf@[i] == spec_value_at(
                all.take(k + 1),
                i,
            ) by {
                assert(all.take(k + 1).drop_last() =~= all.take(k as int));
            }
        }
        k = k + 1;
    }
    proof {
        assert(all.take(chunks@.len() as int) =~= all);
    }
    // Longest covered prefix: extend while some chunk reaches past the mark.
    let mut msg_len: usize = 0;
    proof {
        lemma_end_max_nonneg(all);
    }
    loop
        invariant
            msg_len <= buf@.len(),
            buf@.len() == spec_end_max(all),
            all == spec_map_chunks(chunks@),
            forall|j: int|
                0 <= j < chunks@.len() ==> (#[trigger] chunks@[j]).0 + chunks@[j].1@.len()
                    <= usize::MAX,
            forall|i: int| 0 <= i < buf@.len() ==> #[trigger] buf@[i] == spec_value_at(all, i),
            forall|i: int| 0 <= i < msg_len ==> #[trigger] spec_covered(all, i),
        ensures
            msg_len <= buf@.len(),
            buf@.len() == spec_end_max(all),
            forall|i: int| 0 <= i < buf@.len() ==> #[trigger] buf@[i] == spec_value_at(all, i),
            forall|i: int| 0 <= i < msg_len ==> #[trigger] spec_covered(all, i),
            msg_len == buf@.len() || !spec_covered(all, msg_len as int),
        decreases buf@.len() - msg_len,
    {
        let mut best: usize = msg_len;
        let mut t: usize = 0;
        while t < chunks.len()
            invariant
                t <= chunks@.len(),
                all == spec_map_chunks(chunks@),
                forall|j: int|
                    0 <= j < chunks@.len() ==> (#[trigger] chunks@[j]).0 + chunks@[j].1@.len()
                        <= usize::MAX,
                msg_len <= best <= buf@.len(),
                buf@.len() == spec_end_max(all),
                best == msg_len || (best > msg_len && forall|i: int|
                    msg_len <= i < best ==> #[trigger] spec_covered(all, i)),
                best == msg_len ==> forall|j: int|
                    0 <= j < t ==> !((#[trigger] all[j]).0 <= msg_len < spec_chunk_end(all[j])),
            decreases chunks@.len() - t,
        {
            let cpos = chunks[t].0;
            let cend = cpos + chunks[t].1.len();
            if cpos <= msg_len && cend > msg_len && cend > best {
                proof {
                    lemma_end_le_max(all, t as int);
                    assert forall|i: int| msg_len <= i < cend implies #[trigger] spec_covered(
                        all,
                        i,
                    ) by {
                        assert(all[t as int].0 <= i < spec_chunk_end(all[t as int]));
                    }
                }
                best = cend;
            }
            t = t + 1;
        }
        if best == msg_len {
            break ;
        }
        msg_len = best;
    }
    buf.truncate(msg_len);
    proof {
        assert(buf@ =~= buf@);
    }
    buf
}

/// Extracts the CRYPTO message carried by a decrypted Initial payload.
pub fn crypto_message(p: &Vec<u8>) -> (r: Result<Vec<u8>, ParseError>)
    ensures
        match r {
            Ok(msg) => spec_frames(p@, 0, Seq::empty()) matches Ok(chunks) && spec_message_ok(
                chunks,
                msg@,
            ),
            Err(e) => spec_frames(p@, 0, Seq::empty()) == Err::<Seq<(int, Seq<u8>)>, _>(e),
        },
{
    let len = p.len();
    match parse_frames(p) {
        Err(e) => Err(e),
        Ok(chunks) => {
            proof {
                assert(forall|j: int|
                    0 <= j < chunks@.len() ==> (#[trigger] chunks@[j]).0 + chunks@[j].1@.len()
                        <= usize::MAX);
            }
            Ok(assemble_message(&chunks))
        },
    }
}


/// The unprotected long-header fields of a client Initial: destination
/// connection ID, offset of the packet-number field, and payload length.
/// Mirrors the wire layout of RFC 9000, 17.2.2.
pub open spec fn spec_initial_header(pkt: Seq<u8>) -> Result<(Seq<u8>, int, int), ParseError> {
    if pkt.len() < MIN_INITIAL_PACKET_SIZE_BYTES {
        Err(ParseError::NoEnoughData)
    } else if spec_from_be(pkt.subrange(1, 5)) != 1 {
        Err(ParseError::NotValidQuicPacket)
    } else if pkt[0] & 0xf0 != 0xc0 {
        Err(ParseError::NotInitialPacket)
    } else {
        let dl = pkt[5] as int;
        if dl > 20 {
            Err(ParseError::NotValidQuicPacket)
        } else if dl > pkt.len() - 6 {
            Err(ParseError::NoEnoughData)
        } else {
            let sp = 6 + dl;
            let sl = pkt[sp] as int;
            if sl > 20 {
                Err(ParseError::NotValidQuicPacket)
            } else if sl > pkt.len() - (sp + 1) {
                Err(ParseError::NoEnoughData)
            } else {
                let tp = sp + 1 + sl;
                if tp >= pkt.len() || tp + spec_varint_len(pkt[tp]) > pkt.len() {
                    Err(ParseError::NoEnoughData)
                } else {
                    let tl = spec_varint(pkt.subrange(tp, tp + spec_varint_len(pkt[tp])));
                    let tp2 = tp + spec_varint_len(pkt[tp]);
                    if tl > pkt.len() - tp2 {
                        Err(ParseError::NoEnoughData)
                    } else {
                        let pp = tp2 + tl;
                        if pp >= pkt.len() || pp + spec_varint_len(pkt[pp]) > pkt.len() {
                            Err(ParseError::NoEnoughData)
                        } else {
                            let plen = spec_varint(
                                pkt.subrange(pp, pp + spec_varint_len(pkt[pp])),
                            );
                            let pn_off = pp + spec_varint_len(pkt[pp]);
                            if plen > pkt.len() - pn_off {
                                Err(ParseError::NoEnoughData)
                            } else {
                                Ok((pkt.subrange(6, 6 + dl), pn_off, plen))
                            }
                        }
                    }
                }
            }
        }
    }
}

/// Parses the unprotected header of a client Initial.
fn parse_initial_header(pkt: &Vec<u8>) -> (r: Result<(Vec<u8>, usize, usize), ParseError>)
    ensures
        match r {
            Ok(h) => spec_initial_header(pkt@) == Ok::<_, ParseError>(
                (h.0@, h.1 as int, h.2 as int),
            ) && h.1 + h.2 <= pkt@.len() && h.1 >= 7,
            Err(e) => spec_initial_header(pkt@) == Err::<(Seq<u8>, int, int), _>(e),
        },
{
    let len = pkt.len();
    if len < MIN_INITIAL_PACKET_SIZE_BYTES {
        return Err(ParseError::NoEnoughData);
    }
    proof {
        crate::socks5::lemma_pow256_all();
    }
    let version = crate::socks5::read_be(pkt, 1, 4);
    if version != 1 {
        return Err(ParseError::NotValidQuicPacket);
    }
    if pkt[0] & 0xf0 != 0xc0 {
        return Err(ParseError::NotInitialPacket);
    }
    let dl = pkt[5] as usize;
    if dl > 20 {
        return Err(ParseError::NotValidQuicPacket);
    }
    if dl > len - 6 {
        return Err(ParseError::NoEnoughData);
    }
    let sp = 6 + dl;
    let sl = pkt[sp] as usize;
    if sl > 20 {
        return Err(ParseError::NotValidQuicPacket);
    }
    if sl > len - (sp + 1) {
        return Err(ParseError::NoEnoughData);
    }
    let tp = sp + 1 + sl;
    if tp >= len {
        return Err(ParseError::NoEnoughData);
    }
    let vl1 = varint_len_at(pkt, tp);
    if len - tp < vl1 {
        return Err(ParseError::NoEnoughData);
    }
    let mut cur: usize = tp;
    let tl = decode_var_int(pkt, &mut cur);
    let tp2 = cur;
    if tl > (len - tp2) as u64 {
        return Err(ParseError::NoEnoughData);
    }
    let pp = tp2 + tl as usize;
    if pp >= len {
        return Err(ParseError::NoEnoughData);
    }
    let vl2 = varint_len_at(pkt, pp);
    if len - pp < vl2 {
        return Err(ParseError::NoEnoughData);
    }
    cur = pp;
    let plen64 = decode_var_int(pkt, &mut cur);
    let pn_off = cur;
    if plen64 > (len - pn_off) as u64 {
        return Err(ParseError::NoEnoughData);
    }
    let dcid = copy_range(pkt, 6, 6 + dl);
    Ok((dcid, pn_off, plen64 as usize))
}

/// What decoding a datagram as a client Initial yields: the decrypted
/// payload after header-protection removal, or the reason it is rejected.
pub open spec fn spec_decode_initial(pkt: Seq<u8>) -> Result<Seq<u8>, ParseError> {
    match spec_initial_header(pkt) {
        Err(e) => Err(e),
        Ok((dcid, pn_off, plen)) => {
            if pn_off + 20 > pkt.len() {
                Err(ParseError::NoEnoughData)
            } else {
                let sample = pkt.subrange(pn_off + 4, pn_off + 20);
                let mask = aes128_hp_mask_of(spec_client_hp(dcid), sample);
                let b0 = pkt[0] ^ (mask[0] & 0x0f);
                let pn_len = (b0 & 0x03) as int + 1;
                if plen < pn_len {
                    Err(ParseError::NoEnoughData)
                } else {
                    let pn_bytes = Seq::new(pn_len as nat, |i: int| pkt[pn_off + i] ^ mask[1 + i]);
                    let pkt_no = spec_from_be(pn_bytes);
                    let header = seq![b0] + pkt.subrange(1, pn_off) + pn_bytes;
                    let ct = pkt.subrange(pn_off + pn_len, pn_off + plen);
                    let iv = spec_client_iv(dcid);
                    let nonce = iv.take(4) + Seq::new(
                        8,
                        |i: int| iv[4 + i] ^ spec_be_bytes(pkt_no, 8)[i],
                    );
                    match aes128_gcm_open_of(spec_client_key(dcid), nonce, header, ct) {
                        None => Err(ParseError::NotValidQuicPacket),
                        Some(pt) => Ok(pt),
                    }
                }
            }
        },
    }
}

/// Decodes a datagram as a QUIC v1 client Initial, removing header
/// protection and decrypting the payload.
pub fn decode_initial(pkt: &Vec<u8>) -> (r: Result<Vec<u8>, ParseError>)
    ensures
        match r {
            Ok(payload) => spec_decode_initial(pkt@) == Ok::<_, ParseError>(payload@),
            Err(e) => spec_decode_initial(pkt@) == Err::<Seq<u8>, _>(e),
        },
{
    let len = pkt.len();
    let (dcid, pn_off, plen) = match parse_initial_header(pkt) {
        Err(e) => {
            return Err(e);
        },
        Ok(h) => h,
    };
    if len - pn_off < 20 {
        return Err(ParseError::NoEnoughData);
    }
    let secret = derive_client_secret(&dcid);
    let hp = derive_client_hp(&secret);
    let sample = copy_range(pkt, pn_off + 4, pn_off + 20);
    let mask = hp_mask(&hp, &sample);
    let b0 = pkt[0] ^ (mask[0] & 0x0f);
    proof {
        let bb = b0;
        assert(bb & 0x03 <= 3) by (bit_vector);
    }
    let pn_len = ((b0 & 0x03) + 1) as usize;
    if plen < pn_len {
        return Err(ParseError::NoEnoughData);
    }
    let ghost spec_pn_bytes = Seq::new(
        pn_len as nat,
        |i: int| pkt@[pn_off + i] ^ mask@[1 + i],
    );
    let mut pn_bytes: Vec<u8> = Vec::new();
    let mut i: usize = 0;
    while i < pn_len
        invariant
            i <= pn_len,
            pn_len <= 4,
            pn_off + pn_len <= pkt@.len(),
            pkt@.len() <= usize::MAX,
            mask@.len() == 5,
            spec_pn_bytes == Seq::new(pn_len as nat, |i: int| pkt@[pn_off + i] ^ mask@[1 + i]),
            pn_bytes@ == spec_pn_bytes.take(i as int),
        decreases pn_len - i,
    {
        pn_bytes.push(pkt[pn_off + i] ^ mask[1 + i]);
        proof {
            assert(pn_bytes@ =~= spec_pn_bytes.take(i + 1));
        }
        i = i + 1;
    }
    proof {
        assert(pn_bytes@ =~= spec_pn_bytes);
    }
    let pkt_no = crate::socks5::read_be(&pn_bytes, 0, pn_len);
    proof {
        assert(pn_bytes@.subrange(0, pn_len as int) =~= spec_pn_bytes);
        crate::socks5::lemma_pow256_all();
        crate::socks5::lemma_pow256_monotone(pn_len as nat, 16);
    }
    // Reconstruct the unprotected header bytes for authentication.
    let mut header: Vec<u8> = Vec::new();
    header.push(b0);
    let mut j: usize = 1;
    while j < pn_off
        invariant
            1 <= j <= pn_off,
            pn_off <= pkt@.len(),
            header@ == seq![(pkt@[0] ^ (mask@[0] & 0x0f))].add(pkt@.subrange(1, j as int)),
            b0 == pkt@[0] ^ (mask@[0] & 0x0f),
        decreases pn_off - j,
    {
        header.push(pkt[j]);
        proof {
            assert(header@ =~= seq![(pkt@[0] ^ (mask@[0] & 0x0f))].add(
                pkt@.subrange(1, j + 1),
            ));
        }
        j = j + 1;
    }
    let mut t: usize = 0;
    let ghost header_mid = header@;
    while t < pn_len
        invariant
            t <= pn_len,
            pn_len == pn_bytes@.len(),
            header@ == header_mid.add(pn_bytes@.take(t as int)),
        decreases pn_len - t,
    {
        header.push(pn_bytes[t]);
        proof {
            assert(header@ =~= header_mid.add(pn_bytes@.take(t + 1)));
        }
        t = t + 1;
    }
    proof {
        assert(header@ =~= seq![(pkt@[0] ^ (mask@[0] & 0x0f))] + pkt@.subrange(
            1,
            pn_off as int,
        ) + spec_pn_bytes);
    }
    let ct = copy_range(pkt, pn_off + pn_len, pn_off + plen);
    let iv = derive_client_iv(&secret);
    let mut pn8: Vec<u8> = Vec::new();
    crate::socks5::push_be_bytes(&mut pn8, pkt_no as u128, 8);
    proof {
        crate::socks5::lemma_pow256_all();
        assert(spec_be_bytes(pkt_no as int, 8).len() == 8) by {
            crate::socks5::lemma_be_round_trip(pkt_no as int, 8);
        }
    }
    let ghost spec_nonce = spec_client_iv(dcid@).take(4) + Seq::new(
        8,
        |i: int| spec_client_iv(dcid@)[4 + i] ^ spec_be_bytes(pkt_no as int, 8)[i],
    );
    let mut nonce: Vec<u8> = Vec::new();
    let mut u: usize = 0;
    while u < 12
        invariant
            u <= 12,
            iv@ == spec_client_iv(dcid@),
            iv@.len() == 12,
            pn8@ == spec_be_bytes(pkt_no as int, 8),
            pn8@.len() == 8,
            spec_nonce == spec_client_iv(dcid@).take(4) + Seq::new(
                8,
                |i: int| spec_client_iv(dcid@)[4 + i] ^ spec_be_bytes(pkt_no as int, 8)[i],
            ),
            nonce@.len() == u,
            forall|w: int| 0 <= w < u ==> #[trigger] nonce@[w] == spec_nonce[w],
        decreases 12 - u,
    {
        if u < 4 {
            nonce.push(iv[u]);
        } else {
            nonce.push(iv[u] ^ pn8[u - 4]);
        }
        u = u + 1;
    }
    proof {
        assert(nonce@ =~= spec_nonce);
    }
    let key = derive_client_key(&secret);
    match aead_open(&key, &nonce, &header, &ct) {
        Some(pt) => Ok(pt),
        None => Err(ParseError::NotValidQuicPacket),
    }
}


/// A datagram carries a usable server name: it decodes as a client
/// Initial, its CRYPTO stream reassembles to a non-empty message, and that
/// message is a ClientHello naming a plain host.
pub open spec fn spec_has_server_name(pkt: Seq<u8>) -> bool {
    spec_decode_initial(pkt) matches Ok(payload) && (spec_frames(payload, 0, Seq::empty()) matches
        Ok(chunks) && exists|m: Seq<u8>|
        #[trigger] spec_message_ok(chunks, m) && m.len() > 0 && crate::tls::spec_server_name(m)
            is Some)
}

/// First-packet inspection of a new flow: a datagram that decodes as a
/// valid client Initial, whose CRYPTO stream opens with a ClientHello
/// naming a plain host, yields that name for remote DNS; anything else
/// leaves the flow nameless.  Parsing failures are never fatal.
pub fn extract_server_name(pkt: &Vec<u8>) -> (r: Option<Vec<u8>>)
    ensures
        r is Some <==> spec_has_server_name(pkt@),
        r matches Some(n) ==> crate::tls::spec_all_allowed(n@),
        r matches Some(n) ==> (spec_decode_initial(pkt@) matches Ok(payload) && (spec_frames(
            payload,
            0,
            Seq::empty(),
        ) matches Ok(chunks) && exists|m: Seq<u8>|
            #[trigger] spec_message_ok(chunks, m) && m.len() > 0 && crate::tls::spec_server_name(m)
                == Some(n@))),
{
    let payload = match decode_initial(pkt) {
        Err(_) => {
            return None;
        },
        Ok(p) => p,
    };
    let msg = match crypto_message(&payload) {
        Err(_) => {
            return None;
        },
        Ok(m) => m,
    };
    if msg.len() == 0 {
        proof {
            let chunks = spec_frames(payload@, 0, Seq::empty()).unwrap();
            if spec_has_server_name(pkt@) {
                let m = choose|m: Seq<u8>|
                    #[trigger] spec_message_ok(chunks, m) && m.len() > 0
                        && crate::tls::spec_server_name(m) is Some;
                lemma_message_unique(chunks, m, msg@);
                assert(false);
            }
        }
        return None;
    }
    let r = crate::tls::server_name_bytes(&msg);
    proof {
        let chunks = spec_frames(payload@, 0, Seq::empty()).unwrap();
        if r is Some {
            assert(spec_message_ok(chunks, msg@) && msg@.len() > 0 && crate::tls::spec_server_name(
                msg@,
            ) == Some(r.unwrap()@));
        } else {
            if spec_has_server_name(pkt@) {
                let m = choose|m: Seq<u8>|
                    #[trigger] spec_message_ok(chunks, m) && m.len() > 0
                        && crate::tls::spec_server_name(m) is Some;
                lemma_message_unique(chunks, m, msg@);
                assert(false);
            }
        }
    }
    r
}

} // verus!
