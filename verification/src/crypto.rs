//! Key derivation and packet protection for QUIC v1 Initial packets.  The
//! primitives (HKDF-SHA256, AES-128 header protection, AES-128-GCM) come
//! from an outside cryptography crate behind trusted wrappers; their outputs
//! are named, never restated.
use vstd::prelude::*;

verus! {

/// Output of HKDF-SHA256 extraction (RFC 5869) on a salt and keying
/// material; a function of its arguments alone.
pub uninterp spec fn hkdf_sha256_extract_of(salt: Seq<u8>, ikm: Seq<u8>) -> Seq<u8>;

/// First 32 bytes of HKDF-SHA256 expansion (RFC 5869) of a pseudorandom key
/// with an info string; a function of its arguments alone.
pub uninterp spec fn hkdf_sha256_expand_of(prk: Seq<u8>, info: Seq<u8>) -> Seq<u8>;

/// The 5-byte QUIC header-protection mask AES-128 derives from a key and a
/// 16-byte ciphertext sample.
pub uninterp spec fn aes128_hp_mask_of(key: Seq<u8>, sample: Seq<u8>) -> Seq<u8>;

/// What AES-128-GCM opening yields on a key, nonce, additional data and
/// ciphertext: the plaintext, or nothing when authentication fails.
pub uninterp spec fn aes128_gcm_open_of(
    key: Seq<u8>,
    nonce: Seq<u8>,
    aad: Seq<u8>,
    ct: Seq<u8>,
) -> Option<Seq<u8>>;

/// Relies on ring's `Salt::extract` and `Prk::expand` with HKDF-SHA256:
/// extract-then-expand, 32 bytes out; deterministic in its arguments.  The
/// two steps share one wrapper because ring never exposes the intermediate
/// pseudorandom key as bytes; the contract still names each step's output
/// separately.
#[verifier::external_body]
pub fn hkdf_extract_expand(salt: &Vec<u8>, ikm: &Vec<u8>, info: &Vec<u8>) -> (r: Vec<u8>)
    ensures
        r@ == hkdf_sha256_expand_of(hkdf_sha256_extract_of(salt@, ikm@), info@),
        r@.len() == 32,
{
    let prk = ring::hkdf::Salt::new(ring::hkdf::HKDF_SHA256, salt).extract(ikm);
    let info_refs = [info.as_slice()];
    let okm = prk.expand(&info_refs, ring::hkdf::HKDF_SHA256).unwrap();
    let mut out = vec![0u8; 32];
    okm.fill(&mut out).unwrap();
    out
}

/// Relies on ring's `Prk::new_less_safe` and `Prk::expand` with HKDF-SHA256:
/// expansion of a raw pseudorandom key, 32 bytes out.
#[verifier::external_body]
pub fn hkdf_expand32(prk: &Vec<u8>, info: &Vec<u8>) -> (r: Vec<u8>)
    ensures
        r@ == hkdf_sha256_expand_of(prk@, info@),
        r@.len() == 32,
{
    let prk = ring::hkdf::Prk::new_less_safe(ring::hkdf::HKDF_SHA256, prk);
    let info_refs = [info.as_slice()];
    let okm = prk.expand(&info_refs, ring::hkdf::HKDF_SHA256).unwrap();
    let mut out = vec![0u8; 32];
    okm.fill(&mut out).unwrap();
    out
}

/// Relies on ring's `aead::quic::HeaderProtectionKey` with AES-128: the mask
/// for one 16-byte sample.  Both constructors only reject wrong lengths,
/// which the preconditions rule out.
#[verifier::external_body]
pub fn hp_mask(key: &Vec<u8>, sample: &Vec<u8>) -> (r: Vec<u8>)
    requires
        key@.len() == 16,
        sample@.len() == 16,
    ensures
        r@ == aes128_hp_mask_of(key@, sample@),
        r@.len() == 5,
{
    let key = ring::aead::quic::HeaderProtectionKey::new(&ring::aead::quic::AES_128, key).unwrap();
    key.new_mask(sample).unwrap().to_vec()
}

/// Relies on ring's `LessSafeKey::open_in_place` with AES-128-GCM: on
/// success the plaintext is the ciphertext minus the 16-byte tag; failure
/// means the tag did not authenticate.
#[verifier::external_body]
pub fn aead_open(key: &Vec<u8>, nonce: &Vec<u8>, aad: &Vec<u8>, ct: &Vec<u8>) -> (r: Option<
    Vec<u8>,
>)
    requires
        key@.len() == 16,
        nonce@.len() == 12,
    ensures
        match r {
            Some(pt) => aes128_gcm_open_of(key@, nonce@, aad@, ct@) == Some(pt@) && ct@.len() >= 16
                && pt@.len() == ct@.len() - 16,
            None => aes128_gcm_open_of(key@, nonce@, aad@, ct@) is None,
        },
{
    let unbound = ring::aead::UnboundKey::new(&ring::aead::AES_128_GCM, key).unwrap();
    let less_safe = ring::aead::LessSafeKey::new(unbound);
    let nonce = ring::aead::Nonce::try_assume_unique_for_key(nonce).unwrap();
    let mut buf = ct.clone();
    match less_safe.open_in_place(nonce, ring::aead::Aad::from(aad), &mut buf) {
        Ok(pt) => {
            let n = pt.len();
            buf.truncate(n);
            Some(buf)
        },
        Err(_) => None,
    }
}

/// QUIC v1 initial salt (RFC 9001, 5.2).
pub open spec fn spec_initial_salt() -> Seq<u8> {
    seq![
        0x38u8, 0x76, 0x2c, 0xf7, 0xf5, 0x59, 0x34, 0xb3, 0x4d, 0x17, 0x9a, 0xe6, 0xa4, 0xc8,
        0x0c, 0xad, 0xcc, 0xbb, 0x7f, 0x0a,
    ]
}

/// Pre-encoded HKDF label `tls13 client in`, 32-byte output length.
pub open spec fn spec_label_client_in() -> Seq<u8> {
    seq![
        0x00u8, 0x20, 0x0f, 0x74, 0x6c, 0x73, 0x31, 0x33, 0x20, 0x63, 0x6c, 0x69, 0x65, 0x6e,
        0x74, 0x20, 0x69, 0x6e, 0x00,
    ]
}

/// Pre-encoded HKDF label `tls13 quic hp`, 16-byte output length.
pub open spec fn spec_label_quic_hp() -> Seq<u8> {
    seq![
        0x00u8, 0x10, 0x0d, 0x74, 0x6c, 0x73, 0x31, 0x33, 0x20, 0x71, 0x75, 0x69, 0x63, 0x20,
        0x68, 0x70, 0x00,
    ]
}

/// Pre-encoded HKDF label `tls13 quic key`, 16-byte output length.
pub open spec fn spec_label_quic_key() -> Seq<u8> {
    seq![
        0x00u8, 0x10, 0x0e, 0x74, 0x6c, 0x73, 0x31, 0x33, 0x20, 0x71, 0x75, 0x69, 0x63, 0x20,
        0x6b, 0x65, 0x79, 0x00,
    ]
}

/// Pre-encoded HKDF label `tls13 quic iv`, 12-byte output length.
pub open spec fn spec_label_quic_iv() -> Seq<u8> {
    seq![
        0x00u8, 0x0c, 0x0d, 0x74, 0x6c, 0x73, 0x31, 0x33, 0x20, 0x71, 0x75, 0x69, 0x63, 0x20,
        0x69, 0x76, 0x00,
    ]
}

fn initial_salt_bytes() -> (r: Vec<u8>)
    ensures
        r@ == spec_initial_salt(),
{
    let v: Vec<u8> = vec![
        0x38, 0x76, 0x2c, 0xf7, 0xf5, 0x59, 0x34, 0xb3, 0x4d, 0x17, 0x9a, 0xe6, 0xa4, 0xc8, 0x0c,
        0xad, 0xcc, 0xbb, 0x7f, 0x0a,
    ];
    proof {
        assert(v@ =~= spec_initial_salt());
    }
    v
}

fn label_client_in_bytes() -> (r: Vec<u8>)
    ensures
        r@ == spec_label_client_in(),
{
    let v: Vec<u8> = vec![
        0x00, 0x20, 0x0f, 0x74, 0x6c, 0x73, 0x31, 0x33, 0x20, 0x63, 0x6c, 0x69, 0x65, 0x6e, 0x74,
        0x20, 0x69, 0x6e, 0x00,
    ];
    proof {
        assert(v@ =~= spec_label_client_in());
    }
    v
}

fn label_quic_hp_bytes() -> (r: Vec<u8>)
    ensures
        r@ == spec_label_quic_hp(),
{
    let v: Vec<u8> = vec![
        0x00, 0x10, 0x0d, 0x74, 0x6c, 0x73, 0x31, 0x33, 0x20, 0x71, 0x75, 0x69, 0x63, 0x20, 0x68,
        0x70, 0x00,
    ];
    proof {
        assert(v@ =~= spec_label_quic_hp());
    }
    v
}

fn label_quic_key_bytes() -> (r: Vec<u8>)
    ensures
        r@ == spec_label_quic_key(),
{
    let v: Vec<u8> = vec![
        0x00, 0x10, 0x0e, 0x74, 0x6c, 0x73, 0x31, 0x33, 0x20, 0x71, 0x75, 0x69, 0x63, 0x20, 0x6b,
        0x65, 0x79, 0x00,
    ];
    proof {
        assert(v@ =~= spec_label_quic_key());
    }
    v
}

fn label_quic_iv_bytes() -> (r: Vec<u8>)
    ensures
        r@ == spec_label_quic_iv(),
{
    let v: Vec<u8> = vec![
        0x00, 0x0c, 0x0d, 0x74, 0x6c, 0x73, 0x31, 0x33, 0x20, 0x71, 0x75, 0x69, 0x63, 0x20, 0x69,
        0x76, 0x00,
    ];
    proof {
        assert(v@ =~= spec_label_quic_iv());
    }
    v
}

/// The 32-byte client initial secret derived from a connection ID.
pub open spec fn spec_client_secret(dcid: Seq<u8>) -> Seq<u8> {
    hkdf_sha256_expand_of(
        hkdf_sha256_extract_of(spec_initial_salt(), dcid),
        spec_label_client_in(),
    )
}

/// Client Initial AEAD key: first 16 bytes under the `quic key` label.
pub open spec fn spec_client_key(dcid: Seq<u8>) -> Seq<u8> {
    hkdf_sha256_expand_of(spec_client_secret(dcid), spec_label_quic_key()).take(16)
}

/// Client Initial IV: first 12 bytes under the `quic iv` label.
pub open spec fn spec_client_iv(dcid: Seq<u8>) -> Seq<u8> {
    hkdf_sha256_expand_of(spec_client_secret(dcid), spec_label_quic_iv()).take(12)
}

/// Client header-protection key: first 16 bytes under the `quic hp` label.
pub open spec fn spec_client_hp(dcid: Seq<u8>) -> Seq<u8> {
    hkdf_sha256_expand_of(spec_client_secret(dcid), spec_label_quic_hp()).take(16)
}

/// Derives the client initial secret of a connection ID.
pub fn derive_client_secret(dcid: &Vec<u8>) -> (r: Vec<u8>)
    ensures
        r@ == spec_client_secret(dcid@),
        r@.len() == 32,
{
    let salt = initial_salt_bytes();
    let label = label_client_in_bytes();
    hkdf_extract_expand(&salt, dcid, &label)
}

fn expand_truncated(secret: &Vec<u8>, label: Vec<u8>, n: usize) -> (r: Vec<u8>)
    requires
        n <= 32,
    ensures
        r@ == hkdf_sha256_expand_of(secret@, label@).take(n as int),
        r@.len() == n,
{
    let mut out = hkdf_expand32(secret, &label);
    out.truncate(n);
    proof {
        assert(out@ =~= hkdf_sha256_expand_of(secret@, label@).take(n as int));
    }
    out
}

/// Derives the AEAD key of the client Initial.
pub fn derive_client_key(secret: &Vec<u8>) -> (r: Vec<u8>)
    ensures
        r@ == hkdf_sha256_expand_of(secret@, spec_label_quic_key()).take(16),
        r@.len() == 16,
{
    expand_truncated(secret, label_quic_key_bytes(), 16)
}

/// Derives the IV of the client Initial.
pub fn derive_client_iv(secret: &Vec<u8>) -> (r: Vec<u8>)
    ensures
        r@ == hkdf_sha256_expand_of(secret@, spec_label_quic_iv()).take(12),
        r@.len() == 12,
{
    expand_truncated(secret, label_quic_iv_bytes(), 12)
}

/// Derives the header-protection key of the client Initial.
pub fn derive_client_hp(secret: &Vec<u8>) -> (r: Vec<u8>)
    ensures
        r@ == hkdf_sha256_expand_of(secret@, spec_label_quic_hp()).take(16),
        r@.len() == 16,
{
    expand_truncated(secret, label_quic_hp_bytes(), 16)
}

} // verus!
