//! The primitive adapter: the boundary with the outside arithmetic and
//! encoding crates.
//!
//! Every function here is trusted: its body holds the outside calls of
//! one boundary operation (with the conversions its arguments and result
//! need) and its contract states what the called crate's source and
//! documentation show.  Results that
//! would take pages to state are given names (`sec1_point_ok`,
//! `misc_pickle`, ...): uninterpreted spec functions that the contracts of
//! the wrappers apply.  Everything else in this crate is verified against
//! these contracts.

use vstd::prelude::*;

use crate::nums::{bitlen, bytes_val, dec_of, dec_val, is_dec, min_be};
use k256::elliptic_curve::sec1::ToEncodedPoint;

verus! {

/// Whether a byte string is a SEC1 encoding of a non-identity point on
/// secp256k1, as `k256::PublicKey::from_sec1_bytes` accepts it.
pub uninterp spec fn sec1_point_ok(b: Seq<u8>) -> bool;

/// Whether a byte string is a 32-byte Edwards-curve encoding that
/// decompresses to a point, as `curve25519_dalek` accepts it.
pub uninterp spec fn ed_point_ok(b: Seq<u8>) -> bool;

/// The compressed sum of two SEC1-encoded secp256k1 points; `None` when an
/// input is invalid or the sum is the identity.
pub uninterp spec fn secp_sum33(a: Seq<u8>, b: Seq<u8>) -> Option<Seq<u8>>;

/// The compressed sum of two valid 32-byte Edwards-curve points.
pub uninterp spec fn ed_sum32(a: Seq<u8>, b: Seq<u8>) -> Seq<u8>;

/// The Base58Check `xpub` serialization (as UTF-8 bytes) of a SEC1-encoded
/// secp256k1 point with all extended-key attributes fixed at zero.
pub uninterp spec fn secp_xpub_of(pk: Seq<u8>) -> Seq<u8>;

/// The pickle encoding of a `(p, q, peer moduli)` triple of digit strings.
pub uninterp spec fn misc_pickle(p: Seq<u8>, q: Seq<u8>, ns: Seq<Seq<u8>>) -> Seq<u8>;

/// What the pickle decoder reads from a byte string, when it reads a
/// `(p, q, peer moduli)` triple at all.
pub uninterp spec fn misc_unpickle(b: Seq<u8>) -> Option<(Seq<u8>, Seq<u8>, Seq<Seq<u8>>)>;

/// Remainder of one big-endian byte string by another.
///
/// Relies on `num_bigint::BigUint`: `from_bytes_be` reads big-endian
/// bytes, `%` is the mathematical remainder, and `to_bytes_be` writes the
/// minimal big-endian form (a single zero byte for zero).
#[verifier::external_body]
pub(crate) fn big_mod_bytes(a: &[u8], m: &[u8]) -> (r: Vec<u8>)
    requires
        bytes_val(m@) > 0,
    ensures
        r@ == min_be(bytes_val(a@) % bytes_val(m@)),
{
    let av = num_bigint::BigUint::from_bytes_be(a);
    let mv = num_bigint::BigUint::from_bytes_be(m);
    (av % mv).to_bytes_be()
}

/// Product of two decimal digit strings, in canonical decimal form.
///
/// Relies on `num_bigint::BigUint`: `parse_bytes(_, 10)` reads decimal
/// digits (it never fails on the digit strings the precondition admits),
/// `*` multiplies, and `to_str_radix(10)` writes the canonical decimal
/// form (no sign, no leading zero).
#[verifier::external_body]
pub(crate) fn big_mul_dec(a: &[u8], b: &[u8]) -> (r: Vec<u8>)
    requires
        is_dec(a@),
        is_dec(b@),
    ensures
        r@ == dec_of(dec_val(a@) * dec_val(b@)),
{
    let av = num_bigint::BigUint::parse_bytes(a, 10).unwrap();
    let bv = num_bigint::BigUint::parse_bytes(b, 10).unwrap();
    (av * bv).to_str_radix(10).into_bytes()
}

/// Paillier modulus import from two primes given as decimal digit strings:
/// succeeds exactly when their product has the bit length a pair of
/// 1024-bit primes yields (2047 or 2048 bits), and returns the product in
/// canonical decimal form.
///
/// Relies on `num_bigint::BigUint`: `parse_bytes(_, 10)`, `*`, `bits`
/// (fewest bits of the value), and `to_str_radix(10)` (canonical decimal).
#[verifier::external_body]
pub(crate) fn big_paillier_modulus(p: &[u8], q: &[u8]) -> (r: Option<Vec<u8>>)
    requires
        is_dec(p@),
        is_dec(q@),
    ensures
        (r is Some) == (2047 <= bitlen(dec_val(p@) * dec_val(q@)) <= 2048),
        r matches Some(n) ==> n@ == dec_of(dec_val(p@) * dec_val(q@)),
{
    let pv = num_bigint::BigUint::parse_bytes(p, 10).unwrap();
    let qv = num_bigint::BigUint::parse_bytes(q, 10).unwrap();
    let n = pv * qv;
    if n.bits() == 2047 || n.bits() == 2048 {
        Some(n.to_str_radix(10).into_bytes())
    } else {
        None
    }
}

/// Whether a byte string encodes a point on secp256k1.
///
/// Relies on `k256::PublicKey::from_sec1_bytes`, which accepts exactly the
/// SEC1 encodings of non-identity points on the curve.
#[verifier::external_body]
pub(crate) fn secp_point_check(b: &[u8]) -> (r: bool)
    ensures
        r == sec1_point_ok(b@),
{
    k256::PublicKey::from_sec1_bytes(b).is_ok()
}

/// Whether a byte string encodes a point on the Edwards curve.
///
/// Relies on `curve25519_dalek`: `CompressedEdwardsY::from_slice` fails
/// exactly on lengths other than 32, and `decompress` returns a point
/// exactly when the bytes are a valid encoding.
#[verifier::external_body]
pub(crate) fn ed_point_check(b: &[u8]) -> (r: bool)
    ensures
        r == ed_point_ok(b@),
        b@.len() != 32 ==> !r,
{
    match curve25519_dalek::edwards::CompressedEdwardsY::from_slice(b) {
        Ok(c) => c.decompress().is_some(),
        Err(_) => false,
    }
}

/// Compressed sum of two SEC1-encoded secp256k1 points.
///
/// Relies on `k256`: `PublicKey::from_sec1_bytes`, projective point
/// addition, and `to_encoded_point(true)` (the 33-byte compressed SEC1
/// form).  `None` when an input is invalid or when the sum is the
/// identity, which a SEC1 public key cannot encode.
#[verifier::external_body]
pub(crate) fn secp_point_add(a: &[u8], b: &[u8]) -> (r: Option<Vec<u8>>)
    ensures
        (r is Some) == (secp_sum33(a@, b@) is Some),
        r matches Some(v) ==> secp_sum33(a@, b@) == Some(v@) && v@.len() == 33
            && sec1_point_ok(v@),
        !(sec1_point_ok(a@) && sec1_point_ok(b@)) ==> r is None,
{
    let pa = match k256::PublicKey::from_sec1_bytes(a) {
        Ok(p) => p,
        Err(_) => return None,
    };
    let pb = match k256::PublicKey::from_sec1_bytes(b) {
        Ok(p) => p,
        Err(_) => return None,
    };
    let sum = (pa.to_projective() + pb.to_projective()).to_affine();
    let pk = match k256::PublicKey::from_affine(sum) {
        Ok(p) => p,
        Err(_) => return None,
    };
    Some(pk.to_encoded_point(true).as_bytes().to_vec())
}

/// Compressed sum of two 32-byte Edwards-curve points.
///
/// Relies on `curve25519_dalek`: `CompressedEdwardsY::from_slice` and
/// `decompress` (valid encodings only), point addition, and `compress`,
/// whose output is again a valid encoding.  Edwards addition is total, so
/// the sum exists exactly when both inputs are valid.
#[verifier::external_body]
pub(crate) fn ed_point_add(a: &[u8], b: &[u8]) -> (r: Option<Vec<u8>>)
    ensures
        (r is Some) == (ed_point_ok(a@) && ed_point_ok(b@)),
        r matches Some(v) ==> v@ == ed_sum32(a@, b@) && v@.len() == 32 && ed_point_ok(v@),
{
    let pa = match curve25519_dalek::edwards::CompressedEdwardsY::from_slice(a) {
        Ok(c) => match c.decompress() {
            Some(p) => p,
            None => return None,
        },
        Err(_) => return None,
    };
    let pb = match curve25519_dalek::edwards::CompressedEdwardsY::from_slice(b) {
        Ok(c) => match c.decompress() {
            Some(p) => p,
            None => return None,
        },
        Err(_) => return None,
    };
    Some((pa + pb).compress().to_bytes().to_vec())
}

/// Extended-public-key derivation for a secp256k1 point.
///
/// Relies on `k256::ecdsa::VerifyingKey::from_sec1_bytes` (the same
/// acceptance as `PublicKey::from_sec1_bytes`) and on
/// `bip32::ExtendedPublicKey::to_string`, which writes the Base58Check
/// `xpub` form of the key under the given attributes.  Depth, parent
/// fingerprint, child number and chain code are fixed at zero here, so the
/// result depends on the point alone.
#[verifier::external_body]
pub(crate) fn secp_xpub(pk: &[u8]) -> (r: Option<Vec<u8>>)
    ensures
        (r is Some) == sec1_point_ok(pk@),
        r matches Some(v) ==> v@ == secp_xpub_of(pk@),
{
    let vk = match k256::ecdsa::VerifyingKey::from_sec1_bytes(pk) {
        Ok(v) => v,
        Err(_) => return None,
    };
    let attrs = bip32::ExtendedKeyAttrs {
        depth: 0,
        parent_fingerprint: [0u8; 4],
        child_number: bip32::ChildNumber(0),
        chain_code: [0u8; 32],
    };
    let xp = bip32::ExtendedPublicKey::new(vk, attrs);
    Some(xp.to_string(bip32::Prefix::XPUB).into_bytes())
}

/// Pickle encoding of the Paillier prime pair and the peer moduli.
///
/// Relies on `serde_pickle::to_vec` with default options: a deterministic
/// encoding of the tuple, which `serde_pickle::from_slice` reads back
/// unchanged.  Serializing byte vectors cannot fail.
#[verifier::external_body]
pub(crate) fn misc_to_pickle(p: &Vec<u8>, q: &Vec<u8>, ns: &Vec<Vec<u8>>) -> (r: Vec<u8>)
    ensures
        r@ == misc_pickle(p@, q@, ns.deep_view()),
        misc_unpickle(r@) == Some((p@, q@, ns.deep_view())),
{
    serde_pickle::to_vec(&(p, q, ns), serde_pickle::SerOptions::new()).unwrap()
}

/// Pickle decoding of the Paillier prime pair and the peer moduli.
///
/// Relies on `serde_pickle::from_slice` with default options, which reads
/// a value of the asked type exactly from its pickle encoding.
#[verifier::external_body]
pub(crate) fn misc_from_pickle(b: &[u8]) -> (r: Option<(Vec<u8>, Vec<u8>, Vec<Vec<u8>>)>)
    ensures
        (r is Some) == (misc_unpickle(b@) is Some),
        r matches Some(t) ==> misc_unpickle(b@) == Some((t.0@, t.1@, t.2.deep_view())),
{
    serde_pickle::from_slice(b, serde_pickle::DeOptions::new()).ok()
}

} // verus!
