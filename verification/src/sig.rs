//! The scheme-agnostic signature record, and the per-scheme converters
//! that normalize a raw signing result into it.

use vstd::prelude::*;

use crate::algo::{Algorithm, CoreError, Curve, Scheme};
use crate::keystore::{bytes_eq, check_point, curve_order_val, point_wf, scalar_in_range};
use crate::nums::{bytes_val, clone_bytes};
use crate::prim::ed_point_ok;

verus! {

/// The output of a completed signing round: a curve-dependent first
/// component `r` (an affine x-coordinate or a compressed nonce point), a
/// scalar second component `s`, a recovery discriminant `v` (meaningful
/// only for the recoverable scheme, else fixed at 0), the algorithm tag,
/// and the signer's compressed public key.  Two signatures are equal
/// exactly when all fields are byte-equal.
#[derive(Clone, Debug, PartialEq, Eq)]
pub struct Signature {
    pub r: Vec<u8>,
    pub s: Vec<u8>,
    pub v: u32,
    pub pk: Vec<u8>,
    pub algorithm: Algorithm,
}

/// Mathematical view of a [`Signature`].
pub struct SignatureView {
    pub r: Seq<u8>,
    pub s: Seq<u8>,
    pub v: u32,
    pub pk: Seq<u8>,
    pub algorithm: Algorithm,
}

impl View for Signature {
    type V = SignatureView;

    open spec fn view(&self) -> SignatureView {
        SignatureView {
            r: self.r@,
            s: self.s@,
            v: self.v,
            pk: self.pk@,
            algorithm: self.algorithm,
        }
    }
}

impl SignatureView {
    /// Internal validity of a signature record.
    pub open spec fn wf(self) -> bool {
        &&& self.r.len() == 32
        &&& (self.algorithm.curve is Ed25519 && self.algorithm.scheme is Schnorr ==> ed_point_ok(
            self.r,
        ))
        &&& self.s.len() == 32
        &&& bytes_val(self.s) < curve_order_val(self.algorithm.curve)
        &&& point_wf(self.pk, self.algorithm.curve)
        &&& if self.algorithm.scheme is ElGamal {
            self.v < 4
        } else {
            self.v == 0
        }
    }
}

impl Signature {
    /// Normalize a raw recoverable (Paillier-assisted, secp256k1)
    /// signature: `r` is the nonce point's affine x-coordinate, `v` the
    /// separately computed recovery discriminant, and the suite's tag is
    /// stamped on the record.
    ///
    /// Succeeds exactly when the x-coordinate is 32 bytes, the scalar is
    /// a 32-byte value below the group order, the discriminant is below
    /// 4, and the public key is a valid compressed point.
    pub fn from_elgamal(rx: Vec<u8>, v: u32, s: Vec<u8>, pk: Vec<u8>) -> (res: Result<
        Signature,
        CoreError,
    >)
        ensures
            (res is Ok) == (rx@.len() == 32 && s@.len() == 32 && bytes_val(s@) < curve_order_val(
                Curve::Secp256k1,
            ) && v < 4 && point_wf(pk@, Curve::Secp256k1)),
            res matches Ok(sig) ==> sig@ == (SignatureView {
                r: rx@,
                s: s@,
                v,
                pk: pk@,
                algorithm: Algorithm { curve: Curve::Secp256k1, scheme: Scheme::ElGamal },
            }) && sig@.wf(),
            res matches Err(e) ==> e == (if !(rx@.len() == 32 && s@.len() == 32 && bytes_val(s@)
                < curve_order_val(Curve::Secp256k1) && v < 4) {
                CoreError::InvalidScalarLength
            } else {
                CoreError::NotOnCurve
            }),
    {
        if rx.len() != 32 || s.len() != 32 {
            return Err(CoreError::InvalidScalarLength);
        }
        if !scalar_in_range(&s, &Curve::Secp256k1) || v >= 4 {
            return Err(CoreError::InvalidScalarLength);
        }
        if !check_point(&pk, &Curve::Secp256k1) {
            return Err(CoreError::NotOnCurve);
        }
        Ok(
            Signature {
                r: rx,
                s,
                v,
                pk,
                algorithm: Algorithm { curve: Curve::Secp256k1, scheme: Scheme::ElGamal },
            },
        )
    }

    /// Normalize a raw Schnorr signature over the Edwards curve: `r` is
    /// the compressed nonce point, the discriminant is fixed at 0, and
    /// the suite's tag is stamped on the record.
    ///
    /// Succeeds exactly when the nonce point and the public key are
    /// valid compressed points and the scalar is a 32-byte value below
    /// the group order.
    pub fn from_schnorr_ed25519(rpt: Vec<u8>, s: Vec<u8>, pk: Vec<u8>) -> (res: Result<
        Signature,
        CoreError,
    >)
        ensures
            (res is Ok) == (point_wf(rpt@, Curve::Ed25519) && s@.len() == 32 && bytes_val(s@)
                < curve_order_val(Curve::Ed25519) && point_wf(pk@, Curve::Ed25519)),
            res matches Ok(sig) ==> sig@ == (SignatureView {
                r: rpt@,
                s: s@,
                v: 0,
                pk: pk@,
                algorithm: Algorithm { curve: Curve::Ed25519, scheme: Scheme::Schnorr },
            }) && sig@.wf(),
            res matches Err(e) ==> e == (if !(s@.len() == 32 && bytes_val(s@) < curve_order_val(
                Curve::Ed25519,
            )) {
                CoreError::InvalidScalarLength
            } else {
                CoreError::NotOnCurve
            }),
    {
        if s.len() != 32 || !scalar_in_range(&s, &Curve::Ed25519) {
            return Err(CoreError::InvalidScalarLength);
        }
        if !check_point(&rpt, &Curve::Ed25519) || !check_point(&pk, &Curve::Ed25519) {
            return Err(CoreError::NotOnCurve);
        }
        Ok(
            Signature {
                r: rpt,
                s,
                v: 0,
                pk,
                algorithm: Algorithm { curve: Curve::Ed25519, scheme: Scheme::Schnorr },
            },
        )
    }

    /// Normalize a raw Schnorr (Taproot-style) signature over secp256k1:
    /// `r` is the nonce point's affine x-coordinate, the discriminant is
    /// fixed at 0, and the suite's tag is stamped on the record.
    ///
    /// Succeeds exactly when the x-coordinate is 32 bytes, the scalar is
    /// a 32-byte value below the group order, and the public key is a
    /// valid compressed point.
    pub fn from_taproot(rx: Vec<u8>, s: Vec<u8>, pk: Vec<u8>) -> (res: Result<
        Signature,
        CoreError,
    >)
        ensures
            (res is Ok) == (rx@.len() == 32 && s@.len() == 32 && bytes_val(s@) < curve_order_val(
                Curve::Secp256k1,
            ) && point_wf(pk@, Curve::Secp256k1)),
            res matches Ok(sig) ==> sig@ == (SignatureView {
                r: rx@,
                s: s@,
                v: 0,
                pk: pk@,
                algorithm: Algorithm { curve: Curve::Secp256k1, scheme: Scheme::Schnorr },
            }) && sig@.wf(),
            res matches Err(e) ==> e == (if !(rx@.len() == 32 && s@.len() == 32 && bytes_val(s@)
                < curve_order_val(Curve::Secp256k1)) {
                CoreError::InvalidScalarLength
            } else {
                CoreError::NotOnCurve
            }),
    {
        if rx.len() != 32 || s.len() != 32 || !scalar_in_range(&s, &Curve::Secp256k1) {
            return Err(CoreError::InvalidScalarLength);
        }
        if !check_point(&pk, &Curve::Secp256k1) {
            return Err(CoreError::NotOnCurve);
        }
        Ok(
            Signature {
                r: rx,
                s,
                v: 0,
                pk,
                algorithm: Algorithm { curve: Curve::Secp256k1, scheme: Scheme::Schnorr },
            },
        )
    }
}

impl Signature {
    /// A field-wise copy of the record.
    pub fn duplicate(&self) -> (r: Signature)
        ensures
            r@ == self@,
    {
        Signature {
            r: clone_bytes(&self.r),
            s: clone_bytes(&self.s),
            v: self.v,
            pk: clone_bytes(&self.pk),
            algorithm: self.algorithm,
        }
    }
}

/// Whether two signature records are field-wise byte-equal.
pub fn sig_eq(a: &Signature, b: &Signature) -> (res: bool)
    ensures
        res == (a@ == b@),
{
    let fields = bytes_eq(&a.r, &b.r) && bytes_eq(&a.s, &b.s) && a.v == b.v && bytes_eq(
        &a.pk,
        &b.pk,
    ) && a.algorithm == b.algorithm;
    proof {
        if fields {
            assert(a@ == b@);
        } else {
            assert(a@ != b@);
        }
    }
    fields
}

} // verus!
