//! Algorithm tags and the error taxonomy.

use vstd::prelude::*;

verus! {

/// Curve over which a keystore's scalars and points live.
#[derive(Clone, Copy, PartialEq, Eq, Structural, Debug)]
pub enum Curve {
    Secp256k1,
    Ed25519,
}

/// Signing scheme a keystore belongs to.
#[derive(Clone, Copy, PartialEq, Eq, Structural, Debug)]
pub enum Scheme {
    ElGamal,
    Schnorr,
}

/// The (curve, scheme) tag that identifies a cryptographic suite.  Every
/// downstream consumer of a keystore or signature checks it before use.
#[derive(Clone, Copy, PartialEq, Eq, Structural, Debug)]
pub struct Algorithm {
    pub curve: Curve,
    pub scheme: Scheme,
}

impl Algorithm {
    /// Length in bytes of a compressed curve point for this algorithm's curve.
    pub open spec fn spec_point_len(self) -> nat {
        match self.curve {
            Curve::Secp256k1 => 33,
            Curve::Ed25519 => 32,
        }
    }

    /// Executable twin of `spec_point_len`.
    pub fn point_len(&self) -> (r: usize)
        ensures
            r == self.spec_point_len(),
    {
        match self.curve {
            Curve::Secp256k1 => 33,
            Curve::Ed25519 => 32,
        }
    }

    /// Whether the scheme carries Paillier material (decryption key and
    /// peer moduli).
    pub open spec fn spec_has_paillier(self) -> bool {
        self.scheme is ElGamal
    }

    /// Executable twin of `spec_has_paillier`.
    pub fn has_paillier(&self) -> (r: bool)
        ensures
            r == self.spec_has_paillier(),
    {
        matches!(self.scheme, Scheme::ElGamal)
    }

    /// The Paillier-assisted suite over secp256k1.
    pub fn elgamal_secp256k1() -> (r: Algorithm)
        ensures
            r == (Algorithm { curve: Curve::Secp256k1, scheme: Scheme::ElGamal }),
    {
        Algorithm { curve: Curve::Secp256k1, scheme: Scheme::ElGamal }
    }

    /// The Schnorr suite over the Edwards curve.
    pub fn schnorr_ed25519() -> (r: Algorithm)
        ensures
            r == (Algorithm { curve: Curve::Ed25519, scheme: Scheme::Schnorr }),
    {
        Algorithm { curve: Curve::Ed25519, scheme: Scheme::Schnorr }
    }

    /// The Schnorr (Taproot-style) suite over secp256k1.
    pub fn schnorr_secp256k1() -> (r: Algorithm)
        ensures
            r == (Algorithm { curve: Curve::Secp256k1, scheme: Scheme::Schnorr }),
    {
        Algorithm { curve: Curve::Secp256k1, scheme: Scheme::Schnorr }
    }
}

/// Why an operation of this crate failed.  Each failure is terminal for the
/// operation that raised it: no partial keystore, signature or session result
/// is ever handed out.
#[derive(Clone, Copy, PartialEq, Eq, Structural, Debug)]
pub enum CoreError {
    /// A legacy or canonical record had the wrong shape, type or length
    /// while migrating or decoding.
    MalformedLegacyRecord,
    /// A byte string did not decode to a point on the expected curve.
    NotOnCurve,
    /// A scalar field had the wrong byte length or was out of range.
    InvalidScalarLength,
    /// The Paillier prime pair did not multiply to a modulus of the
    /// expected bit length.
    InvalidModulus,
    /// A decoded or received algorithm tag disagrees with the expected one.
    AlgorithmMismatch,
    /// Role resolution could not produce a valid partition of the roster.
    InvalidRoster,
    /// A participating unit failed internally; opaque to this crate.
    ProtocolError,
    /// Signers of one task disagreed on the final signature.
    ConsistencyViolation,
}

} // verus!
