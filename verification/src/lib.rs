//! Core data model, wire codec, legacy migration and session protocol of a
//! multi-party threshold signing service.
//!
//! A set of mutually distrusting parties jointly hold an elliptic-curve
//! private key as additive shares; a quorum of them can produce a
//! signature, or refresh their shares, without reconstructing the key.
//! This crate owns the per-party keystore model, the canonical binary
//! records that keystores and signatures travel in, the migration of the
//! historical keystore layout, and the role resolution and aggregation
//! rules of a protocol round.  Curve and Paillier arithmetic, and the
//! transport between parties, live in outside crates behind the trusted
//! boundary in `prim`.

pub mod algo;
pub mod codec;
pub mod keystore;
pub mod legacy;
pub mod nums;
pub mod prim;
pub mod session;
pub mod sig;
