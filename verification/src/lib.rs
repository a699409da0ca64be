//! A minimal PLONK-style non-interactive zero-knowledge proof system:
//! an arithmetic circuit model, a polynomial / evaluation-domain engine,
//! a KZG polynomial commitment scheme, a Fiat-Shamir transcript, and the
//! prover / verifier protocol that ties them together.
//!
//! Scalar-field and curve-group arithmetic are supplied by an outside
//! pairing library; everything above them (domain math, the circuit and
//! gate model, the commitment protocol, the transcript schedule and the
//! prover / verifier state machines) is implemented and verified here.
use vstd::prelude::*;

pub mod circuit;
pub mod domain;
pub mod interpolation;
pub mod kzg;
pub mod example;
pub mod field;
pub mod poly;
pub mod protocol;
pub mod sums;
pub mod transcript;

verus! {

/// Everything that can go wrong across setup, proving and verification.
/// Where a gate or row can be named, it is.
#[derive(Clone, Copy, Debug, PartialEq, Eq, Structural)]
pub enum Error {
    /// The requested domain size or rotation range is unsupported.
    DomainError,
    /// An assignment violates a gate identity or a copy (equality)
    /// constraint; `copy` tells which kind, `index` names that gate or that
    /// copy constraint, and `row` the first offending row (0 for a copy).
    UnsatisfiedConstraint { copy: bool, index: usize, row: usize },
    /// A prover-side polynomial exceeds the degree the setup supports.
    DegreeOverflow,
    /// The prover's internal consistency check failed; a library defect.
    ConstraintViolation,
    /// The pairing equation of a polynomial opening does not hold.
    InvalidOpening,
    /// The proof does not satisfy the protocol.
    VerificationFailed,
}

} // verus!
