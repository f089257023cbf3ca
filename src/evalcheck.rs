use crate::index::OracleId;
use crate::polynomial::Error as PolynomialError;
use crate::witness::Error as WitnessError;
use vstd::prelude::*;

verus! {

/// The identifier of a committed polynomial.
pub type CommittedId = usize;

/// The identifier of a batch of committed polynomials.
pub type BatchId = usize;

/// Errors of the evaluation-check protocol.
#[derive(Debug, Clone, PartialEq, Eq)]
pub enum Error {
    InvalidWitness(OracleId),
    UnknownCommittedId(CommittedId),
    UnknownBatchId(BatchId),
    EmptyBatch(BatchId),
    ConflictingEvals(BatchId),
    MissingEvals(BatchId),
    Polynomial(PolynomialError),
    Verification(VerificationError),
    Witness(WitnessError),
}

/// Ways in which a claimed evaluation fails to verify.
#[derive(Debug, Clone, PartialEq, Eq)]
pub enum VerificationError {
    IncorrectEvaluation(OracleId),
    IncorrectCompositePolyEvaluation(String),
    SubproofMismatch,
}

} // verus!
