//! Prover-side machinery of a batched sumcheck protocol over binary fields.

pub mod field;
pub mod polynomial;
pub mod sumcheck;
pub mod batch_prove;
pub mod multilinear_query;
pub mod index;
pub mod witness;
pub mod evalcheck;
pub mod prover;
pub mod step_down;
pub mod msetcheck;
