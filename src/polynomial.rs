use crate::field::Field;
use vstd::prelude::*;

verus! {

/// Errors of polynomial construction and evaluation.
#[derive(Debug, Clone, PartialEq, Eq)]
pub enum Error {
    TooManyVariables,
    MultilinearQueryFull { max_query_vars: usize },
    IncorrectQuerySize { expected: usize },
    MixedMultilinearNotFound,
    CompositionArityMismatch { expected: usize, actual: usize },
    ArgumentRangeError { arg: String, range_start: usize, range_end: usize },
    PackedFieldNotFilled { length: usize, packed_width: usize },
}

/// A multivariate polynomial that composes a fixed number of multilinears.
///
/// `spec_evaluate` is the polynomial's value at a query of `spec_n_vars`
/// coordinates; `evaluate` computes it and rejects a query of any other
/// length.
pub trait CompositionPoly<F: Field> {
    spec fn spec_n_vars(&self) -> nat;

    spec fn spec_degree(&self) -> nat;

    spec fn spec_evaluate(&self, query: Seq<F>) -> F;

    spec fn spec_tower_level(&self) -> nat;

    fn n_vars(&self) -> (r: usize)
        ensures
            r == self.spec_n_vars(),
    ;

    fn degree(&self) -> (r: usize)
        ensures
            r == self.spec_degree(),
    ;

    fn evaluate(&self, query: &[F]) -> (r: Result<F, Error>)
        ensures
            query@.len() == self.spec_n_vars() ==> r == Ok::<F, Error>(self.spec_evaluate(query@)),
            query@.len() != self.spec_n_vars() ==> r == Err::<F, Error>(
                Error::IncorrectQuerySize { expected: self.spec_n_vars() as usize },
            ),
    ;

    fn binary_tower_level(&self) -> (r: usize)
        ensures
            r == self.spec_tower_level(),
    ;
}

/// The product `q_0 * q_1 * ... * q_{n-1}` of the query's coordinates,
/// multiplied in from one.
pub open spec fn seq_product<F: Field>(q: Seq<F>) -> F
    decreases q.len(),
{
    if q.len() == 0 {
        F::spec_one()
    } else {
        F::spec_mul(seq_product(q.drop_last()), q.last())
    }
}

/// The composition that multiplies its `n_vars` multilinears together.
#[derive(Clone, Copy, Debug, PartialEq, Eq, Structural)]
pub struct ProductComposition {
    pub n_vars: usize,
}

impl<F: Field> CompositionPoly<F> for ProductComposition {
    open spec fn spec_n_vars(&self) -> nat {
        self.n_vars as nat
    }

    open spec fn spec_degree(&self) -> nat {
        self.n_vars as nat
    }

    open spec fn spec_evaluate(&self, query: Seq<F>) -> F {
        seq_product(query)
    }

    open spec fn spec_tower_level(&self) -> nat {
        0
    }

    fn n_vars(&self) -> (r: usize) {
        self.n_vars
    }

    fn degree(&self) -> (r: usize) {
        self.n_vars
    }

    fn evaluate(&self, query: &[F]) -> (r: Result<F, Error>) {
        if query.len() != self.n_vars {
            return Err(Error::IncorrectQuerySize { expected: self.n_vars });
        }
        let mut acc = F::one();
        let mut i: usize = 0;
        while i < query.len()
            invariant
                i <= query@.len(),
                acc == seq_product(query@.subrange(0, i as int)),
            decreases query@.len() - i,
        {
            assert(query@.subrange(0, i + 1).drop_last() =~= query@.subrange(0, i as int));
            acc = acc.mul(query[i]);
            i = i + 1;
        }
        assert(query@.subrange(0, i as int) =~= query@);
        Ok(acc)
    }

    fn binary_tower_level(&self) -> (r: usize) {
        0
    }
}

} // verus!
