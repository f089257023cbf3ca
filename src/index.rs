use crate::field::Field;
use crate::polynomial::{CompositionPoly, Error};
use std::marker::PhantomData;
use vstd::prelude::*;

verus! {

/// The identifier of an oracle in a shared set.
pub type OracleId = usize;

/// The entries of `query` at the positions `indices`, in order.
pub open spec fn gather<F>(query: Seq<F>, indices: Seq<usize>) -> Seq<F> {
    Seq::new(indices.len(), |j: int| query[indices[j] as int])
}

/// Evaluates a composition of `N` variables against a larger query by
/// picking, for each inner variable, the outer variable at its index.
#[derive(Debug)]
pub struct IndexComposition<F: Field, C: CompositionPoly<F>, const N: usize> {
    n_vars: usize,
    indices: [usize; N],
    composition: C,
    field: PhantomData<F>,
}

impl<F: Field, C: CompositionPoly<F>, const N: usize> IndexComposition<F, C, N> {
    pub closed spec fn spec_outer_n_vars(&self) -> nat {
        self.n_vars as nat
    }

    pub closed spec fn spec_indices(&self) -> Seq<usize> {
        self.indices@
    }

    pub closed spec fn spec_inner(&self) -> C {
        self.composition
    }

    #[verifier::type_invariant]
    closed spec fn inv(&self) -> bool {
        &&& forall|j: int| 0 <= j < N ==> #[trigger] self.indices@[j] < self.n_vars
        &&& self.composition.spec_n_vars() == N
    }

    /// There is one index per inner variable.
    pub proof fn lemma_indices_len(&self)
        ensures
            self.spec_indices().len() == N,
    {
    }
}

impl<F: Field, C: CompositionPoly<F>, const N: usize> CompositionPoly<F> for IndexComposition<F, C, N> {
    open spec fn spec_n_vars(&self) -> nat {
        self.spec_outer_n_vars()
    }

    open spec fn spec_degree(&self) -> nat {
        self.spec_inner().spec_degree()
    }

    /// The inner composition at the gathered sub-query, when the inner
    /// composition has `N` variables.
    open spec fn spec_evaluate(&self, query: Seq<F>) -> F {
        self.spec_inner().spec_evaluate(gather(query, self.spec_indices()))
    }

    open spec fn spec_tower_level(&self) -> nat {
        self.spec_inner().spec_tower_level()
    }

    fn n_vars(&self) -> (r: usize) {
        self.n_vars
    }

    fn degree(&self) -> (r: usize) {
        self.composition.degree()
    }

    fn evaluate(&self, query: &[F]) -> (r: Result<F, Error>) {
        proof {
            use_type_invariant(self);
        }
        if query.len() != self.n_vars {
            return Err(Error::IncorrectQuerySize { expected: self.n_vars });
        }
        let mut subquery: Vec<F> = Vec::new();
        let mut j: usize = 0;
        while j < N
            invariant
                j <= N,
                query@.len() == self.n_vars,
                forall|k: int| 0 <= k < N ==> #[trigger] self.indices@[k] < self.n_vars,
                self.composition.spec_n_vars() == N,
                subquery@ == gather(query@, self.indices@).subrange(0, j as int),
            decreases N - j,
        {
            let index = self.indices[j];
            subquery.push(query[index]);
            assert(subquery@ =~= gather(query@, self.indices@).subrange(0, j + 1));
            j = j + 1;
        }
        assert(subquery@ =~= gather(query@, self.indices@));
        self.composition.evaluate(subquery.as_slice())
    }

    fn binary_tower_level(&self) -> (r: usize) {
        self.composition.binary_tower_level()
    }
}

/// `id` occurs in `ids`.
pub open spec fn contains(ids: Seq<OracleId>, id: OracleId) -> bool {
    exists|i: int| 0 <= i < ids.len() && ids[i] == id
}

/// `i` is the first position of `id` in `ids`.
pub open spec fn is_first_position(ids: Seq<OracleId>, id: OracleId, i: int) -> bool {
    &&& 0 <= i < ids.len()
    &&& ids[i] == id
    &&& forall|k: int| 0 <= k < i ==> ids[k] != id
}

fn position(ids: &[OracleId], id: OracleId) -> (r: Option<usize>)
    ensures
        r is None <==> !contains(ids@, id),
        r is Some ==> is_first_position(ids@, id, r->Some_0 as int),
{
    let mut i: usize = 0;
    while i < ids.len()
        invariant
            i <= ids@.len(),
            forall|k: int| 0 <= k < i ==> ids@[k] != id,
        decreases ids@.len() - i,
    {
        if ids[i] == id {
            return Some(i);
        }
        i = i + 1;
    }
    None
}

/// Builds an [`IndexComposition`] from the identifiers of the outer query and
/// those of the inner composition's variables.
///
/// Fails with `MixedMultilinearNotFound` unless every identifier of `subset`
/// occurs in `superset`, and then with `CompositionArityMismatch` unless the
/// composition has `N` variables; each inner variable is mapped to the first
/// position of its identifier.
pub fn index_composition<F: Field, C: CompositionPoly<F>, const N: usize>(superset: &[OracleId], subset: [OracleId; N], composition: C) -> (r:
    Result<IndexComposition<F, C, N>, Error>)
    ensures
        (forall|j: int| 0 <= j < N ==> contains(superset@, #[trigger] subset@[j])) && composition.spec_n_vars()
            != N ==> r == Err::<IndexComposition<F, C, N>, Error>(
            Error::CompositionArityMismatch { expected: N, actual: composition.spec_n_vars() as usize },
        ),
        (forall|j: int| 0 <= j < N ==> contains(superset@, #[trigger] subset@[j])) && composition.spec_n_vars()
            == N ==> (r is Ok
            && r->Ok_0.spec_outer_n_vars() == superset@.len() && r->Ok_0.spec_inner() == composition
            && r->Ok_0.spec_indices().len() == N && forall|j: int|
            0 <= j < N ==> is_first_position(superset@, subset@[j], #[trigger] r->Ok_0.spec_indices()[j] as int)),
        !(forall|j: int| 0 <= j < N ==> contains(superset@, #[trigger] subset@[j])) ==> r
            == Err::<IndexComposition<F, C, N>, Error>(Error::MixedMultilinearNotFound),
{
    let mut indices = subset;
    let mut j: usize = 0;
    while j < N
        invariant
            j <= N,
            forall|k: int| 0 <= k < j ==> contains(superset@, #[trigger] subset@[k]),
            forall|k: int| j <= k < N ==> #[trigger] indices@[k] == subset@[k],
            forall|k: int| 0 <= k < j ==> is_first_position(superset@, subset@[k], #[trigger] indices@[k] as int),
        decreases N - j,
    {
        match position(superset, subset[j]) {
            Some(pos) => {
                indices[j] = pos;
            },
            None => {
                return Err(Error::MixedMultilinearNotFound);
            },
        }
        j = j + 1;
    }
    let arity = composition.n_vars();
    if arity != N {
        return Err(Error::CompositionArityMismatch { expected: N, actual: arity });
    }
    Ok(IndexComposition { n_vars: superset.len(), indices, composition, field: PhantomData })
}

/// Evaluating the adapter on an outer query of the right length agrees with
/// evaluating the inner composition on the gathered sub-query; a query of any
/// other length is rejected.
pub proof fn lemma_index_composition_equivalence<F: Field, C: CompositionPoly<F>, const N: usize>(
    c: IndexComposition<F, C, N>,
    query: Seq<F>,
)
    ensures
        query.len() == c.spec_outer_n_vars() ==> c.spec_evaluate(query) == c.spec_inner().spec_evaluate(
            gather(query, c.spec_indices()),
        ),
        gather(query, c.spec_indices()).len() == N,
{
    c.lemma_indices_len();
}

} // verus!
