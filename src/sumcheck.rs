use crate::field::Field;
use crate::polynomial::CompositionPoly;
use vstd::prelude::*;

verus! {

/// Errors of the sumcheck protocol.
#[derive(Debug, Clone, PartialEq, Eq)]
pub enum Error {
    /// The batched provers are not sorted by non-increasing number of variables.
    ClaimsOutOfOrder,
    /// A composition's number of variables differs from the claim's number of multilinears.
    InvalidComposition { expected_n_vars: usize },
    /// A prover operation was called outside of the execute / fold / finish sequence.
    ExpectedExecution,
    ExpectedFold,
    ExpectedFinish,
    /// The number of evaluations is not `2^n_vars`.
    NumberOfVariablesMismatch,
}

/// `s[i]`, or zero past the end of `s`.
pub open spec fn coeff_or_zero<F: Field>(s: Seq<F>, i: int) -> F {
    if 0 <= i < s.len() {
        s[i]
    } else {
        F::spec_zero()
    }
}

/// Left-to-right sum of the elements of `s`, starting from zero.
pub open spec fn seq_sum<F: Field>(s: Seq<F>) -> F
    decreases s.len(),
{
    if s.len() == 0 {
        F::spec_zero()
    } else {
        F::spec_add(seq_sum(s.drop_last()), s.last())
    }
}

/// Coefficient-wise sum: `lhs` is zero-extended to the length of `rhs`, then
/// `rhs` is added position by position.
pub open spec fn padded_add<F: Field>(lhs: Seq<F>, rhs: Seq<F>) -> Seq<F> {
    Seq::new(
        if lhs.len() < rhs.len() { rhs.len() } else { lhs.len() },
        |i: int|
            if i < rhs.len() {
                F::spec_add(coeff_or_zero(lhs, i), rhs[i])
            } else {
                lhs[i]
            },
    )
}

/// Every coefficient multiplied by `c`.
pub open spec fn scaled<F: Field>(s: Seq<F>, c: F) -> Seq<F> {
    Seq::new(s.len(), |i: int| F::spec_mul(s[i], c))
}

/// The coefficient list without its highest-degree coefficient.
pub open spec fn truncated<F: Field>(s: Seq<F>) -> Seq<F> {
    if s.len() == 0 {
        s
    } else {
        s.drop_last()
    }
}

/// The coefficient that makes `r(0) + r(1) == sum` once appended to `s`.
pub open spec fn recovered_top<F: Field>(s: Seq<F>, sum: F) -> F {
    F::spec_sub(F::spec_sub(sum, coeff_or_zero(s, 0)), seq_sum(s))
}

/// The value at zero of the polynomial with coefficients `s`.
pub open spec fn eval_at_zero<F: Field>(s: Seq<F>) -> F {
    coeff_or_zero(s, 0)
}

/// The value at one of the polynomial with coefficients `s`.
pub open spec fn eval_at_one<F: Field>(s: Seq<F>) -> F {
    seq_sum(s)
}

/// A univariate polynomial in monomial basis: coefficient `i` belongs to `X^i`.
#[derive(Debug, Clone, PartialEq, Eq)]
pub struct RoundCoeffs<F: Field>(pub Vec<F>);

impl<F: Field> View for RoundCoeffs<F> {
    type V = Seq<F>;

    open spec fn view(&self) -> Seq<F> {
        self.0@
    }
}

impl<F: Field> RoundCoeffs<F> {
    /// The zero polynomial, with no coefficients.
    pub fn new() -> (r: Self)
        ensures
            r@ == Seq::<F>::empty(),
    {
        RoundCoeffs(Vec::new())
    }

    /// Drops the highest-degree coefficient, giving the compact round proof.
    pub fn truncate(self) -> (r: RoundProof<F>)
        ensures
            r@ == truncated(self@),
    {
        let mut coeffs = self.0;
        if coeffs.len() > 0 {
            coeffs.pop();
        }
        RoundProof(RoundCoeffs(coeffs))
    }

    /// Adds `rhs` coefficient-wise, zero-extending `self` where it is shorter.
    pub fn add_assign(&mut self, rhs: &Self)
        ensures
            final(self)@ == padded_add(old(self)@, rhs@),
    {
        let ghost lhs0 = self.0@;
        let n = rhs.0.len();
        while self.0.len() < n
            invariant
                n == rhs.0@.len(),
                self.0@.len() >= lhs0.len(),
                self.0@.len() > lhs0.len() ==> self.0@.len() <= n,
                forall|i: int| 0 <= i < self.0@.len() ==> self.0@[i] == coeff_or_zero(lhs0, i),
            decreases n - self.0@.len(),
        {
            self.0.push(F::zero());
        }
        let ghost ext = self.0@;
        assert(ext.len() == if lhs0.len() < n { n as nat } else { lhs0.len() });
        let mut i: usize = 0;
        while i < n
            invariant
                n == rhs.0@.len(),
                i <= n,
                self.0@.len() == ext.len(),
                ext.len() == if lhs0.len() < n { n as nat } else { lhs0.len() },
                forall|j: int| 0 <= j < ext.len() ==> ext[j] == coeff_or_zero(lhs0, j),
                forall|j: int| 0 <= j < i ==> self.0@[j] == F::spec_add(ext[j], rhs.0@[j]),
                forall|j: int| i <= j < ext.len() ==> self.0@[j] == ext[j],
            decreases n - i,
        {
            let v = self.0[i].add(rhs.0[i]);
            self.0.set(i, v);
            i = i + 1;
        }
        assert forall|j: int| 0 <= j < self.0@.len() implies self.0@[j] == padded_add(lhs0, rhs.0@)[j] by {
            assert(ext[j] == coeff_or_zero(lhs0, j));
        }
        assert(self.0@ =~= padded_add(lhs0, rhs.0@));
    }

    /// The coefficient-wise sum of `self` and `rhs`.
    pub fn add(self, rhs: &Self) -> (r: Self)
        ensures
            r@ == padded_add(self@, rhs@),
    {
        let mut r = self;
        r.add_assign(rhs);
        r
    }

    /// Multiplies every coefficient by `rhs`.
    pub fn mul_assign(&mut self, rhs: F)
        ensures
            final(self)@ == scaled(old(self)@, rhs),
    {
        let ghost s0 = self.0@;
        let n = self.0.len();
        let mut i: usize = 0;
        while i < n
            invariant
                n == s0.len(),
                i <= n,
                self.0@.len() == n,
                forall|j: int| 0 <= j < i ==> self.0@[j] == F::spec_mul(s0[j], rhs),
                forall|j: int| i <= j < n ==> self.0@[j] == s0[j],
            decreases n - i,
        {
            let v = self.0[i].mul(rhs);
            self.0.set(i, v);
            i = i + 1;
        }
        assert(self.0@ =~= scaled(s0, rhs));
    }

    /// The polynomial with every coefficient multiplied by `rhs`.
    pub fn mul(self, rhs: F) -> (r: Self)
        ensures
            r@ == scaled(self@, rhs),
    {
        let mut r = self;
        r.mul_assign(rhs);
        r
    }
}

/// A round polynomial with the coefficient of its highest-degree term left out.
///
/// The verifier knows the claimed sum `r(0) + r(1)` and recovers the missing
/// coefficient from it.
#[derive(Debug, Clone, PartialEq, Eq)]
pub struct RoundProof<F: Field>(pub RoundCoeffs<F>);

impl<F: Field> View for RoundProof<F> {
    type V = Seq<F>;

    open spec fn view(&self) -> Seq<F> {
        self.0@
    }
}

impl<F: Field> RoundProof<F> {
    /// Restores the full coefficient list from the round's claimed sum:
    /// the missing coefficient is `sum - a_0 - (a_0 + ... + a_{d-1})`.
    pub fn recover(self, sum: F) -> (r: RoundCoeffs<F>)
        ensures
            r@ == self@.push(recovered_top(self@, sum)),
    {
        let RoundProof(RoundCoeffs(mut coeffs)) = self;
        let first = if coeffs.len() > 0 {
            coeffs[0]
        } else {
            F::zero()
        };
        let mut total = F::zero();
        let mut i: usize = 0;
        while i < coeffs.len()
            invariant
                i <= coeffs@.len(),
                total == seq_sum(coeffs@.subrange(0, i as int)),
            decreases coeffs@.len() - i,
        {
            assert(coeffs@.subrange(0, i + 1).drop_last() =~= coeffs@.subrange(0, i as int));
            total = total.add(coeffs[i]);
            i = i + 1;
        }
        assert(coeffs@.subrange(0, coeffs@.len() as int) =~= coeffs@);
        let top = sum.sub(first).sub(total);
        coeffs.push(top);
        RoundCoeffs(coeffs)
    }

    /// The retained coefficients.
    pub fn coeffs(&self) -> (r: &[F])
        ensures
            r@ == self@,
    {
        self.0.0.as_slice()
    }
}

/// Recovering the top coefficient from a sum `s` gives a polynomial whose
/// values at zero and one add up to `s`, whenever at least one coefficient
/// was kept.
pub proof fn lemma_recover_sum<F: Field>(kept: Seq<F>, s: F)
    requires
        kept.len() >= 1,
    ensures
        F::spec_add(
            eval_at_zero(kept.push(recovered_top(kept, s))),
            eval_at_one(kept.push(recovered_top(kept, s))),
        ) == s,
{
    let full = kept.push(recovered_top(kept, s));
    let a0 = kept[0];
    let total = seq_sum(kept);
    let top = recovered_top(kept, s);
    assert(full.drop_last() =~= kept);
    assert(eval_at_one(full) == F::spec_add(total, top));
    F::lemma_add_comm(total, top);
    F::lemma_sub_add_cancel(F::spec_sub(s, a0), total);
    assert(eval_at_zero(full) == a0);
    F::lemma_add_comm(a0, F::spec_sub(s, a0));
    F::lemma_sub_add_cancel(s, a0);
}

/// A claim that a composite of multilinears sums to `sum` over the hypercube.
#[derive(Debug, Clone)]
pub struct CompositeSumClaim<F: Field, C> {
    pub composition: C,
    pub sum: F,
}

/// Sum claims on compositions of one shared sequence of multilinears.
#[derive(Debug)]
pub struct SumcheckClaim<F: Field, C> {
    n_vars: usize,
    n_multilinears: usize,
    composite_sums: Vec<CompositeSumClaim<F, C>>,
}

impl<F: Field, C: CompositionPoly<F>> SumcheckClaim<F, C> {
    /// Every composition is defined over exactly `n_multilinears` variables.
    pub open spec fn wf(&self) -> bool {
        forall|i: int|
            0 <= i < self.spec_composite_sums().len() ==> #[trigger] self.spec_composite_sums()[i].composition.spec_n_vars()
                == self.spec_n_multilinears()
    }

    pub closed spec fn spec_n_vars(&self) -> usize {
        self.n_vars
    }

    pub closed spec fn spec_n_multilinears(&self) -> usize {
        self.n_multilinears
    }

    pub closed spec fn spec_composite_sums(&self) -> Seq<CompositeSumClaim<F, C>> {
        self.composite_sums@
    }

    /// Builds a claim, rejecting it when a composition's number of variables
    /// is not `n_multilinears`.
    pub fn new(n_vars: usize, n_multilinears: usize, composite_sums: Vec<CompositeSumClaim<F, C>>) -> (r:
        Result<Self, Error>)
        ensures
            (forall|i: int|
                0 <= i < composite_sums@.len() ==> #[trigger] composite_sums@[i].composition.spec_n_vars()
                    == n_multilinears) ==> (r is Ok && r->Ok_0.spec_n_vars() == n_vars
                && r->Ok_0.spec_n_multilinears() == n_multilinears && r->Ok_0.spec_composite_sums()
                == composite_sums@),
            !(forall|i: int|
                0 <= i < composite_sums@.len() ==> #[trigger] composite_sums@[i].composition.spec_n_vars()
                    == n_multilinears) ==> r == Err::<Self, Error>(
                Error::InvalidComposition { expected_n_vars: n_multilinears },
            ),
            r is Ok ==> r->Ok_0.wf(),
    {
        let mut i: usize = 0;
        while i < composite_sums.len()
            invariant
                i <= composite_sums@.len(),
                forall|j: int|
                    0 <= j < i ==> #[trigger] composite_sums@[j].composition.spec_n_vars() == n_multilinears,
            decreases composite_sums@.len() - i,
        {
            if composite_sums[i].composition.n_vars() != n_multilinears {
                return Err(Error::InvalidComposition { expected_n_vars: n_multilinears });
            }
            i = i + 1;
        }
        Ok(SumcheckClaim { n_vars, n_multilinears, composite_sums })
    }

    pub fn n_vars(&self) -> (r: usize)
        ensures
            r == self.spec_n_vars(),
    {
        self.n_vars
    }

    pub fn n_multilinears(&self) -> (r: usize)
        ensures
            r == self.spec_n_multilinears(),
    {
        self.n_multilinears
    }

    /// The largest degree among the compositions, zero when there are none.
    pub fn max_individual_degree(&self) -> (r: usize)
        ensures
            forall|i: int|
                0 <= i < self.spec_composite_sums().len() ==> #[trigger] self.spec_composite_sums()[i].composition.spec_degree()
                    <= r,
            self.spec_composite_sums().len() == 0 ==> r == 0,
            self.spec_composite_sums().len() > 0 ==> exists|i: int|
                0 <= i < self.spec_composite_sums().len()
                    && #[trigger] self.spec_composite_sums()[i].composition.spec_degree() == r,
    {
        let mut best: usize = 0;
        let mut i: usize = 0;
        while i < self.composite_sums.len()
            invariant
                i <= self.composite_sums@.len(),
                forall|j: int|
                    0 <= j < i ==> #[trigger] self.composite_sums@[j].composition.spec_degree() <= best,
                i == 0 ==> best == 0,
                i > 0 ==> exists|j: int|
                    0 <= j < i && #[trigger] self.composite_sums@[j].composition.spec_degree() == best,
            decreases self.composite_sums@.len() - i,
        {
            let d = self.composite_sums[i].composition.degree();
            if i == 0 || d > best {
                best = d;
            }
            i = i + 1;
        }
        best
    }

    pub fn composite_sums(&self) -> (r: &[CompositeSumClaim<F, C>])
        ensures
            r@ == self.spec_composite_sums(),
    {
        self.composite_sums.as_slice()
    }
}

/// A batched sumcheck proof: one round proof per round and, per claim, the
/// evaluations of its multilinears at the challenge point.
#[derive(Debug, Clone, PartialEq, Eq)]
pub struct Proof<F: Field> {
    pub rounds: Vec<RoundProof<F>>,
    pub multilinear_evals: Vec<Vec<F>>,
}

/// What batched proving hands to the caller: the challenges of each round and
/// the evaluations of each claim's multilinears.
#[derive(Debug, PartialEq, Eq)]
pub struct BatchSumcheckOutput<F: Field> {
    pub challenges: Vec<F>,
    pub multilinear_evals: Vec<Vec<F>>,
}

} // verus!
