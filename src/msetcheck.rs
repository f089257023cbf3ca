use crate::field::Field;
use vstd::prelude::*;

verus! {

/// Errors of the multiset-check reduction.
#[derive(Debug, Clone, Copy, PartialEq, Eq, Structural)]
pub enum Error {
    /// The T and U relations have different dimensions.
    IncorrectDimensions,
    /// The relations have no columns.
    NullaryRelation,
    /// The columns do not all have the same number of variables.
    NumVariablesMismatch,
    /// A mixing challenge was given for a one-column relation, or none for a wider one.
    IncorrectAlpha,
}

/// All entries equal `n`.
pub open spec fn all_equal(s: Seq<usize>, n: usize) -> bool {
    forall|i: int| 0 <= i < s.len() ==> #[trigger] s[i] == n
}

/// Checks a pair of relations given by the numbers of variables of their
/// columns: same dimensions, at least one column, and one number of
/// variables throughout, in that order of precedence.
pub fn relation_sanity_checks(t_n_vars: &[usize], u_n_vars: &[usize]) -> (r: Result<(), Error>)
    ensures
        t_n_vars@.len() != u_n_vars@.len() ==> r == Err::<(), Error>(Error::IncorrectDimensions),
        t_n_vars@.len() == u_n_vars@.len() && t_n_vars@.len() == 0 ==> r == Err::<(), Error>(
            Error::NullaryRelation,
        ),
        t_n_vars@.len() == u_n_vars@.len() && t_n_vars@.len() > 0 ==> (r is Ok <==> (all_equal(
            t_n_vars@,
            t_n_vars@[0],
        ) && all_equal(u_n_vars@, t_n_vars@[0]))),
        r is Err && t_n_vars@.len() == u_n_vars@.len() && t_n_vars@.len() > 0 ==> r == Err::<(), Error>(
            Error::NumVariablesMismatch,
        ),
{
    if t_n_vars.len() != u_n_vars.len() {
        return Err(Error::IncorrectDimensions);
    }
    if t_n_vars.len() == 0 {
        return Err(Error::NullaryRelation);
    }
    let first = t_n_vars[0];
    let mut i: usize = 0;
    while i < t_n_vars.len()
        invariant
            i <= t_n_vars@.len(),
            first == t_n_vars@[0],
            t_n_vars@.len() == u_n_vars@.len(),
            t_n_vars@.len() > 0,
            forall|k: int| 0 <= k < i ==> #[trigger] t_n_vars@[k] == first,
        decreases t_n_vars@.len() - i,
    {
        if t_n_vars[i] != first {
            return Err(Error::NumVariablesMismatch);
        }
        i = i + 1;
    }
    let mut i: usize = 0;
    while i < u_n_vars.len()
        invariant
            i <= u_n_vars@.len(),
            all_equal(t_n_vars@, first),
            first == t_n_vars@[0],
            t_n_vars@.len() == u_n_vars@.len(),
            t_n_vars@.len() > 0,
            forall|k: int| 0 <= k < i ==> #[trigger] u_n_vars@[k] == first,
        decreases u_n_vars@.len() - i,
    {
        if u_n_vars[i] != first {
            return Err(Error::NumVariablesMismatch);
        }
        i = i + 1;
    }
    Ok(())
}

/// `alpha^i`, multiplying by `alpha` on the left.
pub open spec fn power<F: Field>(alpha: F, i: nat) -> F
    decreases i,
{
    if i == 0 {
        F::spec_one()
    } else {
        F::spec_mul(alpha, power(alpha, (i - 1) as nat))
    }
}

/// The coefficients `1, alpha, alpha^2, ...` that mix the `dimensions`
/// columns of a relation into one linear combination.
///
/// A mixing challenge must be given exactly when there is more than one
/// column; otherwise this fails with `IncorrectAlpha`.
pub fn lincom_coefficients<F: Field>(dimensions: usize, alpha: Option<F>) -> (r: Result<Vec<F>, Error>)
    ensures
        (alpha is Some) != (dimensions > 1) ==> r == Err::<Vec<F>, Error>(Error::IncorrectAlpha),
        (alpha is Some) == (dimensions > 1) ==> (r is Ok && r->Ok_0@.len() == dimensions && forall|i: int|
            0 <= i < dimensions ==> #[trigger] r->Ok_0@[i] == match alpha {
                Some(a) => power(a, i as nat),
                None => F::spec_one(),
            }),
{
    if alpha.is_some() != (dimensions > 1) {
        return Err(Error::IncorrectAlpha);
    }
    let mut coeffs: Vec<F> = Vec::new();
    let mut current = F::one();
    let mut i: usize = 0;
    while i < dimensions
        invariant
            i <= dimensions,
            (alpha is Some) == (dimensions > 1),
            coeffs@.len() == i,
            current == match alpha {
                Some(a) => power(a, i as nat),
                None => F::spec_one(),
            },
            forall|k: int|
                0 <= k < i ==> #[trigger] coeffs@[k] == match alpha {
                    Some(a) => power(a, k as nat),
                    None => F::spec_one(),
                },
        decreases dimensions - i,
    {
        coeffs.push(current);
        match alpha {
            Some(a) => {
                current = a.mul(current);
            },
            None => {},
        }
        i = i + 1;
    }
    Ok(coeffs)
}

} // verus!
