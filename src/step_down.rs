use crate::field::{BinaryField1b, Field};
use crate::polynomial::Error;
use vstd::arithmetic::power2::pow2;
use vstd::bits::{lemma_usize_pow2_no_overflow, lemma_usize_shl_is_mul};
use vstd::prelude::*;

verus! {

/// The complementary step-up function at `q`, interpolated one variable at a
/// time from the lowest bit of `k`, starting from the value `acc`.
///
/// A set bit interpolates the line that is 0 at 0 and `acc` at 1; a clear
/// bit the line that is `acc` at 0 and 1 at 1.
pub open spec fn step_up<F: Field>(k: nat, acc: F, q: Seq<F>) -> F
    decreases q.len(),
{
    if q.len() == 0 {
        acc
    } else {
        let next = if k % 2 == 1 {
            F::spec_mul(acc, q[0])
        } else {
            F::spec_add(F::spec_mul(acc, F::spec_sub(F::spec_one(), q[0])), q[0])
        };
        step_up(k / 2, next, q.drop_first())
    }
}

/// The multilinear over `n_vars` variables whose values on the hypercube are
/// one before position `index` and zero from it on.
#[derive(Debug)]
pub struct StepDown {
    n_vars: usize,
    index: usize,
}

impl StepDown {
    #[verifier::type_invariant]
    closed spec fn inv(&self) -> bool {
        &&& self.n_vars < usize::BITS
        &&& 1 <= self.index < pow2(self.n_vars as nat)
    }

    pub closed spec fn spec_n_vars(&self) -> nat {
        self.n_vars as nat
    }

    pub closed spec fn spec_index(&self) -> nat {
        self.index as nat
    }

    /// Fails with an argument range error unless `1 <= index < 2^n_vars`.
    pub fn new(n_vars: usize, index: usize) -> (r: Result<Self, Error>)
        requires
            n_vars < usize::BITS,
        ensures
            (1 <= index < pow2(n_vars as nat)) ==> (r is Ok && r->Ok_0.spec_n_vars() == n_vars
                && r->Ok_0.spec_index() == index),
            !(1 <= index < pow2(n_vars as nat)) ==> (r matches Err(
                Error::ArgumentRangeError { arg, range_start, range_end },
            ) && arg@ == "index"@ && range_start == 1 && range_end == pow2(n_vars as nat)),
    {
        proof {
            lemma_usize_pow2_no_overflow(n_vars as nat);
            lemma_usize_shl_is_mul(1, n_vars);
        }
        let size: usize = 1usize << n_vars;
        if index < 1 || index >= size {
            let arg = "index".to_owned();
            return Err(Error::ArgumentRangeError { arg, range_start: 1, range_end: size });
        }
        Ok(StepDown { n_vars, index })
    }

    pub fn n_vars(&self) -> (r: usize)
        ensures
            r == self.spec_n_vars(),
    {
        self.n_vars
    }

    /// The degree of the polynomial, which is multilinear in `n_vars` variables.
    pub fn degree(&self) -> (r: usize)
        ensures
            r == self.spec_n_vars(),
    {
        self.n_vars
    }

    /// The values are bits, in the field of tower level zero.
    pub fn binary_tower_level(&self) -> (r: usize)
        ensures
            r == 0,
    {
        0
    }

    /// The polynomial at `query`: one minus the step-up function.
    pub fn evaluate<F: Field>(&self, query: &[F]) -> (r: Result<F, Error>)
        ensures
            query@.len() == self.spec_n_vars() ==> r == Ok::<F, Error>(
                F::spec_sub(F::spec_one(), step_up(self.spec_index(), F::spec_one(), query@)),
            ),
            query@.len() != self.spec_n_vars() ==> r == Err::<F, Error>(
                Error::IncorrectQuerySize { expected: self.spec_n_vars() as usize },
            ),
    {
        if query.len() != self.n_vars {
            return Err(Error::IncorrectQuerySize { expected: self.n_vars });
        }
        let mut k = self.index;
        let mut result = F::one();
        assert(query@.subrange(0, query@.len() as int) =~= query@);
        let mut i: usize = 0;
        while i < query.len()
            invariant
                i <= query@.len(),
                step_up(self.index as nat, F::spec_one(), query@) == step_up(
                    k as nat,
                    result,
                    query@.subrange(i as int, query@.len() as int),
                ),
            decreases query@.len() - i,
        {
            let q = query[i];
            let ghost rest = query@.subrange(i as int, query@.len() as int);
            assert(rest.drop_first() =~= query@.subrange(i + 1, query@.len() as int));
            if k % 2 == 1 {
                result = result.mul(q);
            } else {
                result = result.mul(F::one().sub(q)).add(q);
            }
            k = k / 2;
            i = i + 1;
        }
        Ok(F::one().sub(result))
    }

    /// The values on the hypercube, for packed elements of `2^log_width` bits.
    ///
    /// Fails with `PackedFieldNotFilled` when the values do not fill one
    /// packed element.
    pub fn multilinear_extension(&self, log_width: usize) -> (r: Result<Vec<BinaryField1b>, Error>)
        requires
            log_width < usize::BITS,
        ensures
            self.spec_n_vars() < log_width ==> r == Err::<Vec<BinaryField1b>, Error>(
                Error::PackedFieldNotFilled {
                    length: pow2(self.spec_n_vars()) as usize,
                    packed_width: pow2(log_width as nat) as usize,
                },
            ),
            self.spec_n_vars() >= log_width ==> (r is Ok && r->Ok_0@ == Seq::new(
                pow2(self.spec_n_vars()),
                |i: int| BinaryField1b { bit: i < self.spec_index() },
            )),
    {
        proof {
            use_type_invariant(self);
            lemma_usize_pow2_no_overflow(log_width as nat);
            lemma_usize_shl_is_mul(1, log_width);
            lemma_usize_pow2_no_overflow(self.n_vars as nat);
            lemma_usize_shl_is_mul(1, self.n_vars);
        }
        let length: usize = 1usize << self.n_vars;
        if self.n_vars < log_width {
            let packed_width: usize = 1usize << log_width;
            return Err(Error::PackedFieldNotFilled { length, packed_width });
        }
        let mut values: Vec<BinaryField1b> = Vec::new();
        let mut i: usize = 0;
        while i < length
            invariant
                i <= length,
                values@ == Seq::new(i as nat, |j: int| BinaryField1b { bit: j < self.index }),
            decreases length - i,
        {
            values.push(BinaryField1b { bit: i < self.index });
            assert(values@ =~= Seq::new((i + 1) as nat, |j: int| BinaryField1b { bit: j < self.index }));
            i = i + 1;
        }
        assert(values@ =~= Seq::new(length as nat, |j: int| BinaryField1b { bit: j < self.index }));
        Ok(values)
    }
}

} // verus!
