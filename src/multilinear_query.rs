use crate::field::Field;
use crate::polynomial::Error;
use vstd::prelude::*;
use vstd::slice::slice_subrange;

verus! {

/// The largest number of variables a query may be expanded to.
pub const MAX_QUERY_VARS: usize = 31;

pub open spec fn two_pow(n: nat) -> nat
    decreases n,
{
    if n == 0 {
        1
    } else {
        2 * two_pow((n - 1) as nat)
    }
}

pub proof fn lemma_two_pow_mono(a: nat, b: nat)
    requires
        a <= b,
    ensures
        1 <= two_pow(a) <= two_pow(b),
    decreases b,
{
    if b > 0 {
        if a < b {
            lemma_two_pow_mono(a, (b - 1) as nat);
        } else {
            lemma_two_pow_mono(0, (b - 1) as nat);
        }
    }
}

proof fn lemma_two_pow_bound(n: nat)
    requires
        n <= 31,
    ensures
        two_pow(n) <= 0x8000_0000,
{
    lemma_two_pow_mono(n, 31);
    reveal_with_fuel(two_pow, 32);
}

/// `2^n` for a small exponent.
fn two_pow_usize(n: usize) -> (r: usize)
    requires
        n <= 31,
    ensures
        r == two_pow(n as nat),
{
    let mut r: usize = 1;
    let mut i: usize = 0;
    while i < n
        invariant
            i <= n <= 31,
            r == two_pow(i as nat),
        decreases n - i,
    {
        proof {
            lemma_two_pow_bound((i + 1) as nat);
        }
        r = r * 2;
        i = i + 1;
    }
    r
}

/// The tensor product `(1 - r_0, r_0) ⊗ ... ⊗ (1 - r_{n-1}, r_{n-1})`, with
/// the first challenge on the lowest bit of the index: the expansion of
/// `rs` followed by `r` is the expansion of `rs` scaled by `1 - r`, then the
/// same scaled by `r`.
pub open spec fn tensor<F: Field>(rs: Seq<F>) -> Seq<F>
    decreases rs.len(),
{
    if rs.len() == 0 {
        seq![F::spec_one()]
    } else {
        let t = tensor(rs.drop_last());
        let r = rs.last();
        Seq::new(t.len(), |i: int| F::spec_mul(t[i], F::spec_sub(F::spec_one(), r))) + Seq::new(
            t.len(),
            |i: int| F::spec_mul(t[i], r),
        )
    }
}

pub proof fn lemma_tensor_len<F: Field>(rs: Seq<F>)
    ensures
        tensor(rs).len() == two_pow(rs.len()),
    decreases rs.len(),
{
    if rs.len() > 0 {
        lemma_tensor_len(rs.drop_last());
    }
}

/// The weight of position `p` in the expansion of `rs`, as an explicit
/// product: bit `i` of `p` selects `r_i` when set and `1 - r_i` when clear.
pub open spec fn eq_weight<F: Field>(rs: Seq<F>, p: nat) -> F
    decreases rs.len(),
{
    if rs.len() == 0 {
        F::spec_one()
    } else {
        let k = (rs.len() - 1) as nat;
        let r = rs.last();
        let factor = if (p / two_pow(k)) % 2 == 1 {
            r
        } else {
            F::spec_sub(F::spec_one(), r)
        };
        F::spec_mul(eq_weight(rs.drop_last(), p % two_pow(k)), factor)
    }
}

/// Each entry of the tensor expansion is the explicit product of one factor
/// per challenge.
pub proof fn lemma_tensor_is_product<F: Field>(rs: Seq<F>, p: nat)
    requires
        p < two_pow(rs.len()),
    ensures
        tensor(rs)[p as int] == eq_weight(rs, p),
    decreases rs.len(),
{
    if rs.len() > 0 {
        let k = (rs.len() - 1) as nat;
        let d = two_pow(k);
        lemma_two_pow_mono(0, k);
        lemma_tensor_len(rs.drop_last());
        if p < d {
            assert(p / d == 0 && p % d == p) by (nonlinear_arith)
                requires
                    p < d,
                    d > 0,
            ;
            lemma_tensor_is_product(rs.drop_last(), p);
        } else {
            assert(p / d == 1 && p % d == p - d) by (nonlinear_arith)
                requires
                    d <= p < 2 * d,
                    d > 0,
            ;
            lemma_tensor_is_product(rs.drop_last(), (p - d) as nat);
        }
    }
}

/// Number of scalars in the live prefix after `n` challenges, for packed
/// elements of `2^log_width` scalars: at least one packed element.
pub open spec fn live_len(n: nat, log_width: nat) -> nat {
    if n >= log_width {
        two_pow(n)
    } else {
        two_pow(log_width)
    }
}

/// The expansion of `rs`, padded with zeros to fill whole packed elements.
pub open spec fn padded_tensor<F: Field>(rs: Seq<F>, log_width: nat) -> Seq<F> {
    tensor(rs) + Seq::new(
        (live_len(rs.len(), log_width) - two_pow(rs.len())) as nat,
        |i: int| F::spec_zero(),
    )
}

/// The challenges of a query after folding in each of `rs` by a separate
/// update of one challenge.
pub open spec fn one_at_a_time<F>(challenges: Seq<F>, rs: Seq<F>) -> Seq<F>
    decreases rs.len(),
{
    if rs.len() == 0 {
        challenges
    } else {
        one_at_a_time(challenges + seq![rs[0]], rs.drop_first())
    }
}

/// Folding in challenges by separate single-challenge updates gives the same
/// expansion as one update with all of them.
pub proof fn lemma_incremental_update<F: Field>(challenges: Seq<F>, rs: Seq<F>, log_width: nat)
    ensures
        one_at_a_time(challenges, rs) == challenges + rs,
        padded_tensor(one_at_a_time(challenges, rs), log_width) == padded_tensor(challenges + rs, log_width),
    decreases rs.len(),
{
    if rs.len() > 0 {
        lemma_incremental_update(challenges + seq![rs[0]], rs.drop_first(), log_width);
        assert(challenges + seq![rs[0]] + rs.drop_first() =~= challenges + rs);
    }
}

/// The expansion does not depend on the packing width: for any two widths
/// the first `2^n` scalars are the tensor product itself.
pub proof fn lemma_packing_independent<F: Field>(rs: Seq<F>, log_width_a: nat, log_width_b: nat)
    ensures
        padded_tensor(rs, log_width_a).len() >= two_pow(rs.len()),
        padded_tensor(rs, log_width_b).len() >= two_pow(rs.len()),
        forall|i: int|
            0 <= i < two_pow(rs.len()) ==> #[trigger] padded_tensor(rs, log_width_a)[i] == padded_tensor(
                rs,
                log_width_b,
            )[i] && padded_tensor(rs, log_width_a)[i] == tensor(rs)[i],
{
    lemma_tensor_len(rs);
    if log_width_a > rs.len() {
        lemma_two_pow_mono(rs.len(), log_width_a);
    }
    if log_width_b > rs.len() {
        lemma_two_pow_mono(rs.len(), log_width_b);
    }
}

/// Tensor product expansion of sumcheck round challenges, grown one challenge
/// at a time inside a buffer allocated once for the largest expansion.
pub struct MultilinearQuery<F: Field> {
    expanded_query: Vec<F>,
    expanded_query_len: usize,
    n_vars: usize,
    capacity_vars: usize,
    log_width: usize,
    challenges: Ghost<Seq<F>>,
}

impl<F: Field> MultilinearQuery<F> {
    /// The challenges folded in so far.
    pub closed spec fn spec_challenges(&self) -> Seq<F> {
        self.challenges@
    }

    /// The number of variables the buffer has room for.
    pub closed spec fn spec_capacity_vars(&self) -> nat {
        self.capacity_vars as nat
    }

    pub closed spec fn spec_log_width(&self) -> nat {
        self.log_width as nat
    }

    /// The live prefix of the buffer.
    pub closed spec fn spec_expansion(&self) -> Seq<F> {
        self.expanded_query@.subrange(0, self.expanded_query_len as int)
    }

    pub closed spec fn wf(&self) -> bool {
        &&& self.challenges@.len() == self.n_vars
        &&& self.log_width <= self.capacity_vars <= MAX_QUERY_VARS
        &&& self.n_vars <= self.capacity_vars
        &&& self.expanded_query@.len() == two_pow(self.capacity_vars as nat)
        &&& self.expanded_query_len == live_len(self.n_vars as nat, self.log_width as nat)
        &&& forall|i: int|
            0 <= i < two_pow(self.n_vars as nat) ==> #[trigger] self.expanded_query@[i] == tensor(
                self.challenges@,
            )[i]
        &&& forall|i: int|
            two_pow(self.n_vars as nat) <= i < self.expanded_query@.len()
                ==> #[trigger] self.expanded_query@[i] == F::spec_zero()
    }

    /// A query with no challenges yet, with room for `max_query_vars`
    /// challenges and packed elements of `2^log_width` scalars.
    ///
    /// Fails with `TooManyVariables` when the buffer would need more than
    /// `2^31` scalars.
    pub fn new(max_query_vars: usize, log_width: usize) -> (r: Result<Self, Error>)
        ensures
            (max_query_vars > MAX_QUERY_VARS || log_width > MAX_QUERY_VARS) ==> r == Err::<Self, Error>(
                Error::TooManyVariables,
            ),
            (max_query_vars <= MAX_QUERY_VARS && log_width <= MAX_QUERY_VARS) ==> (r is Ok && r->Ok_0.wf()
                && r->Ok_0.spec_challenges() == Seq::<F>::empty() && r->Ok_0.spec_log_width() == log_width
                && r->Ok_0.spec_capacity_vars() == if max_query_vars < log_width {
                log_width
            } else {
                max_query_vars
            }),
    {
        if max_query_vars > MAX_QUERY_VARS || log_width > MAX_QUERY_VARS {
            return Err(Error::TooManyVariables);
        }
        let capacity_vars = if max_query_vars < log_width {
            log_width
        } else {
            max_query_vars
        };
        let size = two_pow_usize(capacity_vars);
        proof {
            lemma_two_pow_mono(0, capacity_vars as nat);
        }
        let mut expanded_query: Vec<F> = Vec::new();
        expanded_query.push(F::one());
        while expanded_query.len() < size
            invariant
                1 <= expanded_query@.len() <= size,
                expanded_query@[0] == F::spec_one(),
                forall|i: int| 1 <= i < expanded_query@.len() ==> #[trigger] expanded_query@[i] == F::spec_zero(),
            decreases size - expanded_query@.len(),
        {
            expanded_query.push(F::zero());
        }
        proof {
            lemma_two_pow_mono(0, capacity_vars as nat);
            lemma_two_pow_mono(log_width as nat, capacity_vars as nat);
            assert(tensor(Seq::<F>::empty()) == seq![F::spec_one()]);
        }
        let expanded_query_len = two_pow_usize(log_width);
        Ok(MultilinearQuery {
            expanded_query,
            expanded_query_len,
            n_vars: 0,
            capacity_vars,
            log_width,
            challenges: Ghost(Seq::empty()),
        })
    }

    pub fn n_vars(&self) -> (r: usize)
        requires
            self.wf(),
        ensures
            r == self.spec_challenges().len(),
    {
        self.n_vars
    }

    /// The tensor product expansion of the challenges, padded with zeros to a
    /// whole number of packed elements.
    pub fn expansion(&self) -> (r: &[F])
        requires
            self.wf(),
        ensures
            r@ == padded_tensor(self.spec_challenges(), self.spec_log_width()),
    {
        proof {
            self.lemma_expansion();
        }
        slice_subrange(self.expanded_query.as_slice(), 0, self.expanded_query_len)
    }

    /// The expansion as an owned vector.
    pub fn into_expansion(self) -> (r: Vec<F>)
        requires
            self.wf(),
        ensures
            r@ == padded_tensor(self.spec_challenges(), self.spec_log_width()),
    {
        proof {
            self.lemma_expansion();
        }
        let mut v = self.expanded_query;
        v.truncate(self.expanded_query_len);
        v
    }

    /// Folds in `extra_query_coordinates`, one challenge at a time, in place.
    ///
    /// Fails with `MultilinearQueryFull` when the total number of challenges
    /// would exceed the capacity the query was created with.
    pub fn update(self, extra_query_coordinates: &[F]) -> (r: Result<Self, Error>)
        requires
            self.wf(),
        ensures
            self.spec_challenges().len() + extra_query_coordinates@.len() > self.spec_capacity_vars() ==> r
                == Err::<Self, Error>(
                Error::MultilinearQueryFull { max_query_vars: self.spec_challenges().len() as usize },
            ),
            self.spec_challenges().len() + extra_query_coordinates@.len() <= self.spec_capacity_vars() ==> (
            r is Ok && r->Ok_0.wf() && r->Ok_0.spec_challenges() == self.spec_challenges()
                + extra_query_coordinates@ && r->Ok_0.spec_log_width() == self.spec_log_width()
                && r->Ok_0.spec_capacity_vars() == self.spec_capacity_vars()),
    {
        let old_n_vars = self.n_vars;
        if extra_query_coordinates.len() > self.capacity_vars - old_n_vars {
            return Err(Error::MultilinearQueryFull { max_query_vars: old_n_vars });
        }
        let MultilinearQuery { mut expanded_query, expanded_query_len, n_vars, capacity_vars, log_width, challenges } = self;
        let ghost ch0 = challenges@;
        let mut t: usize = 0;
        while t < extra_query_coordinates.len()
            invariant
                t <= extra_query_coordinates@.len(),
                old_n_vars + extra_query_coordinates@.len() <= capacity_vars <= MAX_QUERY_VARS,
                ch0.len() == old_n_vars,
                expanded_query@.len() == two_pow(capacity_vars as nat),
                forall|i: int|
                    0 <= i < two_pow((old_n_vars + t) as nat) ==> #[trigger] expanded_query@[i] == tensor(
                        ch0 + extra_query_coordinates@.subrange(0, t as int),
                    )[i],
                forall|i: int|
                    two_pow((old_n_vars + t) as nat) <= i < expanded_query@.len()
                        ==> #[trigger] expanded_query@[i] == F::spec_zero(),
            decreases extra_query_coordinates@.len() - t,
        {
            let ghost ch = ch0 + extra_query_coordinates@.subrange(0, t as int);
            fold_in(&mut expanded_query, old_n_vars + t, capacity_vars, extra_query_coordinates[t], Ghost(ch));
            assert(ch.push(extra_query_coordinates@[t as int]) =~= ch0 + extra_query_coordinates@.subrange(
                0,
                t + 1,
            ));
            t = t + 1;
        }
        assert(extra_query_coordinates@.subrange(0, t as int) =~= extra_query_coordinates@);
        let new_n_vars = old_n_vars + t;
        let new_len = if new_n_vars < log_width {
            two_pow_usize(log_width)
        } else {
            two_pow_usize(new_n_vars)
        };
        Ok(MultilinearQuery {
            expanded_query,
            expanded_query_len: new_len,
            n_vars: new_n_vars,
            capacity_vars,
            log_width,
            challenges: Ghost(ch0 + extra_query_coordinates@),
        })
    }

    /// The expansion of a whole list of challenges, in a query with room for
    /// exactly that many.
    pub fn with_full_query(query: &[F], log_width: usize) -> (r: Result<Self, Error>)
        ensures
            (query@.len() > MAX_QUERY_VARS || log_width > MAX_QUERY_VARS) ==> r == Err::<Self, Error>(
                Error::TooManyVariables,
            ),
            (query@.len() <= MAX_QUERY_VARS && log_width <= MAX_QUERY_VARS) ==> (r is Ok && r->Ok_0.wf()
                && r->Ok_0.spec_challenges() == query@ && r->Ok_0.spec_log_width() == log_width),
    {
        let q = MultilinearQuery::new(query.len(), log_width)?;
        assert(Seq::<F>::empty() + query@ =~= query@);
        q.update(query)
    }

    proof fn lemma_expansion(&self)
        requires
            self.wf(),
        ensures
            self.expanded_query_len <= self.expanded_query@.len(),
            self.spec_expansion() == padded_tensor(self.spec_challenges(), self.spec_log_width()),
    {
        lemma_tensor_len(self.challenges@);
        lemma_two_pow_mono(self.n_vars as nat, self.capacity_vars as nat);
        lemma_two_pow_mono(self.log_width as nat, self.capacity_vars as nat);
        if self.log_width <= self.n_vars {
            lemma_two_pow_mono(self.log_width as nat, self.n_vars as nat);
        } else {
            lemma_two_pow_mono(self.n_vars as nat, self.log_width as nat);
        }
        let e = self.spec_expansion();
        let p = padded_tensor(self.challenges@, self.log_width as nat);
        assert(e.len() == p.len());
        assert forall|i: int| 0 <= i < e.len() implies e[i] == p[i] by {
            if i < two_pow(self.n_vars as nat) {
                assert(self.expanded_query@[i] == tensor(self.challenges@)[i]);
            } else {
                assert(self.expanded_query@[i] == F::spec_zero());
            }
        }
        assert(e =~= p);
    }
}

/// Folds the challenge `r` into an expansion of `k` challenges held at the
/// front of `buf`: each entry `v` at `p` becomes `v * (1 - r)`, and `v * r` is
/// written at `p + 2^k`.
fn fold_in<F: Field>(buf: &mut Vec<F>, k: usize, capacity_vars: usize, r: F, ch: Ghost<Seq<F>>)
    requires
        k < capacity_vars <= MAX_QUERY_VARS,
        ch@.len() == k,
        old(buf)@.len() == two_pow(capacity_vars as nat),
        forall|i: int| 0 <= i < two_pow(k as nat) ==> #[trigger] old(buf)@[i] == tensor(ch@)[i],
        forall|i: int|
            two_pow(k as nat) <= i < old(buf)@.len() ==> #[trigger] old(buf)@[i] == F::spec_zero(),
    ensures
        final(buf)@.len() == old(buf)@.len(),
        forall|i: int|
            0 <= i < two_pow((k + 1) as nat) ==> #[trigger] final(buf)@[i] == tensor(ch@.push(r))[i],
        forall|i: int|
            two_pow((k + 1) as nat) <= i < final(buf)@.len() ==> #[trigger] final(buf)@[i] == F::spec_zero(),
{
    proof {
        lemma_two_pow_mono((k + 1) as nat, capacity_vars as nat);
        lemma_two_pow_bound(capacity_vars as nat);
        lemma_tensor_len(ch@);
    }
    let ghost t = tensor(ch@);
    let ghost len = buf@.len();
    let half = two_pow_usize(k);
    let one_minus_r = F::one().sub(r);
    let mut p: usize = 0;
    while p < half
        invariant
            half == two_pow(k as nat),
            t.len() == half,
            2 * half <= len <= 0x8000_0000,
            buf@.len() == len,
            one_minus_r == F::spec_sub(F::spec_one(), r),
            p <= half,
            forall|j: int|
                0 <= j < p ==> #[trigger] buf@[j] == F::spec_mul(t[j], one_minus_r),
            forall|j: int|
                0 <= j < p ==> #[trigger] buf@[j + half] == F::spec_mul(t[j], r),
            forall|j: int| p <= j < half ==> #[trigger] buf@[j] == t[j],
            forall|j: int| half + p <= j < len ==> #[trigger] buf@[j] == F::spec_zero(),
        decreases half - p,
    {
        let v = buf[p];
        let hi = v.mul(r);
        let lo = v.mul(one_minus_r);
        buf.set(p + half, hi);
        buf.set(p, lo);
        p = p + 1;
    }
    proof {
        let tn = tensor(ch@.push(r));
        assert(ch@.push(r).drop_last() =~= ch@);
        assert forall|i: int| 0 <= i < two_pow((k + 1) as nat) implies #[trigger] buf@[i] == tn[i] by {
            if i >= half {
                assert(buf@[(i - half) + half] == F::spec_mul(t[i - half], r));
            }
        }
    }
}

} // verus!
