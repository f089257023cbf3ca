use crate::batch_prove::{fails_at, prover_trace, some_call_fails, SumcheckProver};
use crate::field::Field;
use crate::multilinear_query::{lemma_two_pow_mono, two_pow};
use crate::sumcheck::{seq_sum, Error, RoundCoeffs};
use vstd::prelude::*;

verus! {

/// The evaluations at even positions: the first variable set to zero.
pub open spec fn low_half<F>(e: Seq<F>) -> Seq<F> {
    Seq::new(e.len() / 2, |v: int| e[2 * v])
}

/// How much each evaluation changes when the first variable goes from zero to one.
pub open spec fn slope<F: Field>(e: Seq<F>) -> Seq<F> {
    Seq::new(e.len() / 2, |v: int| F::spec_sub(e[2 * v + 1], e[2 * v]))
}

/// The round polynomial `X -> sum_v f(X, v)` of the multilinear with
/// evaluations `e`, in monomial basis.
pub open spec fn round_message<F: Field>(e: Seq<F>) -> Seq<F> {
    seq![seq_sum(low_half(e)), seq_sum(slope(e))]
}

/// The evaluations of the multilinear with its first variable fixed to `r`.
pub open spec fn folded<F: Field>(e: Seq<F>, r: F) -> Seq<F> {
    Seq::new(e.len() / 2, |v: int| F::spec_add(e[2 * v], F::spec_mul(r, F::spec_sub(e[2 * v + 1], e[2 * v]))))
}

/// A sumcheck prover for the sum of one multilinear over the hypercube,
/// holding the multilinear's evaluations folded at the challenges so far. The
/// first variable is the lowest bit of an evaluation's position.
pub struct MultilinearProver<F: Field> {
    n_vars: usize,
    round: usize,
    executed: bool,
    evals: Vec<F>,
}

impl<F: Field> MultilinearProver<F> {
    #[verifier::type_invariant]
    closed spec fn inv(&self) -> bool {
        &&& self.round <= self.n_vars <= 31
        &&& self.evals@.len() == two_pow((self.n_vars - self.round) as nat)
        &&& self.executed ==> self.round < self.n_vars
    }

    /// The current evaluations.
    pub closed spec fn spec_evals(&self) -> Seq<F> {
        self.evals@
    }

    /// Whether this round's message was sent and the fold is due.
    pub closed spec fn spec_executed(&self) -> bool {
        self.executed
    }

    /// A prover for the multilinear over `n_vars` variables with the given
    /// evaluations on the hypercube; fails unless there are `2^n_vars` of them.
    pub fn new(n_vars: usize, evals: Vec<F>) -> (r: Result<Self, Error>)
        ensures
            (n_vars <= 31 && evals@.len() == two_pow(n_vars as nat)) ==> (r is Ok
                && r->Ok_0.spec_n_vars() == n_vars && r->Ok_0.spec_round() == 0
                && r->Ok_0.spec_evals() == evals@ && !r->Ok_0.spec_executed()),
            !(n_vars <= 31 && evals@.len() == two_pow(n_vars as nat)) ==> r == Err::<Self, Error>(
                Error::NumberOfVariablesMismatch,
            ),
    {
        if n_vars > 31 {
            return Err(Error::NumberOfVariablesMismatch);
        }
        let mut expected: usize = 1;
        let mut i: usize = 0;
        while i < n_vars
            invariant
                i <= n_vars <= 31,
                expected == two_pow(i as nat),
                expected <= 0x8000_0000,
            decreases n_vars - i,
        {
            proof {
                lemma_two_pow_mono((i + 1) as nat, 31);
                reveal_with_fuel(two_pow, 32);
            }
            expected = expected * 2;
            i = i + 1;
        }
        if evals.len() != expected {
            return Err(Error::NumberOfVariablesMismatch);
        }
        Ok(MultilinearProver { n_vars, round: 0, executed: false, evals })
    }
}

/// The round polynomial of the multilinear with evaluations `e`.
pub fn round_coeffs_of<F: Field>(e: &Vec<F>) -> (r: RoundCoeffs<F>)
    requires
        e@.len() % 2 == 0,
    ensures
        r@ == round_message(e@),
{
    let n = e.len();
    let half = n / 2;
    let mut low = F::zero();
    let mut rise = F::zero();
    let mut v: usize = 0;
    while v < half
        invariant
            half == e@.len() / 2,
            n == e@.len(),
            e@.len() == 2 * half,
            v <= half,
            low == seq_sum(low_half(e@).subrange(0, v as int)),
            rise == seq_sum(slope(e@).subrange(0, v as int)),
        decreases half - v,
    {
        assert(low_half(e@).subrange(0, v + 1).drop_last() =~= low_half(e@).subrange(0, v as int));
        assert(slope(e@).subrange(0, v + 1).drop_last() =~= slope(e@).subrange(0, v as int));
        let even = e[2 * v];
        let odd = e[2 * v + 1];
        low = low.add(even);
        rise = rise.add(odd.sub(even));
        v = v + 1;
    }
    assert(low_half(e@).subrange(0, half as int) =~= low_half(e@));
    assert(slope(e@).subrange(0, half as int) =~= slope(e@));
    let r = RoundCoeffs(vec![low, rise]);
    assert(r@ =~= round_message(e@));
    r
}

/// The evaluations of the multilinear with evaluations `e` once its first
/// variable is fixed to `challenge`.
pub fn fold_evals<F: Field>(e: &Vec<F>, challenge: F) -> (r: Vec<F>)
    requires
        e@.len() % 2 == 0,
    ensures
        r@ == folded(e@, challenge),
{
    let n = e.len();
    let half = n / 2;
    let mut next: Vec<F> = Vec::new();
    let mut v: usize = 0;
    while v < half
        invariant
            half == e@.len() / 2,
            n == e@.len(),
            e@.len() == 2 * half,
            v <= half,
            next@ == folded(e@, challenge).subrange(0, v as int),
        decreases half - v,
    {
        let even = e[2 * v];
        let odd = e[2 * v + 1];
        next.push(even.add(challenge.mul(odd.sub(even))));
        assert(next@ =~= folded(e@, challenge).subrange(0, v + 1));
        v = v + 1;
    }
    assert(next@ =~= folded(e@, challenge));
    next
}

proof fn lemma_halves<F>(e: Seq<F>, k: nat)
    requires
        k >= 1,
        e.len() == two_pow(k),
    ensures
        e.len() == 2 * (e.len() / 2),
        e.len() % 2 == 0,
        e.len() / 2 == two_pow((k - 1) as nat),
{
}

impl<F: Field> MultilinearProver<F> {
    /// Sends this round's message, the round polynomial of the current
    /// evaluations. Fails with `ExpectedFold` when it was already sent, and
    /// with `ExpectedFinish` once every round is done.
    pub fn execute_round(&mut self) -> (r: Result<RoundCoeffs<F>, Error>)
        ensures
            final(self).spec_n_vars() == old(self).spec_n_vars(),
            final(self).spec_round() == old(self).spec_round(),
            old(self).spec_executed() ==> r == Err::<RoundCoeffs<F>, Error>(Error::ExpectedFold),
            !old(self).spec_executed() && old(self).spec_round() >= old(self).spec_n_vars() ==> r == Err::<RoundCoeffs<F>, Error>(
                Error::ExpectedFinish,
            ),
            !old(self).spec_executed() && old(self).spec_round() < old(self).spec_n_vars() ==> (r is Ok && r->Ok_0@ == round_message(
                old(self).spec_evals(),
            ) && final(self).spec_executed() && final(self).spec_evals() == old(self).spec_evals()),
            r is Err ==> *final(self) == *old(self),
    {
        proof {
            use_type_invariant(&*self);
        }
        if self.executed {
            return Err(Error::ExpectedFold);
        }
        if self.round >= self.n_vars {
            return Err(Error::ExpectedFinish);
        }
        proof {
            lemma_halves(self.evals@, (self.n_vars - self.round) as nat);
        }
        let message = round_coeffs_of(&self.evals);
        self.executed = true;
        Ok(message)
    }

    /// Fixes the current variable to `challenge`. Fails with
    /// `ExpectedExecution` unless this round's message was sent.
    pub fn fold_round(&mut self, challenge: F) -> (r: Result<(), Error>)
        ensures
            final(self).spec_n_vars() == old(self).spec_n_vars(),
            !old(self).spec_executed() ==> r == Err::<(), Error>(Error::ExpectedExecution) && *final(self) == *old(self),
            old(self).spec_executed() ==> (r is Ok && final(self).spec_round() == old(self).spec_round() + 1 && !final(self).spec_executed()
                && final(self).spec_evals() == folded(old(self).spec_evals(), challenge)),
    {
        proof {
            use_type_invariant(&*self);
        }
        if !self.executed {
            return Err(Error::ExpectedExecution);
        }
        proof {
            lemma_halves(self.evals@, (self.n_vars - self.round) as nat);
        }
        let next = fold_evals(&self.evals, challenge);
        let n_vars = self.n_vars;
        let round = self.round + 1;
        *self = MultilinearProver { n_vars, round, executed: false, evals: next };
        Ok(())
    }

    /// The evaluation of the multilinear at the challenge point, once every
    /// round is folded; fails with `ExpectedFinish` before that.
    pub fn finish_evals(self) -> (r: Result<Vec<F>, Error>)
        ensures
            self.spec_round() < self.spec_n_vars() ==> r == Err::<Vec<F>, Error>(Error::ExpectedFinish),
            self.spec_round() >= self.spec_n_vars() ==> (r is Ok && r->Ok_0@ == seq![self.spec_evals()[0]]),
    {
        proof {
            use_type_invariant(&self);
            lemma_two_pow_mono(0, (self.n_vars - self.round) as nat);
        }
        if self.round < self.n_vars {
            return Err(Error::ExpectedFinish);
        }
        Ok(vec![self.evals[0]])
    }
}

impl<F: Field> SumcheckProver<F> for MultilinearProver<F> {
    closed spec fn spec_n_vars(&self) -> nat {
        self.n_vars as nat
    }

    closed spec fn spec_round(&self) -> nat {
        self.round as nat
    }

    closed spec fn spec_executed(&self) -> bool {
        self.executed
    }

    /// A single multilinear is mixed with `batch_coeff^0` alone.
    closed spec fn spec_message(&self, batch_coeff: F) -> Seq<F> {
        round_message(self.evals@)
    }

    closed spec fn spec_final_evals(&self) -> Seq<F> {
        seq![self.evals@[0]]
    }

    closed spec fn spec_execute_ok(&self) -> bool {
        !self.executed && self.round < self.n_vars
    }

    closed spec fn spec_fold_ok(&self, challenge: F) -> bool {
        self.executed
    }

    closed spec fn spec_finish_ok(&self) -> bool {
        self.round >= self.n_vars
    }

    /// The message is marked as sent; nothing else changes.
    closed spec fn spec_executes_to(&self, next: Self) -> bool {
        &&& next.n_vars == self.n_vars
        &&& next.round == self.round
        &&& next.executed
        &&& next.evals@ == self.evals@
    }

    /// One more round is done and the evaluations are folded at `challenge`.
    closed spec fn spec_folds_to(&self, challenge: F, next: Self) -> bool {
        &&& next.n_vars == self.n_vars
        &&& next.round == self.round + 1
        &&& !next.executed
        &&& next.evals@ == folded(self.evals@, challenge)
    }

    fn n_vars(&self) -> (r: usize) {
        self.n_vars
    }

    fn execute(&mut self, batch_coeff: F) -> (r: Result<RoundCoeffs<F>, Error>) {
        self.execute_round()
    }

    fn fold(&mut self, challenge: F) -> (r: Result<(), Error>) {
        self.fold_round(challenge)
    }

    fn finish(self) -> (r: Result<Vec<F>, Error>) {
        proof {
            use_type_invariant(&self);
        }
        self.finish_evals()
    }
}

proof fn lemma_trace_state<F: Field>(
    p: MultilinearProver<F>,
    trace: Seq<MultilinearProver<F>>,
    mids: Seq<MultilinearProver<F>>,
    challenges: Seq<F>,
    join: int,
    t: int,
)
    requires
        prover_trace(p, trace, mids, challenges, join),
        p.round == 0,
        !p.executed,
        0 <= t < trace.len(),
    ensures
        trace[t].round == t,
        !trace[t].executed,
        trace[t].n_vars == p.n_vars,
    decreases t,
{
    if t > 0 {
        lemma_trace_state(p, trace, mids, challenges, join, t - 1);
        assert(trace[t - 1].spec_executes_to(mids[t - 1]));
        assert(mids[t - 1].spec_folds_to(challenges[join + t - 1], trace[t]));
    }
}

/// Fresh provers, with no round begun, never fail along the protocol's
/// sequence of calls, so a sorted batch of them is always proved.
pub proof fn lemma_fresh_provers_succeed<F: Field>(provers: Seq<MultilinearProver<F>>)
    requires
        forall|i: int|
            0 <= i < provers.len() ==> #[trigger] provers[i].spec_round() == 0 && !provers[i].spec_executed(),
    ensures
        !some_call_fails::<F, MultilinearProver<F>>(provers),
{
    if some_call_fails::<F, MultilinearProver<F>>(provers) {
        let (i, trace, mids, challenges, join, mid, challenge) = choose|
            i: int,
            trace: Seq<MultilinearProver<F>>,
            mids: Seq<MultilinearProver<F>>,
            challenges: Seq<F>,
            join: int,
            mid: MultilinearProver<F>,
            challenge: F,
        | #[trigger] fails_at(provers, i, trace, mids, challenges, join, mid, challenge);
        assert(provers[i].spec_round() == 0 && !provers[i].spec_executed());
        lemma_trace_state(provers[i], trace, mids, challenges, join, mids.len() as int);
        assert(trace.last() == trace[mids.len() as int]);
    }
}

} // verus!
