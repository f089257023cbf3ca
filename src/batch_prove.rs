use crate::field::Field;
use crate::sumcheck::{padded_add, scaled, truncated, BatchSumcheckOutput, Error, Proof, RoundCoeffs, RoundProof};
use vstd::prelude::*;

verus! {

/// A sumcheck prover driven round by round.
///
/// For a prover over `n` variables the caller makes `n` rounds of `execute`
/// followed by `fold`, then calls `finish`. `spec_round` counts the folds made
/// so far and `spec_executed` tells whether this round's message was sent; a
/// call out of that sequence fails with a sequencing error.
pub trait SumcheckProver<F: Field>: Sized {
    spec fn spec_n_vars(&self) -> nat;

    spec fn spec_round(&self) -> nat;

    spec fn spec_executed(&self) -> bool;

    /// The round message in the current state for the batching coefficient.
    spec fn spec_message(&self, batch_coeff: F) -> Seq<F>;

    /// The evaluations of the multilinears at the challenge point, once every
    /// round is folded.
    spec fn spec_final_evals(&self) -> Seq<F>;

    /// Whether `execute` succeeds in this state.
    spec fn spec_execute_ok(&self) -> bool;

    /// Whether `fold` at `challenge` succeeds in this state.
    spec fn spec_fold_ok(&self, challenge: F) -> bool;

    /// Whether `finish` succeeds in this state.
    spec fn spec_finish_ok(&self) -> bool;

    /// `next` is this prover after a successful `execute`.
    spec fn spec_executes_to(&self, next: Self) -> bool;

    /// `next` is this prover after a successful `fold` at `challenge`.
    spec fn spec_folds_to(&self, challenge: F, next: Self) -> bool;

    /// The number of variables of the multivariate polynomial.
    fn n_vars(&self) -> (r: usize)
        ensures
            r == self.spec_n_vars(),
    ;

    /// The round message: the sum over the remaining hypercube of the
    /// composites, mixed with the powers of `batch_coeff`, as a polynomial in
    /// the current variable.
    fn execute(&mut self, batch_coeff: F) -> (r: Result<RoundCoeffs<F>, Error>)
        ensures
            final(self).spec_n_vars() == old(self).spec_n_vars(),
            r is Ok <==> old(self).spec_execute_ok(),
            old(self).spec_executed() || old(self).spec_round() >= old(self).spec_n_vars() ==> r is Err,
            r is Ok ==> r->Ok_0@ == old(self).spec_message(batch_coeff) && final(self).spec_executed()
                && final(self).spec_round() == old(self).spec_round() && old(self).spec_executes_to(
                *final(self),
            ),
            r is Err ==> r->Err_0 != Error::ClaimsOutOfOrder,
    ;

    /// Specializes the current variable at `challenge`.
    fn fold(&mut self, challenge: F) -> (r: Result<(), Error>)
        ensures
            final(self).spec_n_vars() == old(self).spec_n_vars(),
            r is Ok <==> old(self).spec_fold_ok(challenge),
            !old(self).spec_executed() ==> r is Err,
            r is Ok ==> final(self).spec_round() == old(self).spec_round() + 1 && !final(self).spec_executed()
                && old(self).spec_folds_to(challenge, *final(self)),
            r is Err ==> r->Err_0 != Error::ClaimsOutOfOrder,
    ;

    /// The evaluations of all multilinears at the challenge point.
    fn finish(self) -> (r: Result<Vec<F>, Error>)
        ensures
            r is Ok <==> self.spec_finish_ok(),
            self.spec_executed() || self.spec_round() != self.spec_n_vars() ==> r is Err,
            r is Ok ==> r->Ok_0@ == self.spec_final_evals(),
            r is Err ==> r->Err_0 != Error::ClaimsOutOfOrder,
    ;
}

/// One interaction with a transcript.
pub enum TranscriptEvent<F> {
    /// A challenge was drawn, with this value.
    Sample(F),
    /// These values were absorbed.
    Observe(Seq<F>),
}

/// A Fiat-Shamir transcript: it hands out challenges and absorbs prover
/// messages. `spec_log` models every interaction so far, in order; callers
/// reason over it through the methods' postconditions. The default body
/// exists only so that implementations written outside verified code compile;
/// it is never a real model, and such implementations are not held to the
/// postconditions. A verified implementation overrides it.
pub trait Challenger<F> {
    closed spec fn spec_log(&self) -> Seq<TranscriptEvent<F>> {
        Seq::empty()
    }

    fn sample(&mut self) -> (r: F)
        ensures
            final(self).spec_log() == old(self).spec_log().push(TranscriptEvent::Sample(r)),
    ;

    fn observe_slice(&mut self, values: &[F])
        ensures
            final(self).spec_log() == old(self).spec_log().push(TranscriptEvent::Observe(values@)),
    ;
}

/// `msgs[i]` scaled by `coeffs[i]`, summed with zero-extension from the
/// empty polynomial in order.
pub open spec fn weighted_sum<F: Field>(msgs: Seq<Seq<F>>, coeffs: Seq<F>) -> Seq<F>
    decreases msgs.len(),
{
    if msgs.len() == 0 {
        Seq::empty()
    } else {
        padded_add(
            weighted_sum(msgs.drop_last(), coeffs),
            scaled(msgs.last(), coeffs[msgs.len() - 1]),
        )
    }
}

/// Joining is settled by `bounds`: in round `k` (with `n_rounds - k`
/// variables left) exactly the provers before `bounds[k + 1]` are active,
/// those whose number of variables is at least `n_rounds - k`.
pub open spec fn activation_bounds(nvs: Seq<nat>, n_rounds: nat, bounds: Seq<nat>) -> bool {
    &&& bounds.len() == n_rounds + 1
    &&& bounds[0] == 0
    &&& forall|k: int| 0 <= k <= n_rounds ==> #[trigger] bounds[k] <= nvs.len()
    &&& forall|k: int, i: int|
        0 <= k < n_rounds && 0 <= i < nvs.len() ==> (i < #[trigger] bounds[k + 1] <==> #[trigger] nvs[i] + k
            >= n_rounds)
}

/// The transcript of round `k`: one coefficient for each prover joining, in
/// input order, then the round proof, then the round's challenge.
pub open spec fn round_events<F>(
    alphas: Seq<F>,
    lo: nat,
    hi: nat,
    round: Seq<F>,
    challenge: F,
) -> Seq<TranscriptEvent<F>> {
    Seq::new((hi - lo) as nat, |j: int| TranscriptEvent::Sample(alphas[lo + j])) + seq![
        TranscriptEvent::Observe(round),
        TranscriptEvent::Sample(challenge),
    ]
}

/// The transcript of the first `k` rounds.
pub open spec fn rounds_transcript<F>(
    alphas: Seq<F>,
    bounds: Seq<nat>,
    rounds: Seq<Seq<F>>,
    challenges: Seq<F>,
    k: nat,
) -> Seq<TranscriptEvent<F>>
    decreases k,
{
    if k == 0 {
        Seq::empty()
    } else {
        rounds_transcript(alphas, bounds, rounds, challenges, (k - 1) as nat) + round_events(
            alphas,
            bounds[k - 1],
            bounds[k as int],
            rounds[k - 1],
            challenges[k - 1],
        )
    }
}

/// The evaluation vectors absorbed one after the other.
pub open spec fn evals_transcript<F>(evals: Seq<Seq<F>>) -> Seq<TranscriptEvent<F>> {
    Seq::new(evals.len(), |i: int| TranscriptEvent::Observe(evals[i]))
}

proof fn lemma_rounds_transcript_prefix<F>(
    alphas: Seq<F>,
    bounds: Seq<nat>,
    rounds: Seq<Seq<F>>,
    challenges: Seq<F>,
    alphas2: Seq<F>,
    bounds2: Seq<nat>,
    rounds2: Seq<Seq<F>>,
    challenges2: Seq<F>,
    k: nat,
)
    requires
        bounds.len() > k,
        bounds2.len() > k,
        rounds.len() >= k,
        rounds2.len() >= k,
        challenges.len() >= k,
        challenges2.len() >= k,
        forall|j: int| 0 <= j <= k ==> #[trigger] bounds[j] == bounds2[j],
        forall|j: int| 0 <= j < k ==> #[trigger] rounds[j] == rounds2[j],
        forall|j: int| 0 <= j < k ==> #[trigger] challenges[j] == challenges2[j],
        forall|j: int| 0 <= j < bounds[k as int] ==> #[trigger] alphas[j] == alphas2[j],
        forall|j: int, m: int| #![trigger bounds[j], bounds[m]] 0 <= j <= m <= k ==> bounds[j] <= bounds[m],
    ensures
        rounds_transcript(alphas, bounds, rounds, challenges, k) == rounds_transcript(
            alphas2,
            bounds2,
            rounds2,
            challenges2,
            k,
        ),
    decreases k,
{
    if k > 0 {
        lemma_rounds_transcript_prefix(
            alphas,
            bounds,
            rounds,
            challenges,
            alphas2,
            bounds2,
            rounds2,
            challenges2,
            (k - 1) as nat,
        );
        let lo = bounds[k - 1];
        let hi = bounds[k as int];
        assert(round_events(alphas, lo, hi, rounds[k - 1], challenges[k - 1]) =~= round_events(
            alphas2,
            lo,
            hi,
            rounds2[k - 1],
            challenges2[k - 1],
        ));
    }
}

proof fn lemma_weighted_sum_prefix<F: Field>(msgs: Seq<Seq<F>>, c1: Seq<F>, c2: Seq<F>)
    requires
        msgs.len() <= c1.len(),
        msgs.len() <= c2.len(),
        forall|j: int| 0 <= j < msgs.len() ==> #[trigger] c1[j] == c2[j],
    ensures
        weighted_sum(msgs, c1) == weighted_sum(msgs, c2),
    decreases msgs.len(),
{
    if msgs.len() > 0 {
        lemma_weighted_sum_prefix(msgs.drop_last(), c1, c2);
    }
}

/// Scales each message by its coefficient, sums them with zero-extension and
/// drops the top coefficient.
pub fn combine_round<F: Field>(msgs: Vec<RoundCoeffs<F>>, coeffs: &[F]) -> (r: RoundProof<F>)
    requires
        msgs@.len() <= coeffs@.len(),
    ensures
        r@ == truncated(weighted_sum(msgs@.map_values(|m: RoundCoeffs<F>| m@), coeffs@)),
{
    let ghost views = msgs@.map_values(|m: RoundCoeffs<F>| m@);
    let mut acc = RoundCoeffs::new();
    let mut rest = msgs;
    let n = rest.len();
    let mut i: usize = 0;
    while i < n
        invariant
            i <= n,
            n == views.len(),
            n <= coeffs@.len(),
            rest@.len() == n - i,
            forall|j: int| 0 <= j < rest@.len() ==> #[trigger] rest@[j]@ == views[i + j],
            acc@ == weighted_sum(views.subrange(0, i as int), coeffs@),
        decreases n - i,
    {
        let m = rest.remove(0);
        assert(views.subrange(0, i + 1).drop_last() =~= views.subrange(0, i as int));
        let scaled_m = m.mul(coeffs[i]);
        acc.add_assign(&scaled_m);
        i = i + 1;
    }
    assert(views.subrange(0, n as int) =~= views);
    acc.truncate()
}

/// The numbers of variables of a sequence of provers.
pub open spec fn arities<F: Field, P: SumcheckProver<F>>(ps: Seq<P>) -> Seq<nat> {
    ps.map_values(|p: P| p.spec_n_vars())
}

/// The sequence never increases.
pub open spec fn non_increasing(s: Seq<nat>) -> bool {
    forall|i: int, j: int| 0 <= i < j < s.len() ==> s[i] >= s[j]
}

/// The largest entry is `m` (zero for the empty sequence).
pub open spec fn is_max(s: Seq<nat>, m: nat) -> bool {
    &&& forall|i: int| 0 <= i < s.len() ==> s[i] <= m
    &&& s.len() > 0 ==> exists|i: int| 0 <= i < s.len() && s[i] == m
    &&& s.len() == 0 ==> m == 0
}

fn arities_non_increasing<F: Field, P: SumcheckProver<F>>(provers: &Vec<P>) -> (r: bool)
    ensures
        r == non_increasing(arities(provers@)),
{
    let ghost s = arities(provers@);
    if provers.len() == 0 {
        return true;
    }
    let mut i: usize = 1;
    while i < provers.len()
        invariant
            1 <= i <= provers@.len(),
            s == arities(provers@),
            forall|a: int, b: int| 0 <= a < b < i ==> s[a] >= s[b],
        decreases provers@.len() - i,
    {
        if provers[i - 1].n_vars() < provers[i].n_vars() {
            assert(s[i - 1] < s[i as int]);
            return false;
        }
        assert(forall|a: int| 0 <= a < i ==> #[trigger] s[a] >= s[i - 1]);
        i = i + 1;
    }
    true
}

fn copy_evals<F: Field>(v: &Vec<F>) -> (r: Vec<F>)
    ensures
        r@ == v@,
{
    let mut r: Vec<F> = Vec::new();
    let mut i: usize = 0;
    while i < v.len()
        invariant
            i <= v@.len(),
            r@ == v@.subrange(0, i as int),
        decreases v@.len() - i,
    {
        r.push(v[i]);
        i = i + 1;
    }
    assert(r@ =~= v@);
    r
}

/// Proves a batch of sumcheck claims at once.
///
/// The provers must be sorted by non-increasing number of variables; they run
/// for `max n_vars` rounds, and each one joins on the round from which as many
/// rounds remain as it has variables, with a batching coefficient sampled from
/// the transcript in input order. An empty batch or an unsorted one leaves the
/// transcript untouched.
pub fn batch_prove<F: Field, P: SumcheckProver<F>, C: Challenger<F>>(
    provers: Vec<P>,
    challenger: &mut C,
) -> (r: Result<(BatchSumcheckOutput<F>, Proof<F>), Error>)
    ensures
        provers@.len() == 0 ==> (r is Ok && r->Ok_0.0.challenges@.len() == 0
            && r->Ok_0.0.multilinear_evals@.len() == 0 && r->Ok_0.1.rounds@.len() == 0
            && r->Ok_0.1.multilinear_evals@.len() == 0 && *final(challenger) == *old(challenger)),
        !non_increasing(arities(provers@)) ==> r == Err::<(BatchSumcheckOutput<F>, Proof<F>), Error>(
            Error::ClaimsOutOfOrder,
        ) && *final(challenger) == *old(challenger),
        non_increasing(arities(provers@)) && r is Err ==> r->Err_0 != Error::ClaimsOutOfOrder,
        non_increasing(arities(provers@)) && !some_call_fails::<F, P>(provers@) ==> r is Ok,
        r is Ok ==> batch_output_shape(arities(provers@), r->Ok_0.0, r->Ok_0.1),
        r is Ok && provers@.len() > 0 ==> batch_run(
            provers@,
            r->Ok_0.0,
            r->Ok_0.1,
            old(challenger).spec_log(),
            final(challenger).spec_log(),
        ),
{
    if provers.len() == 0 {
        let output = BatchSumcheckOutput { challenges: Vec::new(), multilinear_evals: Vec::new() };
        let proof = Proof { rounds: Vec::new(), multilinear_evals: Vec::new() };
        return Ok((output, proof));
    }
    if !arities_non_increasing(&provers) {
        return Err(Error::ClaimsOutOfOrder);
    }
    run_rounds(provers, challenger)
}

/// The shape of a successful batch proof for provers of the given arities:
/// one challenge and one round proof for each of `max n_vars` rounds, and one
/// evaluation vector per prover, the same in the output and in the proof.
pub open spec fn batch_output_shape<F: Field>(
    nvs: Seq<nat>,
    output: BatchSumcheckOutput<F>,
    proof: Proof<F>,
) -> bool {
    &&& non_increasing(nvs)
    &&& is_max(nvs, output.challenges@.len())
    &&& proof.rounds@.len() == output.challenges@.len()
    &&& proof.multilinear_evals@.len() == nvs.len()
    &&& output.multilinear_evals@.len() == nvs.len()
    &&& forall|i: int|
        0 <= i < nvs.len() ==> #[trigger] output.multilinear_evals@[i]@ == proof.multilinear_evals@[i]@
}

/// The views of the round proofs.
pub open spec fn round_views<F: Field>(rounds: Seq<RoundProof<F>>) -> Seq<Seq<F>> {
    rounds.map_values(|p: RoundProof<F>| p@)
}

/// The views of the evaluation vectors.
pub open spec fn eval_views<F>(evals: Seq<Vec<F>>) -> Seq<Seq<F>> {
    evals.map_values(|v: Vec<F>| v@)
}

/// The states a prover passes through: `trace[0]` is the prover as given,
/// and for each round `t` it executes into `mids[t]`, which folds at the
/// challenge of round `join + t` into `trace[t + 1]`.
pub open spec fn prover_trace<F: Field, P: SumcheckProver<F>>(
    prover: P,
    trace: Seq<P>,
    mids: Seq<P>,
    challenges: Seq<F>,
    join: int,
) -> bool {
    &&& trace.len() == mids.len() + 1
    &&& trace[0] == prover
    &&& forall|t: int|
        0 <= t < mids.len() ==> trace[t].spec_executes_to(#[trigger] mids[t]) && mids[t].spec_folds_to(
            challenges[join + t],
            trace[t + 1],
        )
}

/// What a successful run did, for some batching coefficients `alphas`,
/// activation `bounds`, round messages `msgs`, and prover states `traces`
/// and `mids`:
/// - the transcript grew by, round after round, the coefficients of the
///   joining provers, the round proof and the round's challenge, then every
///   evaluation vector in input order;
/// - prover `i` joins in round `n_rounds - n_i`; from there it executes and
///   is folded at each round's challenge, starting from `provers[i]`;
/// - round `k`'s proof is the truncated sum of the messages of the provers
///   active in it, each scaled by its own coefficient, where prover `i`'s
///   message is what its state in round `k` gives for `alphas[i]`;
/// - evaluation vector `i` is what prover `i` finishes with in its last state.
pub open spec fn batch_run<F: Field, P: SumcheckProver<F>>(
    provers: Seq<P>,
    output: BatchSumcheckOutput<F>,
    proof: Proof<F>,
    log_before: Seq<TranscriptEvent<F>>,
    log_after: Seq<TranscriptEvent<F>>,
) -> bool {
    exists|alphas: Seq<F>, bounds: Seq<nat>, msgs: Seq<Seq<Seq<F>>>, traces: Seq<Seq<P>>, mids: Seq<Seq<P>>|
        #[trigger] batch_run_with(provers, output, proof, log_before, log_after, alphas, bounds, msgs, traces, mids)
}

/// [`batch_run`] for given coefficients, bounds, messages and states.
pub open spec fn batch_run_with<F: Field, P: SumcheckProver<F>>(
    provers: Seq<P>,
    output: BatchSumcheckOutput<F>,
    proof: Proof<F>,
    log_before: Seq<TranscriptEvent<F>>,
    log_after: Seq<TranscriptEvent<F>>,
    alphas: Seq<F>,
    bounds: Seq<nat>,
    msgs: Seq<Seq<Seq<F>>>,
    traces: Seq<Seq<P>>,
    mids: Seq<Seq<P>>,
) -> bool {
    let nvs = arities(provers);
    let n_rounds = output.challenges@.len();
    &&& activation_bounds(nvs, n_rounds, bounds)
    &&& alphas.len() == bounds[n_rounds as int]
    &&& log_after == log_before + rounds_transcript(
        alphas,
        bounds,
        round_views(proof.rounds@),
        output.challenges@,
        n_rounds,
    ) + evals_transcript(eval_views(proof.multilinear_evals@))
    &&& msgs.len() == n_rounds
    &&& forall|k: int|
        0 <= k < n_rounds ==> (#[trigger] msgs[k]).len() == bounds[k + 1] && proof.rounds@[k]@ == truncated(
            weighted_sum(msgs[k], alphas),
        )
    &&& traces.len() == provers.len()
    &&& mids.len() == provers.len()
    &&& forall|i: int|
        0 <= i < provers.len() ==> prover_trace(
            provers[i],
            #[trigger] traces[i],
            mids[i],
            output.challenges@,
            n_rounds - nvs[i],
        ) && traces[i].len() == nvs[i] + 1 && traces[i][nvs[i] as int].spec_final_evals()
            == proof.multilinear_evals@[i]@
    &&& forall|k: int, i: int|
        0 <= k < n_rounds && 0 <= i < bounds[k + 1] ==> #[trigger] msgs[k][i] == traces[i][k - (n_rounds
            - nvs[i])].spec_message(alphas[i])
}

/// Prover `i` reaches `trace.last()` from `provers[i]` after `mids.len()`
/// rounds, and there the call the protocol makes next fails: `execute`, or
/// `fold` at `challenge` after executing into `mid`, while rounds remain; or
/// `finish` once every round is done.
pub open spec fn fails_at<F: Field, P: SumcheckProver<F>>(
    provers: Seq<P>,
    i: int,
    trace: Seq<P>,
    mids: Seq<P>,
    challenges: Seq<F>,
    join: int,
    mid: P,
    challenge: F,
) -> bool {
    &&& 0 <= i < provers.len()
    &&& prover_trace(provers[i], trace, mids, challenges, join)
    &&& {
        ||| mids.len() < provers[i].spec_n_vars() && !trace.last().spec_execute_ok()
        ||| mids.len() < provers[i].spec_n_vars() && trace.last().spec_executes_to(mid) && !mid.spec_fold_ok(
            challenge,
        )
        ||| mids.len() == provers[i].spec_n_vars() && !trace.last().spec_finish_ok()
    }
}

/// Some prover call can fail along the protocol's sequence of calls, for some
/// challenges.
pub open spec fn some_call_fails<F: Field, P: SumcheckProver<F>>(provers: Seq<P>) -> bool {
    exists|i: int, trace: Seq<P>, mids: Seq<P>, challenges: Seq<F>, join: int, mid: P, challenge: F|
        #[trigger] fails_at(provers, i, trace, mids, challenges, join, mid, challenge)
}

/// Prover states recorded so far: those of the first `active` provers through
/// round `round_no`, the others still as given.
pub open spec fn traced<F: Field, P: SumcheckProver<F>>(
    orig: Seq<P>,
    traces: Seq<Seq<P>>,
    mids: Seq<Seq<P>>,
    challenges: Seq<F>,
    nvs: Seq<nat>,
    n_rounds: nat,
    round_no: nat,
    active: nat,
) -> bool {
    &&& traces.len() == orig.len()
    &&& mids.len() == orig.len()
    &&& forall|i: int|
        0 <= i < active ==> prover_trace(orig[i], #[trigger] traces[i], mids[i], challenges, n_rounds - nvs[i])
            && traces[i].len() == round_no + nvs[i] - n_rounds + 1
    &&& forall|i: int|
        active <= i < orig.len() ==> #[trigger] traces[i] == seq![orig[i]] && mids[i] == Seq::<P>::empty()
}

proof fn lemma_trace_more_challenges<F: Field, P: SumcheckProver<F>>(
    prover: P,
    trace: Seq<P>,
    mids: Seq<P>,
    challenges: Seq<F>,
    more: Seq<F>,
    join: int,
)
    requires
        prover_trace(prover, trace, mids, challenges, join),
        0 <= join,
        join + mids.len() <= challenges.len(),
        challenges.len() <= more.len(),
        forall|j: int| 0 <= j < challenges.len() ==> #[trigger] more[j] == challenges[j],
    ensures
        prover_trace(prover, trace, mids, more, join),
{
    assert forall|t: int| 0 <= t < mids.len() implies trace[t].spec_executes_to(#[trigger] mids[t])
        && mids[t].spec_folds_to(more[join + t], trace[t + 1]) by {
        assert(trace[t].spec_executes_to(mids[t]) && mids[t].spec_folds_to(challenges[join + t], trace[t + 1]));
        assert(more[join + t] == challenges[join + t]);
    }
}

proof fn lemma_trace_push<F: Field, P: SumcheckProver<F>>(
    prover: P,
    trace: Seq<P>,
    mids: Seq<P>,
    challenges: Seq<F>,
    join: int,
    mid: P,
    next: P,
)
    requires
        prover_trace(prover, trace, mids, challenges, join),
        trace.last().spec_executes_to(mid),
        mid.spec_folds_to(challenges[join + mids.len()], next),
    ensures
        prover_trace(prover, trace.push(next), mids.push(mid), challenges, join),
        trace.push(next).subrange(0, trace.len() as int) == trace,
{
    let tr = trace.push(next);
    let md = mids.push(mid);
    assert forall|t: int| 0 <= t < md.len() implies tr[t].spec_executes_to(#[trigger] md[t])
        && md[t].spec_folds_to(challenges[join + t], tr[t + 1]) by {
        if t < mids.len() {
            assert(tr[t] == trace[t] && md[t] == mids[t] && tr[t + 1] == trace[t + 1]);
        }
    }
    assert(tr.subrange(0, trace.len() as int) =~= trace);
}

fn run_rounds<F: Field, P: SumcheckProver<F>, C: Challenger<F>>(
    input: Vec<P>,
    challenger: &mut C,
) -> (r: Result<(BatchSumcheckOutput<F>, Proof<F>), Error>)
    requires
        input@.len() > 0,
        non_increasing(arities(input@)),
    ensures
        r is Err ==> r->Err_0 != Error::ClaimsOutOfOrder,
        r is Err ==> some_call_fails::<F, P>(input@),
        r is Ok ==> batch_output_shape(arities(input@), r->Ok_0.0, r->Ok_0.1),
        r is Ok ==> batch_run(
            input@,
            r->Ok_0.0,
            r->Ok_0.1,
            old(challenger).spec_log(),
            final(challenger).spec_log(),
        ),
{
    let ghost orig = input@;
    let ghost log0 = challenger.spec_log();
    let mut provers = input;
    let ghost nvs = arities(provers@);
    assert(forall|i: int| 0 <= i < provers@.len() ==> #[trigger] provers@[i].spec_n_vars() == nvs[i]);
    let n_provers = provers.len();
    let n_rounds = provers[0].n_vars();
    assert(forall|i: int| 0 <= i < nvs.len() ==> nvs[i] <= n_rounds) by {
        assert(forall|i: int| 0 < i < nvs.len() ==> nvs[0] >= #[trigger] nvs[i]);
    }
    let mut active: usize = 0;
    let mut batch_coeffs: Vec<F> = Vec::new();
    let mut challenges: Vec<F> = Vec::new();
    let mut rounds: Vec<RoundProof<F>> = Vec::new();
    let ghost mut bounds: Seq<nat> = seq![0nat];
    let ghost mut msgs: Seq<Seq<Seq<F>>> = Seq::empty();
    let ghost mut traces: Seq<Seq<P>> = Seq::new(orig.len(), |i: int| seq![orig[i]]);
    let ghost mut mids: Seq<Seq<P>> = Seq::new(orig.len(), |i: int| Seq::<P>::empty());
    assert(traced(orig, traces, mids, challenges@, nvs, n_rounds as nat, 0, 0));
    let mut round_no: usize = 0;
    while round_no < n_rounds
        invariant
            n_provers == provers@.len(),
            n_provers > 0,
            nvs.len() == n_provers,
            nvs == arities(orig),
            non_increasing(nvs),
            n_rounds == nvs[0],
            forall|i: int| 0 <= i < n_provers ==> nvs[i] <= n_rounds,
            forall|i: int| 0 <= i < n_provers ==> #[trigger] provers@[i].spec_n_vars() == nvs[i],
            round_no <= n_rounds,
            active <= n_provers,
            batch_coeffs@.len() == active,
            challenges@.len() == round_no,
            rounds@.len() == round_no,
            round_no > 0 ==> active > 0,
            forall|i: int| 0 <= i < active ==> nvs[i] + round_no > n_rounds,
            forall|i: int| active <= i < n_provers ==> nvs[i] + round_no <= n_rounds,
            bounds.len() == round_no + 1,
            bounds[0] == 0,
            bounds[round_no as int] == active,
            forall|j: int, m: int| #![trigger bounds[j], bounds[m]] 0 <= j <= m <= round_no ==> bounds[j] <= bounds[m],
            forall|k: int| 0 <= k <= round_no ==> #[trigger] bounds[k] <= n_provers,
            forall|k: int, i: int|
                0 <= k < round_no && 0 <= i < n_provers ==> (i < #[trigger] bounds[k + 1] <==> #[trigger] nvs[i]
                    + k >= n_rounds),
            challenger.spec_log() == log0 + rounds_transcript(
                batch_coeffs@,
                bounds,
                round_views(rounds@),
                challenges@,
                round_no as nat,
            ),
            msgs.len() == round_no,
            orig.len() == n_provers,
                orig == input@,
                nvs == arities(orig),
            traced(orig, traces, mids, challenges@, nvs, n_rounds as nat, round_no as nat, active as nat),
            forall|i: int| 0 <= i < n_provers ==> #[trigger] provers@[i] == traces[i].last(),
            forall|k: int, i: int|
                0 <= k < round_no && 0 <= i < bounds[k + 1] ==> #[trigger] msgs[k][i] == traces[i][k - (n_rounds
                    - nvs[i])].spec_message(batch_coeffs@[i]),
            forall|k: int|
                0 <= k < round_no ==> (#[trigger] msgs[k]).len() == bounds[k + 1] && rounds@[k]@
                    == truncated(weighted_sum(msgs[k], batch_coeffs@)),
        decreases n_rounds - round_no,
    {
        let n_vars = n_rounds - round_no;
        let ghost log_start = challenger.spec_log();
        let ghost active_start = active;
        let ghost coeffs_start = batch_coeffs@;
        while active < n_provers && provers[active].n_vars() == n_vars
            invariant
                n_provers == provers@.len(),
                n_vars + round_no == n_rounds,
                non_increasing(nvs),
                nvs.len() == n_provers,
                forall|i: int| 0 <= i < n_provers ==> #[trigger] provers@[i].spec_n_vars() == nvs[i],
                active_start <= active <= n_provers,
                batch_coeffs@.len() == active,
                batch_coeffs@.subrange(0, active_start as int) == coeffs_start,
                forall|i: int| 0 <= i < active ==> nvs[i] + round_no >= n_rounds,
                forall|i: int| active <= i < n_provers ==> nvs[i] + round_no <= n_rounds,
                challenger.spec_log() == log_start + Seq::new(
                    (active - active_start) as nat,
                    |j: int| TranscriptEvent::Sample(batch_coeffs@[active_start + j]),
                ),
                orig.len() == n_provers,
                orig == input@,
                nvs == arities(orig),
                traced(orig, traces, mids, challenges@, nvs, n_rounds as nat, round_no as nat, active_start as nat),
                forall|i: int| 0 <= i < n_provers ==> #[trigger] provers@[i] == traces[i].last(),
                forall|i: int| active_start <= i < active ==> nvs[i] + round_no == n_rounds,
            decreases n_provers - active,
        {
            let coeff = challenger.sample();
            batch_coeffs.push(coeff);
            active = active + 1;
            assert(batch_coeffs@.subrange(0, active_start as int) =~= coeffs_start);
            assert(challenger.spec_log() =~= log_start + Seq::new(
                (active - active_start) as nat,
                |j: int| TranscriptEvent::Sample(batch_coeffs@[active_start + j]),
            ));
        }
        assert(active > 0) by {
            if active == 0 {
                assert(provers@[0].spec_n_vars() == nvs[0]);
            }
        }
        assert(forall|i: int| active <= i < n_provers ==> nvs[i] < n_vars) by {
            if active < n_provers {
                assert(provers@[active as int].spec_n_vars() == nvs[active as int]);
                assert(forall|i: int| active <= i < n_provers ==> nvs[active as int] >= #[trigger] nvs[i]);
            }
        }
        proof {
            assert(traced(orig, traces, mids, challenges@, nvs, n_rounds as nat, round_no as nat, active_start as nat));
            assert forall|i: int| 0 <= i < active implies prover_trace(
                orig[i],
                #[trigger] traces[i],
                mids[i],
                challenges@,
                n_rounds - nvs[i],
            ) && traces[i].len() == round_no + nvs[i] - n_rounds + 1 by {
                if i >= active_start {
                    assert(traces[i] == seq![orig[i]]);
                    assert(mids[i] == Seq::<P>::empty());
                    assert(nvs[i] + round_no == n_rounds);
                }
            }
            assert forall|i: int| active <= i < orig.len() implies #[trigger] traces[i] == seq![orig[i]]
                && mids[i] == Seq::<P>::empty() by {
            }
            assert(traced(orig, traces, mids, challenges@, nvs, n_rounds as nat, round_no as nat, active as nat));
        }
        let mut messages: Vec<RoundCoeffs<F>> = Vec::new();
        let mut i: usize = 0;
        while i < active
            invariant
                n_provers == provers@.len(),
                n_vars + round_no == n_rounds,
                n_vars >= 1,
                i <= active,
                active <= n_provers,
                batch_coeffs@.len() == active,
                nvs.len() == n_provers,
                messages@.len() == i,
                orig.len() == n_provers,
                orig == input@,
                nvs == arities(orig),
                traced(orig, traces, mids, challenges@, nvs, n_rounds as nat, round_no as nat, active as nat),
                forall|k: int| 0 <= k < i ==> (#[trigger] traces[k]).last().spec_executes_to(provers@[k]),
                forall|k: int| i <= k < n_provers ==> #[trigger] provers@[k] == traces[k].last(),
                forall|j: int|
                    0 <= j < i ==> #[trigger] messages@[j]@ == traces[j].last().spec_message(batch_coeffs@[j]),
                forall|k: int| 0 <= k < n_provers ==> #[trigger] provers@[k].spec_n_vars() == nvs[k],
            decreases active - i,
        {
            let coeff = batch_coeffs[i];
            let ghost before = provers@;
            let result = provers[i].execute(coeff);
            assert(forall|k: int| 0 <= k < n_provers && k != i ==> #[trigger] provers@[k] == before[k]);
            match result {
                Ok(prover_coeffs) => {
                    messages.push(prover_coeffs);
                },
                Err(e) => {
                    proof {
                        let ii = i as int;
                        assert(before[ii] == traces[ii].last());
                        assert(nvs[ii] == orig[ii].spec_n_vars());
                        assert(traces[ii].len() == round_no + nvs[ii] - n_rounds + 1);
                        assert(fails_at(
                            orig,
                            ii,
                            traces[ii],
                            mids[ii],
                            challenges@,
                            n_rounds - nvs[ii],
                            before[ii],
                            coeff,
                        ));
                    }
                    return Err(e);
                },
            }
            i = i + 1;
        }
        let ghost round_msgs = messages@.map_values(|m: RoundCoeffs<F>| m@);
        let round_proof = combine_round(messages, batch_coeffs.as_slice());
        challenger.observe_slice(round_proof.coeffs());
        let ghost rounds_before = rounds@;
        let ghost challenges_before = challenges@;
        let ghost bounds_before = bounds;
        let ghost log_mid = challenger.spec_log();
        rounds.push(round_proof);
        let challenge = challenger.sample();
        challenges.push(challenge);
        proof {
            bounds = bounds.push(active as nat);
            msgs = msgs.push(round_msgs);
            assert forall|k: int, j: int|
                0 <= k < round_no + 1 && 0 <= j < bounds[k + 1] implies #[trigger] msgs[k][j] == traces[j][k
                - (n_rounds - nvs[j])].spec_message(batch_coeffs@[j]) by {
                if k < round_no {
                    assert(msgs[k] == msgs.drop_last()[k]);
                    assert(coeffs_start[j] == batch_coeffs@[j]);
                } else {
                    assert(round_msgs[j] == messages@[j]@);
                    assert(traces[j].len() == round_no + nvs[j] - n_rounds + 1);
                }
            }
            assert forall|j: int| 0 <= j < active implies prover_trace(
                orig[j],
                #[trigger] traces[j],
                mids[j],
                challenges@,
                n_rounds - nvs[j],
            ) by {
                lemma_trace_more_challenges(orig[j], traces[j], mids[j], challenges_before, challenges@, n_rounds - nvs[j]);
            }
            assert forall|k: int| 0 <= k < round_no + 1 implies (#[trigger] msgs[k]).len() == bounds[k + 1]
                && rounds@[k]@ == truncated(weighted_sum(msgs[k], batch_coeffs@)) by {
                if k < round_no {
                    assert(msgs[k] == msgs.drop_last()[k]);
                    lemma_weighted_sum_prefix(msgs[k], coeffs_start, batch_coeffs@);
                }
            }
            lemma_rounds_transcript_prefix(
                coeffs_start,
                bounds_before,
                round_views(rounds_before),
                challenges_before,
                batch_coeffs@,
                bounds,
                round_views(rounds@),
                challenges@,
                round_no as nat,
            );
            let ev = round_events(
                batch_coeffs@,
                active_start as nat,
                active as nat,
                rounds@[round_no as int]@,
                challenge,
            );
            assert(round_views(rounds@)[round_no as int] == rounds@[round_no as int]@);
            assert(challenger.spec_log() =~= log0 + rounds_transcript(
                batch_coeffs@,
                bounds,
                round_views(rounds@),
                challenges@,
                round_no as nat,
            ) + ev);
        }
        let ghost traces_start = traces;
        let ghost mids_start = mids;
        let mut i: usize = 0;
        while i < active
            invariant
                n_provers == provers@.len(),
                n_vars + round_no == n_rounds,
                n_vars >= 1,
                i <= active,
                active <= n_provers,
                nvs.len() == n_provers,
                forall|k: int| 0 <= k < n_provers ==> #[trigger] provers@[k].spec_n_vars() == nvs[k],
                orig.len() == n_provers,
                orig == input@,
                nvs == arities(orig),
                challenges@.len() == round_no + 1,
                challenges@[round_no as int] == challenge,
                traces.len() == n_provers,
                mids.len() == n_provers,
                traces_start.len() == n_provers,
                mids_start.len() == n_provers,
                forall|k: int| 0 <= k < active ==> nvs[k] + round_no >= n_rounds,
                forall|k: int|
                    0 <= k < active ==> prover_trace(
                        orig[k],
                        #[trigger] traces_start[k],
                        mids_start[k],
                        challenges@,
                        n_rounds - nvs[k],
                    ) && traces_start[k].len() == round_no + nvs[k] - n_rounds + 1,
                forall|k: int|
                    0 <= k < i ==> prover_trace(
                        orig[k],
                        #[trigger] traces[k],
                        mids[k],
                        challenges@,
                        n_rounds - nvs[k],
                    ) && traces[k].len() == round_no + 1 + nvs[k] - n_rounds + 1 && provers@[k] == traces[k].last()
                        && traces[k].subrange(0, traces_start[k].len() as int) == traces_start[k],
                forall|k: int|
                    i <= k < active ==> #[trigger] traces[k] == traces_start[k] && mids[k] == mids_start[k]
                        && traces[k].last().spec_executes_to(provers@[k]),
                forall|k: int|
                    active <= k < n_provers ==> #[trigger] traces[k] == traces_start[k] && mids[k] == mids_start[k]
                        && provers@[k] == traces[k].last(),
            decreases active - i,
        {
            let ghost before = provers@;
            let result = provers[i].fold(challenge);
            assert(forall|k: int| 0 <= k < n_provers && k != i ==> #[trigger] provers@[k] == before[k]);
            match result {
                Ok(()) => {},
                Err(e) => {
                    proof {
                        let ii = i as int;
                        assert(traces[ii] == traces_start[ii]);
                        assert(nvs[ii] == orig[ii].spec_n_vars());
                        assert(traces[ii].len() == round_no + nvs[ii] - n_rounds + 1);
                        assert(fails_at(
                            orig,
                            ii,
                            traces[ii],
                            mids[ii],
                            challenges@,
                            n_rounds - nvs[ii],
                            before[ii],
                            challenge,
                        ));
                    }
                    return Err(e);
                },
            }
            proof {
                let ii = i as int;
                let join = n_rounds - nvs[ii];
                assert(traces[ii] == traces_start[ii]);
                lemma_trace_push(orig[ii], traces[ii], mids[ii], challenges@, join, before[ii], provers@[ii]);
                let ghost tr_old = traces;
                let ghost md_old = mids;
                traces = traces.update(ii, traces[ii].push(provers@[ii]));
                mids = mids.update(ii, mids[ii].push(before[ii]));
                assert forall|k: int| 0 <= k < n_provers && k != ii implies #[trigger] traces[k] == tr_old[k]
                    && mids[k] == md_old[k] && provers@[k] == before[k] by {
                }
                assert forall|k: int| ii + 1 <= k < active implies #[trigger] traces[k] == traces_start[k]
                    && mids[k] == mids_start[k] && traces[k].last().spec_executes_to(provers@[k]) by {
                    assert(tr_old[k] == traces_start[k]);
                    assert(tr_old[k].last().spec_executes_to(before[k]));
                }
                assert forall|k: int| active <= k < n_provers implies #[trigger] traces[k] == traces_start[k]
                    && mids[k] == mids_start[k] && provers@[k] == traces[k].last() by {
                    assert(tr_old[k] == traces_start[k]);
                    assert(before[k] == tr_old[k].last());
                }
            }
            i = i + 1;
        }
        proof {
            assert forall|k: int, j: int|
                0 <= k < round_no + 1 && 0 <= j < bounds[k + 1] implies #[trigger] msgs[k][j] == traces[j][k
                - (n_rounds - nvs[j])].spec_message(batch_coeffs@[j]) by {
                assert(traces_start[j] == traces[j].subrange(0, traces_start[j].len() as int));
                assert(traces[j][k - (n_rounds - nvs[j])] == traces_start[j][k - (n_rounds - nvs[j])]);
            }
        }
        round_no = round_no + 1;
    }
    let ghost log_rounds = challenger.spec_log();
    let ghost finals = provers@;
    assert forall|j: int| 0 <= j < n_provers implies prover_trace(
        orig[j],
        #[trigger] traces[j],
        mids[j],
        challenges@,
        n_rounds - nvs[j],
    ) && traces[j].len() == nvs[j] + 1 && traces[j][nvs[j] as int] == finals[j] by {
        if j >= active {
            assert(traces[j] == seq![orig[j]]);
            assert(nvs[j] == 0);
        }
    }
    let mut proof_evals: Vec<Vec<F>> = Vec::new();
    let mut output_evals: Vec<Vec<F>> = Vec::new();
    let mut k: usize = 0;
    while k < n_provers
        invariant
            k <= n_provers,
            finals.len() == n_provers,
            provers@.len() == n_provers - k,
            forall|j: int| 0 <= j < provers@.len() ==> #[trigger] provers@[j] == finals[j + k],
            forall|j: int| 0 <= j < n_provers ==> #[trigger] finals[j].spec_n_vars() == nvs[j],
            nvs.len() == n_provers,
            proof_evals@.len() == k,
            output_evals@.len() == k,
            forall|j: int| 0 <= j < k ==> #[trigger] output_evals@[j]@ == proof_evals@[j]@,
            forall|j: int| 0 <= j < k ==> #[trigger] proof_evals@[j]@ == finals[j].spec_final_evals(),
            orig == input@,
            orig.len() == n_provers,
            traces.len() == n_provers,
            mids.len() == n_provers,
            forall|j: int|
                0 <= j < n_provers ==> prover_trace(
                    orig[j],
                    #[trigger] traces[j],
                    mids[j],
                    challenges@,
                    n_rounds - nvs[j],
                ) && traces[j].last() == finals[j] && traces[j].len() == nvs[j] + 1,
            nvs == arities(orig),
        decreases n_provers - k,
    {
        let ghost before = provers@;
        let prover = provers.remove(0);
        assert(forall|j: int| 0 <= j < provers@.len() ==> #[trigger] provers@[j] == before[j + 1]);
        match prover.finish() {
            Ok(evals) => {
                let copy = copy_evals(&evals);
                proof_evals.push(evals);
                output_evals.push(copy);
            },
            Err(e) => {
                proof {
                    let kk = k as int;
                    assert(nvs[kk] == orig[kk].spec_n_vars());
                    assert(fails_at(
                        orig,
                        kk,
                        traces[kk],
                        mids[kk],
                        challenges@,
                        n_rounds - nvs[kk],
                        finals[kk],
                        F::spec_zero(),
                    ));
                }
                return Err(e);
            },
        }
        k = k + 1;
    }
    let mut k: usize = 0;
    while k < proof_evals.len()
        invariant
            k <= proof_evals@.len(),
            challenger.spec_log() == log_rounds + evals_transcript(
                eval_views(proof_evals@).subrange(0, k as int),
            ),
        decreases proof_evals@.len() - k,
    {
        challenger.observe_slice(proof_evals[k].as_slice());
        assert(challenger.spec_log() =~= log_rounds + evals_transcript(
            eval_views(proof_evals@).subrange(0, k + 1),
        ));
        k = k + 1;
    }
    assert(eval_views(proof_evals@).subrange(0, k as int) =~= eval_views(proof_evals@));
    let ghost proof_evals_view = proof_evals@;
    let output = BatchSumcheckOutput { challenges, multilinear_evals: output_evals };
    let proof = Proof { rounds, multilinear_evals: proof_evals };
    assert(round_views(proof.rounds@) == round_views(rounds@));
    assert(batch_run_with(
        orig,
        output,
        proof,
        log0,
        challenger.spec_log(),
        batch_coeffs@,
        bounds,
        msgs,
        traces,
        mids,
    )) by {
        assert(activation_bounds(nvs, n_rounds as nat, bounds));
        assert(eval_views(proof.multilinear_evals@) == eval_views(proof_evals_view));
    }
    Ok((output, proof))
}

} // verus!
