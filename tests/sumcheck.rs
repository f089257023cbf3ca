use binius_sumcheck::index::index_composition;
use binius_sumcheck::batch_prove::{batch_prove, Challenger, SumcheckProver};
use binius_sumcheck::field::{BinaryField1b, BinaryField32b as B32, Field};
use binius_sumcheck::multilinear_query::MultilinearQuery;
use binius_sumcheck::polynomial::ProductComposition as Product;
use binius_sumcheck::prover::{fold_evals, round_coeffs_of, MultilinearProver};
use binius_sumcheck::sumcheck::{CompositeSumClaim, Error, RoundCoeffs, SumcheckClaim};

fn felts(values: &[u32]) -> Vec<B32> {
    values.iter().map(|&v| B32::new(v)).collect()
}

/// A transcript that hands out 1, 2, 3, ... and records what passes through it.
struct CountingChallenger {
    next: u32,
    log: Vec<String>,
}

impl CountingChallenger {
    fn new() -> Self {
        CountingChallenger { next: 1, log: Vec::new() }
    }
}

impl Challenger<B32> for CountingChallenger {
    fn sample(&mut self) -> B32 {
        let value = self.next;
        self.next += 1;
        self.log.push(format!("sample {}", value));
        B32::new(value)
    }
    fn observe_slice(&mut self, values: &[B32]) {
        let shown: Vec<String> = values.iter().map(|v| v.val.to_string()).collect();
        self.log.push(format!("observe [{}]", shown.join(",")));
    }
}

fn prover(n_vars: usize, evals: &[u32]) -> MultilinearProver<B32> {
    MultilinearProver::new(n_vars, felts(evals)).unwrap()
}

/// The multilinear extension of `evals` at `point`, through the tensor expansion.
fn evaluate_at(evals: &[u32], point: &[B32]) -> B32 {
    let query = MultilinearQuery::with_full_query(point, 0).unwrap();
    let weights = query.expansion();
    assert_eq!(weights.len(), evals.len());
    weights
        .iter()
        .zip(felts(evals))
        .fold(B32::zero(), |acc, (w, e)| acc.add(w.mul(e)))
}

#[test]
fn recover_restores_truncated_coefficient() {
    let coeffs = RoundCoeffs(felts(&[3, 5, 9]));
    let proof = coeffs.clone().truncate();
    assert_eq!(proof.coeffs(), &felts(&[3, 5])[..]);
    // r(0) + r(1) = 3 + (3 ^ 5 ^ 9) = 5 ^ 9 = 12
    let recovered = proof.recover(B32::new(12));
    assert_eq!(recovered.0, coeffs.0);
}

#[test]
fn recover_satisfies_sum_identity() {
    let proof = RoundCoeffs(felts(&[7, 1, 4, 0])).truncate();
    let sum = B32::new(0x1234);
    let full = proof.recover(sum).0;
    let at_zero = full[0];
    let at_one = full.iter().fold(B32::zero(), |acc, c| acc.add(*c));
    assert_eq!(at_zero.add(at_one), sum);
    assert_eq!(full.len(), 4);
}

#[test]
fn recover_of_empty_proof_is_the_sum() {
    let proof = RoundCoeffs::<B32>::new().truncate();
    assert!(proof.coeffs().is_empty());
    assert_eq!(proof.recover(B32::new(6)).0, felts(&[6]));
}

#[test]
fn round_coeffs_add_zero_extends() {
    let short = RoundCoeffs(felts(&[1, 2]));
    let long = RoundCoeffs(felts(&[4, 4, 4]));
    assert_eq!(short.clone().add(&long).0, felts(&[5, 6, 4]));
    assert_eq!(long.add(&short).0, felts(&[5, 6, 4]));
}

#[test]
fn round_coeffs_scale() {
    let coeffs = RoundCoeffs(felts(&[1, 2, 3]));
    // 2 * 2 = 3 and 3 * 2 = 1 in the tower field.
    assert_eq!(coeffs.mul(B32::new(2)).0, felts(&[2, 3, 1]));
}

#[test]
fn round_coeffs_over_gf2() {
    let one = BinaryField1b::new(true);
    let zero = BinaryField1b::new(false);
    let mut coeffs = RoundCoeffs(vec![one, zero]);
    coeffs.add_assign(&RoundCoeffs(vec![one, one, one]));
    assert_eq!(coeffs.0, vec![zero, one, one]);
    coeffs.mul_assign(zero);
    assert_eq!(coeffs.0, vec![zero, zero, zero]);
}

#[test]
fn claim_rejects_mismatched_composition() {
    let sums = vec![
        CompositeSumClaim { composition: Product { n_vars: 2 }, sum: B32::new(1) },
        CompositeSumClaim { composition: Product { n_vars: 3 }, sum: B32::new(2) },
    ];
    let result = SumcheckClaim::new(4, 2, sums);
    assert!(matches!(result, Err(Error::InvalidComposition { expected_n_vars: 2 })));
}

#[test]
fn claim_keeps_its_fields() {
    let sums = vec![
        CompositeSumClaim { composition: Product { n_vars: 3 }, sum: B32::new(1) },
        CompositeSumClaim { composition: Product { n_vars: 3 }, sum: B32::new(2) },
    ];
    let claim = SumcheckClaim::new(5, 3, sums).unwrap();
    assert_eq!(claim.n_vars(), 5);
    assert_eq!(claim.n_multilinears(), 3);
    assert_eq!(claim.composite_sums().len(), 2);
    assert_eq!(claim.composite_sums()[1].sum, B32::new(2));
    assert_eq!(claim.max_individual_degree(), 3);
    let empty = SumcheckClaim::<B32, Product>::new(5, 3, vec![]).unwrap();
    assert_eq!(empty.max_individual_degree(), 0);
}

#[test]
fn batch_prove_of_nothing_is_empty() {
    let mut challenger = CountingChallenger::new();
    let (output, proof) =
        batch_prove::<B32, MultilinearProver<B32>, _>(Vec::new(), &mut challenger).unwrap();
    assert!(output.challenges.is_empty());
    assert!(output.multilinear_evals.is_empty());
    assert!(proof.rounds.is_empty());
    assert!(proof.multilinear_evals.is_empty());
    assert!(challenger.log.is_empty());
}

#[test]
fn batch_prove_rejects_increasing_arity() {
    let mut challenger = CountingChallenger::new();
    let provers = vec![prover(1, &[1, 2]), prover(2, &[1, 2, 3, 4])];
    let result = batch_prove(provers, &mut challenger);
    assert!(matches!(result, Err(Error::ClaimsOutOfOrder)));
    assert!(challenger.log.is_empty());
}

#[test]
fn batch_prove_runs_max_arity_rounds() {
    let mut challenger = CountingChallenger::new();
    let provers = vec![
        prover(3, &[1, 2, 3, 4, 5, 6, 7, 8]),
        prover(3, &[8, 7, 6, 5, 4, 3, 2, 1]),
        prover(1, &[9, 10]),
    ];
    let (output, proof) = batch_prove(provers, &mut challenger).unwrap();
    assert_eq!(output.challenges.len(), 3);
    assert_eq!(proof.rounds.len(), 3);
    assert_eq!(proof.multilinear_evals.len(), 3);
    let kinds: Vec<&str> = challenger.log.iter().map(|e| &e[..e.find(' ').unwrap()]).collect();
    assert_eq!(
        kinds,
        vec![
            "sample", "sample", "observe", "sample", // round 0: two provers join
            "observe", "sample", // round 1: no prover joins
            "sample", "observe", "sample", // round 2: the one-variable prover joins
            "observe", "observe", "observe",
        ]
    );
}

#[test]
fn batch_prove_two_claims_end_to_end() {
    let a = [3u32, 9, 14, 5];
    let b = [6u32, 11];
    let mut challenger = CountingChallenger::new();
    let provers = vec![prover(2, &a), prover(1, &b)];
    let (output, proof) = batch_prove(provers, &mut challenger).unwrap();

    // Transcript: coefficient 1 for the first prover, challenge 2, coefficient
    // 3 for the second prover, challenge 4.
    assert_eq!(output.challenges, felts(&[2, 4]));
    assert_eq!(proof.rounds.len(), 2);
    assert_eq!(proof.multilinear_evals.len(), 2);

    // Round 0: only the two-variable claim; r(0) = a[0] + a[2].
    assert_eq!(proof.rounds[0].coeffs(), &felts(&[3 ^ 14])[..]);

    // Round 1: the folded first claim plus the second scaled by 3.
    let a_folded = fold_evals(&felts(&a), B32::new(2));
    let expected = a_folded[0].add(B32::new(3).mul(B32::new(6)));
    assert_eq!(proof.rounds[1].coeffs(), &[expected][..]);

    let eval_a = evaluate_at(&a, &felts(&[2, 4]));
    let eval_b = evaluate_at(&b, &felts(&[4]));
    assert_eq!(proof.multilinear_evals, vec![vec![eval_a], vec![eval_b]]);
    assert_eq!(output.multilinear_evals, proof.multilinear_evals);

    let expected_log = vec![
        "sample 1".to_string(),
        format!("observe [{}]", 3 ^ 14),
        "sample 2".to_string(),
        "sample 3".to_string(),
        format!("observe [{}]", expected.val),
        "sample 4".to_string(),
        format!("observe [{}]", eval_a.val),
        format!("observe [{}]", eval_b.val),
    ];
    assert_eq!(challenger.log, expected_log);
}

#[test]
fn batch_prove_with_zero_variable_prover() {
    let mut challenger = CountingChallenger::new();
    let provers = vec![prover(1, &[4, 6]), prover(0, &[13])];
    let (output, proof) = batch_prove(provers, &mut challenger).unwrap();
    assert_eq!(output.challenges, felts(&[2]));
    let eval = evaluate_at(&[4, 6], &felts(&[2]));
    assert_eq!(proof.multilinear_evals, vec![vec![eval], felts(&[13])]);
}

#[test]
fn prover_round_message_and_fold() {
    let evals = felts(&[1, 2, 4, 8]);
    let message = round_coeffs_of(&evals);
    assert_eq!(message.0, felts(&[1 ^ 4, (2 ^ 1) ^ (8 ^ 4)]));
    assert_eq!(fold_evals(&evals, B32::new(0)), felts(&[1, 4]));
    assert_eq!(fold_evals(&evals, B32::new(1)), felts(&[2, 8]));
}

#[test]
fn prover_rejects_out_of_order_calls() {
    let mut p = prover(2, &[1, 2, 3, 4]);
    assert!(matches!(p.fold(B32::new(5)), Err(Error::ExpectedExecution)));
    assert!(p.execute(B32::new(1)).is_ok());
    assert!(matches!(p.execute(B32::new(1)), Err(Error::ExpectedFold)));
    assert!(p.fold(B32::new(5)).is_ok());
    assert!(matches!(prover(1, &[1, 2]).finish(), Err(Error::ExpectedFinish)));
    assert!(matches!(p.finish(), Err(Error::ExpectedFinish)));
}

#[test]
fn prover_rejects_wrong_table_size() {
    assert!(matches!(
        MultilinearProver::new(2, felts(&[1, 2, 3])),
        Err(Error::NumberOfVariablesMismatch)
    ));
    assert_eq!(SumcheckProver::<B32>::n_vars(&prover(2, &[1, 2, 3, 4])), 2);
}

#[test]
fn claim_max_degree_uses_composition_degree() {
    let ids = [1usize, 2, 3, 4];
    let sums = vec![
        CompositeSumClaim {
            composition: index_composition::<B32, _, 2>(&ids, [2, 4], Product { n_vars: 2 }).unwrap(),
            sum: B32::new(1),
        },
        CompositeSumClaim {
            composition: index_composition::<B32, _, 2>(&ids, [1, 3], Product { n_vars: 2 }).unwrap(),
            sum: B32::new(2),
        },
    ];
    let claim = SumcheckClaim::new(6, 4, sums).unwrap();
    assert_eq!(claim.max_individual_degree(), 2);
}

#[test]
fn prover_inherent_steps() {
    let mut p = prover(1, &[5, 7]);
    assert!(matches!(p.fold_round(B32::new(1)), Err(Error::ExpectedExecution)));
    assert_eq!(p.execute_round().unwrap().0, felts(&[5, 5 ^ 7]));
    assert!(matches!(p.execute_round(), Err(Error::ExpectedFold)));
    p.fold_round(B32::new(1)).unwrap();
    assert!(matches!(p.execute_round(), Err(Error::ExpectedFinish)));
    assert_eq!(p.finish_evals().unwrap(), felts(&[7]));
}
