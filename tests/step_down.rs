use binius_sumcheck::field::BinaryField1b;
use binius_sumcheck::polynomial::Error;
use binius_sumcheck::step_down::StepDown;
use std::ops::Range;

fn bits(values: &[u8]) -> Vec<BinaryField1b> {
    values.iter().map(|&v| BinaryField1b::new(v == 1)).collect()
}

fn packed_slice(ranges: &[(Range<usize>, u8)]) -> Vec<BinaryField1b> {
    let mut out = Vec::new();
    for (range, value) in ranges {
        for _ in range.clone() {
            out.push(BinaryField1b::new(*value == 1));
        }
    }
    out
}

fn stepdown_evals(n_vars: usize, index: usize, log_width: usize) -> Vec<BinaryField1b> {
    StepDown::new(n_vars, index)
        .unwrap()
        .multilinear_extension(log_width)
        .unwrap()
}

/// The polynomial evaluated at every point of the hypercube, the first
/// variable on the lowest bit of the position.
fn hypercube_evals_from_oracle(step_down: &StepDown) -> Vec<BinaryField1b> {
    let n_vars = step_down.n_vars();
    (0..1usize << n_vars)
        .map(|i| {
            let query: Vec<BinaryField1b> =
                (0..n_vars).map(|j| BinaryField1b::new((i >> j) & 1 == 1)).collect();
            step_down.evaluate(&query).unwrap()
        })
        .collect()
}

#[test]
fn test_step_down_trace_without_packing_simple_cases() {
    assert_eq!(stepdown_evals(2, 1, 0), bits(&[1, 0, 0, 0]));
    assert_eq!(stepdown_evals(2, 2, 0), bits(&[1, 1, 0, 0]));
    assert_eq!(stepdown_evals(2, 3, 0), bits(&[1, 1, 1, 0]));
    assert_eq!(stepdown_evals(3, 1, 0), bits(&[1, 0, 0, 0, 0, 0, 0, 0]));
    assert_eq!(stepdown_evals(3, 2, 0), bits(&[1, 1, 0, 0, 0, 0, 0, 0]));
    assert_eq!(stepdown_evals(3, 3, 0), bits(&[1, 1, 1, 0, 0, 0, 0, 0]));
    assert_eq!(stepdown_evals(3, 4, 0), bits(&[1, 1, 1, 1, 0, 0, 0, 0]));
    assert_eq!(stepdown_evals(3, 5, 0), bits(&[1, 1, 1, 1, 1, 0, 0, 0]));
    assert_eq!(stepdown_evals(3, 6, 0), bits(&[1, 1, 1, 1, 1, 1, 0, 0]));
    assert_eq!(stepdown_evals(3, 7, 0), bits(&[1, 1, 1, 1, 1, 1, 1, 0]));
}

#[test]
fn test_step_down_trace_without_packing() {
    assert_eq!(stepdown_evals(9, 314, 0), packed_slice(&[(0..314, 1), (314..512, 0)]));
    assert_eq!(stepdown_evals(10, 555, 0), packed_slice(&[(0..555, 1), (555..1024, 0)]));
    assert_eq!(stepdown_evals(11, 1, 0), packed_slice(&[(0..1, 1), (1..2048, 0)]));
}

#[test]
fn test_step_down_trace_with_packing_128() {
    assert_eq!(stepdown_evals(9, 314, 7), packed_slice(&[(0..314, 1), (314..512, 0)]));
    assert_eq!(stepdown_evals(10, 555, 7), packed_slice(&[(0..555, 1), (555..1024, 0)]));
    assert_eq!(stepdown_evals(11, 1, 7), packed_slice(&[(0..1, 1), (1..2048, 0)]));
}

#[test]
fn test_step_down_trace_with_packing_256() {
    assert_eq!(stepdown_evals(9, 314, 8), packed_slice(&[(0..314, 1), (314..512, 0)]));
    assert_eq!(stepdown_evals(10, 555, 8), packed_slice(&[(0..555, 1), (555..1024, 0)]));
    assert_eq!(stepdown_evals(11, 1, 8), packed_slice(&[(0..1, 1), (1..2048, 0)]));
}

#[test]
fn test_consistency_between_multilinear_extension_and_multilinear_poly_oracle() {
    for n_vars in 1..5 {
        for index in 1..(1 << n_vars) {
            let step_down = StepDown::new(n_vars, index).unwrap();
            assert_eq!(
                hypercube_evals_from_oracle(&step_down),
                step_down.multilinear_extension(0).unwrap()
            );
        }
    }
}

#[test]
fn step_down_rejects_index_out_of_range() {
    let expected = Error::ArgumentRangeError { arg: "index".to_string(), range_start: 1, range_end: 8 };
    assert_eq!(StepDown::new(3, 0).unwrap_err(), expected);
    assert_eq!(StepDown::new(3, 8).unwrap_err(), expected);
}

#[test]
fn step_down_rejects_unfilled_packing() {
    let step_down = StepDown::new(3, 2).unwrap();
    assert_eq!(
        step_down.multilinear_extension(4).unwrap_err(),
        Error::PackedFieldNotFilled { length: 8, packed_width: 16 }
    );
    assert_eq!(step_down.degree(), 3);
    assert_eq!(step_down.binary_tower_level(), 0);
}

#[test]
fn step_down_rejects_wrong_query_length() {
    let step_down = StepDown::new(2, 1).unwrap();
    let query = vec![BinaryField1b::new(true)];
    assert_eq!(step_down.evaluate(&query).unwrap_err(), Error::IncorrectQuerySize { expected: 2 });
}
