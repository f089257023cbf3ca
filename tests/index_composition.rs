use binius_sumcheck::field::BinaryField32b as B32;
use binius_sumcheck::index::index_composition;
use binius_sumcheck::polynomial::{CompositionPoly, Error as PolyError, ProductComposition as Product};

fn felts(values: &[u32]) -> Vec<B32> {
    values.iter().map(|&v| B32::new(v)).collect()
}

#[test]
fn index_composition_matches_inner_on_gathered_query() {
    let superset = [10usize, 20, 30, 40];
    let adapter = index_composition(&superset, [40, 20], Product { n_vars: 2 }).unwrap();
    assert_eq!(CompositionPoly::<B32>::n_vars(&adapter), 4);
    assert_eq!(CompositionPoly::<B32>::degree(&adapter), 2);
    assert_eq!(CompositionPoly::<B32>::binary_tower_level(&adapter), 0);
    let outer = felts(&[3, 2, 7, 2]);
    let inner = Product { n_vars: 2 }.evaluate(&felts(&[2, 2])).unwrap();
    assert_eq!(adapter.evaluate(&outer).unwrap(), inner);
    assert_eq!(inner, B32::new(3));
}

#[test]
fn index_composition_rejects_wrong_query_length() {
    let adapter = index_composition(&[1usize, 2, 3], [3], Product { n_vars: 1 }).unwrap();
    let result = adapter.evaluate(&felts(&[1, 2]));
    assert!(matches!(result, Err(PolyError::IncorrectQuerySize { expected: 3 })));
}

#[test]
fn index_composition_rejects_unknown_identifier() {
    let result = index_composition::<B32, _, 2>(&[1usize, 2, 3], [2, 5], Product { n_vars: 2 });
    assert!(matches!(result, Err(PolyError::MixedMultilinearNotFound)));
}

#[test]
fn index_composition_rejects_arity_mismatch() {
    let result = index_composition::<B32, _, 2>(&[1usize, 2, 3], [2, 3], Product { n_vars: 3 });
    assert!(matches!(result, Err(PolyError::CompositionArityMismatch { expected: 2, actual: 3 })));
}

#[test]
fn index_composition_uses_first_position() {
    let adapter = index_composition(&[7usize, 7, 8], [7, 8], Product { n_vars: 2 }).unwrap();
    // Picks positions 0 and 2.
    assert_eq!(adapter.evaluate(&felts(&[2, 3, 2])).unwrap(), B32::new(3));
}
