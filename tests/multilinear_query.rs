use binius_sumcheck::field::{BinaryField32b as B32, Field};
use binius_sumcheck::multilinear_query::MultilinearQuery;
use binius_sumcheck::polynomial::Error;

fn felts(values: &[u32]) -> Vec<B32> {
    values.iter().map(|&v| B32::new(v)).collect()
}

fn expand(query: &[u32], log_width: usize) -> Vec<B32> {
    MultilinearQuery::with_full_query(&felts(query), log_width)
        .unwrap()
        .expansion()
        .to_vec()
}

#[test]
fn test_query_no_packing_32b() {
    assert_eq!(expand(&[], 0), felts(&[1]));
    assert_eq!(expand(&[2], 0), felts(&[3, 2]));
    assert_eq!(expand(&[2, 2], 0), felts(&[2, 1, 1, 3]));
    assert_eq!(expand(&[2, 2, 2], 0), felts(&[1, 3, 3, 2, 3, 2, 2, 1]));
    assert_eq!(
        expand(&[2, 2, 2, 2], 0),
        felts(&[3, 2, 2, 1, 2, 1, 1, 3, 2, 1, 1, 3, 1, 3, 3, 2])
    );
}

#[test]
fn test_query_packing_4x32b() {
    assert_eq!(expand(&[], 2), felts(&[1, 0, 0, 0]));
    assert_eq!(expand(&[2], 2), felts(&[3, 2, 0, 0]));
    assert_eq!(expand(&[2, 2], 2), felts(&[2, 1, 1, 3]));
    assert_eq!(expand(&[2, 2, 2], 2), felts(&[1, 3, 3, 2, 3, 2, 2, 1]));
    assert_eq!(
        expand(&[2, 2, 2, 2], 2),
        felts(&[3, 2, 2, 1, 2, 1, 1, 3, 2, 1, 1, 3, 1, 3, 3, 2])
    );
}

#[test]
fn test_query_packing_8x16b() {
    assert_eq!(expand(&[], 3), felts(&[1, 0, 0, 0, 0, 0, 0, 0]));
    assert_eq!(expand(&[2], 3), felts(&[3, 2, 0, 0, 0, 0, 0, 0]));
    assert_eq!(expand(&[2, 2], 3), felts(&[2, 1, 1, 3, 0, 0, 0, 0]));
    assert_eq!(expand(&[2, 2, 2], 3), felts(&[1, 3, 3, 2, 3, 2, 2, 1]));
    assert_eq!(
        expand(&[2, 2, 2, 2], 3),
        felts(&[3, 2, 2, 1, 2, 1, 1, 3, 2, 1, 1, 3, 1, 3, 3, 2])
    );
}

#[test]
fn tensor_expansion_matches_explicit_product() {
    let rs = felts(&[7, 12, 3]);
    let expansion = expand(&[7, 12, 3], 0);
    for (p, value) in expansion.iter().enumerate() {
        let mut expected = B32::one();
        for (i, r) in rs.iter().enumerate() {
            let factor = if (p >> i) & 1 == 1 { *r } else { B32::one().sub(*r) };
            expected = expected.mul(factor);
        }
        assert_eq!(*value, expected);
    }
}

#[test]
fn single_challenge_updates_match_one_update() {
    let rs = felts(&[5, 9, 2, 11]);
    let mut stepwise = MultilinearQuery::new(4, 0).unwrap();
    for r in rs.iter() {
        stepwise = stepwise.update(&[*r]).unwrap();
    }
    let at_once = MultilinearQuery::new(4, 0).unwrap().update(&rs).unwrap();
    assert_eq!(stepwise.n_vars(), 4);
    assert_eq!(stepwise.expansion(), at_once.expansion());
    assert_eq!(stepwise.into_expansion(), at_once.into_expansion());
}

#[test]
fn packing_does_not_change_values() {
    let narrow = expand(&[6, 4], 0);
    let wide = expand(&[6, 4], 3);
    assert_eq!(&wide[..4], &narrow[..]);
    assert_eq!(&wide[4..], &felts(&[0, 0, 0, 0])[..]);
}

#[test]
fn update_beyond_capacity_fails() {
    let query = MultilinearQuery::<B32>::new(2, 0).unwrap();
    let result = query.update(&felts(&[1, 2, 3]));
    assert!(matches!(result, Err(Error::MultilinearQueryFull { max_query_vars: 0 })));
    let query = MultilinearQuery::<B32>::new(2, 0).unwrap().update(&felts(&[1, 2])).unwrap();
    let result = query.update(&felts(&[4]));
    assert!(matches!(result, Err(Error::MultilinearQueryFull { max_query_vars: 2 })));
}

#[test]
fn too_many_variables_fails() {
    assert!(matches!(MultilinearQuery::<B32>::new(32, 0), Err(Error::TooManyVariables)));
    assert!(matches!(
        MultilinearQuery::<B32>::with_full_query(&[B32::new(1); 32], 0),
        Err(Error::TooManyVariables)
    ));
}
