use binius_sumcheck::field::{BinaryField32b as B32, Field};
use binius_sumcheck::msetcheck::{lincom_coefficients, relation_sanity_checks, Error};

#[test]
fn relation_checks_accept_matching_relations() {
    assert_eq!(relation_sanity_checks(&[4, 4], &[4, 4]), Ok(()));
}

#[test]
fn relation_checks_reject_dimension_mismatch() {
    assert_eq!(relation_sanity_checks(&[4, 4], &[4]), Err(Error::IncorrectDimensions));
}

#[test]
fn relation_checks_reject_nullary_relation() {
    assert_eq!(relation_sanity_checks(&[], &[]), Err(Error::NullaryRelation));
}

#[test]
fn relation_checks_reject_variable_mismatch() {
    assert_eq!(relation_sanity_checks(&[4, 5], &[4, 4]), Err(Error::NumVariablesMismatch));
    assert_eq!(relation_sanity_checks(&[4, 4], &[4, 3]), Err(Error::NumVariablesMismatch));
}

#[test]
fn lincom_coefficients_are_powers_of_alpha() {
    let alpha = B32::new(2);
    let coeffs = lincom_coefficients(3, Some(alpha)).unwrap();
    assert_eq!(coeffs, vec![B32::one(), alpha, alpha.mul(alpha)]);
    assert_eq!(coeffs[2], B32::new(3));
    assert_eq!(lincom_coefficients::<B32>(1, None).unwrap(), vec![B32::one()]);
}

#[test]
fn lincom_coefficients_check_alpha_presence() {
    assert_eq!(lincom_coefficients::<B32>(2, None), Err(Error::IncorrectAlpha));
    assert_eq!(lincom_coefficients(1, Some(B32::new(5))), Err(Error::IncorrectAlpha));
}
