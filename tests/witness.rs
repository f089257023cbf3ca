use binius_sumcheck::polynomial::Error as PolyError;
use binius_sumcheck::witness::{Error, MultilinearExtensionIndex, MultilinearHandle};

/// A handle that remembers the length and level it was built with.
#[derive(Debug, Clone, PartialEq, Eq)]
struct Handle {
    len: usize,
    level: usize,
}

impl MultilinearHandle<u64> for Handle {
    fn from_underliers(underliers: &[u64], tower_level: usize) -> Result<Self, PolyError> {
        if underliers.is_empty() {
            return Err(PolyError::IncorrectQuerySize { expected: 1 });
        }
        Ok(Handle { len: underliers.len(), level: tower_level })
    }
}

#[test]
fn witness_round_trip_owned() {
    let index = MultilinearExtensionIndex::<u64, Handle>::new();
    let index = index.update_owned(vec![(3, vec![1, 2, 3, 4])], 5).unwrap();
    assert!(index.has(3));
    assert!(!index.has(2));
    assert!(!index.has(100));
    assert_eq!(index.get(3, 5).unwrap(), &[1, 2, 3, 4]);
    assert_eq!(index.get_multilin_poly(3).unwrap(), &Handle { len: 4, level: 5 });
}

#[test]
fn witness_round_trip_borrowed() {
    let data = vec![9u64, 8];
    let index = MultilinearExtensionIndex::<u64, Handle>::new();
    let index = index.update_borrowed(vec![(0, &data[..]), (0, &data[1..])], 3).unwrap();
    assert_eq!(index.get(0, 3).unwrap(), &[8]);
}

#[test]
fn witness_tower_mismatch_fails() {
    let index = MultilinearExtensionIndex::<u64, Handle>::new();
    let index = index.update_owned(vec![(1, vec![5, 6])], 4).unwrap();
    assert_eq!(
        index.get(1, 7).unwrap_err(),
        Error::OracleTowerHeightMismatch { oracle_id: 1, oracle_level: 4, field_level: 7 }
    );
}

#[test]
fn witness_missing_fails() {
    let index = MultilinearExtensionIndex::<u64, Handle>::new();
    let index = index.update_owned(vec![(4, vec![5])], 4).unwrap();
    assert_eq!(index.get(2, 4).unwrap_err(), Error::MissingWitness { id: 2 });
    assert_eq!(index.get(9, 4).unwrap_err(), Error::MissingWitness { id: 9 });
    assert_eq!(index.get_multilin_poly(2).unwrap_err(), Error::MissingWitness { id: 2 });
}

#[test]
fn witness_without_backing_fails_get() {
    let mut index = MultilinearExtensionIndex::<u64, Handle>::new();
    index.update_multilin_poly(vec![(2, Handle { len: 8, level: 1 })]).unwrap();
    assert!(index.has(2));
    assert_eq!(
        index.get(2, 1).unwrap_err(),
        Error::NoExplicitBackingMultilinearExtension { id: 2 }
    );
    assert_eq!(index.get_multilin_poly(2).unwrap(), &Handle { len: 8, level: 1 });
}

#[test]
fn witness_handle_error_is_returned() {
    let index = MultilinearExtensionIndex::<u64, Handle>::new();
    let result = index.update_owned(vec![(0, vec![])], 2);
    assert!(matches!(result, Err(Error::Polynomial(PolyError::IncorrectQuerySize { expected: 1 }))));
}

#[test]
fn witness_empty_update_keeps_entries() {
    let index = MultilinearExtensionIndex::<u64, Handle>::new();
    let index = index.update_owned(vec![(1, vec![3])], 2).unwrap();
    let index = index.update_owned(vec![], 2).unwrap();
    assert_eq!(index.get(1, 2).unwrap(), &[3]);
    let index = index.update_borrowed(vec![], 2).unwrap();
    assert_eq!(index.get_multilin_poly(1).unwrap(), &Handle { len: 1, level: 2 });
}
