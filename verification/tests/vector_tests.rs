use helix_db::error::VectorError;
use helix_db::vector::{check_lengths, HVector};

#[test]
fn new_vector_is_live_at_ground_level() {
    let vector = HVector::new(3, vec![1, 2]);
    assert_eq!(vector.get_id(), 3);
    assert_eq!(vector.get_level(), 0);
    assert_eq!(vector.len(), 2);
    assert!(!vector.is_deleted);
    assert_eq!(vector.properties, None);
}

#[test]
fn at_level_changes_the_level_only() {
    let mut vector = HVector::new(3, vec![1.5f64.to_bits(), 2.5f64.to_bits()]);
    vector.properties = Some(vec![4, 5, 6]);
    vector.is_deleted = true;
    let copy = vector.at_level(5);
    assert_eq!(copy.level, 5);
    assert_eq!(copy.id, vector.id);
    assert_eq!(copy.data, vector.data);
    assert_eq!(copy.properties, vector.properties);
    assert!(copy.is_deleted);
}

#[test]
fn equal_dimensions_pass_the_check() {
    let a = HVector::new(1, vec![0, 0, 0]);
    let b = HVector::new(2, vec![1, 1, 1]);
    assert_eq!(a.check_dimensions(&b), Ok(()));
    let empty = HVector::new(3, vec![]);
    assert_eq!(empty.check_dimensions(&HVector::new(4, vec![])), Ok(()));
}

#[test]
fn different_dimensions_are_an_error() {
    let a = HVector::new(1, vec![0, 0, 0]);
    let b = HVector::new(2, vec![1, 1]);
    assert_eq!(a.check_dimensions(&b), Err(VectorError::InvalidVectorLength));
    assert_eq!(b.check_dimensions(&a), Err(VectorError::InvalidVectorLength));
}

#[test]
fn lengths_are_compared() {
    assert_eq!(check_lengths(4, 4), Ok(()));
    assert_eq!(check_lengths(0, 0), Ok(()));
    assert_eq!(check_lengths(4, 3), Err(VectorError::InvalidVectorLength));
}
