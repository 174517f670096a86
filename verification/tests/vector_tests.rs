//! Tests of the Euclidean vector layer. All values are fixed-point: one
//! millisecond is 1_000_000 steps.

use vivaldi_nc::vector::Vector;

#[test]
fn test_default_new() {
    let a = Vector::<3>::default();
    let b = Vector::<3>::from(vec![1_000_000; 3]).mul(0).unwrap();
    let c = Vector::<3>::from(vec![0, 0, 0]);
    assert_eq!(a, b);
    assert_eq!(b, c);
}

#[test]
fn vector_test_add() {
    let a = Vector::<3>::from(vec![1_000_000, 2_000_000, 3_000_000]);
    let b = Vector::<3>::from(vec![3_000_000, 2_000_000, 1_000_000]);
    let c = a.add(&b).unwrap();
    assert_eq!(c, Vector::<3>::from(vec![4_000_000, 4_000_000, 4_000_000]));
}

#[test]
fn vector_test_sub() {
    let a = Vector::<3>::from(vec![1_000_000, 2_000_000, 3_000_000]);
    let b = Vector::<3>::from(vec![3_000_000, 2_000_000, 1_000_000]);
    let c = a.sub(&b).unwrap();
    assert_eq!(c, Vector::<3>::from(vec![-2_000_000, 0, 2_000_000]));
}

#[test]
fn vector_test_mul_scalar() {
    let a = Vector::<3>::from(vec![1_000_000, 2_000_000, 3_000_000]);
    let b: i64 = 10_000_000; // the scalar 10
    let c = a.mul(b).unwrap();
    assert_eq!(c, Vector::<3>::from(vec![10_000_000, 20_000_000, 30_000_000]));
}

#[test]
fn test_div_scalar() {
    let a = Vector::<3>::from(vec![1_000_000, 2_000_000, 3_000_000]);
    let b: i64 = 10_000_000; // the scalar 10
    let c = a.div(b).unwrap();
    assert_eq!(c, Vector::<3>::from(vec![100_000, 200_000, 300_000]));
}

#[test]
fn test_index() {
    let a = Vector::<3>::from(vec![1_000_000, 2_000_000, 3_000_000]);
    assert_eq!(a.index(0), 1_000_000);
    assert_eq!(a.index(1), 2_000_000);
    assert_eq!(a.index(2), 3_000_000);
}

#[test]
fn test_length() {
    let a = Vector::<3>::from(vec![1_000_000, 2_000_000, 3_000_000]);
    // sqrt(14) = 3.741657...
    assert_eq!(a.len(), 3_741_657);

    let b = a.mul(10_000_000).unwrap();
    assert_eq!(b.len(), 37_416_573);
}

#[test]
fn test_is_invalid() {
    let a = Vector::<2>::from(vec![1_000_000, 2_000_000]);
    assert!(!a.is_invalid());
    let b = Vector::<2>::from(vec![1_125_899_906_842_625, 0]);
    assert!(b.is_invalid());
}

#[test]
fn test_add_overflow_detected() {
    let big: i64 = 1_125_899_906_842_624; // MAX_COORD
    let a = Vector::<1>::from(vec![big]);
    let b = Vector::<1>::from(vec![1]);
    assert!(a.add(&b).is_none());
    assert!(a.sub(&b).is_some());
}

#[test]
fn test_div_negative_scalar() {
    let a = Vector::<3>::from(vec![1_000_000, 2_000_000, 3_000_000]);
    let c = a.div(-10_000_000).unwrap();
    assert_eq!(c, Vector::<3>::from(vec![-100_000, -200_000, -300_000]));
}

#[test]
fn test_div_zero_scalar() {
    let a = Vector::<2>::from(vec![1_000_000, 2_000_000]);
    assert!(a.div(0).is_none());
}
