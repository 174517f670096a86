//! Tests of the height-vector algebra: heights sum even under subtraction,
//! and every invalid result is healed into a random unit vector. One
//! millisecond is 1_000_000 fixed-point steps; a "unit" vector has magnitude
//! close to 1_000_000, up to fixed-point rounding.

use vivaldi_nc::height_vector::HeightVector;
use vivaldi_nc::math::MAX_COORD;

/// Check the magnitude band the library proves for a fresh random, healed or
/// normalized vector: at most `2N + 2` truncation steps below one unit and
/// at most one step above it.
fn assert_unit_length<const N: usize>(v: &HeightVector<N>) {
    assert!(v.is_valid());
    let l = v.len();
    let lo = 1_000_000 - 2 * N as i64 - 2;
    assert!(lo <= l && l <= 1_000_001, "expected a unit-band length, got {l}");
}

#[test]
fn test_len() {
    let a = HeightVector::<3>::from(vec![1_000_000, 2_000_000, 3_000_000], 4_000_000);
    // sqrt(14) + 4 = 7.741657...
    assert_eq!(a.len(), 7_741_657);
}

#[test]
fn test_new() {
    // new gives us a random unit length vector
    let a = HeightVector::<3>::new();
    assert_unit_length(&a);
}

#[test]
fn test_default() {
    // default() should give us a zero vector
    let a = HeightVector::<3>::default();
    assert_eq!(a.len(), 0);
}

#[test]
fn test_from() {
    let a = HeightVector::<2>::from(vec![1_000_000, 2_000_000], 3_000_000);
    assert_eq!(a.position.index(0), 1_000_000);
    assert_eq!(a.position.index(1), 2_000_000);
    assert_eq!(a.height, 3_000_000);
}

#[test]
fn height_vector_test_add() {
    let a = HeightVector::<2>::from(vec![1_000_000, 2_000_000], 3_000_000);
    let b = HeightVector::<2>::from(vec![3_000_000, 2_000_000], 1_000_000);
    let c = a.add(&b);
    assert_eq!(c.position.index(0), 4_000_000);
    assert_eq!(c.position.index(1), 4_000_000);
    assert_eq!(c.height, 4_000_000);
}

#[test]
fn height_vector_test_sub() {
    let a = HeightVector::<2>::from(vec![1_000_000, 2_000_000], 3_000_000);
    let b = HeightVector::<2>::from(vec![3_000_000, 2_000_000], 1_000_000);
    let c = a.sub(&b);
    assert_eq!(c.position.index(0), -2_000_000);
    assert_eq!(c.position.index(1), 0);
    // heights sum even on subtraction
    assert_eq!(c.height, 4_000_000);
}

#[test]
fn height_vector_test_mul_scalar() {
    let a = HeightVector::<2>::from(vec![1_000_000, 2_000_000], 3_000_000).mul(10_000_000);
    assert_eq!(a.position.index(0), 10_000_000);
    assert_eq!(a.position.index(1), 20_000_000);
    assert_eq!(a.height, 30_000_000);
}

#[test]
fn test_mul_negative_healed() {
    // scaling by a negative factor would make the height negative, so the
    // result is healed into a random unit vector
    let a = HeightVector::<2>::from(vec![1_000_000, 2_000_000], 3_000_000).mul(-10_000_000);
    assert_unit_length(&a);

    // the heal fires on the exact product, so even a sub-step height whose
    // scaled value would truncate to zero is healed
    let b = HeightVector::<1>::from(vec![2_000_000], 1).mul(-999_999);
    assert_unit_length(&b);
}

#[test]
fn test_sub_invalid() {
    let valid = HeightVector::<2>::from(vec![1_000_000, 2_000_000], 3_000_000);
    let mut invalid = HeightVector::<2>::from(vec![1_000_000, 2_000_000], 3_000_000);
    // force a height whose sum overflows the valid range: the integer
    // counterpart of an infinite height
    invalid.height = MAX_COORD;
    let result = valid.sub(&invalid);
    assert_unit_length(&result);
}

#[test]
fn test_add_invalid() {
    let valid = HeightVector::<2>::from(vec![1_000_000, 2_000_000], 3_000_000);
    let mut invalid = HeightVector::<2>::from(vec![MAX_COORD + 1, 2_000_000], 3_000_000);

    // make sure `from()` caught and replaced the invalid vector
    assert_unit_length(&invalid);

    // force invalidity here - because `from()` actually also catches this
    invalid.height = MAX_COORD;
    let result = valid.add(&invalid);
    assert_unit_length(&result);
}

#[test]
fn test_from_negative_height_healed() {
    let a = HeightVector::<2>::from(vec![1_000_000, 2_000_000], -1);
    assert_unit_length(&a);
}

#[test]
fn test_zero_norm() {
    let a = HeightVector::<2>::from(vec![0, 0], 0);
    let b = a.normalized();
    assert_unit_length(&b);
}

#[test]
fn test_normalize_tiny() {
    // a magnitude of a single step is normalized in two passes, landing in
    // the unit band instead of overshooting toward two units
    let a = HeightVector::<2>::from(vec![1, 1], 0);
    assert_unit_length(&a.normalized());
}
