use std::cmp::Ordering;

use lilliput_core::ErrorCode;
use lilliput_core::IntValue;

#[test]
fn eq_across_widths() {
    let signed = [
        IntValue::from(42i8),
        IntValue::from(42i16),
        IntValue::from(42i32),
        IntValue::from(42i64),
    ];
    let unsigned = [
        IntValue::from(42u8),
        IntValue::from(42u16),
        IntValue::from(42u32),
        IntValue::from(42u64),
    ];

    for lhs in &signed {
        for rhs in &signed {
            assert_eq!(lhs, rhs);
        }
        for rhs in &unsigned {
            assert_eq!(lhs, rhs);
            assert_eq!(rhs, lhs);
        }
    }

    let negative = IntValue::from(-42i8);
    for rhs in signed.iter().chain(unsigned.iter()) {
        assert_ne!(&negative, rhs);
    }
    assert_eq!(negative, IntValue::from(-42i64));
}

#[test]
fn ord_across_representations() {
    let negative = IntValue::from(-1i32);
    let zero = IntValue::from(0u8);
    let small = IntValue::from(41u64);
    let large = IntValue::from(42i16);

    assert_eq!(negative.cmp(&zero), Ordering::Less);
    assert_eq!(zero.cmp(&negative), Ordering::Greater);
    assert_eq!(small.cmp(&large), Ordering::Less);
    assert_eq!(large.cmp(&IntValue::from(42u8)), Ordering::Equal);
    assert!(negative < zero);
    assert!(small < large);
    assert!(IntValue::from(42u8) <= IntValue::from(42i64));
}

#[test]
fn equal_values_hash_equal() {
    assert_eq!(IntValue::from(42u8).hash_key(), IntValue::from(42i64).hash_key());
    assert_eq!(IntValue::from(0u16).hash_key(), IntValue::from(0i8).hash_key());
    assert_eq!(
        IntValue::from(-7i8).hash_key(),
        IntValue::from(-7i64).hash_key()
    );
    assert_ne!(IntValue::from(-7i8).hash_key(), IntValue::from(7u8).hash_key());
}

#[test]
fn is_signed_reports_representation() {
    assert!(IntValue::from(-3i8).is_signed());
    assert!(IntValue::from(3i8).is_signed());
    assert!(!IntValue::from(3u8).is_signed());
}

#[test]
fn conversions_between_signednesses() {
    assert_eq!(IntValue::from(7u8).to_signed().unwrap(), 7i64);
    assert_eq!(IntValue::from(-7i8).to_signed().unwrap(), -7i64);
    assert_eq!(IntValue::from(7i8).to_unsigned().unwrap(), 7u64);

    let too_large = IntValue::from(u64::MAX).to_signed().unwrap_err();
    assert_eq!(too_large.code(), ErrorCode::NumberOutOfRange);

    let negative = IntValue::from(-1i8).to_unsigned().unwrap_err();
    assert_eq!(negative.code(), ErrorCode::NumberOutOfRange);
}

#[test]
fn canonicalized_narrows_nonnegative_signed() {
    let canonical = IntValue::from(42i8).canonicalized();
    assert!(!canonical.is_signed());
    assert_eq!(canonical, IntValue::from(42u8));

    let negative = IntValue::from(-42i8).canonicalized();
    assert!(negative.is_signed());
    assert_eq!(negative, IntValue::from(-42i64));
}

#[test]
fn default_is_unsigned_zero() {
    let zero = IntValue::default();
    assert!(!zero.is_signed());
    assert_eq!(zero, IntValue::from(0u8));
}
