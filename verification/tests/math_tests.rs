use perpetuals::errors::PerpetualsError;
use perpetuals::math::{
    checked_add, checked_add_i64, checked_as_u64, checked_decimal_div, checked_decimal_mul,
    checked_div_u128, checked_mul_u128, checked_pow10_u128, checked_sub, checked_sub_i64,
};

#[test]
fn test_checked_add_and_sub() {
    assert_eq!(checked_add(2, 3), Ok(5));
    assert_eq!(checked_add(u64::MAX, 0), Ok(u64::MAX));
    assert_eq!(
        checked_add(u64::MAX, 1),
        Err(PerpetualsError::ArithmeticOverflow)
    );
    assert_eq!(checked_sub(5, 3), Ok(2));
    assert_eq!(
        checked_sub(3, 5),
        Err(PerpetualsError::ArithmeticUnderflow)
    );
    assert_eq!(checked_add_i64(i64::MAX - 1, 1), Ok(i64::MAX));
    assert_eq!(
        checked_add_i64(i64::MAX, 1),
        Err(PerpetualsError::ArithmeticOverflow)
    );
    assert_eq!(checked_sub_i64(i64::MIN + 1, 1), Ok(i64::MIN));
    assert_eq!(
        checked_sub_i64(i64::MIN, 1),
        Err(PerpetualsError::ArithmeticUnderflow)
    );
}

#[test]
fn test_checked_div_by_zero() {
    assert_eq!(checked_div_u128(10, 3), Ok(3));
    assert_eq!(
        checked_div_u128(10, 0),
        Err(PerpetualsError::DivisionByZero)
    );
}

#[test]
fn test_checked_as_u64() {
    assert_eq!(checked_as_u64(u64::MAX as u128), Ok(u64::MAX));
    assert_eq!(
        checked_as_u64(u64::MAX as u128 + 1),
        Err(PerpetualsError::ArithmeticOverflow)
    );
}

#[test]
fn test_checked_pow10() {
    assert_eq!(checked_pow10_u128(0), Some(1));
    assert_eq!(checked_pow10_u128(9), Some(1_000_000_000));
    assert_eq!(checked_pow10_u128(38), Some(10u128.pow(38)));
    assert_eq!(checked_pow10_u128(39), None);
}

#[test]
fn test_decimal_mul_rescales_toward_zero() {
    // A stake weight of 1_000_000 at 6 decimals, a rate of 50_000_000 at 9
    // decimals, expressed at 6 decimals: 1_000_000 × 50_000_000 / 1e9.
    assert_eq!(checked_decimal_mul(1_000_000, -6, 50_000_000, -9, -6), Ok(50_000));
    // Rounding toward zero.
    assert_eq!(checked_decimal_mul(1, -6, 999_999_999, -9, -6), Ok(0));
    // Zero shortcut.
    assert_eq!(checked_decimal_mul(0, -6, 50_000_000, -9, -6), Ok(0));
    assert_eq!(checked_decimal_mul(50_000_000, -6, 0, -9, -6), Ok(0));
    // A positive target power multiplies.
    assert_eq!(checked_decimal_mul(25, -1, 4, -1, -3), Ok(1_000));
    // Too large for a u64.
    assert_eq!(
        checked_decimal_mul(u64::MAX, 0, 10, 0, 0),
        Err(PerpetualsError::ArithmeticOverflow)
    );
}

#[test]
fn test_decimal_div_computes_rate() {
    // A reward of 50_000 at 6 decimals over a stake of 1_000_000 at 6
    // decimals, expressed at 9 decimals: 50_000 × 1e9 / 1_000_000.
    assert_eq!(checked_decimal_div(50_000, -6, 1_000_000, -6, -9), Ok(50_000_000));
    assert_eq!(
        checked_decimal_div(1, 0, 0, 0, 0),
        Err(PerpetualsError::DivisionByZero)
    );
    assert_eq!(checked_decimal_div(0, -6, 7, -6, -9), Ok(0));
    // Rounding toward zero.
    assert_eq!(checked_decimal_div(10, 0, 3, 0, 0), Ok(3));
}

#[test]
fn test_checked_mul_u128_bounds() {
    assert_eq!(checked_mul_u128(1 << 64, 1 << 63), Ok(1 << 127));
    assert_eq!(
        checked_mul_u128(1 << 64, 1 << 64),
        Err(PerpetualsError::ArithmeticOverflow)
    );
}
