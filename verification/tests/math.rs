use percolator::engine::trade::{checked_u128_mul_i128, compute_trade_pnl};
use percolator::bytes::{from_twos, to_twos};
use percolator::int128::{I128, U128};
use percolator::sorting::sort_u64;
use percolator::types::RiskError;
use percolator::wide_math::{
    abs_i128, ceil_div_positive_checked, div_rem_u256, fee_debt_u128_checked, i128_clamp_pos, max_u128, min_u128,
    mul_div_ceil_u128, mul_div_floor_u128, mul_div_floor_u256_with_rem, saturating_mul_u128, widening_mul,
    wide_mul_div_ceil_u128_or_over_i128max, I256, U256,
};

#[test]
fn wide_products() {
    let w = widening_mul(u128::MAX, u128::MAX);
    assert_eq!(w.hi, u128::MAX - 1);
    assert_eq!(w.lo, 1);
    assert_eq!(widening_mul(3, 4).try_into_u128(), Some(12));
    assert_eq!(w.try_into_u128(), None);
}

#[test]
fn wide_division() {
    let n = widening_mul(u128::MAX, 12_345);
    let (q, r) = div_rem_u256(n, U256::from_u128(12_345));
    assert_eq!(q.try_into_u128(), Some(u128::MAX));
    assert!(r.is_zero());
    let (q, r) = div_rem_u256(U256::from_u128(7), U256::from_u128(2));
    assert_eq!((q.try_into_u128(), r.try_into_u128()), (Some(3), Some(1)));
}

#[test]
fn rounding() {
    assert_eq!(mul_div_floor_u128(7, 5, 3), 11);
    assert_eq!(mul_div_ceil_u128(7, 5, 3), 12);
    assert_eq!(mul_div_ceil_u128(6, 5, 3), 10);
    assert_eq!(mul_div_floor_u128(u128::MAX, u128::MAX, u128::MAX), u128::MAX);
    let (q, r) = mul_div_floor_u256_with_rem(7, 5, 3);
    assert_eq!((q.try_into_u128(), r.try_into_u128()), (Some(11), Some(2)));
    assert_eq!(
        ceil_div_positive_checked(U256::from_u128(7), U256::from_u128(2)).try_into_u128(),
        Some(4)
    );
    assert!(matches!(wide_mul_div_ceil_u128_or_over_i128max(7, 5, 3), Ok(12)));
    assert!(wide_mul_div_ceil_u128_or_over_i128max(u128::MAX, 2, 1).is_err());
}

#[test]
fn signed_wide_numbers() {
    let a = I256::from_i128(-5);
    let b = I256::from_u128(3);
    assert_eq!(a.checked_add(&b).and_then(|s| s.try_into_i128()), Some(-2));
    assert_eq!(b.checked_sub(&a).and_then(|s| s.try_into_i128()), Some(8));
    assert_eq!(a.checked_mul_i256(&b).and_then(|s| s.try_into_i128()), Some(-15));
    assert!(a.is_negative() && !b.is_negative() && I256::zero().is_zero());
    assert!(a.is_less_than(&b));
    assert_eq!(I256::from_i128(i128::MIN).try_into_i128(), Some(i128::MIN));
}

#[test]
fn small_helpers() {
    assert_eq!(abs_i128(i128::MIN), 1u128 << 127);
    assert_eq!(i128_clamp_pos(-3), 0);
    assert_eq!(i128_clamp_pos(3), 3);
    assert_eq!(min_u128(2, 3), 2);
    assert_eq!(max_u128(2, 3), 3);
    assert_eq!(fee_debt_u128_checked(-7), 7);
    assert_eq!(fee_debt_u128_checked(7), 0);
    assert_eq!(fee_debt_u128_checked(i128::MIN), 1u128 << 127);
    assert_eq!(saturating_mul_u128(u128::MAX, 2), u128::MAX);
    assert_eq!(saturating_mul_u128(6, 7), 42);
}

#[test]
fn trade_arithmetic() {
    assert_eq!(compute_trade_pnl(1_000_000, 5), Ok(5));
    assert_eq!(compute_trade_pnl(1_500_000, 1), Ok(1));
    assert_eq!(compute_trade_pnl(1_500_000, -1), Ok(-2));
    assert_eq!(checked_u128_mul_i128(3, -4), Ok(-12));
    assert_eq!(checked_u128_mul_i128(u128::MAX, 2), Err(RiskError::Overflow));
}

#[test]
fn two_word_integers() {
    assert_eq!(U128::new(5).get(), 5);
    assert_eq!(U128::new(u128::MAX).checked_add(1), None);
    assert_eq!(U128::new(1).checked_add(1), Some(U128::new(2)));
    assert!(U128::new(0).is_zero() && !I128::new(-1).is_zero());
    assert_eq!(I128::new(i128::MAX).checked_add(1), None);
}

#[test]
fn twos_complement() {
    for v in [0i128, 1, -1, i128::MAX, i128::MIN] {
        assert_eq!(to_twos(v), v as u128);
        assert_eq!(from_twos(v as u128), v);
    }
}

#[test]
fn ascending() {
    assert_eq!(sort_u64(&vec![3, 1, 2, 1]), vec![1, 1, 2, 3]);
}
