use frame_analysis::numbers::natural::Natural;
use frame_analysis::numbers::rational::Rational;

fn n(x: u64) -> Natural {
    Natural::from_u64(x)
}

fn q(x: i64) -> Rational {
    Rational::from_int(x)
}

fn frac(a: i64, b: i64) -> Rational {
    Rational::from_ratio(a, b).unwrap()
}

#[test]
fn natural_zero_and_equality() {
    assert!(Natural::zero().is_zero());
    assert!(n(0).is_zero());
    assert!(!n(1).is_zero());
    assert!(!Natural::from_limbs(vec![0, 0, 1]).is_zero());
    assert!(Natural::from_limbs(vec![0, 0, 0]).is_zero());
    assert!(n(5).eq_value(&Natural::from_limbs(vec![5, 0, 0, 0])));
    assert!(!n(5).eq_value(&n(6)));
    assert!(n(5).lt(&n(6)));
    assert!(!n(6).lt(&n(6)));
    assert!(n(u64::MAX).lt(&Natural::from_limbs(vec![0, 0, 1])));
    assert!(n(7).clone().eq_value(&n(7)));
}

#[test]
fn natural_limbs_round_trip() {
    let x = n(0x1_0000_0005);
    let limbs = x.to_limbs();
    assert_eq!(limbs, vec![5, 1]);
    assert!(Natural::from_limbs(limbs).eq_value(&x));
    // zero limbs at the top are not kept
    assert_eq!(n(7).to_limbs(), vec![7]);
    assert_eq!(Natural::from_limbs(vec![5, 0, 0]).to_limbs(), vec![5]);
    assert_eq!(Natural::zero().to_limbs(), Vec::<u32>::new());
    assert_eq!(n(0).to_limbs(), Vec::<u32>::new());
    assert_eq!(n(u64::MAX).add(&n(1)).to_limbs(), vec![0, 0, 1]);
    assert_eq!(n(5).checked_sub(&n(5)).unwrap().to_limbs(), Vec::<u32>::new());
}

#[test]
fn natural_addition_carries_across_limbs() {
    let sum = n(u64::MAX).add(&n(1));
    assert!(sum.eq_value(&Natural::from_limbs(vec![0, 0, 1])));
    assert!(n(0xffff_ffff).add(&n(1)).eq_value(&n(0x1_0000_0000)));
    assert!(n(3).add(&Natural::zero()).eq_value(&n(3)));
}

#[test]
fn natural_subtraction_borrows_across_limbs() {
    let big = Natural::from_limbs(vec![0, 0, 1]);
    assert!(big.checked_sub(&n(1)).unwrap().eq_value(&n(u64::MAX)));
    assert!(n(1).checked_sub(&big).is_none());
    assert!(n(9).checked_sub(&n(9)).unwrap().is_zero());
    assert!(n(0x1_0000_0000).checked_sub(&n(1)).unwrap().eq_value(&n(0xffff_ffff)));
}

#[test]
fn natural_multiplication() {
    let x = n(u64::MAX);
    let square = x.mul(&x);
    assert!(square.eq_value(&Natural::from_limbs(vec![1, 0, 0xffff_fffe, 0xffff_ffff])));
    assert!(n(12).mul(&n(12)).eq_value(&n(144)));
    assert!(n(12).mul(&Natural::zero()).is_zero());
    assert!(n(0xffff_ffff).mul_small(0xffff_ffff).eq_value(&n(0xffff_fffe_0000_0001)));
    assert!(n(10).mul_small_add(7, 3).eq_value(&n(73)));
}

#[test]
fn natural_division_with_remainder() {
    let (quotient, rest) = n(1000).div_rem(&n(7));
    assert!(quotient.eq_value(&n(142)));
    assert!(rest.eq_value(&n(6)));

    let x = n(u64::MAX);
    let (quotient, rest) = x.mul(&x).div_rem(&x);
    assert!(quotient.eq_value(&x));
    assert!(rest.is_zero());

    // 2^96 = 79228162514264337593 * 10^9 + 543950336
    let (quotient, rest) = Natural::from_limbs(vec![0, 0, 0, 1]).div_rem(&n(1_000_000_000));
    assert!(quotient.eq_value(&Natural::from_limbs(vec![3047500985, 1266874889, 4])));
    assert!(rest.eq_value(&n(543950336)));

    let (quotient, rest) = n(3).div_rem(&n(5));
    assert!(quotient.is_zero());
    assert!(rest.eq_value(&n(3)));
}

#[test]
fn natural_greatest_common_divisor() {
    assert!(n(0x300_0000_0000).gcd(&n(0x90_0000)).eq_value(&n(3145728)));
    assert!(n(17).gcd(&n(5)).eq_value(&n(1)));
    assert!(n(0).gcd(&n(5)).eq_value(&n(5)));
    assert!(n(5).gcd(&n(0)).eq_value(&n(5)));
}

#[test]
fn rational_from_integers() {
    assert_eq!(frac(2, 4), frac(1, 2));
    assert_eq!(frac(-3, -6), frac(1, 2));
    assert_eq!(frac(3, -6), frac(-1, 2));
    assert_eq!(frac(6, 3), q(2));
    assert!(Rational::from_ratio(3, 0).is_none());
    assert_eq!(q(i64::MIN).add(&q(i64::MAX)), q(-1));
    assert_ne!(frac(1, 2), frac(1, 3));
}

#[test]
fn rational_parts_are_in_lowest_terms() {
    let (negative, numerator, denominator) = frac(-6, 4).to_parts();
    assert!(negative);
    assert!(numerator.eq_value(&n(3)));
    assert!(denominator.eq_value(&n(2)));
    assert_eq!(Rational::from_parts(true, n(9), n(6)), Some(frac(-3, 2)));
    // zero is kept as 0 / 1 without a sign
    let (negative, numerator, denominator) = frac(0, -5).neg().to_parts();
    assert!(!negative);
    assert!(numerator.is_zero());
    assert!(denominator.eq_value(&n(1)));
    let (negative, _, _) = Rational::from_parts(true, n(0), n(4)).unwrap().to_parts();
    assert!(!negative);
    assert_eq!(Rational::from_parts(false, n(9), n(0)), None);
}

#[test]
fn rational_arithmetic() {
    assert_eq!(frac(1, 2).add(&frac(1, 3)), frac(5, 6));
    assert_eq!(frac(1, 2).sub(&frac(1, 3)), frac(1, 6));
    assert_eq!(frac(1, 3).sub(&frac(1, 2)), frac(-1, 6));
    assert_eq!(frac(-1, 2).add(&frac(1, 2)), q(0));
    assert_eq!(frac(2, 3).mul(&frac(-3, 4)), frac(-1, 2));
    assert_eq!(frac(2, 3).div(&frac(-4, 9)), frac(-3, 2));
    assert_eq!(frac(2, 3).checked_div(&q(0)), None);
    assert_eq!(frac(2, 3).checked_div(&q(2)), Some(frac(1, 3)));
    assert_eq!(frac(2, 3).neg(), frac(-2, 3));
    assert_eq!(frac(-2, 3).abs(), frac(2, 3));
    assert_eq!(frac(2, 3).abs(), frac(2, 3));
    assert_eq!(frac(2, 3).clone(), frac(2, 3));
}

#[test]
fn rational_order_and_sign() {
    assert!(frac(1, 3).lt(&frac(1, 2)));
    assert!(!frac(1, 2).lt(&frac(1, 2)));
    assert!(frac(1, 2).le(&frac(1, 2)));
    assert!(frac(-1, 2).lt(&frac(-1, 3)));
    assert!(!frac(1, 2).le(&frac(1, 3)));
    assert!(frac(1, 2).eq_value(&frac(3, 6)));
    assert!(q(0).is_zero());
    assert!(!q(0).is_negative());
    assert!(!q(0).is_positive());
    assert!(q(0).neg().is_zero());
    assert!(!q(0).neg().is_negative());
    assert!(frac(-1, 7).is_negative());
    assert!(frac(1, 7).is_positive());
}

#[test]
fn rational_sums_stay_exact_over_many_terms() {
    // 1/1 - 1/2 + 1/3 - ... up to 1/20
    let mut sum = q(0);
    for k in 1..=20 {
        let term = frac(if k % 2 == 1 { 1 } else { -1 }, k);
        sum = sum.add(&term);
    }
    assert_eq!(sum, frac(155685007, 232792560));
}

#[test]
fn natural_powers_of_two() {
    assert!(Natural::power_of_two(0).eq_value(&n(1)));
    assert!(Natural::power_of_two(31).eq_value(&n(0x8000_0000)));
    assert!(Natural::power_of_two(32).eq_value(&n(0x1_0000_0000)));
    assert!(Natural::power_of_two(63).eq_value(&n(0x8000_0000_0000_0000)));
    assert_eq!(Natural::power_of_two(100).to_limbs(), vec![0, 0, 0, 16]);
}

#[test]
fn rational_from_mantissa_and_exponent() {
    assert_eq!(Rational::from_binary(false, 3, 2), q(12));
    assert_eq!(Rational::from_binary(true, 5, -3), frac(-5, 8));
    assert_eq!(Rational::from_binary(true, 0, -5), q(0));
    assert_eq!(Rational::from_binary(false, 6, -1), q(3));
    // the smallest positive double, 2^-1074
    let tiny = Rational::from_binary(false, 1, -1074);
    let (_, numerator, denominator) = tiny.to_parts();
    assert!(numerator.eq_value(&n(1)));
    assert!(denominator.eq_value(&Natural::power_of_two(1074)));
    // 0.1 as a double is 3602879701896397 / 2^55
    let tenth = Rational::from_binary(false, 0x1999_9999_9999_9a, -56);
    assert_eq!(tenth, Rational::from_parts(false, n(3602879701896397), Natural::power_of_two(55)).unwrap());
    assert!(frac(1, 10).lt(&tenth));
}
