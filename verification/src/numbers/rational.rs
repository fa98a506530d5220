//! Exact rational numbers: a sign, a numerator and a positive denominator.

use vstd::prelude::*;
use crate::numbers::natural::{
    Natural, bit_weight, coprime, is_multiple, lemma_bit_weight_positive, lemma_coprime_to_one,
    lemma_exact_division, lemma_reduced_is_coprime,
};

verus! {

/// The quotient of two integers as a real number.
pub open spec fn ratio(n: int, d: int) -> real {
    n as real / d as real
}

/// The integer with magnitude `n` and the given sign.
pub open spec fn signed(negative: bool, n: int) -> int {
    if negative {
        -n
    } else {
        n
    }
}

/// The real number of a product of integers is the product of their real numbers.
proof fn lemma_real_of_product(x: int, y: int)
    ensures
        (x * y) as real == (x as real) * (y as real),
{
    assert((x * y) as real == (x as real) * (y as real)) by (nonlinear_arith);
}

/// Adding two fractions of real numbers.
proof fn lemma_fraction_add(a: real, b: real, c: real, e: real)
    requires
        b != 0 as real,
        e != 0 as real,
    ensures
        (a * e + c * b) / (b * e) == a / b + c / e,
{
    assert((a * e + c * b) / (b * e) == a / b + c / e) by (nonlinear_arith)
        requires
            b != 0 as real,
            e != 0 as real,
    ;
}

/// Multiplying two fractions of real numbers.
proof fn lemma_fraction_mul(a: real, b: real, c: real, e: real)
    requires
        b != 0 as real,
        e != 0 as real,
    ensures
        (a * c) / (b * e) == (a / b) * (c / e),
{
    assert((a * c) / (b * e) == (a / b) * (c / e)) by (nonlinear_arith)
        requires
            b != 0 as real,
            e != 0 as real,
    ;
}

/// Dividing two fractions of real numbers.
proof fn lemma_fraction_div(a: real, b: real, c: real, e: real)
    requires
        b != 0 as real,
        e != 0 as real,
        c != 0 as real,
    ensures
        (a * e) / (b * c) == (a / b) / (c / e),
{
    assert((a * e) / (b * c) == (a / b) / (c / e)) by (nonlinear_arith)
        requires
            b != 0 as real,
            e != 0 as real,
            c != 0 as real,
    ;
}

/// The sign of a fraction of real numbers with a positive denominator.
proof fn lemma_fraction_sign(a: real, b: real)
    requires
        b > 0 as real,
    ensures
        a / b < 0 as real <==> a < 0 as real,
        a / b == 0 as real <==> a == 0 as real,
        a / b > 0 as real <==> a > 0 as real,
        (-a) / b == -(a / b),
{
    assert((a / b < 0 as real <==> a < 0 as real) && (a / b == 0 as real <==> a == 0 as real) && (
    a / b > 0 as real <==> a > 0 as real) && (-a) / b == -(a / b)) by (nonlinear_arith)
        requires
            b > 0 as real,
    ;
}

/// Both terms of a fraction of real numbers may be multiplied by the same
/// non-zero factor.
proof fn lemma_fraction_scale(a: real, b: real, k: real)
    requires
        b != 0 as real,
        k != 0 as real,
    ensures
        (a * k) / (b * k) == a / b,
{
    assert((a * k) / (b * k) == a / b) by (nonlinear_arith)
        requires
            b != 0 as real,
            k != 0 as real,
    ;
}

/// Adding two fractions of integers.
proof fn lemma_ratio_add(n1: int, d1: int, n2: int, d2: int)
    requires
        d1 != 0,
        d2 != 0,
    ensures
        ratio(n1 * d2 + n2 * d1, d1 * d2) == ratio(n1, d1) + ratio(n2, d2),
{
    lemma_real_of_product(n1, d2);
    lemma_real_of_product(n2, d1);
    lemma_real_of_product(d1, d2);
    lemma_fraction_add(n1 as real, d1 as real, n2 as real, d2 as real);
}

/// Multiplying two fractions of integers.
proof fn lemma_ratio_mul(n1: int, d1: int, n2: int, d2: int)
    requires
        d1 != 0,
        d2 != 0,
    ensures
        ratio(n1 * n2, d1 * d2) == ratio(n1, d1) * ratio(n2, d2),
{
    lemma_real_of_product(n1, n2);
    lemma_real_of_product(d1, d2);
    lemma_fraction_mul(n1 as real, d1 as real, n2 as real, d2 as real);
}

/// Dividing two fractions of integers.
proof fn lemma_ratio_div(n1: int, d1: int, n2: int, d2: int)
    requires
        d1 != 0,
        d2 != 0,
        n2 != 0,
    ensures
        ratio(n1 * d2, d1 * n2) == ratio(n1, d1) / ratio(n2, d2),
{
    lemma_real_of_product(n1, d2);
    lemma_real_of_product(d1, n2);
    lemma_fraction_div(n1 as real, d1 as real, n2 as real, d2 as real);
}

/// The opposite of a fraction of integers.
proof fn lemma_ratio_neg(n: int, d: int)
    requires
        d > 0,
    ensures
        ratio(-n, d) == -ratio(n, d),
{
    lemma_fraction_sign(n as real, d as real);
}

/// The sign of a fraction of integers with a positive denominator.
proof fn lemma_ratio_sign(n: int, d: int)
    requires
        d > 0,
    ensures
        ratio(n, d) < 0 as real <==> n < 0,
        ratio(n, d) == 0 as real <==> n == 0,
        ratio(n, d) > 0 as real <==> n > 0,
{
    lemma_fraction_sign(n as real, d as real);
}

/// Both terms of a fraction may be multiplied by the same non-zero factor.
proof fn lemma_ratio_scale(n: int, d: int, k: int)
    requires
        d != 0,
        k != 0,
    ensures
        ratio(n * k, d * k) == ratio(n, d),
{
    lemma_real_of_product(n, k);
    lemma_real_of_product(d, k);
    lemma_fraction_scale(n as real, d as real, k as real);
}

/// The magnitude of a machine integer.
fn magnitude(x: i64) -> (m: u64)
    ensures
        m == if x < 0 { -x } else { x as int },
{
    if x >= 0 {
        x as u64
    } else if x == i64::MIN {
        0x8000_0000_0000_0000
    } else {
        (-x) as u64
    }
}

/// The number `mantissa * 2^exponent` with the given sign.
pub open spec fn binary_value(negative: bool, mantissa: int, exponent: int) -> real {
    if exponent >= 0 {
        ratio(signed(negative, mantissa * bit_weight(exponent as nat)), 1)
    } else {
        ratio(signed(negative, mantissa), bit_weight((-exponent) as nat))
    }
}

/// Whether the sign and the two terms write a fraction in the one way in
/// which every rational number is kept: the denominator is positive, the
/// terms have nothing in common, and zero has no sign.
pub open spec fn is_lowest_terms(negative: bool, numerator: nat, denominator: nat) -> bool {
    &&& denominator > 0
    &&& coprime(numerator, denominator)
    &&& numerator == 0 ==> !negative
}

/// An exact rational number.
#[derive(Debug)]
pub struct Rational {
    negative: bool,
    numerator: Natural,
    denominator: Natural,
}

impl View for Rational {
    type V = real;

    closed spec fn view(&self) -> real {
        ratio(signed(self.negative, self.numerator@ as int), self.denominator@ as int)
    }
}

impl Clone for Rational {
    fn clone(&self) -> (r: Self)
        ensures
            r@ == self@,
    {
        proof {
            use_type_invariant(self);
        }
        Rational {
            negative: self.negative,
            numerator: self.numerator.clone(),
            denominator: self.denominator.clone(),
        }
    }
}

impl PartialEq for Rational {
    fn eq(&self, other: &Self) -> (b: bool) {
        self.eq_value(other)
    }
}

impl vstd::std_specs::cmp::PartialEqSpecImpl for Rational {
    open spec fn obeys_eq_spec() -> bool {
        true
    }

    open spec fn eq_spec(&self, other: &Self) -> bool {
        self@ == other@
    }
}

impl Rational {
    /// A number is kept in lowest terms over a positive denominator, and
    /// zero is kept without a sign.
    #[verifier::type_invariant]
    spec fn in_lowest_terms(self) -> bool {
        is_lowest_terms(self.negative, self.numerator@, self.denominator@)
    }

    /// The fraction of the given sign and terms, in lowest terms.
    fn reduced(negative: bool, numerator: Natural, denominator: Natural) -> (r: Rational)
        requires
            denominator@ > 0,
        ensures
            r@ == ratio(signed(negative, numerator@ as int), denominator@ as int),
    {
        let g: Natural = numerator.gcd(&denominator);
        proof {
            let k: nat = choose|k: nat| #[trigger] is_multiple(denominator@, g@, k);
            assert(g@ > 0) by (nonlinear_arith)
                requires
                    denominator@ == g@ * k,
                    denominator@ > 0,
            ;
        }
        let n: (Natural, Natural) = numerator.div_rem(&g);
        let d: (Natural, Natural) = denominator.div_rem(&g);
        proof {
            lemma_exact_division(numerator@, g@, n.0@, n.1@);
            lemma_exact_division(denominator@, g@, d.0@, d.1@);
            let dq: int = d.0@ as int;
            let gg: int = g@ as int;
            assert(dq > 0) by (nonlinear_arith)
                requires
                    dq * gg > 0,
                    dq >= 0,
            ;
            let nn: int = n.0@ as int;
            let nq: int = signed(negative, nn);
            assert(nq * gg == signed(negative, nn * gg)) by (nonlinear_arith)
                requires
                    nq == signed(negative, nn),
            ;
            lemma_ratio_scale(nq, dq, gg);
            lemma_reduced_is_coprime(numerator@, denominator@, g@, n.0@, d.0@);
        }
        let signed_zero: bool = n.0.is_zero();
        Rational { negative: negative && !signed_zero, numerator: n.0, denominator: d.0 }
    }

    /// The fraction of the given sign, numerator and denominator, or `None`
    /// where the denominator is zero.
    pub fn from_parts(negative: bool, numerator: Natural, denominator: Natural) -> (r: Option<
        Rational,
    >)
        ensures
            match r {
                Some(q) => denominator@ > 0 && q@ == ratio(
                    signed(negative, numerator@ as int),
                    denominator@ as int,
                ),
                None => denominator@ == 0,
            },
    {
        if denominator.is_zero() {
            None
        } else {
            Some(Rational::reduced(negative, numerator, denominator))
        }
    }

    /// The sign, the numerator and the denominator of the number in lowest
    /// terms.
    pub fn to_parts(&self) -> (parts: (bool, Natural, Natural))
        ensures
            is_lowest_terms(parts.0, parts.1@, parts.2@),
            self@ == ratio(signed(parts.0, parts.1@ as int), parts.2@ as int),
    {
        proof {
            use_type_invariant(self);
        }
        (self.negative, self.numerator.clone(), self.denominator.clone())
    }

    /// The number `mantissa * 2^exponent` with the given sign: what a binary
    /// floating-point number stands for.
    pub fn from_binary(negative: bool, mantissa: u64, exponent: i32) -> (r: Rational)
        ensures
            r@ == binary_value(negative, mantissa as int, exponent as int),
    {
        if exponent >= 0 {
            let scale: Natural = Natural::power_of_two(exponent as usize);
            Rational::reduced(
                negative,
                Natural::from_u64(mantissa).mul(&scale),
                Natural::from_u64(1),
            )
        } else {
            let down: i64 = -(exponent as i64);
            let scale: Natural = Natural::power_of_two(down as usize);
            proof {
                lemma_bit_weight_positive(down as nat);
            }
            Rational::reduced(negative, Natural::from_u64(mantissa), scale)
        }
    }

    /// The rational number equal to the integer `x`.
    pub fn from_int(x: i64) -> (r: Rational)
        ensures
            r@ == x as real,
    {
        let negative: bool = x < 0;
        let magnitude: u64 = magnitude(x);
        proof {
            lemma_coprime_to_one(magnitude as nat);
        }
        let r = Rational {
            negative,
            numerator: Natural::from_u64(magnitude),
            denominator: Natural::from_u64(1),
        };
        assert(ratio(x as int, 1) == x as real) by {
            let a: real = x as real;
            assert(a / (1 as real) == a) by (nonlinear_arith);
        }
        r
    }

    /// The rational number `num / den`, or `None` where `den` is zero.
    pub fn from_ratio(num: i64, den: i64) -> (r: Option<Rational>)
        ensures
            match r {
                Some(q) => den != 0 && q@ == num as real / den as real,
                None => den == 0,
            },
    {
        if den == 0 {
            return None;
        }
        let negative: bool = (num < 0) != (den < 0);
        let q = Rational::reduced(
            negative,
            Natural::from_u64(magnitude(num)),
            Natural::from_u64(magnitude(den)),
        );
        proof {
            let n: int = num as int;
            let d: int = den as int;
            if den < 0 {
                lemma_ratio_scale(n, d, -1);
            }
        }
        Some(q)
    }

    /// Whether the number is zero.
    pub fn is_zero(&self) -> (b: bool)
        ensures
            b == (self@ == 0 as real),
    {
        proof {
            use_type_invariant(self);
            lemma_ratio_sign(
                signed(self.negative, self.numerator@ as int),
                self.denominator@ as int,
            );
        }
        self.numerator.is_zero()
    }

    /// Whether the number is below zero.
    pub fn is_negative(&self) -> (b: bool)
        ensures
            b == (self@ < 0 as real),
    {
        proof {
            use_type_invariant(self);
            lemma_ratio_sign(
                signed(self.negative, self.numerator@ as int),
                self.denominator@ as int,
            );
        }
        self.negative && !self.numerator.is_zero()
    }

    /// Whether the number is above zero.
    pub fn is_positive(&self) -> (b: bool)
        ensures
            b == (self@ > 0 as real),
    {
        proof {
            use_type_invariant(self);
            lemma_ratio_sign(
                signed(self.negative, self.numerator@ as int),
                self.denominator@ as int,
            );
        }
        !self.negative && !self.numerator.is_zero()
    }

    /// The number with its sign reversed.
    pub fn neg(&self) -> (r: Rational)
        ensures
            r@ == -self@,
    {
        proof {
            use_type_invariant(self);
            lemma_ratio_neg(
                signed(self.negative, self.numerator@ as int),
                self.denominator@ as int,
            );
        }
        let negative: bool = !self.negative && !self.numerator.is_zero();
        Rational {
            negative,
            numerator: self.numerator.clone(),
            denominator: self.denominator.clone(),
        }
    }

    /// The distance of the number from zero.
    pub fn abs(&self) -> (r: Rational)
        ensures
            r@ == if self@ < 0 as real { -self@ } else { self@ },
    {
        proof {
            use_type_invariant(self);
            lemma_ratio_neg(
                signed(self.negative, self.numerator@ as int),
                self.denominator@ as int,
            );
            lemma_ratio_sign(
                signed(self.negative, self.numerator@ as int),
                self.denominator@ as int,
            );
        }
        Rational {
            negative: false,
            numerator: self.numerator.clone(),
            denominator: self.denominator.clone(),
        }
    }

    /// The sum of two numbers.
    pub fn add(&self, other: &Rational) -> (r: Rational)
        ensures
            r@ == self@ + other@,
    {
        proof {
            use_type_invariant(self);
            use_type_invariant(other);
        }
        let left: Natural = self.numerator.mul(&other.denominator);
        let right: Natural = other.numerator.mul(&self.denominator);
        let denominator: Natural = self.denominator.mul(&other.denominator);
        let ghost n1: int = signed(self.negative, self.numerator@ as int);
        let ghost n2: int = signed(other.negative, other.numerator@ as int);
        let ghost d1: int = self.denominator@ as int;
        let ghost d2: int = other.denominator@ as int;
        proof {
            lemma_ratio_add(n1, d1, n2, d2);
            assert(d1 * d2 > 0) by (nonlinear_arith)
                requires
                    d1 > 0,
                    d2 > 0,
            ;
            assert(n1 * d2 == signed(self.negative, self.numerator@ * d2)) by (nonlinear_arith)
                requires
                    n1 == signed(self.negative, self.numerator@ as int),
            ;
            assert(n2 * d1 == signed(other.negative, other.numerator@ * d1)) by (nonlinear_arith)
                requires
                    n2 == signed(other.negative, other.numerator@ as int),
            ;
        }
        if self.negative == other.negative {
            Rational::reduced(self.negative, left.add(&right), denominator)
        } else {
            match left.checked_sub(&right) {
                Some(numerator) => Rational::reduced(self.negative, numerator, denominator),
                None => {
                    let numerator: Natural = match right.checked_sub(&left) {
                        Some(m) => m,
                        None => Natural::zero(),
                    };
                    Rational::reduced(other.negative, numerator, denominator)
                },
            }
        }
    }

    /// The difference of two numbers.
    pub fn sub(&self, other: &Rational) -> (r: Rational)
        ensures
            r@ == self@ - other@,
    {
        let minus: Rational = other.neg();
        self.add(&minus)
    }

    /// The product of two numbers.
    pub fn mul(&self, other: &Rational) -> (r: Rational)
        ensures
            r@ == self@ * other@,
    {
        proof {
            use_type_invariant(self);
            use_type_invariant(other);
        }
        let numerator: Natural = self.numerator.mul(&other.numerator);
        let denominator: Natural = self.denominator.mul(&other.denominator);
        let ghost n1: int = signed(self.negative, self.numerator@ as int);
        let ghost n2: int = signed(other.negative, other.numerator@ as int);
        let ghost d1: int = self.denominator@ as int;
        let ghost d2: int = other.denominator@ as int;
        proof {
            lemma_ratio_mul(n1, d1, n2, d2);
            assert(d1 * d2 > 0) by (nonlinear_arith)
                requires
                    d1 > 0,
                    d2 > 0,
            ;
            assert(n1 * n2 == signed(
                self.negative != other.negative,
                (self.numerator@ * other.numerator@) as int,
            )) by (nonlinear_arith)
                requires
                    n1 == signed(self.negative, self.numerator@ as int),
                    n2 == signed(other.negative, other.numerator@ as int),
            ;
        }
        Rational::reduced(self.negative != other.negative, numerator, denominator)
    }

    /// The quotient of two numbers; the divisor is not zero.
    pub fn div(&self, other: &Rational) -> (r: Rational)
        requires
            other@ != 0 as real,
        ensures
            r@ == self@ / other@,
    {
        proof {
            use_type_invariant(self);
            use_type_invariant(other);
        }
        let numerator: Natural = self.numerator.mul(&other.denominator);
        let denominator: Natural = self.denominator.mul(&other.numerator);
        let ghost n1: int = signed(self.negative, self.numerator@ as int);
        let ghost n2: int = signed(other.negative, other.numerator@ as int);
        let ghost m2: int = other.numerator@ as int;
        let ghost d1: int = self.denominator@ as int;
        let ghost d2: int = other.denominator@ as int;
        proof {
            lemma_ratio_sign(n2, d2);
            lemma_ratio_div(n1, d1, n2, d2);
            assert(d1 * m2 > 0) by (nonlinear_arith)
                requires
                    d1 > 0,
                    m2 > 0,
            ;
            if other.negative {
                // the divisor's sign moves to the numerator
                assert(n1 * d2 == -signed(self.negative != other.negative, self.numerator@ * d2))
                    by (nonlinear_arith)
                    requires
                        n1 == signed(self.negative, self.numerator@ as int),
                        other.negative,
                ;
                assert(d1 * n2 == -(d1 * m2)) by (nonlinear_arith)
                    requires
                        n2 == -m2,
                ;
                let a: int = signed(self.negative != other.negative, self.numerator@ * d2);
                let b: int = d1 * m2;
                lemma_ratio_scale(a, b, -1);
            } else {
                assert(n1 * d2 == signed(self.negative != other.negative, self.numerator@ * d2))
                    by (nonlinear_arith)
                    requires
                        n1 == signed(self.negative, self.numerator@ as int),
                        !other.negative,
                ;
            }
        }
        Rational::reduced(self.negative != other.negative, numerator, denominator)
    }

    /// The quotient of two numbers, or `None` where the divisor is zero.
    pub fn checked_div(&self, other: &Rational) -> (r: Option<Rational>)
        ensures
            match r {
                Some(q) => other@ != 0 as real && q@ == self@ / other@,
                None => other@ == 0 as real,
            },
    {
        if other.is_zero() {
            None
        } else {
            Some(self.div(other))
        }
    }

    /// Whether the two numbers are equal.
    pub fn eq_value(&self, other: &Rational) -> (b: bool)
        ensures
            b == (self@ == other@),
    {
        self.sub(other).is_zero()
    }

    /// Whether `self` is smaller than `other`.
    pub fn lt(&self, other: &Rational) -> (b: bool)
        ensures
            b == (self@ < other@),
    {
        self.sub(other).is_negative()
    }

    /// Whether `self` is at most `other`.
    pub fn le(&self, other: &Rational) -> (b: bool)
        ensures
            b == (self@ <= other@),
    {
        !other.lt(self)
    }
}

} // verus!
