//! Natural numbers of arbitrary size, stored as little-endian limbs in base 2^32.

use vstd::prelude::*;

verus! {

/// The base of the limb representation.
pub open spec fn radix() -> int {
    0x1_0000_0000
}

/// `radix()` raised to the power `n`.
pub open spec fn radix_pow(n: nat) -> int
    decreases n,
{
    if n == 0 {
        1
    } else {
        radix() * radix_pow((n - 1) as nat)
    }
}

/// The limb at position `i`, reading positions past the end as zero.
pub open spec fn limb_at(s: Seq<u32>, i: int) -> int {
    if 0 <= i < s.len() {
        s[i] as int
    } else {
        0
    }
}

/// The number written by the lowest `n` limbs of `s`.
pub open spec fn low_value(s: Seq<u32>, n: nat) -> int
    decreases n,
{
    if n == 0 {
        0
    } else {
        low_value(s, (n - 1) as nat) + limb_at(s, n - 1) * radix_pow((n - 1) as nat)
    }
}

/// The number written by the limbs of `s` from position `i` upwards,
/// with limb `i` as the units.
pub open spec fn high_value(s: Seq<u32>, i: nat) -> int
    decreases s.len() - i,
{
    if i >= s.len() {
        0
    } else {
        limb_at(s, i as int) + radix() * high_value(s, i + 1)
    }
}

/// Every power of the radix is at least one.
proof fn lemma_radix_pow_positive(n: nat)
    ensures
        radix_pow(n) >= 1,
    decreases n,
{
    if n > 0 {
        lemma_radix_pow_positive((n - 1) as nat);
        let p: int = radix_pow((n - 1) as nat);
        assert(radix() * p >= 1) by (nonlinear_arith)
            requires
                p >= 1,
                radix() == 0x1_0000_0000,
        ;
    }
}

/// Distribution of a product over a sum, for the symbolic powers of the radix.
proof fn lemma_distribute(a: int, b: int, p: int)
    ensures
        (a + b) * p == a * p + b * p,
        (a - b) * p == a * p - b * p,
        p * (a + b) == p * a + p * b,
{
    assert((a + b) * p == a * p + b * p) by (nonlinear_arith);
    assert((a - b) * p == a * p - b * p) by (nonlinear_arith);
    assert(p * (a + b) == p * a + p * b) by (nonlinear_arith);
}

/// `n` limbs write a number below the `n`-th power of the radix.
proof fn lemma_low_value_bounds(s: Seq<u32>, n: nat)
    ensures
        0 <= low_value(s, n) < radix_pow(n),
    decreases n,
{
    if n > 0 {
        let m: nat = (n - 1) as nat;
        lemma_low_value_bounds(s, m);
        lemma_radix_pow_positive(m);
        let p: int = radix_pow(m);
        let d: int = limb_at(s, n - 1);
        assert(0 <= d * p && d * p + p <= radix() * p) by (nonlinear_arith)
            requires
                0 <= d <= 0xffff_ffff,
                p >= 1,
                radix() == 0x1_0000_0000,
        ;
    } else {
    }
}

/// Two limb sequences that agree on their lowest `n` positions write the same
/// number there.
proof fn lemma_low_value_agree(s: Seq<u32>, t: Seq<u32>, n: nat)
    requires
        forall|i: int| 0 <= i < n ==> limb_at(s, i) == limb_at(t, i),
    ensures
        low_value(s, n) == low_value(t, n),
    decreases n,
{
    if n > 0 {
        lemma_low_value_agree(s, t, (n - 1) as nat);
    }
}

/// Positions past the end of the sequence add nothing.
proof fn lemma_low_value_past_end(s: Seq<u32>, n: nat)
    requires
        n >= s.len(),
    ensures
        low_value(s, n) == low_value(s, s.len()),
    decreases n,
{
    if n > s.len() {
        lemma_low_value_past_end(s, (n - 1) as nat);
        assert(limb_at(s, n - 1) * radix_pow((n - 1) as nat) == 0) by (nonlinear_arith)
            requires
                limb_at(s, n - 1) == 0,
        ;
    }
}

/// Splitting a number at position `i` into its low and high parts.
proof fn lemma_split_value(s: Seq<u32>, i: nat)
    requires
        i <= s.len(),
    ensures
        low_value(s, s.len()) == low_value(s, i) + radix_pow(i) * high_value(s, i),
    decreases s.len() - i,
{
    if i < s.len() {
        lemma_split_value(s, i + 1);
        let p: int = radix_pow(i);
        let h: int = high_value(s, i + 1);
        let d: int = limb_at(s, i as int);
        assert(radix_pow(i + 1) == radix() * p);
        assert(radix_pow(i + 1) * h + d * p == p * (d + radix() * h)) by (nonlinear_arith)
            requires
                radix_pow(i + 1) == radix() * p,
        ;
    } else {
        assert(radix_pow(i) * high_value(s, i) == 0) by (nonlinear_arith)
            requires
                high_value(s, i) == 0,
        ;
    }
}

/// The high part of a number is not negative.
proof fn lemma_high_value_nonnegative(s: Seq<u32>, i: nat)
    ensures
        high_value(s, i) >= 0,
    decreases s.len() - i,
{
    if i < s.len() {
        lemma_high_value_nonnegative(s, i + 1);
        let h: int = high_value(s, i + 1);
        assert(radix() * h >= 0) by (nonlinear_arith)
            requires
                h >= 0,
                radix() == 0x1_0000_0000,
        ;
    }
}

/// Two raised to the power `n`.
pub open spec fn bit_weight(n: nat) -> int
    decreases n,
{
    if n == 0 {
        1
    } else {
        2 * bit_weight((n - 1) as nat)
    }
}

/// Every power of two is positive.
pub(crate) proof fn lemma_bit_weight_positive(n: nat)
    ensures
        bit_weight(n) > 0,
    decreases n,
{
    if n > 0 {
        lemma_bit_weight_positive((n - 1) as nat);
    }
}

/// The powers of two below the thirty-second fit in a limb.
proof fn lemma_bit_weight_small(n: nat)
    requires
        n < 32,
    ensures
        0 < bit_weight(n) <= 0x8000_0000,
        n < 31 ==> bit_weight(n) <= 0x4000_0000,
{
    reveal_with_fuel(bit_weight, 33);
}

/// The powers of two multiply as their exponents add.
proof fn lemma_bit_weight_adds(a: nat, b: nat)
    ensures
        bit_weight(a + b) == bit_weight(a) * bit_weight(b),
    decreases a,
{
    if a == 0 {
        assert(bit_weight(b) == 1 * bit_weight(b)) by (nonlinear_arith);
    } else {
        lemma_bit_weight_adds((a - 1) as nat, b);
        let x: int = bit_weight((a - 1) as nat);
        let y: int = bit_weight(b);
        assert((2 * x) * y == 2 * (x * y)) by (nonlinear_arith);
        assert(bit_weight(a + b) == 2 * bit_weight((a + b - 1) as nat));
    }
}

/// The `k`-th power of the radix is two to the power `32 k`.
proof fn lemma_radix_pow_is_bit_weight(k: nat)
    ensures
        radix_pow(k) == bit_weight(32 * k),
    decreases k,
{
    if k > 0 {
        lemma_radix_pow_is_bit_weight((k - 1) as nat);
        lemma_bit_weight_adds(32, (32 * (k - 1)) as nat);
        lemma_bit_weight_of_limb();
    }
}

/// Thirty-two bits make a limb.
proof fn lemma_bit_weight_of_limb()
    ensures
        bit_weight(32) == radix(),
{
    reveal_with_fuel(bit_weight, 33);
}

/// Whether `x` is `k` times `c`.
pub open spec fn is_multiple(x: nat, c: nat, k: nat) -> bool {
    x == c * k
}

/// Whether `x` is a multiple of `c`.
pub open spec fn divides(c: nat, x: nat) -> bool {
    exists|k: nat| #[trigger] is_multiple(x, c, k)
}

/// Whether `g` is the greatest common divisor of `a` and `b`: it divides
/// both, and whatever divides both divides it.
pub open spec fn is_gcd(g: nat, a: nat, b: nat) -> bool {
    &&& divides(g, a)
    &&& divides(g, b)
    &&& forall|c: nat| divides(c, a) && divides(c, b) ==> #[trigger] divides(c, g)
}

/// Whether nothing but one divides both `a` and `b`.
pub open spec fn coprime(a: nat, b: nat) -> bool {
    forall|c: nat| #[trigger] divides(c, a) && divides(c, b) ==> c == 1
}

/// What Euclid's algorithm makes of `a` and `b`: `a` where `b` is zero, else
/// what it makes of `b` and the remainder of `a` by `b`.
pub open spec fn euclid(a: nat, b: nat) -> nat
    decreases b,
{
    if b == 0 {
        a
    } else {
        euclid(b, a % b)
    }
}

/// A number is the product of its quotient by a divisor, and its remainder.
proof fn lemma_quotient_and_remainder(a: nat, b: nat)
    requires
        b > 0,
    ensures
        a == b * (a / b) + a % b,
        a % b < b,
{
    assert(a == b * (a / b) + a % b && a % b < b) by (nonlinear_arith)
        requires
            b > 0,
    ;
}

/// A quotient and a remainder are known by what they add up to.
proof fn lemma_division_is_unique(a: nat, d: nat, q: nat, r: nat)
    requires
        d > 0,
        q * d + r == a,
        r < d,
    ensures
        q == a / d,
        r == a % d,
{
    assert(q == a / d && r == a % d) by (nonlinear_arith)
        requires
            d > 0,
            q * d + r == a,
            0 <= r < d,
            q >= 0,
    ;
}

/// What divides two numbers divides the remainder of the one by the other.
proof fn lemma_divides_remainder(c: nat, a: nat, b: nat)
    requires
        b > 0,
        divides(c, a),
        divides(c, b),
    ensures
        divides(c, a % b),
{
    let k1: nat = choose|k: nat| #[trigger] is_multiple(a, c, k);
    let k2: nat = choose|k: nat| #[trigger] is_multiple(b, c, k);
    let q: nat = a / b;
    let r: nat = a % b;
    lemma_quotient_and_remainder(a, b);
    assert(c > 0) by (nonlinear_arith)
        requires
            b == c * k2,
            b > 0,
    ;
    assert(k1 >= k2 * q && r == c * (k1 - k2 * q)) by (nonlinear_arith)
        requires
            a == b * q + r,
            a == c * k1,
            b == c * k2,
            c > 0,
            r >= 0,
    ;
    assert(is_multiple(r, c, (k1 - k2 * q) as nat));
}

/// What divides a number and the remainder of another by it divides the
/// other.
proof fn lemma_divides_dividend(c: nat, a: nat, b: nat)
    requires
        b > 0,
        divides(c, b),
        divides(c, a % b),
    ensures
        divides(c, a),
{
    let k1: nat = choose|k: nat| #[trigger] is_multiple(b, c, k);
    let k2: nat = choose|k: nat| #[trigger] is_multiple(a % b, c, k);
    let q: nat = a / b;
    let r: nat = a % b;
    lemma_quotient_and_remainder(a, b);
    let k: nat = k1 * q + k2;
    assert(a == c * k) by (nonlinear_arith)
        requires
            a == b * q + r,
            b == c * k1,
            r == c * k2,
            k == k1 * q + k2,
    ;
    assert(is_multiple(a, c, k));
}

/// Every number divides itself and zero.
proof fn lemma_divides_itself(a: nat)
    ensures
        divides(a, a),
        divides(a, 0),
{
    assert(a == a * 1nat) by (nonlinear_arith);
    assert(0 == a * 0nat) by (nonlinear_arith);
    assert(is_multiple(a, a, 1));
    assert(is_multiple(0, a, 0));
}

/// What Euclid's algorithm finds is the greatest common divisor.
proof fn lemma_euclid_is_gcd(a: nat, b: nat)
    ensures
        is_gcd(euclid(a, b), a, b),
    decreases b,
{
    let g: nat = euclid(a, b);
    if b == 0 {
        lemma_divides_itself(a);
    } else {
        lemma_euclid_is_gcd(b, a % b);
        lemma_divides_dividend(g, a, b);
        assert forall|c: nat| divides(c, a) && divides(c, b) implies #[trigger] divides(c, g) by {
            lemma_divides_remainder(c, a, b);
        }
    }
}

/// Dividing a multiple of `g` by `g` leaves nothing over.
pub(crate) proof fn lemma_exact_division(x: nat, g: nat, q: nat, r: nat)
    requires
        divides(g, x),
        q * g + r == x,
        r < g,
    ensures
        r == 0,
        x == q * g,
{
    let k: nat = choose|k: nat| #[trigger] is_multiple(x, g, k);
    assert(r == 0) by (nonlinear_arith)
        requires
            q * g + r == g * k,
            0 <= r < g,
    ;
}

/// Two numbers divided by their greatest common divisor have nothing left
/// in common.
pub(crate) proof fn lemma_reduced_is_coprime(a: nat, b: nat, g: nat, x: nat, y: nat)
    requires
        is_gcd(g, a, b),
        g > 0,
        a == x * g,
        b == y * g,
    ensures
        coprime(x, y),
{
    assert forall|c: nat| #[trigger] divides(c, x) && divides(c, y) implies c == 1 by {
        let k1: nat = choose|k: nat| #[trigger] is_multiple(x, c, k);
        let k2: nat = choose|k: nat| #[trigger] is_multiple(y, c, k);
        let cg: nat = c * g;
        assert(a == cg * k1) by (nonlinear_arith)
            requires
                a == x * g,
                x == c * k1,
                cg == c * g,
        ;
        assert(b == cg * k2) by (nonlinear_arith)
            requires
                b == y * g,
                y == c * k2,
                cg == c * g,
        ;
        assert(is_multiple(a, cg, k1));
        assert(is_multiple(b, cg, k2));
        assert(divides(cg, g));
        let k: nat = choose|k: nat| #[trigger] is_multiple(g, cg, k);
        assert(c == 1) by (nonlinear_arith)
            requires
                g == cg * k,
                cg == c * g,
                g > 0,
        ;
    }
}

/// Nothing but one divides one.
pub(crate) proof fn lemma_coprime_to_one(a: nat)
    ensures
        coprime(a, 1),
{
    assert forall|c: nat| #[trigger] divides(c, a) && divides(c, 1) implies c == 1 by {
        let k: nat = choose|k: nat| #[trigger] is_multiple(1, c, k);
        assert(c == 1) by (nonlinear_arith)
            requires
                1 == c * k,
        ;
    }
}

/// A natural number of arbitrary size.
#[derive(Debug)]
pub struct Natural {
    limbs: Vec<u32>,
}

impl View for Natural {
    type V = nat;

    closed spec fn view(&self) -> nat {
        low_value(self.limbs@, self.limbs@.len()) as nat
    }
}

/// Whether the limbs end in a limb that is not zero, or are none at all:
/// the one way of writing a number.
pub open spec fn is_trimmed(limbs: Seq<u32>) -> bool {
    limbs.len() == 0 || limbs[limbs.len() - 1] != 0
}

impl Clone for Natural {
    fn clone(&self) -> (r: Self)
        ensures
            r@ == self@,
    {
        proof {
            use_type_invariant(self);
        }
        Natural { limbs: self.limbs.clone() }
    }
}

impl Natural {
    /// A number is kept without zero limbs at its top.
    #[verifier::type_invariant]
    spec fn kept_trimmed(self) -> bool {
        is_trimmed(self.limbs@)
    }

    /// The number zero.
    pub fn zero() -> (r: Natural)
        ensures
            r@ == 0,
    {
        Natural { limbs: Vec::new() }
    }

    /// The number written by the given limbs, lowest first, in base 2^32.
    pub fn from_limbs(limbs: Vec<u32>) -> (r: Natural)
        ensures
            r@ == low_value(limbs@, limbs@.len()),
    {
        Natural::trimmed(limbs)
    }

    /// The limbs that write the number, lowest first, in base 2^32, without
    /// zero limbs at the top.
    pub fn to_limbs(&self) -> (limbs: Vec<u32>)
        ensures
            low_value(limbs@, limbs@.len()) == self@,
            is_trimmed(limbs@),
    {
        proof {
            use_type_invariant(self);
            lemma_low_value_bounds(self.limbs@, self.limbs@.len());
        }
        self.limbs.clone()
    }

    /// Two raised to the power `n`.
    pub fn power_of_two(n: usize) -> (r: Natural)
        ensures
            r@ == bit_weight(n as nat),
    {
        let whole: usize = n / 32;
        let part: usize = n % 32;
        let mut limbs: Vec<u32> = Vec::new();
        let mut i: usize = 0;
        while i < whole
            invariant
                i <= whole,
                limbs.len() == i,
                low_value(limbs@, i as nat) == 0,
            decreases whole - i,
        {
            let ghost before: Seq<u32> = limbs@;
            limbs.push(0);
            proof {
                lemma_low_value_agree(before, limbs@, i as nat);
                assert(limb_at(limbs@, i as int) * radix_pow(i as nat) == 0) by (nonlinear_arith)
                    requires
                        limb_at(limbs@, i as int) == 0,
                ;
            }
            i += 1;
        }
        let mut top: u32 = 1;
        let mut j: usize = 0;
        while j < part
            invariant
                j <= part,
                part < 32,
                top == bit_weight(j as nat),
                top <= 0x8000_0000,
                j < 31 ==> top <= 0x4000_0000,
            decreases part - j,
        {
            proof {
                lemma_bit_weight_small(j as nat);
                lemma_bit_weight_small((j + 1) as nat);
            }
            top = top * 2;
            j += 1;
        }
        let ghost before: Seq<u32> = limbs@;
        limbs.push(top);
        proof {
            lemma_low_value_agree(before, limbs@, whole as nat);
            lemma_radix_pow_is_bit_weight(whole as nat);
            lemma_bit_weight_adds(part as nat, (32 * whole) as nat);
            assert(limb_at(limbs@, whole as int) == top);
        }
        Natural::trimmed(limbs)
    }

    /// The natural number equal to `x`.
    pub fn from_u64(x: u64) -> (r: Natural)
        ensures
            r@ == x,
    {
        let low: u32 = (x % 0x1_0000_0000) as u32;
        let high: u32 = (x / 0x1_0000_0000) as u32;
        let mut limbs: Vec<u32> = Vec::new();
        limbs.push(low);
        limbs.push(high);
        proof {
            let s: Seq<u32> = limbs@;
            assert(radix_pow(0) == 1);
            assert(radix_pow(1) == radix() * radix_pow(0));
            assert(limb_at(s, 0) == low);
            assert(limb_at(s, 1) == high);
            assert(low_value(s, 0) == 0);
            assert(low_value(s, 1) == low_value(s, 0) + limb_at(s, 0) * radix_pow(0));
            assert(low_value(s, 2) == low_value(s, 1) + limb_at(s, 1) * radix_pow(1));
        }
        Natural::trimmed(limbs)
    }

    /// Whether the number is zero.
    pub fn is_zero(&self) -> (b: bool)
        ensures
            b == (self@ == 0),
    {
        let mut i: usize = 0;
        while i < self.limbs.len()
            invariant
                i <= self.limbs.len(),
                low_value(self.limbs@, i as nat) == 0,
            decreases self.limbs.len() - i,
        {
            if self.limbs[i] != 0 {
                proof {
                    let s: Seq<u32> = self.limbs@;
                    let d: int = limb_at(s, i as int);
                    let p: int = radix_pow(i as nat);
                    lemma_radix_pow_positive(i as nat);
                    lemma_split_value(s, i as nat);
                    lemma_split_value(s, (i + 1) as nat);
                    lemma_low_value_bounds(s, s.len());
                    lemma_low_value_bounds(s, (i + 1) as nat);
                    // the low part up to and including limb `i` is already positive
                    assert(d * p >= 1) by (nonlinear_arith)
                        requires
                            d >= 1,
                            p >= 1,
                    ;
                    lemma_high_value_nonnegative(s, (i + 1) as nat);
                    lemma_radix_pow_positive((i + 1) as nat);
                    let q: int = radix_pow((i + 1) as nat);
                    let h: int = high_value(s, (i + 1) as nat);
                    assert(q * h >= 0) by (nonlinear_arith)
                        requires
                            q >= 1,
                            h >= 0,
                    ;
                }
                return false;
            }
            proof {
                assert(limb_at(self.limbs@, i as int) * radix_pow(i as nat) == 0) by (nonlinear_arith)
                    requires
                        limb_at(self.limbs@, i as int) == 0,
                ;
            }
            i += 1;
        }
        true
    }

    /// The sum of two numbers.
    pub fn add(&self, other: &Natural) -> (r: Natural)
        ensures
            r@ == self@ + other@,
    {
        let n: usize = if self.limbs.len() >= other.limbs.len() {
            self.limbs.len()
        } else {
            other.limbs.len()
        };
        let mut out: Vec<u32> = Vec::new();
        let mut carry: u64 = 0;
        let mut i: usize = 0;
        while i < n
            invariant
                i <= n,
                n >= self.limbs.len(),
                n >= other.limbs.len(),
                carry <= 1,
                out.len() == i,
                low_value(out@, i as nat) + carry * radix_pow(i as nat) == low_value(
                    self.limbs@,
                    i as nat,
                ) + low_value(other.limbs@, i as nat),
            decreases n - i,
        {
            let x: u64 = if i < self.limbs.len() {
                self.limbs[i] as u64
            } else {
                0
            };
            let y: u64 = if i < other.limbs.len() {
                other.limbs[i] as u64
            } else {
                0
            };
            let t: u64 = x + y + carry;
            let digit: u32 = (t % 0x1_0000_0000) as u32;
            let ghost before: Seq<u32> = out@;
            out.push(digit);
            proof {
                let p: int = radix_pow(i as nat);
                lemma_low_value_agree(before, out@, i as nat);
                assert(limb_at(out@, i as int) == digit);
                assert(radix_pow((i + 1) as nat) == radix() * p);
                let c: int = (t / 0x1_0000_0000) as int;
                assert(digit * p + c * (radix() * p) == (x + y + carry) * p) by (nonlinear_arith)
                    requires
                        digit + c * radix() == x + y + carry,
                ;
                lemma_distribute(x as int + y as int, carry as int, p);
                lemma_distribute(x as int, y as int, p);
            }
            carry = t / 0x1_0000_0000;
            i += 1;
        }
        let ghost before: Seq<u32> = out@;
        out.push(carry as u32);
        proof {
            lemma_low_value_agree(before, out@, n as nat);
            lemma_low_value_past_end(self.limbs@, n as nat);
            lemma_low_value_past_end(other.limbs@, n as nat);
            lemma_low_value_bounds(self.limbs@, self.limbs@.len());
            lemma_low_value_bounds(other.limbs@, other.limbs@.len());
        }
        Natural::trimmed(out)
    }

    /// Drops zero limbs from the top; the number stays the same.
    fn trimmed(limbs: Vec<u32>) -> (r: Natural)
        ensures
            r@ == low_value(limbs@, limbs@.len()),
    {
        let mut limbs = limbs;
        let ghost start: Seq<u32> = limbs@;
        proof {
            lemma_low_value_bounds(start, start.len());
        }
        while limbs.len() > 0 && limbs[limbs.len() - 1] == 0
            invariant
                limbs.len() <= start.len(),
                forall|i: int| 0 <= i < limbs.len() ==> limbs@[i] == start[i],
                low_value(start, limbs@.len()) == low_value(start, start.len()),
            decreases limbs.len(),
        {
            let ghost m: nat = (limbs.len() - 1) as nat;
            proof {
                assert(limb_at(start, m as int) * radix_pow(m) == 0) by (nonlinear_arith)
                    requires
                        limb_at(start, m as int) == 0,
                ;
            }
            limbs.pop();
        }
        proof {
            lemma_low_value_agree(start, limbs@, limbs@.len());
        }
        Natural { limbs }
    }

    /// The difference `self - other` where it is a natural number, and `None`
    /// where `other` is the larger.
    pub fn checked_sub(&self, other: &Natural) -> (r: Option<Natural>)
        ensures
            match r {
                Some(d) => self@ >= other@ && d@ == self@ - other@,
                None => self@ < other@,
            },
    {
        let n: usize = if self.limbs.len() >= other.limbs.len() {
            self.limbs.len()
        } else {
            other.limbs.len()
        };
        let mut out: Vec<u32> = Vec::new();
        let mut borrow: u64 = 0;
        let mut i: usize = 0;
        while i < n
            invariant
                i <= n,
                n >= self.limbs.len(),
                n >= other.limbs.len(),
                borrow <= 1,
                out.len() == i,
                low_value(out@, i as nat) - borrow * radix_pow(i as nat) == low_value(
                    self.limbs@,
                    i as nat,
                ) - low_value(other.limbs@, i as nat),
            decreases n - i,
        {
            let x: u64 = if i < self.limbs.len() {
                self.limbs[i] as u64
            } else {
                0
            };
            let y: u64 = if i < other.limbs.len() {
                other.limbs[i] as u64
            } else {
                0
            };
            let take: u64 = y + borrow;
            let next: u64 = if x >= take {
                0
            } else {
                1
            };
            let digit: u32 = if x >= take {
                (x - take) as u32
            } else {
                (x + 0x1_0000_0000 - take) as u32
            };
            let ghost before: Seq<u32> = out@;
            out.push(digit);
            proof {
                let p: int = radix_pow(i as nat);
                lemma_low_value_agree(before, out@, i as nat);
                assert(limb_at(out@, i as int) == digit);
                assert(radix_pow((i + 1) as nat) == radix() * p);
                assert(digit * p - next * (radix() * p) == x * p - y * p - borrow * p)
                    by (nonlinear_arith)
                    requires
                        digit - next * radix() == x - y - borrow,
                ;
            }
            borrow = next;
            i += 1;
        }
        proof {
            lemma_low_value_bounds(out@, n as nat);
            lemma_low_value_past_end(self.limbs@, n as nat);
            lemma_low_value_past_end(other.limbs@, n as nat);
            lemma_low_value_bounds(self.limbs@, self.limbs@.len());
            lemma_low_value_bounds(other.limbs@, other.limbs@.len());
        }
        if borrow == 0 {
            Some(Natural::trimmed(out))
        } else {
            None
        }
    }

    /// Whether `self` is smaller than `other`.
    pub fn lt(&self, other: &Natural) -> (b: bool)
        ensures
            b == (self@ < other@),
    {
        self.checked_sub(other).is_none()
    }

    /// Whether the two numbers are equal.
    pub fn eq_value(&self, other: &Natural) -> (b: bool)
        ensures
            b == (self@ == other@),
    {
        match self.checked_sub(other) {
            Some(d) => d.is_zero(),
            None => false,
        }
    }

    /// The product of the number and a single limb.
    pub fn mul_small(&self, m: u32) -> (r: Natural)
        ensures
            r@ == self@ * m,
    {
        self.mul_small_add(m, 0)
    }

    /// The product of the number and a single limb, with a limb added.
    pub fn mul_small_add(&self, m: u32, c: u32) -> (r: Natural)
        ensures
            r@ == self@ * m + c,
    {
        let n: usize = self.limbs.len();
        let mut out: Vec<u32> = Vec::new();
        let mut carry: u64 = c as u64;
        let mut i: usize = 0;
        proof {
            assert(low_value(self.limbs@, 0) * m == 0) by (nonlinear_arith)
                requires
                    low_value(self.limbs@, 0) == 0,
            ;
        }
        while i < n
            invariant
                i <= n,
                n == self.limbs.len(),
                carry <= 0xffff_ffff,
                out.len() == i,
                low_value(out@, i as nat) + carry * radix_pow(i as nat) == low_value(
                    self.limbs@,
                    i as nat,
                ) * m + c,
            decreases n - i,
        {
            let x: u64 = self.limbs[i] as u64;
            assert(x * (m as u64) + carry <= 0xffff_ffff_0000_0000) by (nonlinear_arith)
                requires
                    x <= 0xffff_ffff,
                    m <= 0xffff_ffff,
                    carry <= 0xffff_ffff,
            ;
            let t: u64 = x * (m as u64) + carry;
            let digit: u32 = (t % 0x1_0000_0000) as u32;
            let ghost before: Seq<u32> = out@;
            out.push(digit);
            proof {
                let p: int = radix_pow(i as nat);
                let low: int = low_value(self.limbs@, i as nat);
                lemma_low_value_agree(before, out@, i as nat);
                assert(limb_at(out@, i as int) == digit);
                assert(radix_pow((i + 1) as nat) == radix() * p);
                let k: int = (t / 0x1_0000_0000) as int;
                assert(digit * p + k * (radix() * p) == (x * p) * m + carry * p) by (nonlinear_arith)
                    requires
                        digit + k * radix() == x * m + carry,
                ;
                assert((low + x * p) * m == low * m + (x * p) * m) by (nonlinear_arith);
            }
            carry = t / 0x1_0000_0000;
            i += 1;
        }
        let ghost before: Seq<u32> = out@;
        out.push(carry as u32);
        proof {
            lemma_low_value_agree(before, out@, n as nat);
            lemma_low_value_bounds(self.limbs@, n as nat);
            assert(low_value(self.limbs@, n as nat) * m >= 0) by (nonlinear_arith)
                requires
                    low_value(self.limbs@, n as nat) >= 0,
                    m >= 0,
            ;
        }
        Natural::trimmed(out)
    }

    /// The product of the number and the radix: every limb moves up one place.
    fn shifted(&self) -> (r: Natural)
        ensures
            r@ == self@ * radix(),
    {
        let n: usize = self.limbs.len();
        let mut out: Vec<u32> = Vec::new();
        out.push(0);
        proof {
            assert(limb_at(out@, 0) == 0);
            assert(low_value(out@, 0) == 0);
            assert(low_value(out@, 1) == low_value(out@, 0) + limb_at(out@, 0) * radix_pow(0));
            assert(low_value(self.limbs@, 0) == 0);
        }
        let mut i: usize = 0;
        while i < n
            invariant
                i <= n,
                n == self.limbs.len(),
                out.len() == i + 1,
                low_value(out@, (i + 1) as nat) == low_value(self.limbs@, i as nat) * radix(),
            decreases n - i,
        {
            let ghost before: Seq<u32> = out@;
            out.push(self.limbs[i]);
            proof {
                let p: int = radix_pow(i as nat);
                let d: int = self.limbs@[i as int] as int;
                let low: int = low_value(self.limbs@, i as nat);
                lemma_low_value_agree(before, out@, (i + 1) as nat);
                assert(limb_at(out@, i + 1) == d);
                assert(radix_pow((i + 1) as nat) == radix() * p);
                assert(low * radix() + d * (radix() * p) == (low + d * p) * radix())
                    by (nonlinear_arith);
            }
            i += 1;
        }
        proof {
            lemma_low_value_bounds(self.limbs@, n as nat);
        }
        Natural::trimmed(out)
    }

    /// The product of two numbers.
    pub fn mul(&self, other: &Natural) -> (r: Natural)
        ensures
            r@ == self@ * other@,
    {
        let mut acc: Natural = Natural::zero();
        let mut i: usize = self.limbs.len();
        while i > 0
            invariant
                i <= self.limbs.len(),
                acc@ == high_value(self.limbs@, i as nat) * other@,
            decreases i,
        {
            i -= 1;
            let ghost h: int = high_value(self.limbs@, (i + 1) as nat);
            let ghost d: int = limb_at(self.limbs@, i as int);
            let ghost o: int = other@ as int;
            let part: Natural = other.mul_small(self.limbs[i]);
            let up: Natural = acc.shifted();
            acc = up.add(&part);
            proof {
                assert((h * o) * radix() + o * d == (d + radix() * h) * o) by (nonlinear_arith);
            }
        }
        proof {
            lemma_split_value(self.limbs@, 0);
            lemma_low_value_bounds(self.limbs@, self.limbs@.len());
        }
        acc
    }

    /// The quotient and the remainder of the number by a divisor other than
    /// zero.
    pub fn div_rem(&self, divisor: &Natural) -> (r: (Natural, Natural))
        requires
            divisor@ > 0,
        ensures
            r.0@ == self@ / divisor@,
            r.1@ == self@ % divisor@,
            r.0@ * divisor@ + r.1@ == self@,
            r.1@ < divisor@,
    {
        let mut quotient: Natural = Natural::zero();
        let mut rest: Natural = Natural::zero();
        let mut i: usize = self.limbs.len();
        proof {
            assert(0 * divisor@ == 0) by (nonlinear_arith);
        }
        while i > 0
            invariant
                i <= self.limbs.len(),
                divisor@ > 0,
                high_value(self.limbs@, i as nat) == quotient@ * divisor@ + rest@,
                rest@ < divisor@,
            decreases i,
        {
            i -= 1;
            let x: u64 = self.limbs[i] as u64;
            let ghost above: int = high_value(self.limbs@, (i + 1) as nat);
            let mut t: u64 = 32;
            proof {
                assert(x >> 32 == 0) by (bit_vector)
                    requires
                        x <= 0xffff_ffff,
                ;
                assert(bit_weight(0) == 1);
                assert(above * 1 == above) by (nonlinear_arith);
            }
            while t > 0
                invariant
                    t <= 32,
                    x <= 0xffff_ffff,
                    divisor@ > 0,
                    above * bit_weight((32 - t) as nat) + (x >> t) == quotient@ * divisor@
                        + rest@,
                    rest@ < divisor@,
                decreases t,
            {
                let ghost q0: int = quotient@ as int;
                let ghost d: int = divisor@ as int;
                let ghost t0: u64 = t;
                t -= 1;
                let bit: u32 = ((x >> t) & 1) as u32;
                proof {
                    assert((x >> t) == 2 * (x >> t0) + ((x >> t) & 1)) by (bit_vector)
                        requires
                            t0 == t + 1,
                            t < 32,
                            x <= 0xffff_ffff,
                    ;
                    assert(((x >> t) & 1) <= 1) by (bit_vector);
                    assert(bit_weight((32 - t) as nat) == 2 * bit_weight((32 - t0) as nat));
                    let w: int = bit_weight((32 - t0) as nat);
                    assert(above * (2 * w) == 2 * (above * w)) by (nonlinear_arith);
                    assert((2 * q0) * d == 2 * (q0 * d)) by (nonlinear_arith);
                    assert((2 * q0 + 1) * d == 2 * (q0 * d) + d) by (nonlinear_arith);
                }
                let doubled: Natural = rest.mul_small_add(2, bit);
                match doubled.checked_sub(divisor) {
                    Some(less) => {
                        rest = less;
                        quotient = quotient.mul_small_add(2, 1);
                    },
                    None => {
                        rest = doubled;
                        quotient = quotient.mul_small_add(2, 0);
                    },
                }
            }
            proof {
                assert(x >> 0 == x) by (bit_vector);
                lemma_bit_weight_of_limb();
            }
        }
        proof {
            lemma_split_value(self.limbs@, 0);
            lemma_low_value_bounds(self.limbs@, self.limbs@.len());
            lemma_division_is_unique(self@, divisor@, quotient@, rest@);
        }
        (quotient, rest)
    }

    /// The greatest common divisor of two numbers, found as Euclid did.
    pub fn gcd(&self, other: &Natural) -> (g: Natural)
        ensures
            is_gcd(g@, self@, other@),
    {
        let mut a: Natural = self.clone();
        let mut b: Natural = other.clone();
        while !b.is_zero()
            invariant
                euclid(a@, b@) == euclid(self@, other@),
            decreases b@,
        {
            let parts: (Natural, Natural) = a.div_rem(&b);
            a = b;
            b = parts.1;
        }
        proof {
            lemma_euclid_is_gcd(self@, other@);
        }
        a
    }
}

} // verus!
