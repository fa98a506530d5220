//! Systems of linear equations over the rationals: what it means to solve
//! one, and Gauss-Jordan elimination with partial pivoting.

use vstd::prelude::*;
use crate::numbers::rational::Rational;

verus! {

/// The numbers held by a vector of rationals.
pub open spec fn vector_view(v: Seq<Rational>) -> Seq<real> {
    Seq::new(v.len(), |j: int| v[j]@)
}

/// The rows of numbers held by a matrix of rationals.
pub open spec fn matrix_view(m: Seq<Vec<Rational>>) -> Seq<Seq<real>> {
    Seq::new(m.len(), |i: int| vector_view(m[i]@))
}

/// Whether `m` has as many columns in every row as it has rows.
pub open spec fn is_square(m: Seq<Seq<real>>) -> bool {
    forall|i: int| 0 <= i < m.len() ==> (#[trigger] m[i]).len() == m.len()
}

/// The sum of the products of the first `n` entries of `a` and `b`.
pub open spec fn dot(a: Seq<real>, b: Seq<real>, n: nat) -> real
    decreases n,
{
    if n == 0 {
        0 as real
    } else {
        dot(a, b, (n - 1) as nat) + a[n - 1] * b[n - 1]
    }
}

/// The vector of `n` zeros.
pub open spec fn zeros(n: nat) -> Seq<real> {
    Seq::new(n, |j: int| 0 as real)
}

/// Whether `x` satisfies every equation `m[i] . x == c[i]`.
pub open spec fn solves(m: Seq<Seq<real>>, c: Seq<real>, x: Seq<real>) -> bool {
    &&& x.len() == m.len()
    &&& forall|i: int| 0 <= i < m.len() ==> dot(#[trigger] m[i], x, x.len()) == c[i]
}

/// Whether some vector other than zero is sent to zero by `m`.
pub open spec fn singular(m: Seq<Seq<real>>) -> bool {
    exists|v: Seq<real>| #[trigger] solves(m, zeros(m.len()), v) && v != zeros(m.len())
}

/// Whether `x` is the one and only solution of the system.
pub open spec fn is_unique_solution(m: Seq<Seq<real>>, c: Seq<real>, x: Seq<real>) -> bool {
    &&& solves(m, c, x)
    &&& forall|y: Seq<real>| #[trigger] solves(m, c, y) ==> y == x
}

/// Whether the two systems have the same solutions.
pub open spec fn same_solutions(
    m1: Seq<Seq<real>>,
    c1: Seq<real>,
    m2: Seq<Seq<real>>,
    c2: Seq<real>,
) -> bool {
    forall|y: Seq<real>| solves(m1, c1, y) <==> #[trigger] solves(m2, c2, y)
}

/// Whether the first `k` columns of `m` are those of the unit matrix.
pub open spec fn reduced_columns(m: Seq<Seq<real>>, k: int) -> bool {
    forall|i: int, j: int|
        0 <= i < m.len() && 0 <= j < k ==> #[trigger] m[i][j] == if i == j {
            1 as real
        } else {
            0 as real
        }
}

/// A dot product depends only on the entries it reads.
pub(crate) proof fn lemma_dot_same(a: Seq<real>, r: Seq<real>, y: Seq<real>, n: nat)
    requires
        forall|j: int| 0 <= j < n ==> r[j] == a[j],
    ensures
        dot(r, y, n) == dot(a, y, n),
    decreases n,
{
    if n > 0 {
        lemma_dot_same(a, r, y, (n - 1) as nat);
    }
}

/// A product taken from a product: `(u - x) v == u v - x v`.
proof fn lemma_real_sub_mul(u: real, x: real, v: real)
    ensures
        (u - x) * v == u * v - x * v,
{
    assert((u - x) * v == u * v - x * v) by (nonlinear_arith);
}

/// A product of a sum: `f (t + x) == f t + f x`.
proof fn lemma_real_mul_add(f: real, t: real, x: real)
    ensures
        f * (t + x) == f * t + f * x,
{
    assert(f * (t + x) == f * t + f * x) by (nonlinear_arith);
}

/// Products may be grouped either way: `(f w) v == f (w v)`.
proof fn lemma_real_mul_assoc(f: real, w: real, v: real)
    ensures
        (f * w) * v == f * (w * v),
{
    assert((f * w) * v == f * (w * v)) by (nonlinear_arith);
}

/// A quotient of a sum: `(s + x) / p == s / p + x / p`.
proof fn lemma_real_div_add(s: real, x: real, p: real)
    requires
        p != 0 as real,
    ensures
        (s + x) / p == s / p + x / p,
{
    assert((s + x) / p == s / p + x / p) by (nonlinear_arith)
        requires
            p != 0 as real,
    ;
}

/// A quotient times a number: `(u / p) v == (u v) / p`.
proof fn lemma_real_div_mul(u: real, v: real, p: real)
    requires
        p != 0 as real,
    ensures
        (u / p) * v == (u * v) / p,
{
    assert((u / p) * v == (u * v) / p) by (nonlinear_arith)
        requires
            p != 0 as real,
    ;
}

/// The dot product of a row divided by `p`.
pub(crate) proof fn lemma_dot_scaled(a: Seq<real>, r: Seq<real>, y: Seq<real>, p: real, n: nat)
    requires
        p != 0 as real,
        forall|j: int| 0 <= j < n ==> r[j] == a[j] / p,
    ensures
        dot(r, y, n) == dot(a, y, n) / p,
    decreases n,
{
    if n > 0 {
        lemma_dot_scaled(a, r, y, p, (n - 1) as nat);
        let s: real = dot(a, y, (n - 1) as nat);
        let u: real = a[n - 1];
        let v: real = y[n - 1];
        lemma_real_div_mul(u, v, p);
        lemma_real_div_add(s, u * v, p);
    } else {
        lemma_real_div_mul(0 as real, 0 as real, p);
    }
}

/// The dot product of a row from which `f` times another row was taken.
pub(crate) proof fn lemma_dot_combined(
    a: Seq<real>,
    b: Seq<real>,
    r: Seq<real>,
    y: Seq<real>,
    f: real,
    n: nat,
)
    requires
        forall|j: int| 0 <= j < n ==> r[j] == a[j] - f * b[j],
    ensures
        dot(r, y, n) == dot(a, y, n) - f * dot(b, y, n),
    decreases n,
{
    if n > 0 {
        lemma_dot_combined(a, b, r, y, f, (n - 1) as nat);
        let t: real = dot(b, y, (n - 1) as nat);
        let u: real = a[n - 1];
        let w: real = b[n - 1];
        let v: real = y[n - 1];
        lemma_real_sub_mul(u, f * w, v);
        lemma_real_mul_assoc(f, w, v);
        lemma_real_mul_add(f, t, w * v);
    } else {
        lemma_real_mul_add(f, 0 as real, 0 as real);
    }
}

/// The dot product with a row of the unit matrix picks one entry.
pub(crate) proof fn lemma_dot_unit(row: Seq<real>, y: Seq<real>, n: nat, i: int)
    requires
        forall|j: int| 0 <= j < n ==> row[j] == if i == j { 1 as real } else { 0 as real },
    ensures
        dot(row, y, n) == if 0 <= i < n { y[i] } else { 0 as real },
    decreases n,
{
    if n > 0 {
        lemma_dot_unit(row, y, (n - 1) as nat, i);
        let u: real = row[n - 1];
        let v: real = y[n - 1];
        assert(u == 0 as real ==> u * v == 0 as real) by (nonlinear_arith);
        assert(u == 1 as real ==> u * v == v) by (nonlinear_arith);
    }
}

/// The dot product with a vector of zeros is zero.
pub(crate) proof fn lemma_dot_zeros(row: Seq<real>, y: Seq<real>, n: nat)
    requires
        forall|j: int| 0 <= j < n ==> y[j] == 0 as real,
    ensures
        dot(row, y, n) == 0 as real,
    decreases n,
{
    if n > 0 {
        lemma_dot_zeros(row, y, (n - 1) as nat);
        let u: real = row[n - 1];
        let v: real = y[n - 1];
        assert(v == 0 as real ==> u * v == 0 as real) by (nonlinear_arith);
    }
}

/// The size of a number, whatever its sign.
pub open spec fn magnitude(x: real) -> real {
    if x < 0 as real {
        -x
    } else {
        x
    }
}

/// Two systems that each have the solutions of a third have each other's.
pub(crate) proof fn lemma_same_solutions_chain(
    m0: Seq<Seq<real>>,
    c0: Seq<real>,
    m1: Seq<Seq<real>>,
    c1: Seq<real>,
    m2: Seq<Seq<real>>,
    c2: Seq<real>,
)
    requires
        same_solutions(m0, c0, m1, c1),
        same_solutions(m1, c1, m2, c2),
    ensures
        same_solutions(m0, c0, m2, c2),
{
    assert forall|y: Seq<real>| solves(m0, c0, y) <==> #[trigger] solves(m2, c2, y) by {
        assert(solves(m1, c1, y) <==> solves(m2, c2, y));
        assert(solves(m0, c0, y) <==> solves(m1, c1, y));
    }
}

} // verus!
