//! Systems that elimination has reduced, in part or in full.

use vstd::prelude::*;
use crate::frames::linear::{
    dot, is_unique_solution, lemma_dot_unit, lemma_dot_zeros, reduced_columns, singular, solves,
    zeros,
};

verus! {

/// The dot product of a partly reduced row with the vector that is minus
/// column `k` above position `k`, one at `k` and zero below.
proof fn lemma_null_row(row: Seq<real>, v: Seq<real>, k: int, i: int, n: nat)
    requires
        0 <= k,
        0 <= i,
        forall|j: int| 0 <= j < k ==> row[j] == if i == j { 1 as real } else { 0 as real },
        v[k] == 1 as real,
        forall|j: int| k < j < n ==> v[j] == 0 as real,
    ensures
        dot(row, v, n) == if n <= k {
            if i < n {
                v[i]
            } else {
                0 as real
            }
        } else {
            (if i < k {
                v[i]
            } else {
                0 as real
            }) + row[k]
        },
    decreases n,
{
    if n > 0 {
        lemma_null_row(row, v, k, i, (n - 1) as nat);
        let u: real = row[n - 1];
        let w: real = v[n - 1];
        assert(u == 0 as real ==> u * w == 0 as real) by (nonlinear_arith);
        assert(u == 1 as real ==> u * w == w) by (nonlinear_arith);
        assert(w == 0 as real ==> u * w == 0 as real) by (nonlinear_arith);
        assert(w == 1 as real ==> u * w == u) by (nonlinear_arith);
    }
}

/// A partly reduced matrix whose next column is zero from the diagonal down
/// is singular.
pub(crate) proof fn lemma_singular_column(m: Seq<Seq<real>>, k: int)
    requires
        0 <= k < m.len(),
        reduced_columns(m, k),
        forall|i: int| k <= i < m.len() ==> (#[trigger] m[i])[k] == 0 as real,
    ensures
        singular(m),
{
    let n: nat = m.len();
    let v: Seq<real> = Seq::new(
        n,
        |j: int|
            if j < k {
                -m[j][k]
            } else if j == k {
                1 as real
            } else {
                0 as real
            },
    );
    assert forall|i: int| 0 <= i < m.len() implies dot(#[trigger] m[i], v, v.len()) == zeros(
        n,
    )[i] by {
        assert forall|j: int| 0 <= j < k implies m[i][j] == if i == j {
            1 as real
        } else {
            0 as real
        } by {}
        lemma_null_row(m[i], v, k, i, n);
    }
    assert(solves(m, zeros(n), v));
    assert(v[k] != zeros(n)[k]);
}

/// A fully reduced system is solved by its right-hand side and by nothing else.
pub(crate) proof fn lemma_reduced_system(m: Seq<Seq<real>>, c: Seq<real>)
    requires
        c.len() == m.len(),
        reduced_columns(m, m.len() as int),
    ensures
        is_unique_solution(m, c, c),
{
    let n: nat = m.len();
    assert forall|i: int| 0 <= i < m.len() implies dot(#[trigger] m[i], c, c.len()) == c[i] by {
        assert forall|j: int| 0 <= j < n implies m[i][j] == if i == j {
            1 as real
        } else {
            0 as real
        } by {}
        lemma_dot_unit(m[i], c, n, i);
    }
    assert forall|y: Seq<real>| #[trigger] solves(m, c, y) implies y == c by {
        assert forall|i: int| 0 <= i < n implies y[i] == c[i] by {
            assert forall|j: int| 0 <= j < n implies m[i][j] == if i == j {
                1 as real
            } else {
                0 as real
            } by {}
            lemma_dot_unit(m[i], y, n, i);
            assert(dot(m[i], y, y.len()) == c[i]);
        }
        assert(y =~= c);
    }
}

/// A system with one solution only has a matrix that is not singular.
pub(crate) proof fn lemma_unique_means_regular(m: Seq<Seq<real>>, x: Seq<real>)
    requires
        is_unique_solution(m, zeros(m.len()), x),
    ensures
        !singular(m),
{
    let z: Seq<real> = zeros(m.len());
    assert forall|i: int| 0 <= i < m.len() implies dot(#[trigger] m[i], z, z.len()) == z[i] by {
        lemma_dot_zeros(m[i], z, z.len());
    }
    assert(solves(m, z, z));
    if singular(m) {
        let v: Seq<real> = choose|v: Seq<real>| #[trigger] solves(m, z, v) && v != z;
        assert(v == x);
        assert(z == x);
    }
}

} // verus!
