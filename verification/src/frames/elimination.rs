//! Gauss-Jordan elimination with partial pivoting on exact rationals.

use vstd::prelude::*;
use crate::errors::FrameError;
use crate::frames::linear::{
    is_square, is_unique_solution, magnitude, matrix_view, singular, vector_view,
};
use crate::frames::progress::{
    entries_swapped, entry_combined, entry_scaled, lemma_tracks_advance, lemma_tracks_combine,
    lemma_tracks_done, lemma_tracks_scale, lemma_tracks_singular, lemma_tracks_start,
    lemma_tracks_swap, row_combined, row_scaled, rows_swapped, tracks,
};
use crate::numbers::rational::Rational;

verus! {

/// Whether `a` and `b` hold `n` equations in `n` unknowns.
pub open spec fn is_system(a: Seq<Vec<Rational>>, b: Seq<Rational>, n: nat) -> bool {
    &&& a.len() == n
    &&& b.len() == n
    &&& forall|i: int| 0 <= i < n ==> (#[trigger] a[i]).len() == n
}

/// A copy of a vector.
pub fn copy_vector(v: &Vec<Rational>) -> (r: Vec<Rational>)
    ensures
        r.len() == v.len(),
        vector_view(r@) == vector_view(v@),
{
    let mut r: Vec<Rational> = Vec::new();
    let mut j: usize = 0;
    while j < v.len()
        invariant
            j <= v.len(),
            r.len() == j,
            forall|t: int| 0 <= t < j ==> r@[t]@ == v@[t]@,
        decreases v.len() - j,
    {
        r.push(v[j].clone());
        j += 1;
    }
    assert(vector_view(r@) =~= vector_view(v@));
    r
}

/// A copy of a matrix.
pub fn copy_matrix(m: &Vec<Vec<Rational>>) -> (r: Vec<Vec<Rational>>)
    ensures
        r.len() == m.len(),
        forall|i: int| 0 <= i < m.len() ==> (#[trigger] r@[i]).len() == m@[i].len(),
        matrix_view(r@) == matrix_view(m@),
{
    let mut r: Vec<Vec<Rational>> = Vec::new();
    let mut i: usize = 0;
    while i < m.len()
        invariant
            i <= m.len(),
            r.len() == i,
            forall|t: int| 0 <= t < i ==> (#[trigger] r@[t]).len() == m@[t].len(),
            forall|t: int| 0 <= t < i ==> vector_view(r@[t]@) == vector_view(m@[t]@),
        decreases m.len() - i,
    {
        r.push(copy_vector(&m[i]));
        i += 1;
    }
    assert(matrix_view(r@) =~= matrix_view(m@));
    r
}

/// The row with every entry divided by `pivot`.
fn scaled_row(row: &Vec<Rational>, pivot: &Rational) -> (r: Vec<Rational>)
    requires
        pivot@ != 0 as real,
    ensures
        r.len() == row.len(),
        forall|j: int| 0 <= j < row.len() ==> r@[j]@ == row@[j]@ / pivot@,
{
    let mut r: Vec<Rational> = Vec::new();
    let mut j: usize = 0;
    while j < row.len()
        invariant
            j <= row.len(),
            r.len() == j,
            pivot@ != 0 as real,
            forall|t: int| 0 <= t < j ==> r@[t]@ == row@[t]@ / pivot@,
        decreases row.len() - j,
    {
        r.push(row[j].div(pivot));
        j += 1;
    }
    r
}

/// The row less `factor` times the row `base`.
fn combined_row(row: &Vec<Rational>, base: &Vec<Rational>, factor: &Rational) -> (r: Vec<
    Rational,
>)
    requires
        base.len() == row.len(),
    ensures
        r.len() == row.len(),
        forall|j: int| 0 <= j < row.len() ==> r@[j]@ == row@[j]@ - factor@ * base@[j]@,
{
    let mut r: Vec<Rational> = Vec::new();
    let mut j: usize = 0;
    while j < row.len()
        invariant
            j <= row.len(),
            base.len() == row.len(),
            r.len() == j,
            forall|t: int| 0 <= t < j ==> r@[t]@ == row@[t]@ - factor@ * base@[t]@,
        decreases row.len() - j,
    {
        r.push(row[j].sub(&factor.mul(&base[j])));
        j += 1;
    }
    r
}

/// The row, from `k` down, whose entry in column `k` is largest in size.
fn find_pivot(a: &Vec<Vec<Rational>>, k: usize) -> (p: usize)
    requires
        k < a.len(),
        forall|i: int| 0 <= i < a.len() ==> (#[trigger] a@[i]).len() == a.len(),
    ensures
        k <= p < a.len(),
        forall|i: int|
            k <= i < a.len() ==> magnitude((#[trigger] a@[i])@[k as int]@) <= magnitude(
                a@[p as int]@[k as int]@,
            ),
{
    let mut p: usize = k;
    let mut best: Rational = a[k][k].abs();
    let mut i: usize = k + 1;
    while i < a.len()
        invariant
            k < i <= a.len(),
            k <= p < i,
            forall|t: int| 0 <= t < a.len() ==> (#[trigger] a@[t]).len() == a.len(),
            best@ == magnitude(a@[p as int]@[k as int]@),
            forall|t: int|
                k <= t < i ==> magnitude((#[trigger] a@[t])@[k as int]@) <= magnitude(
                    a@[p as int]@[k as int]@,
                ),
        decreases a.len() - i,
    {
        let size: Rational = a[i][k].abs();
        if best.lt(&size) {
            p = i;
            best = size;
        }
        i += 1;
    }
    p
}


/// Exchanges equations `k` and `p`.
fn exchange_rows(a: &mut Vec<Vec<Rational>>, b: &mut Vec<Rational>, k: usize, p: usize)
    requires
        is_system(old(a)@, old(b)@, old(a)@.len()),
        k < old(a).len(),
        p < old(a).len(),
    ensures
        is_system(final(a)@, final(b)@, old(a)@.len()),
        rows_swapped(matrix_view(old(a)@), matrix_view(final(a)@), k as int, p as int),
        entries_swapped(vector_view(old(b)@), vector_view(final(b)@), k as int, p as int),
{
    let row_k: Vec<Rational> = copy_vector(&a[k]);
    let row_p: Vec<Rational> = copy_vector(&a[p]);
    let rhs_k: Rational = b[k].clone();
    let rhs_p: Rational = b[p].clone();
    a.set(k, row_p);
    a.set(p, row_k);
    b.set(k, rhs_p);
    b.set(p, rhs_k);
}

/// Divides equation `k` by its entry in column `k`, which is not zero.
fn normalize_row(a: &mut Vec<Vec<Rational>>, b: &mut Vec<Rational>, k: usize)
    requires
        is_system(old(a)@, old(b)@, old(a)@.len()),
        k < old(a).len(),
        old(a)@[k as int]@[k as int]@ != 0 as real,
    ensures
        is_system(final(a)@, final(b)@, old(a)@.len()),
        row_scaled(
            matrix_view(old(a)@),
            matrix_view(final(a)@),
            k as int,
            old(a)@[k as int]@[k as int]@,
        ),
        entry_scaled(
            vector_view(old(b)@),
            vector_view(final(b)@),
            k as int,
            old(a)@[k as int]@[k as int]@,
        ),
{
    let pivot: Rational = a[k][k].clone();
    let scaled: Vec<Rational> = scaled_row(&a[k], &pivot);
    let rhs_scaled: Rational = b[k].div(&pivot);
    a.set(k, scaled);
    b.set(k, rhs_scaled);
}

/// Takes `factor` times equation `k` from equation `i`.
fn eliminate_row(
    a: &mut Vec<Vec<Rational>>,
    b: &mut Vec<Rational>,
    k: usize,
    i: usize,
    factor: &Rational,
)
    requires
        is_system(old(a)@, old(b)@, old(a)@.len()),
        k < old(a).len(),
        i < old(a).len(),
        i != k,
    ensures
        is_system(final(a)@, final(b)@, old(a)@.len()),
        row_combined(
            matrix_view(old(a)@),
            matrix_view(final(a)@),
            k as int,
            i as int,
            factor@,
        ),
        entry_combined(
            vector_view(old(b)@),
            vector_view(final(b)@),
            k as int,
            i as int,
            factor@,
        ),
{
    let row: Vec<Rational> = combined_row(&a[i], &a[k], factor);
    let rhs_i: Rational = b[i].sub(&factor.mul(&b[k]));
    a.set(i, row);
    b.set(i, rhs_i);
}

/// Solves the system `matrix . x == rhs` by Gauss-Jordan elimination, taking
/// in each column the pivot of largest size.
///
/// The result is the one solution of the system where it has exactly one,
/// and `SingularSystem` where the matrix is singular.
pub fn gaussian_elimination(matrix: &Vec<Vec<Rational>>, rhs: &Vec<Rational>) -> (r: Result<
    Vec<Rational>,
    FrameError,
>)
    requires
        is_square(matrix_view(matrix@)),
        rhs.len() == matrix.len(),
    ensures
        match r {
            Ok(x) => is_unique_solution(
                matrix_view(matrix@),
                vector_view(rhs@),
                vector_view(x@),
            ) && !singular(matrix_view(matrix@)),
            Err(e) => e == FrameError::SingularSystem && singular(matrix_view(matrix@)),
        },
{
    let n: usize = matrix.len();
    let ghost m0: Seq<Seq<real>> = matrix_view(matrix@);
    let ghost c0: Seq<real> = vector_view(rhs@);
    let mut a: Vec<Vec<Rational>> = copy_matrix(matrix);
    let mut b: Vec<Rational> = copy_vector(rhs);
    proof {
        assert forall|i: int| 0 <= i < n implies (#[trigger] a@[i]).len() == n by {
            assert(m0[i].len() == n);
        }
        lemma_tracks_start(m0, c0);
    }
    let mut k: usize = 0;
    while k < n
        invariant
            k <= n,
            m0.len() == n,
            m0 == matrix_view(matrix@),
            c0 == vector_view(rhs@),
            is_system(a@, b@, n as nat),
            tracks(m0, c0, matrix_view(a@), vector_view(b@), k as int),
        decreases n - k,
    {
        let ghost m1: Seq<Seq<real>> = matrix_view(a@);
        let ghost c1: Seq<real> = vector_view(b@);
        let p: usize = find_pivot(&a, k);
        if a[p][k].is_zero() {
            proof {
                assert forall|i: int| k <= i < m1.len() implies (#[trigger] m1[i])[k as int]
                    == 0 as real by {
                    assert(magnitude(a@[i]@[k as int]@) <= magnitude(a@[p as int]@[k as int]@));
                }
                lemma_tracks_singular(m0, c0, m1, c1, k as int);
            }
            return Err(FrameError::SingularSystem);
        }
        assert(m1[p as int][k as int] == a@[p as int]@[k as int]@);
        exchange_rows(&mut a, &mut b, k, p);
        let ghost m2: Seq<Seq<real>> = matrix_view(a@);
        let ghost c2: Seq<real> = vector_view(b@);
        proof {
            lemma_tracks_swap(m0, c0, m1, c1, m2, c2, k as int, p as int);
            assert(m2[k as int] == m1[p as int]);
            assert(m2[k as int][k as int] == a@[k as int]@[k as int]@);
        }
        normalize_row(&mut a, &mut b, k);
        let ghost m3: Seq<Seq<real>> = matrix_view(a@);
        let ghost c3: Seq<real> = vector_view(b@);
        proof {
            lemma_tracks_scale(m0, c0, m2, c2, m3, c3, k as int, m2[k as int][k as int]);
        }
        let mut i: usize = 0;
        while i < n
            invariant
                i <= n,
                k < n,
                m0.len() == n,
                is_system(a@, b@, n as nat),
                tracks(m0, c0, matrix_view(a@), vector_view(b@), k as int),
                matrix_view(a@)[k as int][k as int] == 1 as real,
                forall|t: int|
                    0 <= t < i && t != k ==> (#[trigger] matrix_view(a@)[t])[k as int]
                        == 0 as real,
            decreases n - i,
        {
            if i != k && !a[i][k].is_zero() {
                let ghost m4: Seq<Seq<real>> = matrix_view(a@);
                let ghost c4: Seq<real> = vector_view(b@);
                let factor: Rational = a[i][k].clone();
                eliminate_row(&mut a, &mut b, k, i, &factor);
                let ghost m5: Seq<Seq<real>> = matrix_view(a@);
                let ghost c5: Seq<real> = vector_view(b@);
                proof {
                    lemma_tracks_combine(m0, c0, m4, c4, m5, c5, k as int, i as int, factor@);
                    assert forall|t: int| 0 <= t < i + 1 && t != k implies (#[trigger] m5[t])[k as int]
                        == 0 as real by {
                        if t != i as int {
                            assert(m5[t] == m4[t]);
                        }
                    }
                }
            }
            i += 1;
        }
        proof {
            lemma_tracks_advance(m0, c0, matrix_view(a@), vector_view(b@), k as int);
        }
        k += 1;
    }
    proof {
        lemma_tracks_done(m0, c0, matrix_view(a@), vector_view(b@));
    }
    Ok(b)
}

} // verus!
