//! Products of vectors and matrices of exact rationals.

use vstd::prelude::*;
use crate::frames::linear::{dot, matrix_view, vector_view, zeros};
use crate::numbers::rational::Rational;

verus! {

/// The vector that `m` makes of `x`: one dot product for every row.
pub open spec fn mat_vec(m: Seq<Seq<real>>, x: Seq<real>) -> Seq<real> {
    Seq::new(m.len(), |i: int| dot(m[i], x, x.len()))
}

/// Column `j` of `m`.
pub open spec fn column(m: Seq<Seq<real>>, j: int) -> Seq<real> {
    Seq::new(m.len(), |i: int| m[i][j])
}

/// The matrix of `rows` rows and `cols` columns that holds nothing but zero.
pub open spec fn zero_matrix_view(rows: nat, cols: nat) -> Seq<Seq<real>> {
    Seq::new(rows, |i: int| zeros(cols))
}

/// Whether every row of `m` has `cols` entries.
pub open spec fn has_columns(m: Seq<Vec<Rational>>, cols: nat) -> bool {
    forall|i: int| 0 <= i < m.len() ==> (#[trigger] m[i]).len() == cols
}

/// The dot product of two vectors of the same length.
pub fn dot_product(a: &Vec<Rational>, b: &Vec<Rational>) -> (r: Rational)
    requires
        a.len() == b.len(),
    ensures
        r@ == dot(vector_view(a@), vector_view(b@), b.len() as nat),
{
    let mut sum: Rational = Rational::from_int(0);
    let mut j: usize = 0;
    while j < a.len()
        invariant
            j <= a.len(),
            a.len() == b.len(),
            sum@ == dot(vector_view(a@), vector_view(b@), j as nat),
        decreases a.len() - j,
    {
        sum = sum.add(&a[j].mul(&b[j]));
        j += 1;
    }
    sum
}

/// The product of the matrix `a` and the vector `b`.
pub fn multiply_matrices(a: &Vec<Vec<Rational>>, b: &Vec<Rational>) -> (r: Vec<Rational>)
    requires
        has_columns(a@, b.len() as nat),
    ensures
        vector_view(r@) == mat_vec(matrix_view(a@), vector_view(b@)),
{
    let mut result: Vec<Rational> = Vec::new();
    let mut i: usize = 0;
    while i < a.len()
        invariant
            i <= a.len(),
            has_columns(a@, b.len() as nat),
            result.len() == i,
            forall|t: int|
                0 <= t < i ==> result@[t]@ == dot(
                    vector_view(a@[t]@),
                    vector_view(b@),
                    b.len() as nat,
                ),
        decreases a.len() - i,
    {
        result.push(dot_product(&a[i], b));
        i += 1;
    }
    assert(vector_view(result@) =~= mat_vec(matrix_view(a@), vector_view(b@)));
    result
}

/// The vector of `n` zeros.
pub fn zero_vector(n: usize) -> (r: Vec<Rational>)
    ensures
        r.len() == n,
        vector_view(r@) == zeros(n as nat),
{
    let mut r: Vec<Rational> = Vec::new();
    let mut j: usize = 0;
    while j < n
        invariant
            j <= n,
            r.len() == j,
            forall|t: int| 0 <= t < j ==> r@[t]@ == 0 as real,
        decreases n - j,
    {
        r.push(Rational::from_int(0));
        j += 1;
    }
    assert(vector_view(r@) =~= zeros(n as nat));
    r
}

/// The matrix of `rows` rows and `cols` columns that holds nothing but zero.
pub fn zero_matrix(rows: usize, cols: usize) -> (r: Vec<Vec<Rational>>)
    ensures
        r.len() == rows,
        has_columns(r@, cols as nat),
        matrix_view(r@) == zero_matrix_view(rows as nat, cols as nat),
{
    let mut r: Vec<Vec<Rational>> = Vec::new();
    let mut i: usize = 0;
    while i < rows
        invariant
            i <= rows,
            r.len() == i,
            has_columns(r@, cols as nat),
            forall|t: int| 0 <= t < i ==> vector_view(r@[t]@) == zeros(cols as nat),
        decreases rows - i,
    {
        r.push(zero_vector(cols));
        i += 1;
    }
    assert(matrix_view(r@) =~= zero_matrix_view(rows as nat, cols as nat));
    r
}

/// Column `j` of the matrix `m`.
pub fn column_of(m: &Vec<Vec<Rational>>, j: usize) -> (r: Vec<Rational>)
    requires
        forall|i: int| 0 <= i < m.len() ==> j < (#[trigger] m@[i]).len(),
    ensures
        r.len() == m.len(),
        vector_view(r@) == column(matrix_view(m@), j as int),
{
    let mut r: Vec<Rational> = Vec::new();
    let mut i: usize = 0;
    while i < m.len()
        invariant
            i <= m.len(),
            r.len() == i,
            forall|t: int| 0 <= t < m.len() ==> j < (#[trigger] m@[t]).len(),
            forall|t: int| 0 <= t < i ==> r@[t]@ == m@[t]@[j as int]@,
        decreases m.len() - i,
    {
        r.push(m[i][j].clone());
        i += 1;
    }
    assert(vector_view(r@) =~= column(matrix_view(m@), j as int));
    r
}

/// The matrix `m` with `amount` added to the entry in row `i`, column `j`.
pub fn add_to_entry(m: &mut Vec<Vec<Rational>>, i: usize, j: usize, amount: &Rational)
    requires
        i < old(m).len(),
        j < old(m)@[i as int].len(),
    ensures
        final(m).len() == old(m).len(),
        forall|r: int| 0 <= r < old(m).len() ==> (#[trigger] final(m)@[r]).len() == old(m)@[r].len(),
        forall|r: int, c: int|
            0 <= r < old(m).len() && 0 <= c < old(m)@[r].len() ==> #[trigger] final(m)@[r]@[c]@
                == if r == i && c == j {
                old(m)@[r]@[c]@ + amount@
            } else {
                old(m)@[r]@[c]@
            },
{
    let mut row: Vec<Rational> = Vec::new();
    let mut c: usize = 0;
    while c < m[i].len()
        invariant
            i < m.len(),
            c <= m@[i as int].len(),
            j < m@[i as int].len(),
            row.len() == c,
            forall|t: int|
                0 <= t < c ==> #[trigger] row@[t]@ == if t == j {
                    m@[i as int]@[t]@ + amount@
                } else {
                    m@[i as int]@[t]@
                },
        decreases m@[i as int].len() - c,
    {
        if c == j {
            row.push(m[i][c].add(amount));
        } else {
            row.push(m[i][c].clone());
        }
        c += 1;
    }
    m.set(i, row);
}

} // verus!
