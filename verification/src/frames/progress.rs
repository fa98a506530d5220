//! What Gauss-Jordan elimination keeps true from step to step.

use vstd::prelude::*;
use crate::frames::linear::{
    is_unique_solution, lemma_same_solutions_chain, reduced_columns, same_solutions, singular,
    solves, zeros,
};
use crate::frames::reduced::{
    lemma_reduced_system, lemma_singular_column, lemma_unique_means_regular,
};
use crate::frames::row_operations::{lemma_combine_rows, lemma_scale_row, lemma_swap_rows};

verus! {

/// Whether `m2` is `m` with rows `k` and `p` exchanged.
pub open spec fn rows_swapped(m: Seq<Seq<real>>, m2: Seq<Seq<real>>, k: int, p: int) -> bool {
    &&& m2.len() == m.len()
    &&& m2[k] == m[p]
    &&& m2[p] == m[k]
    &&& forall|i: int| 0 <= i < m.len() && i != k && i != p ==> #[trigger] m2[i] == m[i]
}

/// Whether `c2` is `c` with entries `k` and `p` exchanged.
pub open spec fn entries_swapped(c: Seq<real>, c2: Seq<real>, k: int, p: int) -> bool {
    &&& c2.len() == c.len()
    &&& c2[k] == c[p]
    &&& c2[p] == c[k]
    &&& forall|i: int| 0 <= i < c.len() && i != k && i != p ==> #[trigger] c2[i] == c[i]
}

/// Whether `m2` is `m` with row `k` divided by `p`.
pub open spec fn row_scaled(m: Seq<Seq<real>>, m2: Seq<Seq<real>>, k: int, p: real) -> bool {
    &&& m2.len() == m.len()
    &&& forall|j: int| 0 <= j < m.len() ==> #[trigger] m2[k][j] == m[k][j] / p
    &&& forall|i: int| 0 <= i < m.len() && i != k ==> #[trigger] m2[i] == m[i]
}

/// Whether `c2` is `c` with entry `k` divided by `p`.
pub open spec fn entry_scaled(c: Seq<real>, c2: Seq<real>, k: int, p: real) -> bool {
    &&& c2.len() == c.len()
    &&& c2[k] == c[k] / p
    &&& forall|i: int| 0 <= i < c.len() && i != k ==> #[trigger] c2[i] == c[i]
}

/// Whether `m2` is `m` with `f` times row `k` taken from row `i`.
pub open spec fn row_combined(
    m: Seq<Seq<real>>,
    m2: Seq<Seq<real>>,
    k: int,
    i: int,
    f: real,
) -> bool {
    &&& m2.len() == m.len()
    &&& forall|j: int| 0 <= j < m.len() ==> #[trigger] m2[i][j] == m[i][j] - f * m[k][j]
    &&& forall|r: int| 0 <= r < m.len() && r != i ==> #[trigger] m2[r] == m[r]
}

/// Whether `c2` is `c` with `f` times entry `k` taken from entry `i`.
pub open spec fn entry_combined(c: Seq<real>, c2: Seq<real>, k: int, i: int, f: real) -> bool {
    &&& c2.len() == c.len()
    &&& c2[i] == c[i] - f * c[k]
    &&& forall|r: int| 0 <= r < c.len() && r != i ==> #[trigger] c2[r] == c[r]
}

/// What elimination keeps true of the system `(m, c)` that it has made of
/// `(m0, c0)` once `k` columns are done: both have the same solutions, for
/// the given right-hand side and for zero, and the first `k` columns of `m`
/// are those of the unit matrix.
#[verifier::opaque]
pub open spec fn tracks(
    m0: Seq<Seq<real>>,
    c0: Seq<real>,
    m: Seq<Seq<real>>,
    c: Seq<real>,
    k: int,
) -> bool {
    &&& m.len() == m0.len()
    &&& c.len() == m0.len()
    &&& same_solutions(m0, c0, m, c)
    &&& same_solutions(m0, zeros(m0.len()), m, zeros(m0.len()))
    &&& reduced_columns(m, k)
}

/// Elimination starts from the system itself.
pub(crate) proof fn lemma_tracks_start(m0: Seq<Seq<real>>, c0: Seq<real>)
    requires
        c0.len() == m0.len(),
    ensures
        tracks(m0, c0, m0, c0, 0),
{
    reveal(tracks);
}

/// Exchanging row `k` with a row below it keeps what elimination has reached.
pub(crate) proof fn lemma_tracks_swap(
    m0: Seq<Seq<real>>,
    c0: Seq<real>,
    m1: Seq<Seq<real>>,
    c1: Seq<real>,
    m2: Seq<Seq<real>>,
    c2: Seq<real>,
    k: int,
    p: int,
)
    requires
        tracks(m0, c0, m1, c1, k),
        0 <= k <= p < m1.len(),
        rows_swapped(m1, m2, k, p),
        entries_swapped(c1, c2, k, p),
    ensures
        tracks(m0, c0, m2, c2, k),
{
    reveal(tracks);
    let z: Seq<real> = zeros(m0.len());
    lemma_swap_rows(m1, c1, m2, c2, k, p);
    lemma_swap_rows(m1, z, m2, z, k, p);
    lemma_same_solutions_chain(m0, c0, m1, c1, m2, c2);
    lemma_same_solutions_chain(m0, z, m1, z, m2, z);
    assert forall|i: int, j: int| 0 <= i < m2.len() && 0 <= j < k implies #[trigger] m2[i][j]
        == if i == j {
        1 as real
    } else {
        0 as real
    } by {
        let from: int = if i == k {
            p
        } else if i == p {
            k
        } else {
            i
        };
        assert(m2[i] == m1[from]);
        assert(m1[from][j] == if from == j {
            1 as real
        } else {
            0 as real
        });
    }
}

/// Dividing row `k` by its entry in column `k` keeps what elimination has
/// reached and makes that entry one.
pub(crate) proof fn lemma_tracks_scale(
    m0: Seq<Seq<real>>,
    c0: Seq<real>,
    m2: Seq<Seq<real>>,
    c2: Seq<real>,
    m3: Seq<Seq<real>>,
    c3: Seq<real>,
    k: int,
    p: real,
)
    requires
        tracks(m0, c0, m2, c2, k),
        0 <= k < m2.len(),
        p != 0 as real,
        p == m2[k][k],
        row_scaled(m2, m3, k, p),
        entry_scaled(c2, c3, k, p),
    ensures
        tracks(m0, c0, m3, c3, k),
        m3[k][k] == 1 as real,
{
    reveal(tracks);
    let z: Seq<real> = zeros(m0.len());
    assert((0 as real) / p == 0 as real) by (nonlinear_arith)
        requires
            p != 0 as real,
    ;
    assert(p / p == 1 as real) by (nonlinear_arith)
        requires
            p != 0 as real,
    ;
    lemma_scale_row(m2, c2, m3, c3, k, p);
    lemma_scale_row(m2, z, m3, z, k, p);
    lemma_same_solutions_chain(m0, c0, m2, c2, m3, c3);
    lemma_same_solutions_chain(m0, z, m2, z, m3, z);
    assert forall|i: int, j: int| 0 <= i < m3.len() && 0 <= j < k implies #[trigger] m3[i][j]
        == if i == j {
        1 as real
    } else {
        0 as real
    } by {
        assert(m2[i][j] == if i == j {
            1 as real
        } else {
            0 as real
        });
        if i == k {
            assert(m3[k][j] == m2[k][j] / p);
        } else {
            assert(m3[i] == m2[i]);
        }
    }
    assert(m3[k][k] == m2[k][k] / p);
}

/// Clearing the entry of row `i` in column `k` with the help of row `k`
/// keeps what elimination has reached.
pub(crate) proof fn lemma_tracks_combine(
    m0: Seq<Seq<real>>,
    c0: Seq<real>,
    m4: Seq<Seq<real>>,
    c4: Seq<real>,
    m5: Seq<Seq<real>>,
    c5: Seq<real>,
    k: int,
    i: int,
    f: real,
)
    requires
        tracks(m0, c0, m4, c4, k),
        0 <= k < m4.len(),
        0 <= i < m4.len(),
        i != k,
        m4[k][k] == 1 as real,
        f == m4[i][k],
        row_combined(m4, m5, k, i, f),
        entry_combined(c4, c5, k, i, f),
    ensures
        tracks(m0, c0, m5, c5, k),
        m5[k][k] == 1 as real,
        m5[i][k] == 0 as real,
{
    reveal(tracks);
    let z: Seq<real> = zeros(m0.len());
    assert(f * (0 as real) == 0 as real) by (nonlinear_arith);
    assert(f * (1 as real) == f) by (nonlinear_arith);
    lemma_combine_rows(m4, c4, m5, c5, k, i, f);
    lemma_combine_rows(m4, z, m5, z, k, i, f);
    lemma_same_solutions_chain(m0, c0, m4, c4, m5, c5);
    lemma_same_solutions_chain(m0, z, m4, z, m5, z);
    assert forall|r: int, j: int| 0 <= r < m5.len() && 0 <= j < k implies #[trigger] m5[r][j]
        == if r == j {
        1 as real
    } else {
        0 as real
    } by {
        assert(m4[r][j] == if r == j {
            1 as real
        } else {
            0 as real
        });
        if r == i {
            assert(m4[k][j] == 0 as real);
            assert(m5[i][j] == m4[i][j] - f * m4[k][j]);
        } else {
            assert(m5[r] == m4[r]);
        }
    }
    assert(m5[k] == m4[k]);
    assert(m5[i][k] == m4[i][k] - f * m4[k][k]);
}

/// Once column `k` is that of the unit matrix, `k + 1` columns are done.
pub(crate) proof fn lemma_tracks_advance(
    m0: Seq<Seq<real>>,
    c0: Seq<real>,
    m: Seq<Seq<real>>,
    c: Seq<real>,
    k: int,
)
    requires
        tracks(m0, c0, m, c, k),
        0 <= k < m.len(),
        m[k][k] == 1 as real,
        forall|t: int| 0 <= t < m.len() && t != k ==> (#[trigger] m[t])[k] == 0 as real,
    ensures
        tracks(m0, c0, m, c, k + 1),
{
    reveal(tracks);
    assert forall|r: int, j: int| 0 <= r < m.len() && 0 <= j < k + 1 implies #[trigger] m[r][j]
        == if r == j {
        1 as real
    } else {
        0 as real
    } by {
        if j == k && r != k {
            assert(m[r][k] == 0 as real);
        }
    }
}

/// Where elimination finds nothing but zero in column `k` from the diagonal
/// down, the matrix it started from is singular.
pub(crate) proof fn lemma_tracks_singular(
    m0: Seq<Seq<real>>,
    c0: Seq<real>,
    m: Seq<Seq<real>>,
    c: Seq<real>,
    k: int,
)
    requires
        tracks(m0, c0, m, c, k),
        0 <= k < m.len(),
        forall|i: int| k <= i < m.len() ==> (#[trigger] m[i])[k] == 0 as real,
    ensures
        singular(m0),
{
    reveal(tracks);
    let z: Seq<real> = zeros(m0.len());
    lemma_singular_column(m, k);
    let v: Seq<real> = choose|v: Seq<real>| #[trigger] solves(m, z, v) && v != z;
    assert(solves(m0, z, v));
}

/// Where elimination has done every column, its right-hand side is the one
/// solution of the system it started from, whose matrix is not singular.
pub(crate) proof fn lemma_tracks_done(
    m0: Seq<Seq<real>>,
    c0: Seq<real>,
    m: Seq<Seq<real>>,
    c: Seq<real>,
)
    requires
        tracks(m0, c0, m, c, m0.len() as int),
    ensures
        is_unique_solution(m0, c0, c),
        !singular(m0),
{
    reveal(tracks);
    let z: Seq<real> = zeros(m0.len());
    lemma_reduced_system(m, c);
    lemma_reduced_system(m, z);
    assert(solves(m0, c0, c));
    assert forall|y: Seq<real>| #[trigger] solves(m0, c0, y) implies y == c by {
        assert(solves(m, c, y));
    }
    assert(solves(m0, z, z));
    assert forall|y: Seq<real>| #[trigger] solves(m0, z, y) implies y == z by {
        assert(solves(m, z, y));
    }
    lemma_unique_means_regular(m0, z);
}

} // verus!
