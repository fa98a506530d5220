//! The three row operations of elimination leave the solutions of a system
//! as they are.

use vstd::prelude::*;
use crate::frames::linear::{
    dot, lemma_dot_combined, lemma_dot_scaled, same_solutions, solves,
};

verus! {

/// Exchanging two equations of a system changes none of its solutions.
pub(crate) proof fn lemma_swap_rows(
    m: Seq<Seq<real>>,
    c: Seq<real>,
    m2: Seq<Seq<real>>,
    c2: Seq<real>,
    k: int,
    p: int,
)
    requires
        m2.len() == m.len(),
        0 <= k < m.len(),
        0 <= p < m.len(),
        m2[k] == m[p],
        m2[p] == m[k],
        c2[k] == c[p],
        c2[p] == c[k],
        forall|i: int| 0 <= i < m.len() && i != k && i != p ==> m2[i] == m[i] && c2[i] == c[i],
    ensures
        same_solutions(m, c, m2, c2),
{
    assert forall|y: Seq<real>| solves(m, c, y) <==> #[trigger] solves(m2, c2, y) by {
        if solves(m, c, y) {
            assert forall|i: int| 0 <= i < m2.len() implies dot(#[trigger] m2[i], y, y.len())
                == c2[i] by {
                let from: int = if i == k {
                    p
                } else if i == p {
                    k
                } else {
                    i
                };
                assert(dot(m[from], y, y.len()) == c[from]);
            }
        }
        if solves(m2, c2, y) {
            assert forall|i: int| 0 <= i < m.len() implies dot(#[trigger] m[i], y, y.len())
                == c[i] by {
                let from: int = if i == k {
                    p
                } else if i == p {
                    k
                } else {
                    i
                };
                assert(dot(m2[from], y, y.len()) == c2[from]);
            }
        }
    }
}

/// Dividing one equation by a number other than zero changes none of the
/// solutions.
pub(crate) proof fn lemma_scale_row(
    m: Seq<Seq<real>>,
    c: Seq<real>,
    m2: Seq<Seq<real>>,
    c2: Seq<real>,
    k: int,
    p: real,
)
    requires
        m2.len() == m.len(),
        0 <= k < m.len(),
        p != 0 as real,
        forall|j: int| 0 <= j < m.len() ==> m2[k][j] == m[k][j] / p,
        c2[k] == c[k] / p,
        forall|i: int| 0 <= i < m.len() && i != k ==> m2[i] == m[i] && c2[i] == c[i],
    ensures
        same_solutions(m, c, m2, c2),
{
    assert forall|y: Seq<real>| solves(m, c, y) <==> #[trigger] solves(m2, c2, y) by {
        if y.len() == m.len() {
            lemma_dot_scaled(m[k], m2[k], y, p, y.len());
            let before: real = dot(m[k], y, y.len());
            let goal: real = c[k];
            assert(before / p == goal / p <==> before == goal) by (nonlinear_arith)
                requires
                    p != 0 as real,
            ;
            if solves(m, c, y) {
                assert forall|i: int| 0 <= i < m2.len() implies dot(
                    #[trigger] m2[i],
                    y,
                    y.len(),
                ) == c2[i] by {
                    assert(dot(m[i], y, y.len()) == c[i]);
                }
            }
            if solves(m2, c2, y) {
                assert forall|i: int| 0 <= i < m.len() implies dot(#[trigger] m[i], y, y.len())
                    == c[i] by {
                    assert(dot(m2[i], y, y.len()) == c2[i]);
                }
            }
        }
    }
}

/// Taking `f` times equation `k` from equation `i` changes none of the
/// solutions.
pub(crate) proof fn lemma_combine_rows(
    m: Seq<Seq<real>>,
    c: Seq<real>,
    m2: Seq<Seq<real>>,
    c2: Seq<real>,
    k: int,
    i: int,
    f: real,
)
    requires
        m2.len() == m.len(),
        0 <= k < m.len(),
        0 <= i < m.len(),
        i != k,
        forall|j: int| 0 <= j < m.len() ==> m2[i][j] == m[i][j] - f * m[k][j],
        c2[i] == c[i] - f * c[k],
        forall|r: int| 0 <= r < m.len() && r != i ==> m2[r] == m[r] && c2[r] == c[r],
    ensures
        same_solutions(m, c, m2, c2),
{
    assert forall|y: Seq<real>| solves(m, c, y) <==> #[trigger] solves(m2, c2, y) by {
        if y.len() == m.len() {
            lemma_dot_combined(m[i], m[k], m2[i], y, f, y.len());
            if solves(m, c, y) {
                assert forall|r: int| 0 <= r < m2.len() implies dot(
                    #[trigger] m2[r],
                    y,
                    y.len(),
                ) == c2[r] by {
                    assert(dot(m[r], y, y.len()) == c[r]);
                    assert(dot(m[k], y, y.len()) == c[k]);
                }
            }
            if solves(m2, c2, y) {
                assert forall|r: int| 0 <= r < m.len() implies dot(#[trigger] m[r], y, y.len())
                    == c[r] by {
                    assert(dot(m2[r], y, y.len()) == c2[r]);
                    assert(dot(m2[k], y, y.len()) == c2[k]);
                }
            }
        }
    }
}

} // verus!
