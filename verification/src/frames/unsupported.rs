//! A level frame that nothing supports cannot stand: its stiffness matrix is
//! singular, because shifting every joint alike strains no element.

use vstd::prelude::*;
use crate::frames::linear::{dot, lemma_dot_same, singular, solves, zeros};
use crate::frames::matrix::{column, mat_vec};
use crate::frames::model::{
    ElementView, FrameView, assembled, constrained, constrained_stiffness, dof, element_fits,
    element_share, frame_stiffness, global_stiffness, local_stiffness, sine, transform,
};
use crate::nodes::node::NodeView;

verus! {

/// Whether the two joints of the element have settled alike.
pub open spec fn is_level_element(nodes: Seq<NodeView>, e: ElementView) -> bool {
    nodes[e.end].settlement == nodes[e.start].settlement
}

/// Whether every element of the frame is level.
pub open spec fn is_level(frame: FrameView) -> bool {
    forall|m: int|
        0 <= m < frame.elements.len() ==> is_level_element(
            frame.nodes,
            #[trigger] frame.elements[m],
        )
}

/// The displacements that shift every joint by one and turn none.
pub open spec fn uniform_shift(n: nat) -> Seq<real> {
    Seq::new(n, |i: int| if i % 2 == 0 { 1 as real } else { 0 as real })
}

/// Row `i` of what the first `count` entries of an element's stiffness add
/// to the matrix of the frame.
pub open spec fn share_row(kg: Seq<Seq<real>>, e: ElementView, i: int, count: nat, n: nat) -> Seq<
    real,
> {
    Seq::new(n, |j: int| element_share(kg, e, i, j, count))
}

/// A product with zero is zero.
proof fn lemma_times_zero(x: real, y: real)
    requires
        y == 0 as real,
    ensures
        x * y == 0 as real,
        y * x == 0 as real,
{
    assert(x * y == 0 as real) by (nonlinear_arith)
        requires
            y == 0 as real,
    ;
    assert(y * x == 0 as real) by (nonlinear_arith)
        requires
            y == 0 as real,
    ;
}

/// A product with one is the other factor.
proof fn lemma_times_one(x: real, y: real)
    requires
        y == 1 as real,
    ensures
        x * y == x,
{
    assert(x * y == x) by (nonlinear_arith)
        requires
            y == 1 as real,
    ;
}

/// A factor that two products share may be taken out of their sum.
proof fn lemma_common_factor(x: real, y: real, c: real)
    ensures
        x * c + y * c == (x + y) * c,
        c * x + c * y == c * (x + y),
{
    assert(x * c + y * c == (x + y) * c) by (nonlinear_arith);
    assert(c * x + c * y == c * (x + y)) by (nonlinear_arith);
}

/// The dot product of a sum of two rows.
proof fn lemma_dot_sum(a: Seq<real>, b: Seq<real>, r: Seq<real>, y: Seq<real>, n: nat)
    requires
        forall|j: int| 0 <= j < n ==> r[j] == a[j] + b[j],
    ensures
        dot(r, y, n) == dot(a, y, n) + dot(b, y, n),
    decreases n,
{
    if n > 0 {
        lemma_dot_sum(a, b, r, y, (n - 1) as nat);
        lemma_common_factor(a[n - 1], b[n - 1], y[n - 1]);
    }
}

/// The dot product of a row to which `x` was added at position `at`.
proof fn lemma_dot_add_at(a: Seq<real>, r: Seq<real>, y: Seq<real>, n: nat, at: int, x: real)
    requires
        forall|j: int| 0 <= j < n ==> r[j] == a[j] + if j == at { x } else { 0 as real },
    ensures
        dot(r, y, n) == dot(a, y, n) + if 0 <= at < n { x * y[at] } else { 0 as real },
    decreases n,
{
    if n > 0 {
        lemma_dot_add_at(a, r, y, (n - 1) as nat, at, x);
        if at == n - 1 {
            lemma_common_factor(a[n - 1], x, y[n - 1]);
        }
    }
}

/// The dot product of a row of zeros.
proof fn lemma_dot_zero_row(row: Seq<real>, y: Seq<real>, n: nat)
    requires
        forall|j: int| 0 <= j < n ==> row[j] == 0 as real,
    ensures
        dot(row, y, n) == 0 as real,
    decreases n,
{
    if n > 0 {
        lemma_dot_zero_row(row, y, (n - 1) as nat);
        lemma_times_zero(y[n - 1], row[n - 1]);
    }
}

/// The dot products of a row with two vectors that are each other's
/// opposite cancel.
proof fn lemma_dot_opposite(a: Seq<real>, x: Seq<real>, y: Seq<real>, n: nat)
    requires
        forall|j: int| 0 <= j < n ==> x[j] + y[j] == 0 as real,
    ensures
        dot(a, x, n) + dot(a, y, n) == 0 as real,
    decreases n,
{
    if n > 0 {
        lemma_dot_opposite(a, x, y, (n - 1) as nat);
        lemma_common_factor(x[n - 1], y[n - 1], a[n - 1]);
        lemma_times_zero(a[n - 1], x[n - 1] + y[n - 1]);
    }
}

/// A dot product of four terms, written out.
proof fn lemma_dot_of_four(a: Seq<real>, b: Seq<real>)
    ensures
        dot(a, b, 4) == a[0] * b[0] + a[1] * b[1] + a[2] * b[2] + a[3] * b[3],
{
    reveal_with_fuel(dot, 5);
}

/// In every row of an element's own stiffness the entries for the two
/// displacements are each other's opposite.
proof fn lemma_local_rows_cancel(e: ElementView, r: int)
    requires
        0 <= r < 4,
    ensures
        local_stiffness(e)[r][0] + local_stiffness(e)[r][2] == 0 as real,
{
}

/// The stiffness of a level element sends a shift of both its joints to
/// nothing, in its own axes.
proof fn lemma_level_products_cancel(nodes: Seq<NodeView>, e: ElementView, r: int)
    requires
        e.length > 0 as real,
        is_level_element(nodes, e),
        0 <= r < 4,
    ensures
        mat_vec(local_stiffness(e), column(transform(nodes, e), 0))[r] + mat_vec(
            local_stiffness(e),
            column(transform(nodes, e), 2),
        )[r] == 0 as real,
{
    let k: Seq<Seq<real>> = local_stiffness(e);
    let t: Seq<Seq<real>> = transform(nodes, e);
    let c: real = t[0][0];
    let l: real = e.length;
    assert(sine(nodes, e) == 0 as real) by {
        assert((0 as real) / l == 0 as real) by (nonlinear_arith)
            requires
                l > 0 as real,
        ;
    }
    let first: Seq<real> = column(t, 0);
    let third: Seq<real> = column(t, 2);
    assert(first[0] == c && first[1] == 0 as real && first[2] == 0 as real && first[3]
        == 0 as real);
    assert(third[0] == 0 as real && third[1] == 0 as real && third[2] == c && third[3]
        == 0 as real);
    let row: Seq<real> = k[r];
    lemma_dot_of_four(row, first);
    lemma_dot_of_four(row, third);
    lemma_times_zero(row[1], first[1]);
    lemma_times_zero(row[2], first[2]);
    lemma_times_zero(row[3], first[3]);
    lemma_times_zero(row[0], third[0]);
    lemma_times_zero(row[1], third[1]);
    lemma_times_zero(row[3], third[3]);
    lemma_local_rows_cancel(e, r);
    lemma_common_factor(row[0], row[2], c);
    lemma_times_zero(c, row[0] + row[2]);
}

/// In every row of a level element's stiffness in the axes of the frame the
/// entries for the two displacements are each other's opposite.
proof fn lemma_level_stiffness_cancels(nodes: Seq<NodeView>, e: ElementView, p: int)
    requires
        e.length > 0 as real,
        is_level_element(nodes, e),
        0 <= p < 4,
    ensures
        global_stiffness(nodes, e)[p][0] + global_stiffness(nodes, e)[p][2] == 0 as real,
{
    let k: Seq<Seq<real>> = local_stiffness(e);
    let t: Seq<Seq<real>> = transform(nodes, e);
    let u0: Seq<real> = mat_vec(k, column(t, 0));
    let u2: Seq<real> = mat_vec(k, column(t, 2));
    assert forall|r: int| 0 <= r < 4 implies u0[r] + u2[r] == 0 as real by {
        lemma_level_products_cancel(nodes, e, r);
    }
    lemma_dot_opposite(column(t, p), u0, u2, 4);
}

/// What one more entry of the element's stiffness adds to the dot product
/// of row `i` of its share with the uniform shift.
proof fn lemma_share_step(kg: Seq<Seq<real>>, e: ElementView, i: int, count: nat, n: nat)
    requires
        count < 16,
        0 <= e.start && 2 * e.start + 1 < n,
        0 <= e.end && 2 * e.end + 1 < n,
    ensures
        dot(share_row(kg, e, i, count + 1, n), uniform_shift(n), n) == dot(
            share_row(kg, e, i, count, n),
            uniform_shift(n),
            n,
        ) + if dof(e, count as int / 4) == i && (count as int % 4) % 2 == 0 {
            kg[count as int / 4][count as int % 4]
        } else {
            0 as real
        },
{
    let p: int = count as int / 4;
    let q: int = count as int % 4;
    let at: int = dof(e, q);
    let x: real = if dof(e, p) == i {
        kg[p][q]
    } else {
        0 as real
    };
    let v: Seq<real> = uniform_shift(n);
    let before: Seq<real> = share_row(kg, e, i, count, n);
    let after: Seq<real> = share_row(kg, e, i, count + 1, n);
    assert forall|j: int| 0 <= j < n implies after[j] == before[j] + if j == at {
        x
    } else {
        0 as real
    } by {
        assert(element_share(kg, e, i, j, count + 1) == element_share(kg, e, i, j, count)
            + if dof(e, p) == i && dof(e, q) == j {
            kg[p][q]
        } else {
            0 as real
        });
    }
    lemma_dot_add_at(before, after, v, n, at, x);
    assert(0 <= at < n);
    assert(at % 2 == q % 2);
    if q % 2 == 0 {
        lemma_times_one(x, v[at]);
    } else {
        lemma_times_zero(x, v[at]);
    }
}

/// Shifting every joint alike draws nothing from the share of a level
/// element in any row of the frame's matrix.
proof fn lemma_share_of_level_element(nodes: Seq<NodeView>, e: ElementView, i: int, n: nat)
    requires
        e.length > 0 as real,
        is_level_element(nodes, e),
        0 <= e.start && 2 * e.start + 1 < n,
        0 <= e.end && 2 * e.end + 1 < n,
    ensures
        dot(share_row(global_stiffness(nodes, e), e, i, 16, n), uniform_shift(n), n) == 0 as real,
{
    let kg: Seq<Seq<real>> = global_stiffness(nodes, e);
    let v: Seq<real> = uniform_shift(n);
    lemma_dot_zero_row(share_row(kg, e, i, 0, n), v, n);
    lemma_share_step(kg, e, i, 0, n);
    lemma_share_step(kg, e, i, 1, n);
    lemma_share_step(kg, e, i, 2, n);
    lemma_share_step(kg, e, i, 3, n);
    lemma_level_stiffness_cancels(nodes, e, 0);
    assert(dot(share_row(kg, e, i, 4, n), v, n) == 0 as real);
    lemma_share_step(kg, e, i, 4, n);
    lemma_share_step(kg, e, i, 5, n);
    lemma_share_step(kg, e, i, 6, n);
    lemma_share_step(kg, e, i, 7, n);
    lemma_level_stiffness_cancels(nodes, e, 1);
    assert(dot(share_row(kg, e, i, 8, n), v, n) == 0 as real);
    lemma_share_step(kg, e, i, 8, n);
    lemma_share_step(kg, e, i, 9, n);
    lemma_share_step(kg, e, i, 10, n);
    lemma_share_step(kg, e, i, 11, n);
    lemma_level_stiffness_cancels(nodes, e, 2);
    assert(dot(share_row(kg, e, i, 12, n), v, n) == 0 as real);
    lemma_share_step(kg, e, i, 12, n);
    lemma_share_step(kg, e, i, 13, n);
    lemma_share_step(kg, e, i, 14, n);
    lemma_share_step(kg, e, i, 15, n);
    lemma_level_stiffness_cancels(nodes, e, 3);
}

/// Shifting every joint alike draws nothing from any row of the matrix of
/// a level frame, however many of its elements are in it.
proof fn lemma_assembled_row_is_idle(frame: FrameView, m: nat, i: int)
    requires
        frame.wf(),
        is_level(frame),
        m <= frame.elements.len(),
        0 <= i < frame.size(),
    ensures
        dot(assembled(frame, m)[i], uniform_shift(frame.size()), frame.size()) == 0 as real,
    decreases m,
{
    let n: nat = frame.size();
    let v: Seq<real> = uniform_shift(n);
    if m == 0 {
        lemma_dot_zero_row(assembled(frame, 0)[i], v, n);
    } else {
        lemma_assembled_row_is_idle(frame, (m - 1) as nat, i);
        let e: ElementView = frame.elements[m - 1];
        assert(element_fits(e, frame.nodes));
        assert(is_level_element(frame.nodes, e));
        let kg: Seq<Seq<real>> = global_stiffness(frame.nodes, e);
        lemma_share_of_level_element(frame.nodes, e, i, n);
        lemma_dot_sum(
            assembled(frame, (m - 1) as nat)[i],
            share_row(kg, e, i, 16, n),
            assembled(frame, m)[i],
            v,
            n,
        );
    }
}

/// A level frame with at least one joint and no support has a singular
/// system: it is never solved.
pub proof fn lemma_unsupported_level_frame_is_singular(frame: FrameView)
    requires
        frame.wf(),
        frame.supports.len() == 0,
        frame.nodes.len() > 0,
        is_level(frame),
    ensures
        singular(constrained_stiffness(frame)),
{
    let n: nat = frame.size();
    let v: Seq<real> = uniform_shift(n);
    let kc: Seq<Seq<real>> = constrained_stiffness(frame);
    let k: Seq<Seq<real>> = frame_stiffness(frame);
    assert forall|i: int| 0 <= i < kc.len() implies dot(#[trigger] kc[i], v, v.len()) == zeros(
        n,
    )[i] by {
        lemma_assembled_row_is_idle(frame, frame.elements.len(), i);
        assert forall|j: int| 0 <= j < n implies kc[i][j] == k[i][j] by {
            assert(!constrained(frame, i));
            assert(!constrained(frame, j));
        }
        lemma_dot_same(k[i], kc[i], v, n);
    }
    assert(solves(kc, zeros(n), v));
    assert(v[0] != zeros(n)[0]);
}

} // verus!
