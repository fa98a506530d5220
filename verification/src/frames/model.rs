//! The mathematics of a frame: the stiffness of its members, the system of
//! equations they make together, and the forces that follow from its
//! solution.

use vstd::prelude::*;
use crate::frames::linear::{dot, is_unique_solution, zeros};
use crate::frames::matrix::{column, mat_vec, zero_matrix_view};
use crate::nodes::node::NodeView;

verus! {

/// The mathematical content of an element: the numbers of its two joints,
/// its length, and the two properties of its material and section.
pub struct ElementView {
    pub start: int,
    pub end: int,
    pub length: real,
    pub modulus_of_elasticity: real,
    pub moment_of_inertia: real,
}

/// The mathematical content of a frame.
pub struct FrameView {
    pub nodes: Seq<NodeView>,
    pub elements: Seq<ElementView>,
    pub loads: Seq<(int, real)>,
    pub supports: Seq<int>,
}

/// Whether the element joins two of the joints `nodes`, is stiff, and its
/// length is the distance between its joints: from joint to joint the
/// position changes along the frame and the settlement across it.
pub open spec fn element_fits(e: ElementView, nodes: Seq<NodeView>) -> bool {
    &&& 0 <= e.start < nodes.len()
    &&& 0 <= e.end < nodes.len()
    &&& e.length > 0 as real
    &&& flexural_rigidity(e) > 0 as real
    &&& e.length * e.length == run(nodes, e) * run(nodes, e) + rise(nodes, e) * rise(nodes, e)
}

/// The flexural rigidity of the element: the modulus of elasticity of its
/// material times the moment of inertia of its section.
pub open spec fn flexural_rigidity(e: ElementView) -> real {
    e.modulus_of_elasticity * e.moment_of_inertia
}

/// How far the end of the element lies beyond its start.
pub open spec fn run(nodes: Seq<NodeView>, e: ElementView) -> real {
    nodes[e.end].x - nodes[e.start].x
}

/// How far the end of the element has settled below its start.
pub open spec fn rise(nodes: Seq<NodeView>, e: ElementView) -> real {
    nodes[e.end].settlement - nodes[e.start].settlement
}

impl FrameView {
    /// The number of unknowns: a displacement and a rotation for every joint.
    pub open spec fn size(self) -> nat {
        2 * self.nodes.len()
    }

    /// A frame is well formed when its elements, loads and supports name
    /// joints that exist, every element is stiff and as long as its two
    /// joints are apart, and its unknowns can be counted.
    pub open spec fn wf(self) -> bool {
        &&& self.size() <= usize::MAX
        &&& forall|i: int|
            0 <= i < self.elements.len() ==> element_fits(#[trigger] self.elements[i], self.nodes)
        &&& forall|i: int|
            0 <= i < self.loads.len() ==> 0 <= (#[trigger] self.loads[i]).0 < self.nodes.len()
        &&& forall|i: int|
            0 <= i < self.supports.len() ==> 0 <= #[trigger] self.supports[i] < self.nodes.len()
    }
}

/// The stiffness of a beam element in its own axes, for the unknowns
/// (displacement, rotation) at its start and at its end:
///
/// ```text
///            |  12    6l   -12    6l  |
///  EI / l^3  |  6l   4l^2  -6l   2l^2 |
///            | -12   -6l    12   -6l  |
///            |  6l   2l^2  -6l   4l^2 |
/// ```
pub open spec fn local_stiffness(e: ElementView) -> Seq<Seq<real>> {
    let l = e.length;
    let k = flexural_rigidity(e) / (l * l * l);
    let a = (12 as real) * k;
    let b = (6 as real) * k * l;
    let c = (4 as real) * k * l * l;
    let d = (2 as real) * k * l * l;
    seq![seq![a, b, -a, b], seq![b, c, -b, d], seq![-a, -b, a, -b], seq![b, d, -b, c]]
}

/// The cosine of the element's direction: its run over its length.
pub open spec fn cosine(nodes: Seq<NodeView>, e: ElementView) -> real {
    run(nodes, e) / e.length
}

/// The sine of the element's direction: its rise over its length.
pub open spec fn sine(nodes: Seq<NodeView>, e: ElementView) -> real {
    rise(nodes, e) / e.length
}

/// The cosine and the sine of an element that fits its joints are those of
/// an angle: their squares add up to one.
pub proof fn lemma_direction_is_unit(nodes: Seq<NodeView>, e: ElementView)
    requires
        element_fits(e, nodes),
    ensures
        cosine(nodes, e) * cosine(nodes, e) + sine(nodes, e) * sine(nodes, e) == 1 as real,
{
    let l: real = e.length;
    let a: real = run(nodes, e);
    let b: real = rise(nodes, e);
    let ll: real = l * l;
    assert(ll > 0 as real) by (nonlinear_arith)
        requires
            ll == l * l,
            l > 0 as real,
    ;
    assert((a / l) * (a / l) == (a * a) / ll) by (nonlinear_arith)
        requires
            ll == l * l,
            l > 0 as real,
    ;
    assert((b / l) * (b / l) == (b * b) / ll) by (nonlinear_arith)
        requires
            ll == l * l,
            l > 0 as real,
    ;
    let aa: real = a * a;
    let bb: real = b * b;
    assert(aa / ll + bb / ll == 1 as real) by (nonlinear_arith)
        requires
            ll == aa + bb,
            ll > 0 as real,
    ;
}

/// The rotation that takes the unknowns of an element from the axes of the
/// frame to its own.
pub open spec fn rotation_matrix(c: real, s: real) -> Seq<Seq<real>> {
    let o = 0 as real;
    seq![seq![c, s, o, o], seq![-s, c, o, o], seq![o, o, c, s], seq![o, o, -s, c]]
}

/// The rotation of the element `e` of a frame with the joints `nodes`.
pub open spec fn transform(nodes: Seq<NodeView>, e: ElementView) -> Seq<Seq<real>> {
    rotation_matrix(cosine(nodes, e), sine(nodes, e))
}

/// The stiffness `k` turned into the axes of the frame by the rotation `t`:
/// the product of `t` transposed, `k` and `t`.
pub open spec fn turned_stiffness(t: Seq<Seq<real>>, k: Seq<Seq<real>>) -> Seq<Seq<real>> {
    Seq::new(4, |i: int| Seq::new(4, |j: int| dot(column(t, i), mat_vec(k, column(t, j)), 4)))
}

/// The stiffness of the element in the axes of the frame.
pub open spec fn global_stiffness(nodes: Seq<NodeView>, e: ElementView) -> Seq<Seq<real>> {
    turned_stiffness(transform(nodes, e), local_stiffness(e))
}

/// The place among the unknowns of the frame of unknown `q` of the element:
/// two unknowns for its start, then two for its end.
pub open spec fn dof(e: ElementView, q: int) -> int {
    2 * (if q < 2 {
        e.start
    } else {
        e.end
    }) + q % 2
}

/// What the first `count` entries of the element's stiffness `kg`, read row
/// by row, add to the entry `(i, j)` of the frame's matrix.
pub open spec fn element_share(
    kg: Seq<Seq<real>>,
    e: ElementView,
    i: int,
    j: int,
    count: nat,
) -> real
    decreases count,
{
    if count == 0 {
        0 as real
    } else {
        let p = (count - 1) / 4;
        let q = (count - 1) % 4;
        element_share(kg, e, i, j, (count - 1) as nat) + if dof(e, p) == i && dof(e, q) == j {
            kg[p][q]
        } else {
            0 as real
        }
    }
}

/// The matrix of the frame once its first `m` elements are in it.
pub open spec fn assembled(frame: FrameView, m: nat) -> Seq<Seq<real>>
    decreases m,
{
    if m == 0 {
        zero_matrix_view(frame.size(), frame.size())
    } else {
        let e = frame.elements[m - 1];
        let kg = global_stiffness(frame.nodes, e);
        let before = assembled(frame, (m - 1) as nat);
        Seq::new(
            frame.size(),
            |i: int|
                Seq::new(
                    frame.size(),
                    |j: int| before[i][j] + element_share(kg, e, i, j, 16),
                ),
        )
    }
}

/// The stiffness matrix of the whole frame.
pub open spec fn frame_stiffness(frame: FrameView) -> Seq<Seq<real>> {
    assembled(frame, frame.elements.len())
}

/// Whether unknown `i` belongs to a supported joint.
pub open spec fn constrained(frame: FrameView, i: int) -> bool {
    frame.supports.contains(i / 2)
}

/// The stiffness matrix after the supports have been enforced: the row and
/// the column of every unknown of a supported joint are zero but for a one
/// on the diagonal.
pub open spec fn constrained_stiffness(frame: FrameView) -> Seq<Seq<real>> {
    let k = frame_stiffness(frame);
    Seq::new(
        frame.size(),
        |i: int|
            Seq::new(
                frame.size(),
                |j: int|
                    if constrained(frame, i) || constrained(frame, j) {
                        if i == j {
                            1 as real
                        } else {
                            0 as real
                        }
                    } else {
                        k[i][j]
                    },
            ),
    )
}

/// The right-hand side once the first `m` loads are in it: each load is
/// written to the displacement unknown of its joint.
pub open spec fn applied_loads(frame: FrameView, m: nat) -> Seq<real>
    decreases m,
{
    if m == 0 {
        zeros(frame.size())
    } else {
        applied_loads(frame, (m - 1) as nat).update(
            2 * frame.loads[m - 1].0,
            frame.loads[m - 1].1,
        )
    }
}

/// What is prescribed for unknown `i` of a supported joint: the settlement
/// of the joint for its displacement, nothing for its rotation.
pub open spec fn prescribed(frame: FrameView, i: int) -> real {
    if i % 2 == 0 {
        frame.nodes[i / 2].settlement
    } else {
        0 as real
    }
}

/// The right-hand side after the supports have been enforced.
pub open spec fn constrained_loads(frame: FrameView) -> Seq<real> {
    let f = applied_loads(frame, frame.loads.len());
    Seq::new(
        frame.size(),
        |i: int|
            if constrained(frame, i) {
                prescribed(frame, i)
            } else {
                f[i]
            },
    )
}

/// Whether the frame carries no load and none of its joints has settled.
pub open spec fn is_unloaded(frame: FrameView) -> bool {
    &&& forall|i: int| 0 <= i < frame.loads.len() ==> (#[trigger] frame.loads[i]).1 == 0 as real
    &&& forall|i: int|
        0 <= i < frame.nodes.len() ==> (#[trigger] frame.nodes[i]).settlement == 0 as real
}

/// Whether in `d` every supported joint is displaced by its settlement and
/// does not turn.
pub open spec fn supports_hold(frame: FrameView, d: Seq<real>) -> bool {
    forall|t: int|
        0 <= t < frame.supports.len() ==> d[2 * #[trigger] frame.supports[t]]
            == frame.nodes[frame.supports[t]].settlement && d[2 * frame.supports[t] + 1]
            == 0 as real
}

/// Whether `d` holds the displacements of the frame: the one solution of
/// its constrained system.
pub open spec fn is_displacement(frame: FrameView, d: Seq<real>) -> bool {
    is_unique_solution(constrained_stiffness(frame), constrained_loads(frame), d)
}

/// The displacements of a frame whose system has one solution.
pub open spec fn frame_displacements(frame: FrameView) -> Seq<real> {
    choose|d: Seq<real>| is_displacement(frame, d)
}

/// The four unknowns of the element among the displacements `d` of the frame.
pub open spec fn element_displacements(e: ElementView, d: Seq<real>) -> Seq<real> {
    Seq::new(4, |q: int| d[dof(e, q)])
}

/// The forces at the ends of the element in its own axes under the
/// displacements `d` of the frame.
pub open spec fn element_forces(nodes: Seq<NodeView>, e: ElementView, d: Seq<real>) -> Seq<real> {
    mat_vec(local_stiffness(e), mat_vec(transform(nodes, e), element_displacements(e, d)))
}

/// The shear and the moment at the start of every element under the
/// displacements `d`.
pub open spec fn frame_forces(frame: FrameView, d: Seq<real>) -> Seq<(real, real)> {
    Seq::new(
        frame.elements.len(),
        |i: int|
            (
                element_forces(frame.nodes, frame.elements[i], d)[0],
                element_forces(frame.nodes, frame.elements[i], d)[1],
            ),
    )
}

} // verus!
