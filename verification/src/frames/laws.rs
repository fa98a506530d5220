//! What holds of the displacements of every frame.

use vstd::prelude::*;
use crate::frames::linear::{dot, lemma_dot_unit, lemma_dot_zeros, solves, zeros};
use crate::frames::matrix::mat_vec;
use crate::frames::model::{
    FrameView, applied_loads, constrained, constrained_loads, constrained_stiffness, dof,
    element_displacements, element_fits, element_forces, frame_forces, is_displacement,
    is_unloaded, local_stiffness, supports_hold, transform,
};

verus! {

/// A supported joint is displaced by its settlement, exactly, and does not
/// turn.
pub proof fn lemma_supports_keep_their_settlement(frame: FrameView, d: Seq<real>)
    requires
        frame.wf(),
        is_displacement(frame, d),
    ensures
        supports_hold(frame, d),
{
    assert forall|t: int| 0 <= t < frame.supports.len() implies d[2
        * #[trigger] frame.supports[t]] == frame.nodes[frame.supports[t]].settlement && d[2
        * frame.supports[t] + 1] == 0 as real by {
        lemma_support_keeps_its_settlement(frame, d, t);
    }
}

/// The supported joint `t` is displaced by its settlement and does not turn.
proof fn lemma_support_keeps_its_settlement(frame: FrameView, d: Seq<real>, t: int)
    requires
        frame.wf(),
        is_displacement(frame, d),
        0 <= t < frame.supports.len(),
    ensures
        d[2 * frame.supports[t]] == frame.nodes[frame.supports[t]].settlement,
        d[2 * frame.supports[t] + 1] == 0 as real,
{
    let s: int = frame.supports[t];
    let kc: Seq<Seq<real>> = constrained_stiffness(frame);
    let fc: Seq<real> = constrained_loads(frame);
    let n: nat = frame.size();
    assert(d.len() == n);
    assert(frame.supports.contains(s));
    assert forall|i: int| i == 2 * s || i == 2 * s + 1 implies d[i] == fc[i] by {
        assert(i / 2 == s);
        assert(constrained(frame, i));
        assert forall|j: int| 0 <= j < n implies kc[i][j] == if i == j {
            1 as real
        } else {
            0 as real
        } by {}
        lemma_dot_unit(kc[i], d, n, i);
        assert(dot(kc[i], d, d.len()) == fc[i]);
    }
    assert(d[2 * s] == fc[2 * s]);
    assert(d[2 * s + 1] == fc[2 * s + 1]);
}

/// Loads of size zero leave the right-hand side at zero.
proof fn lemma_no_loads_applied(frame: FrameView, m: nat)
    requires
        frame.wf(),
        m <= frame.loads.len(),
        forall|i: int| 0 <= i < frame.loads.len() ==> (#[trigger] frame.loads[i]).1 == 0 as real,
    ensures
        applied_loads(frame, m) == zeros(frame.size()),
    decreases m,
{
    if m > 0 {
        lemma_no_loads_applied(frame, (m - 1) as nat);
        let load: (int, real) = frame.loads[m - 1];
        assert(0 <= load.0 < frame.nodes.len());
        assert(zeros(frame.size()).update(2 * load.0, load.1) =~= zeros(frame.size()));
    }
}

/// A frame without load and without settlement is at rest: nothing is
/// displaced and no element carries a force.
pub proof fn lemma_unloaded_frame_at_rest(frame: FrameView, d: Seq<real>)
    requires
        frame.wf(),
        is_unloaded(frame),
        is_displacement(frame, d),
    ensures
        d == zeros(frame.size()),
        forall|m: int|
            0 <= m < frame.elements.len() ==> #[trigger] frame_forces(frame, d)[m] == (
                0 as real,
                0 as real,
            ),
{
    let kc: Seq<Seq<real>> = constrained_stiffness(frame);
    let fc: Seq<real> = constrained_loads(frame);
    let n: nat = frame.size();
    let z: Seq<real> = zeros(n);
    lemma_no_loads_applied(frame, frame.loads.len());
    assert forall|i: int| 0 <= i < n implies fc[i] == 0 as real by {
        if constrained(frame, i) {
            assert(0 <= i / 2 < frame.nodes.len());
            assert(frame.nodes[i / 2].settlement == 0 as real);
        }
    }
    assert forall|i: int| 0 <= i < kc.len() implies dot(#[trigger] kc[i], z, z.len())
        == fc[i] by {
        lemma_dot_zeros(kc[i], z, n);
    }
    assert(solves(kc, fc, z));
    assert(d == z);
    assert forall|m: int| 0 <= m < frame.elements.len() implies #[trigger] frame_forces(
        frame,
        d,
    )[m] == (0 as real, 0 as real) by {
        let e = frame.elements[m];
        assert(element_fits(e, frame.nodes));
        let own: Seq<real> = element_displacements(e, d);
        assert forall|q: int| 0 <= q < 4 implies own[q] == 0 as real by {
            assert(0 <= dof(e, q) < n);
        }
        let t: Seq<Seq<real>> = transform(frame.nodes, e);
        let turned: Seq<real> = mat_vec(t, own);
        assert forall|p: int| 0 <= p < 4 implies turned[p] == 0 as real by {
            lemma_dot_zeros(t[p], own, 4);
        }
        let k: Seq<Seq<real>> = local_stiffness(e);
        let ends: Seq<real> = mat_vec(k, turned);
        assert(ends == element_forces(frame.nodes, e, d));
        lemma_dot_zeros(k[0], turned, 4);
        lemma_dot_zeros(k[1], turned, 4);
    }
}

} // verus!
