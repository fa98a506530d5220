//! A frame: joints, the elements between them, the loads on the joints and
//! the joints that are supported.

use vstd::prelude::*;
use crate::errors::FrameError;
use crate::frames::element::{local_stiffness_of, rotation_of, turned};
use crate::frames::elimination::gaussian_elimination;
use crate::frames::laws::{lemma_supports_keep_their_settlement, lemma_unloaded_frame_at_rest};
use crate::frames::linear::{matrix_view, singular, vector_view, zeros};
use crate::frames::matrix::{
    add_to_entry, has_columns, multiply_matrices, zero_matrix, zero_vector,
};
use crate::frames::model::{
    ElementView, FrameView, applied_loads, assembled, constrained, constrained_loads,
    constrained_stiffness, dof, element_displacements, element_fits, element_forces,
    element_share, frame_displacements, frame_forces, frame_stiffness, global_stiffness,
    is_displacement, is_unloaded, supports_hold, transform,
};
use crate::frames::unsupported::{is_level, lemma_unsupported_level_frame_is_singular};
use crate::nodes::node::{Node, NodeTraits};
use crate::numbers::rational::Rational;

verus! {

/// The material and the section of an element.
#[derive(Debug)]
pub struct MaterialProperties {
    pub modulus_of_elasticity: Rational,
    pub moment_of_inertia: Rational,
}

/// A beam element between two joints of a frame, named by their numbers.
#[derive(Debug)]
pub struct Element {
    pub nodes: [usize; 2],
    pub length: Rational,
    pub material_properties: MaterialProperties,
}

impl View for Element {
    type V = ElementView;

    open spec fn view(&self) -> ElementView {
        ElementView {
            start: self.nodes[0] as int,
            end: self.nodes[1] as int,
            length: self.length@,
            modulus_of_elasticity: self.material_properties.modulus_of_elasticity@,
            moment_of_inertia: self.material_properties.moment_of_inertia@,
        }
    }
}

/// A frame. Its joints are numbered from zero in the order given.
#[derive(Debug)]
pub struct Frame {
    nodes: Vec<Node>,
    elements: Vec<Element>,
    loads: Vec<(usize, Rational)>,
    supports: Vec<usize>,
}

/// The mathematical content of the parts of a frame.
pub open spec fn frame_view(
    nodes: Seq<Node>,
    elements: Seq<Element>,
    loads: Seq<(usize, Rational)>,
    supports: Seq<usize>,
) -> FrameView {
    FrameView {
        nodes: Seq::new(nodes.len(), |i: int| nodes[i]@),
        elements: Seq::new(elements.len(), |i: int| elements[i]@),
        loads: Seq::new(loads.len(), |i: int| (loads[i].0 as int, loads[i].1@)),
        supports: Seq::new(supports.len(), |i: int| supports[i] as int),
    }
}

impl View for Frame {
    type V = FrameView;

    closed spec fn view(&self) -> FrameView {
        frame_view(self.nodes@, self.elements@, self.loads@, self.supports@)
    }
}

impl Frame {
    /// Every frame that exists is well formed.
    #[verifier::type_invariant]
    pub open spec fn well_formed(self) -> bool {
        self@.wf()
    }

    /// The frame made of the given parts, refused as `InvalidGeometry`
    /// exactly when it would not be well formed: an element, a load or a
    /// support names a joint that does not exist, an element has no positive
    /// flexural rigidity or is not as long as its joints are apart, or there
    /// are more joints than can be counted.
    pub fn new(
        nodes: Vec<Node>,
        elements: Vec<Element>,
        loads: Vec<(usize, Rational)>,
        supports: Vec<usize>,
    ) -> (r: Result<Frame, FrameError>)
        ensures
            r is Ok <==> frame_view(nodes@, elements@, loads@, supports@).wf(),
            r is Ok ==> r->Ok_0@ == frame_view(nodes@, elements@, loads@, supports@),
            r is Err ==> r->Err_0 == FrameError::InvalidGeometry,
    {
        let ghost made: FrameView = frame_view(nodes@, elements@, loads@, supports@);
        let n: usize = nodes.len();
        if n > usize::MAX / 2 {
            return Err(FrameError::InvalidGeometry);
        }
        let mut i: usize = 0;
        while i < elements.len()
            invariant
                i <= elements.len(),
                n == nodes.len(),
                made == frame_view(nodes@, elements@, loads@, supports@),
                forall|t: int| 0 <= t < i ==> element_fits(#[trigger] made.elements[t], made.nodes),
            decreases elements.len() - i,
        {
            let e: &Element = &elements[i];
            if e.nodes[0] >= n || e.nodes[1] >= n || !e.length.is_positive() {
                assert(!element_fits(made.elements[i as int], made.nodes));
                return Err(FrameError::InvalidGeometry);
            }
            let rigidity: Rational = e.material_properties.modulus_of_elasticity.mul(
                &e.material_properties.moment_of_inertia,
            );
            if !rigidity.is_positive() {
                assert(!element_fits(made.elements[i as int], made.nodes));
                return Err(FrameError::InvalidGeometry);
            }
            let start: &Node = &nodes[e.nodes[0]];
            let end: &Node = &nodes[e.nodes[1]];
            let along: Rational = end.get_x().sub(&start.get_x());
            let across: Rational = end.get_deflection().sub(&start.get_deflection());
            let apart: Rational = along.mul(&along).add(&across.mul(&across));
            if !e.length.mul(&e.length).eq_value(&apart) {
                assert(!element_fits(made.elements[i as int], made.nodes));
                return Err(FrameError::InvalidGeometry);
            }
            i += 1;
        }
        let mut j: usize = 0;
        while j < loads.len()
            invariant
                j <= loads.len(),
                n == nodes.len(),
                made == frame_view(nodes@, elements@, loads@, supports@),
                forall|t: int| 0 <= t < j ==> 0 <= (#[trigger] made.loads[t]).0 < n,
            decreases loads.len() - j,
        {
            if loads[j].0 >= n {
                assert(!(made.loads[j as int].0 < n));
                return Err(FrameError::InvalidGeometry);
            }
            j += 1;
        }
        let mut s: usize = 0;
        while s < supports.len()
            invariant
                s <= supports.len(),
                n == nodes.len(),
                made == frame_view(nodes@, elements@, loads@, supports@),
                forall|t: int| 0 <= t < s ==> 0 <= #[trigger] made.supports[t] < n,
            decreases supports.len() - s,
        {
            if supports[s] >= n {
                assert(!(made.supports[s as int] < n));
                return Err(FrameError::InvalidGeometry);
            }
            s += 1;
        }
        Ok(Frame { nodes, elements, loads, supports })
    }
}

/// The pairs of numbers held by a vector of pairs of rationals.
pub open spec fn forces_view(f: Seq<(Rational, Rational)>) -> Seq<(real, real)> {
    Seq::new(f.len(), |i: int| (f[i].0@, f[i].1@))
}

/// The place among the unknowns of the frame of unknown `q` of the element.
fn dof_of(e: &Element, q: usize) -> (i: usize)
    requires
        q < 4,
        2 * e.nodes[0] + 1 <= usize::MAX,
        2 * e.nodes[1] + 1 <= usize::MAX,
    ensures
        i == dof(e@, q as int),
{
    let node: usize = if q < 2 {
        e.nodes[0]
    } else {
        e.nodes[1]
    };
    2 * node + q % 2
}

impl Frame {
    /// The number of joints.
    pub fn node_count(&self) -> (n: usize)
        ensures
            n == self@.nodes.len(),
    {
        self.nodes.len()
    }

    /// The number of unknowns.
    pub fn size(&self) -> (n: usize)
        ensures
            n == self@.size(),
    {
        proof {
            use_type_invariant(self);
        }
        2 * self.nodes.len()
    }

    /// The rotation of element `m` from the axes of the frame to its own.
    pub fn element_transform(&self, m: usize) -> (t: Vec<Vec<Rational>>)
        requires
            m < self@.elements.len(),
        ensures
            t.len() == 4,
            has_columns(t@, 4),
            matrix_view(t@) == transform(self@.nodes, self@.elements[m as int]),
    {
        proof {
            use_type_invariant(self);
            assert(element_fits(self@.elements[m as int], self@.nodes));
        }
        let e: &Element = &self.elements[m];
        let start: &Node = &self.nodes[e.nodes[0]];
        let end: &Node = &self.nodes[e.nodes[1]];
        let c: Rational = end.get_x().sub(&start.get_x()).div(&e.length);
        let s: Rational = end.get_deflection().sub(&start.get_deflection()).div(&e.length);
        rotation_of(&c, &s)
    }

    /// The stiffness of element `m` in the axes of the frame.
    pub fn element_stiffness(&self, m: usize) -> (g: Vec<Vec<Rational>>)
        requires
            m < self@.elements.len(),
        ensures
            g.len() == 4,
            has_columns(g@, 4),
            matrix_view(g@) == global_stiffness(self@.nodes, self@.elements[m as int]),
    {
        proof {
            use_type_invariant(self);
            assert(element_fits(self@.elements[m as int], self@.nodes));
        }
        let t: Vec<Vec<Rational>> = self.element_transform(m);
        let k: Vec<Vec<Rational>> = local_stiffness_of(&self.elements[m]);
        turned(&t, &k)
    }

    /// The stiffness matrix of the whole frame, before the supports are
    /// enforced.
    pub fn stiffness_matrix(&self) -> (k: Vec<Vec<Rational>>)
        ensures
            k.len() == self@.size(),
            has_columns(k@, self@.size()),
            matrix_view(k@) == frame_stiffness(self@),
    {
        proof {
            use_type_invariant(self);
        }
        let size: usize = self.size();
        let mut k: Vec<Vec<Rational>> = zero_matrix(size, size);
        let mut m: usize = 0;
        while m < self.elements.len()
            invariant
                self@.wf(),
                size == self@.size(),
                m <= self.elements.len(),
                self.elements.len() == self@.elements.len(),
                k.len() == size,
                has_columns(k@, size as nat),
                matrix_view(k@) == assembled(self@, m as nat),
            decreases self.elements.len() - m,
        {
            let g: Vec<Vec<Rational>> = self.element_stiffness(m);
            let e: &Element = &self.elements[m];
            let ghost before: Seq<Seq<real>> = matrix_view(k@);
            let ghost gv: Seq<Seq<real>> = matrix_view(g@);
            proof {
                assert(e@ == self@.elements[m as int]);
                assert(element_fits(self@.elements[m as int], self@.nodes));
            }
            let mut t: usize = 0;
            while t < 16
                invariant
                    t <= 16,
                    size == self@.size(),
                    size <= usize::MAX,
                    element_fits(e@, self@.nodes),
                    g.len() == 4,
                    has_columns(g@, 4),
                    gv == matrix_view(g@),
                    k.len() == size,
                    before.len() == size,
                    has_columns(k@, size as nat),
                    forall|i: int, j: int|
                        0 <= i < size && 0 <= j < size ==> #[trigger] k@[i]@[j]@ == before[i][j]
                            + element_share(gv, e@, i, j, t as nat),
                decreases 16 - t,
            {
                let p: usize = t / 4;
                let q: usize = t % 4;
                let i: usize = dof_of(e, p);
                let j: usize = dof_of(e, q);
                let ghost old_k: Seq<Vec<Rational>> = k@;
                add_to_entry(&mut k, i, j, &g[p][q]);
                proof {
                    assert(gv[p as int][q as int] == g@[p as int]@[q as int]@);
                    assert forall|r: int, c: int|
                        0 <= r < size && 0 <= c < size implies #[trigger] k@[r]@[c]@
                        == before[r][c] + element_share(gv, e@, r, c, (t + 1) as nat) by {
                        assert(old_k[r]@[c]@ == before[r][c] + element_share(
                            gv,
                            e@,
                            r,
                            c,
                            t as nat,
                        ));
                    }
                }
                t += 1;
            }
            proof {
                let next: Seq<Seq<real>> = assembled(self@, (m + 1) as nat);
                assert forall|i: int| 0 <= i < size implies #[trigger] matrix_view(k@)[i]
                    =~= next[i] by {
                    assert forall|j: int| 0 <= j < size implies matrix_view(k@)[i][j]
                        == next[i][j] by {
                        assert(k@[i]@[j]@ == before[i][j] + element_share(gv, e@, i, j, 16));
                    }
                }
                assert(matrix_view(k@) =~= next);
            }
            m += 1;
        }
        k
    }

    /// For every unknown, whether it belongs to a supported joint.
    fn support_flags(&self) -> (flags: Vec<bool>)
        ensures
            flags.len() == self@.size(),
            forall|i: int| 0 <= i < self@.size() ==> flags@[i] == constrained(self@, i),
    {
        proof {
            use_type_invariant(self);
        }
        let size: usize = self.size();
        let mut flags: Vec<bool> = Vec::new();
        let mut i: usize = 0;
        while i < size
            invariant
                i <= size,
                flags.len() == i,
                forall|t: int| 0 <= t < i ==> !flags@[t],
            decreases size - i,
        {
            flags.push(false);
            i += 1;
        }
        let mut s: usize = 0;
        while s < self.supports.len()
            invariant
                self@.wf(),
                size == self@.size(),
                s <= self.supports.len(),
                flags.len() == size,
                forall|i: int|
                    0 <= i < size ==> (#[trigger] flags@[i] <==> exists|t: int|
                        0 <= t < s && #[trigger] self.supports@[t] == i / 2),
            decreases self.supports.len() - s,
        {
            let node: usize = self.supports[s];
            proof {
                assert(self@.supports[s as int] == node);
            }
            let ghost before: Seq<bool> = flags@;
            flags.set(2 * node, true);
            flags.set(2 * node + 1, true);
            proof {
                assert forall|i: int| 0 <= i < size implies (#[trigger] flags@[i] <==> exists|
                    t: int,
                |
                    0 <= t < s + 1 && #[trigger] self.supports@[t] == i / 2) by {
                    if i / 2 == node as int {
                        assert(self.supports@[s as int] == i / 2);
                    } else {
                        assert(flags@[i] == before[i]);
                        if before[i] {
                            let t: int = choose|t: int|
                                0 <= t < s && #[trigger] self.supports@[t] == i / 2;
                            assert(0 <= t < s + 1 && self.supports@[t] == i / 2);
                        }
                    }
                }
            }
            s += 1;
        }
        proof {
            assert forall|i: int| 0 <= i < size implies flags@[i] == constrained(self@, i) by {
                if flags@[i] {
                    let t: int = choose|t: int|
                        0 <= t < self.supports.len() && #[trigger] self.supports@[t] == i / 2;
                    assert(self@.supports[t] == i / 2);
                }
                if constrained(self@, i) {
                    let t: int = choose|t: int|
                        0 <= t < self@.supports.len() && self@.supports[t] == i / 2;
                    assert(self.supports@[t] == i / 2);
                }
            }
        }
        flags
    }

    /// The right-hand side that the loads alone make.
    fn load_vector(&self) -> (f: Vec<Rational>)
        ensures
            f.len() == self@.size(),
            vector_view(f@) == applied_loads(self@, self@.loads.len()),
    {
        proof {
            use_type_invariant(self);
        }
        let size: usize = self.size();
        let mut f: Vec<Rational> = zero_vector(size);
        let mut m: usize = 0;
        while m < self.loads.len()
            invariant
                self@.wf(),
                size == self@.size(),
                m <= self.loads.len(),
                self.loads.len() == self@.loads.len(),
                f.len() == size,
                vector_view(f@) == applied_loads(self@, m as nat),
            decreases self.loads.len() - m,
        {
            let node: usize = self.loads[m].0;
            proof {
                assert(self@.loads[m as int] == (node as int, self.loads@[m as int].1@));
            }
            let ghost before: Seq<real> = vector_view(f@);
            f.set(2 * node, self.loads[m].1.clone());
            proof {
                assert(vector_view(f@) =~= before.update(2 * node, self.loads@[m as int].1@));
            }
            m += 1;
        }
        f
    }

    /// The system of equations of the frame after the supports have been
    /// enforced: its matrix and its right-hand side.
    pub fn constrained_system(&self) -> (system: (Vec<Vec<Rational>>, Vec<Rational>))
        ensures
            system.0.len() == self@.size(),
            has_columns(system.0@, self@.size()),
            matrix_view(system.0@) == constrained_stiffness(self@),
            system.1.len() == self@.size(),
            vector_view(system.1@) == constrained_loads(self@),
    {
        proof {
            use_type_invariant(self);
        }
        let size: usize = self.size();
        let k: Vec<Vec<Rational>> = self.stiffness_matrix();
        let f: Vec<Rational> = self.load_vector();
        let flags: Vec<bool> = self.support_flags();
        let mut matrix: Vec<Vec<Rational>> = Vec::new();
        let mut rhs: Vec<Rational> = Vec::new();
        let mut i: usize = 0;
        while i < size
            invariant
                self@.wf(),
                size == self@.size(),
                i <= size,
                k.len() == size,
                has_columns(k@, size as nat),
                matrix_view(k@) == frame_stiffness(self@),
                f.len() == size,
                vector_view(f@) == applied_loads(self@, self@.loads.len()),
                flags.len() == size,
                forall|t: int| 0 <= t < size ==> flags@[t] == constrained(self@, t),
                matrix.len() == i,
                rhs.len() == i,
                has_columns(matrix@, size as nat),
                forall|r: int|
                    0 <= r < i ==> vector_view(#[trigger] matrix@[r]@) == constrained_stiffness(
                        self@,
                    )[r],
                forall|r: int| 0 <= r < i ==> #[trigger] rhs@[r]@ == constrained_loads(self@)[r],
            decreases size - i,
        {
            let mut row: Vec<Rational> = Vec::new();
            let mut j: usize = 0;
            while j < size
                invariant
                    size == self@.size(),
                    i < size,
                    j <= size,
                    k.len() == size,
                    has_columns(k@, size as nat),
                    matrix_view(k@) == frame_stiffness(self@),
                    flags.len() == size,
                    forall|t: int| 0 <= t < size ==> flags@[t] == constrained(self@, t),
                    row.len() == j,
                    forall|c: int|
                        0 <= c < j ==> #[trigger] row@[c]@ == constrained_stiffness(
                            self@,
                        )[i as int][c],
                decreases size - j,
            {
                let entry: Rational = if flags[i] || flags[j] {
                    if i == j {
                        Rational::from_int(1)
                    } else {
                        Rational::from_int(0)
                    }
                } else {
                    proof {
                        assert(matrix_view(k@)[i as int][j as int] == k@[i as int]@[j as int]@);
                    }
                    k[i][j].clone()
                };
                row.push(entry);
                j += 1;
            }
            assert(vector_view(row@) =~= constrained_stiffness(self@)[i as int]);
            let value: Rational = if flags[i] {
                if i % 2 == 0 {
                    self.nodes[i / 2].get_deflection()
                } else {
                    Rational::from_int(0)
                }
            } else {
                proof {
                    assert(vector_view(f@)[i as int] == f@[i as int]@);
                }
                f[i].clone()
            };
            assert(value@ == constrained_loads(self@)[i as int]);
            matrix.push(row);
            rhs.push(value);
            i += 1;
        }
        proof {
            assert(matrix_view(matrix@) =~= constrained_stiffness(self@));
            assert(vector_view(rhs@) =~= constrained_loads(self@));
        }
        (matrix, rhs)
    }

    /// The displacements of the frame: the one solution of its constrained
    /// system, or `SingularSystem` where the matrix of that system is
    /// singular and the frame is not held well enough to stand.
    ///
    /// In the solution every supported joint is displaced by its settlement,
    /// exactly, and a frame without load or settlement is not displaced at
    /// all. A level frame that has joints and no support is never solved.
    pub fn displacements(&self) -> (r: Result<Vec<Rational>, FrameError>)
        ensures
            match r {
                Ok(d) => {
                    &&& is_displacement(self@, vector_view(d@))
                    &&& !singular(constrained_stiffness(self@))
                    &&& supports_hold(self@, vector_view(d@))
                    &&& is_unloaded(self@) ==> vector_view(d@) == zeros(self@.size())
                },
                Err(e) => e == FrameError::SingularSystem && singular(
                    constrained_stiffness(self@),
                ),
            },
            self@.supports.len() == 0 && self@.nodes.len() > 0 && is_level(self@) ==> r is Err,
    {
        let system: (Vec<Vec<Rational>>, Vec<Rational>) = self.constrained_system();
        let r: Result<Vec<Rational>, FrameError> = gaussian_elimination(&system.0, &system.1);
        proof {
            use_type_invariant(self);
            if self@.supports.len() == 0 && self@.nodes.len() > 0 && is_level(self@) {
                lemma_unsupported_level_frame_is_singular(self@);
            }
            if r is Ok {
                let d: Seq<real> = vector_view(r->Ok_0@);
                lemma_supports_keep_their_settlement(self@, d);
                if is_unloaded(self@) {
                    lemma_unloaded_frame_at_rest(self@, d);
                }
            }
        }
        r
    }

    /// The shear and the moment at the start of every element, in its own
    /// axes, under the displacements `d`.
    pub fn internal_forces(&self, d: &Vec<Rational>) -> (forces: Vec<(Rational, Rational)>)
        requires
            d.len() == self@.size(),
        ensures
            forces_view(forces@) == frame_forces(self@, vector_view(d@)),
    {
        proof {
            use_type_invariant(self);
        }
        let mut forces: Vec<(Rational, Rational)> = Vec::new();
        let mut m: usize = 0;
        while m < self.elements.len()
            invariant
                self@.wf(),
                d.len() == self@.size(),
                m <= self.elements.len(),
                self.elements.len() == self@.elements.len(),
                forces.len() == m,
                forall|t: int|
                    0 <= t < m ==> (#[trigger] forces@[t]).0@ == element_forces(
                        self@.nodes,
                        self@.elements[t],
                        vector_view(d@),
                    )[0] && forces@[t].1@ == element_forces(
                        self@.nodes,
                        self@.elements[t],
                        vector_view(d@),
                    )[1],
            decreases self.elements.len() - m,
        {
            let e: &Element = &self.elements[m];
            proof {
                assert(e@ == self@.elements[m as int]);
                assert(element_fits(self@.elements[m as int], self@.nodes));
            }
            let mut own: Vec<Rational> = Vec::new();
            let mut q: usize = 0;
            while q < 4
                invariant
                    q <= 4,
                    d.len() == self@.size(),
                    self@.size() <= usize::MAX,
                    element_fits(e@, self@.nodes),
                    own.len() == q,
                    forall|t: int|
                        0 <= t < q ==> #[trigger] own@[t]@ == element_displacements(
                            e@,
                            vector_view(d@),
                        )[t],
                decreases 4 - q,
            {
                let i: usize = dof_of(e, q);
                own.push(d[i].clone());
                q += 1;
            }
            assert(vector_view(own@) =~= element_displacements(e@, vector_view(d@)));
            let t: Vec<Vec<Rational>> = self.element_transform(m);
            let k: Vec<Vec<Rational>> = local_stiffness_of(e);
            let turned_own: Vec<Rational> = multiply_matrices(&t, &own);
            assert(turned_own.len() == 4) by {
                assert(vector_view(turned_own@).len() == 4);
            }
            let ends: Vec<Rational> = multiply_matrices(&k, &turned_own);
            assert(ends.len() == 4) by {
                assert(vector_view(ends@).len() == 4);
            }
            proof {
                let f: Seq<real> = element_forces(self@.nodes, e@, vector_view(d@));
                assert(vector_view(ends@) == f);
                assert(vector_view(ends@)[0] == ends@[0]@);
                assert(vector_view(ends@)[1] == ends@[1]@);
            }
            forces.push((ends[0].clone(), ends[1].clone()));
            m += 1;
        }
        proof {
            assert(forces_view(forces@) =~= frame_forces(self@, vector_view(d@)));
        }
        forces
    }

    /// The shear and the moment at the start of every element of the frame
    /// under its loads and supports, or `SingularSystem` where the frame is
    /// not held well enough to stand.
    ///
    /// A frame without load or settlement carries no force, and a level
    /// frame that has joints and no support is never solved.
    pub fn calculate_internal_forces(&self) -> (r: Result<Vec<(Rational, Rational)>, FrameError>)
        ensures
            match r {
                Ok(forces) => {
                    &&& !singular(constrained_stiffness(self@))
                    &&& is_displacement(self@, frame_displacements(self@))
                    &&& forces_view(forces@) == frame_forces(self@, frame_displacements(self@))
                    &&& is_unloaded(self@) ==> forall|m: int|
                        0 <= m < forces.len() ==> #[trigger] forces_view(forces@)[m] == (
                            0 as real,
                            0 as real,
                        )
                },
                Err(e) => e == FrameError::SingularSystem && singular(
                    constrained_stiffness(self@),
                ),
            },
            self@.supports.len() == 0 && self@.nodes.len() > 0 && is_level(self@) ==> r is Err,
    {
        match self.displacements() {
            Ok(d) => {
                proof {
                    use_type_invariant(self);
                    assert(is_displacement(self@, vector_view(d@)));
                    assert(is_displacement(self@, frame_displacements(self@)));
                    assert(frame_displacements(self@) == vector_view(d@));
                    assert(vector_view(d@).len() == self@.size());
                }
                let forces: Vec<(Rational, Rational)> = self.internal_forces(&d);
                proof {
                    if is_unloaded(self@) {
                        lemma_unloaded_frame_at_rest(self@, vector_view(d@));
                        assert forall|m: int| 0 <= m < forces.len() implies #[trigger] forces_view(
                            forces@,
                        )[m] == (0 as real, 0 as real) by {
                            assert(forces_view(forces@).len() == forces.len());
                            assert(frame_forces(self@, vector_view(d@))[m] == (
                                0 as real,
                                0 as real,
                            ));
                        }
                    }
                }
                Ok(forces)
            },
            Err(e) => Err(e),
        }
    }
}

} // verus!
