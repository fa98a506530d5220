//! A single beam member between two joints.

use vstd::prelude::*;
use crate::errors::FrameError;
use crate::loads::distributed_load::{DistributedLoad, DistributedLoadView};
use crate::loads::point_load::{PunctualLoad, PunctualLoadView};
use crate::nodes::node::{Node, NodeTraits, NodeView, SupportType};
use crate::numbers::rational::Rational;
use crate::loads::distributed_load::{
    distributed_fem_far, distributed_fem_near, first_moment_of, resultant_of,
};
use crate::loads::load_traits::LoadTraits;
use crate::loads::point_load::{point_fem_far, point_fem_near};
use crate::spans::traits::{SpanBuilder, SpanDetails, SpanFEM, SpanTraits};

verus! {

/// The mathematical content of a [`Span`].
pub struct SpanView {
    pub start_node: NodeView,
    pub end_node: NodeView,
    pub length: real,
    pub ei: real,
    pub distributed_loads: Seq<DistributedLoadView>,
    pub punctual_loads: Seq<PunctualLoadView>,
}

impl SpanView {
    /// A member is well formed when it runs forward from its start to its
    /// end, is stiff, and carries its loads on itself.
    pub open spec fn wf(self) -> bool {
        &&& self.length == self.end_node.x - self.start_node.x
        &&& self.length > 0 as real
        &&& self.ei > 0 as real
        &&& forall|i: int|
            0 <= i < self.punctual_loads.len() ==> point_on_member(
                #[trigger] self.punctual_loads[i],
                self.length,
            )
        &&& forall|i: int|
            0 <= i < self.distributed_loads.len() ==> range_on_member(
                #[trigger] self.distributed_loads[i],
                self.length,
            )
    }
}

/// Whether the point load lies on a member of length `l`.
pub open spec fn point_on_member(load: PunctualLoadView, l: real) -> bool {
    0 as real <= load.x <= l
}

/// Whether the range of the distributed load has an extent and lies on a
/// member of length `l`.
pub open spec fn range_on_member(load: DistributedLoadView, l: real) -> bool {
    0 as real <= load.x0 < load.xf <= l
}

/// The member that `Span::new` makes of its arguments.
pub open spec fn new_span_view(
    start_node: NodeView,
    end_node: NodeView,
    distributed_loads: Seq<DistributedLoadView>,
    punctual_loads: Seq<PunctualLoadView>,
) -> SpanView {
    SpanView {
        start_node,
        end_node,
        length: end_node.x - start_node.x,
        ei: 1 as real,
        distributed_loads,
        punctual_loads,
    }
}

/// The sum of the first `n` numbers of `s`.
pub open spec fn partial_sum(s: Seq<real>, n: nat) -> real
    decreases n,
{
    if n == 0 {
        0 as real
    } else {
        partial_sum(s, (n - 1) as nat) + s[n - 1]
    }
}

/// The sum of all numbers of `s`.
pub open spec fn total(s: Seq<real>) -> real {
    partial_sum(s, s.len())
}

/// What each point load of the member adds to the moment at its start.
pub open spec fn point_moments_near(span: SpanView) -> Seq<real> {
    Seq::new(
        span.punctual_loads.len(),
        |i: int|
            point_fem_near(
                span.punctual_loads[i],
                span.start_node.support,
                span.end_node.support,
                span.length,
            ),
    )
}

/// What each point load of the member adds to the moment at its end.
pub open spec fn point_moments_far(span: SpanView) -> Seq<real> {
    Seq::new(
        span.punctual_loads.len(),
        |i: int|
            point_fem_far(
                span.punctual_loads[i],
                span.start_node.support,
                span.end_node.support,
                span.length,
            ),
    )
}

/// What each distributed load of the member adds to the moment at its start.
pub open spec fn distributed_moments_near(span: SpanView) -> Seq<real> {
    Seq::new(
        span.distributed_loads.len(),
        |i: int|
            distributed_fem_near(
                span.distributed_loads[i],
                span.start_node.support,
                span.end_node.support,
                span.length,
            ),
    )
}

/// What each distributed load of the member adds to the moment at its end.
pub open spec fn distributed_moments_far(span: SpanView) -> Seq<real> {
    Seq::new(
        span.distributed_loads.len(),
        |i: int|
            distributed_fem_far(
                span.distributed_loads[i],
                span.start_node.support,
                span.end_node.support,
                span.length,
            ),
    )
}

/// The slope-deflection moment at the start of an unloaded member:
/// `2 EI (2 d_a + d_b - 3 (r_a - r_b) / l) / l`, with `d` the settlements and
/// `r` the rotations of the two joints.
pub open spec fn stiffness_moment_near(span: SpanView) -> real {
    (2 as real) * span.ei * ((2 as real) * span.start_node.settlement + span.end_node.settlement
        - (3 as real) * (span.start_node.rotation - span.end_node.rotation) / span.length)
        / span.length
}

/// The slope-deflection moment at the end of an unloaded member:
/// `2 EI (d_a + 2 d_b - 3 (r_a - r_b) / l) / l`.
pub open spec fn stiffness_moment_far(span: SpanView) -> real {
    (2 as real) * span.ei * (span.start_node.settlement + (2 as real) * span.end_node.settlement
        - (3 as real) * (span.start_node.rotation - span.end_node.rotation) / span.length)
        / span.length
}

/// The member-end moment at the start: the slope-deflection term and on top
/// of it the fixed-end moments of every point load and every distributed load.
pub open spec fn member_end_moment_near(span: SpanView) -> real {
    stiffness_moment_near(span) + total(point_moments_near(span)) + total(
        distributed_moments_near(span),
    )
}

/// The member-end moment at the end.
pub open spec fn member_end_moment_far(span: SpanView) -> real {
    stiffness_moment_far(span) + total(point_moments_far(span)) + total(
        distributed_moments_far(span),
    )
}

/// The moment of each point load about the end of the member.
pub open spec fn point_levers_far(span: SpanView) -> Seq<real> {
    Seq::new(
        span.punctual_loads.len(),
        |i: int| span.punctual_loads[i].value * (span.length - span.punctual_loads[i].x),
    )
}

/// The moment of each point load about the start of the member.
pub open spec fn point_levers_near(span: SpanView) -> Seq<real> {
    Seq::new(
        span.punctual_loads.len(),
        |i: int| span.punctual_loads[i].value * span.punctual_loads[i].x,
    )
}

/// The moment of each distributed load about the end of the member, as its
/// intensities and its range make it.
pub open spec fn distributed_levers_far(span: SpanView) -> Seq<real> {
    Seq::new(
        span.distributed_loads.len(),
        |i: int|
            resultant_of(span.distributed_loads[i]) * span.length - first_moment_of(
                span.distributed_loads[i],
            ),
    )
}

/// The moment of each distributed load about the start of the member, as its
/// intensities and its range make it.
pub open spec fn distributed_levers_near(span: SpanView) -> Seq<real> {
    Seq::new(span.distributed_loads.len(), |i: int| first_moment_of(span.distributed_loads[i]))
}

/// The size of each point load of the member.
pub open spec fn point_forces(span: SpanView) -> Seq<real> {
    Seq::new(span.punctual_loads.len(), |i: int| span.punctual_loads[i].value)
}

/// The resultant of each distributed load of the member.
pub open spec fn distributed_forces(span: SpanView) -> Seq<real> {
    Seq::new(span.distributed_loads.len(), |i: int| resultant_of(span.distributed_loads[i]))
}

/// All the load that the member carries.
pub open spec fn total_load(span: SpanView) -> real {
    total(point_forces(span)) + total(distributed_forces(span))
}

/// The moment of all loads about the end of the member.
pub open spec fn load_moment_about_far(span: SpanView) -> real {
    total(point_levers_far(span)) + total(distributed_levers_far(span))
}

/// The moment of all loads about the start of the member.
pub open spec fn load_moment_about_near(span: SpanView) -> real {
    total(point_levers_near(span)) + total(distributed_levers_near(span))
}

/// The shear at the start of the member: the reaction that the loads would
/// cause there on a simply supported beam, less the share of the two
/// member-end moments.
pub open spec fn end_shear_near(span: SpanView) -> real {
    (load_moment_about_far(span) - (member_end_moment_near(span) + member_end_moment_far(span)))
        / span.length
}

/// The shear at the end of the member: the simple-beam reaction there, plus
/// the share of the two member-end moments.
pub open spec fn end_shear_far(span: SpanView) -> real {
    (load_moment_about_near(span) + (member_end_moment_near(span) + member_end_moment_far(span)))
        / span.length
}

/// The member is in balance under its loads, its two end shears and its two
/// end moments: about either of its joints the moments add up to nothing.
pub proof fn lemma_moment_equilibrium(span: SpanView)
    requires
        span.wf(),
    ensures
        end_shear_near(span) * span.length + member_end_moment_near(span)
            + member_end_moment_far(span) == load_moment_about_far(span),
        member_end_moment_near(span) + member_end_moment_far(span) + load_moment_about_near(span)
            == end_shear_far(span) * span.length,
{
    let l: real = span.length;
    let moments: real = member_end_moment_near(span) + member_end_moment_far(span);
    let near: real = load_moment_about_far(span) - moments;
    let far: real = load_moment_about_near(span) + moments;
    assert((near / l) * l == near) by (nonlinear_arith)
        requires
            l > 0 as real,
    ;
    assert((far / l) * l == far) by (nonlinear_arith)
        requires
            l > 0 as real,
    ;
}

/// Two sequences of moments whose terms add up, pair by pair, to `l` times
/// the terms of a third add up to `l` times its sum.
proof fn lemma_levers_add_up(far: Seq<real>, near: Seq<real>, forces: Seq<real>, l: real, n: nat)
    requires
        forall|i: int| 0 <= i < n ==> far[i] + near[i] == l * forces[i],
    ensures
        partial_sum(far, n) + partial_sum(near, n) == l * partial_sum(forces, n),
    decreases n,
{
    if n > 0 {
        lemma_levers_add_up(far, near, forces, l, (n - 1) as nat);
        let before: real = partial_sum(forces, (n - 1) as nat);
        let last: real = forces[n - 1];
        assert(l * (before + last) == l * before + l * last) by (nonlinear_arith);
    } else {
        assert(l * (0 as real) == 0 as real) by (nonlinear_arith);
    }
}

/// The two end shears of a member carry all its load between them.
pub proof fn lemma_force_equilibrium(span: SpanView)
    requires
        span.wf(),
    ensures
        end_shear_near(span) + end_shear_far(span) == total_load(span),
{
    let l: real = span.length;
    let moments: real = member_end_moment_near(span) + member_end_moment_far(span);
    let far: real = load_moment_about_far(span);
    let near: real = load_moment_about_near(span);
    assert forall|i: int| 0 <= i < span.punctual_loads.len() implies point_levers_far(span)[i]
        + point_levers_near(span)[i] == l * point_forces(span)[i] by {
        let w: real = span.punctual_loads[i].value;
        let a: real = span.punctual_loads[i].x;
        assert(w * (l - a) + w * a == l * w) by (nonlinear_arith);
    }
    lemma_levers_add_up(
        point_levers_far(span),
        point_levers_near(span),
        point_forces(span),
        l,
        span.punctual_loads.len(),
    );
    assert forall|i: int|
        0 <= i < span.distributed_loads.len() implies distributed_levers_far(span)[i]
        + distributed_levers_near(span)[i] == l * distributed_forces(span)[i] by {
        let f: real = resultant_of(span.distributed_loads[i]);
        assert(f * l == l * f) by (nonlinear_arith);
    }
    lemma_levers_add_up(
        distributed_levers_far(span),
        distributed_levers_near(span),
        distributed_forces(span),
        l,
        span.distributed_loads.len(),
    );
    let all: real = total_load(span);
    assert(far + near == l * all) by {
        let p: real = total(point_forces(span));
        let d: real = total(distributed_forces(span));
        assert(l * (p + d) == l * p + l * d) by (nonlinear_arith);
    }
    let top: real = (far - moments) + (near + moments);
    assert((far - moments) / l + (near + moments) / l == top / l) by (nonlinear_arith)
        requires
            l > 0 as real,
            top == (far - moments) + (near + moments),
    ;
    assert((l * all) / l == all) by (nonlinear_arith)
        requires
            l > 0 as real,
    ;
}

/// A beam member with its loads.
#[derive(Debug)]
pub struct Span {
    start_node: Node,
    end_node: Node,
    length: Rational,
    ei: Rational,
    distributed_loads: Vec<DistributedLoad>,
    punctual_loads: Vec<PunctualLoad>,
}

impl View for Span {
    type V = SpanView;

    closed spec fn view(&self) -> SpanView {
        SpanView {
            start_node: self.start_node@,
            end_node: self.end_node@,
            length: self.length@,
            ei: self.ei@,
            distributed_loads: self.distributed_loads.deep_view(),
            punctual_loads: self.punctual_loads.deep_view(),
        }
    }
}

impl Span {
    /// Every member that exists is well formed.
    #[verifier::type_invariant]
    pub open spec fn well_formed(self) -> bool {
        self@.wf()
    }
}

impl SpanDetails for Span {
    fn get_length(&self) -> (length: Rational) {
        self.length.clone()
    }

    fn get_est_a(&self) -> (support: SupportType) {
        self.start_node.get_support()
    }

    fn get_est_b(&self) -> (support: SupportType) {
        self.end_node.get_support()
    }
}

impl SpanBuilder for Span {
    fn new(
        start_node: Node,
        end_node: Node,
        distributed_loads: Vec<DistributedLoad>,
        point_loads: Vec<PunctualLoad>,
    ) -> (r: Result<Self, FrameError>) {
        let ghost made: SpanView = new_span_view(
            start_node@,
            end_node@,
            distributed_loads.deep_view(),
            point_loads.deep_view(),
        );
        let length: Rational = end_node.get_x().sub(&start_node.get_x());
        if !length.is_positive() {
            return Err(FrameError::InvalidGeometry);
        }
        let mut i: usize = 0;
        while i < point_loads.len()
            invariant
                i <= point_loads.len(),
                made == new_span_view(
                    start_node@,
                    end_node@,
                    distributed_loads.deep_view(),
                    point_loads.deep_view(),
                ),
                made.length == length@,
                forall|k: int|
                    0 <= k < i ==> point_on_member(#[trigger] made.punctual_loads[k], made.length),
            decreases point_loads.len() - i,
        {
            let load: &PunctualLoad = &point_loads[i];
            if load.x.is_negative() || length.lt(&load.x) {
                assert(!point_on_member(made.punctual_loads[i as int], made.length));
                return Err(FrameError::InvalidGeometry);
            }
            i += 1;
        }
        let mut j: usize = 0;
        while j < distributed_loads.len()
            invariant
                j <= distributed_loads.len(),
                made == new_span_view(
                    start_node@,
                    end_node@,
                    distributed_loads.deep_view(),
                    point_loads.deep_view(),
                ),
                made.length == length@,
                forall|k: int|
                    0 <= k < j ==> range_on_member(
                        #[trigger] made.distributed_loads[k],
                        made.length,
                    ),
            decreases distributed_loads.len() - j,
        {
            let load: &DistributedLoad = &distributed_loads[j];
            if load.x0.is_negative() || !load.x0.lt(&load.xf) || length.lt(&load.xf) {
                assert(!range_on_member(made.distributed_loads[j as int], made.length));
                return Err(FrameError::InvalidGeometry);
            }
            j += 1;
        }
        Ok(
            Span {
                start_node,
                end_node,
                length,
                ei: Rational::from_int(1),
                distributed_loads,
                punctual_loads: point_loads,
            },
        )
    }
}

impl Span {
    /// The same member with flexural rigidity `ei`, refused as
    /// `InvalidGeometry` exactly when `ei` is not positive.
    pub fn with_flexural_rigidity(self, ei: Rational) -> (r: Result<Span, FrameError>)
        ensures
            r is Ok <==> ei@ > 0 as real,
            r is Ok ==> r->Ok_0@ == (SpanView { ei: ei@, ..self@ }),
            r is Err ==> r->Err_0 == FrameError::InvalidGeometry,
    {
        proof {
            use_type_invariant(&self);
        }
        if !ei.is_positive() {
            return Err(FrameError::InvalidGeometry);
        }
        Ok(
            Span {
                start_node: self.start_node,
                end_node: self.end_node,
                length: self.length,
                ei,
                distributed_loads: self.distributed_loads,
                punctual_loads: self.punctual_loads,
            },
        )
    }

    /// The flexural rigidity of the member.
    pub fn get_ei(&self) -> (ei: Rational)
        ensures
            ei@ == self@.ei,
    {
        self.ei.clone()
    }

    /// `2 EI (p d_a + q d_b - 3 (r_a - r_b) / l) / l`, the slope-deflection
    /// term with weights `p` and `q` on the two settlements.
    fn stiffness_moment(&self, p: i64, q: i64) -> (moment: Rational)
        ensures
            moment@ == (2 as real) * self@.ei * ((p as real) * self@.start_node.settlement
                + (q as real) * self@.end_node.settlement - (3 as real) * (
            self@.start_node.rotation - self@.end_node.rotation) / self@.length) / self@.length,
    {
        proof {
            use_type_invariant(self);
        }
        let turn: Rational = self.start_node.get_rotation().sub(&self.end_node.get_rotation());
        let settled: Rational = Rational::from_int(p).mul(&self.start_node.get_deflection()).add(
            &Rational::from_int(q).mul(&self.end_node.get_deflection()),
        );
        let inner: Rational = settled.sub(&Rational::from_int(3).mul(&turn).div(&self.length));
        Rational::from_int(2).mul(&self.ei).mul(&inner).div(&self.length)
    }

    /// The sum of the fixed-end moments of all point loads, at the start of
    /// the member or at its end.
    fn point_moment_sum(&self, near: bool) -> (sum: Rational)
        ensures
            sum@ == if near {
                total(point_moments_near(self@))
            } else {
                total(point_moments_far(self@))
            },
    {
        let ghost terms: Seq<real> = if near {
            point_moments_near(self@)
        } else {
            point_moments_far(self@)
        };
        let mut sum: Rational = Rational::from_int(0);
        let mut i: usize = 0;
        while i < self.punctual_loads.len()
            invariant
                i <= self.punctual_loads.len(),
                terms.len() == self.punctual_loads.len(),
                terms == if near {
                    point_moments_near(self@)
                } else {
                    point_moments_far(self@)
                },
                sum@ == partial_sum(terms, i as nat),
            decreases self.punctual_loads.len() - i,
        {
            let load: &PunctualLoad = &self.punctual_loads[i];
            let moment: Rational = if near {
                load.fem_a(self)
            } else {
                load.fem_b(self)
            };
            assert(moment@ == terms[i as int]);
            sum = sum.add(&moment);
            i += 1;
        }
        sum
    }

    /// The sum of the fixed-end moments of all distributed loads, at the
    /// start of the member or at its end.
    fn distributed_moment_sum(&self, near: bool) -> (sum: Rational)
        ensures
            sum@ == if near {
                total(distributed_moments_near(self@))
            } else {
                total(distributed_moments_far(self@))
            },
    {
        let ghost terms: Seq<real> = if near {
            distributed_moments_near(self@)
        } else {
            distributed_moments_far(self@)
        };
        let mut sum: Rational = Rational::from_int(0);
        let mut i: usize = 0;
        while i < self.distributed_loads.len()
            invariant
                i <= self.distributed_loads.len(),
                terms.len() == self.distributed_loads.len(),
                terms == if near {
                    distributed_moments_near(self@)
                } else {
                    distributed_moments_far(self@)
                },
                sum@ == partial_sum(terms, i as nat),
            decreases self.distributed_loads.len() - i,
        {
            let load: &DistributedLoad = &self.distributed_loads[i];
            let moment: Rational = if near {
                load.fem_a(self)
            } else {
                load.fem_b(self)
            };
            assert(moment@ == terms[i as int]);
            sum = sum.add(&moment);
            i += 1;
        }
        sum
    }

    /// The moment of all loads about the end of the member, or about its start.
    fn load_moment(&self, about_far: bool) -> (sum: Rational)
        ensures
            sum@ == if about_far {
                load_moment_about_far(self@)
            } else {
                load_moment_about_near(self@)
            },
    {
        let ghost points: Seq<real> = if about_far {
            point_levers_far(self@)
        } else {
            point_levers_near(self@)
        };
        let mut first: Rational = Rational::from_int(0);
        let mut i: usize = 0;
        while i < self.punctual_loads.len()
            invariant
                i <= self.punctual_loads.len(),
                points.len() == self.punctual_loads.len(),
                points == if about_far {
                    point_levers_far(self@)
                } else {
                    point_levers_near(self@)
                },
                first@ == partial_sum(points, i as nat),
            decreases self.punctual_loads.len() - i,
        {
            let load: &PunctualLoad = &self.punctual_loads[i];
            let lever: Rational = if about_far {
                self.length.sub(&load.x)
            } else {
                load.x.clone()
            };
            let moment: Rational = load.value.mul(&lever);
            assert(moment@ == points[i as int]);
            first = first.add(&moment);
            i += 1;
        }
        let ghost spread: Seq<real> = if about_far {
            distributed_levers_far(self@)
        } else {
            distributed_levers_near(self@)
        };
        let mut second: Rational = Rational::from_int(0);
        let mut j: usize = 0;
        while j < self.distributed_loads.len()
            invariant
                j <= self.distributed_loads.len(),
                spread.len() == self.distributed_loads.len(),
                spread == if about_far {
                    distributed_levers_far(self@)
                } else {
                    distributed_levers_near(self@)
                },
                second@ == partial_sum(spread, j as nat),
            decreases self.distributed_loads.len() - j,
        {
            let load: &DistributedLoad = &self.distributed_loads[j];
            let moment: Rational = if about_far {
                load.resultant().mul(&self.length).sub(&load.first_moment())
            } else {
                load.first_moment()
            };
            assert(moment@ == spread[j as int]);
            second = second.add(&moment);
            j += 1;
        }
        first.add(&second)
    }
}

impl SpanTraits for Span {
    fn mem_a(&self) -> (moment: Rational) {
        self.stiffness_moment(2, 1).add(&self.point_moment_sum(true)).add(
            &self.distributed_moment_sum(true),
        )
    }

    fn mem_b(&self) -> (moment: Rational) {
        self.stiffness_moment(1, 2).add(&self.point_moment_sum(false)).add(
            &self.distributed_moment_sum(false),
        )
    }

    fn mes_a(&self) -> (shear: Rational) {
        proof {
            use_type_invariant(self);
        }
        let moments: Rational = self.mem_a().add(&self.mem_b());
        self.load_moment(true).sub(&moments).div(&self.length)
    }

    fn mes_b(&self) -> (shear: Rational) {
        proof {
            use_type_invariant(self);
        }
        let moments: Rational = self.mem_a().add(&self.mem_b());
        self.load_moment(false).add(&moments).div(&self.length)
    }
}

impl SpanFEM for Span {
    fn fem<Load: LoadTraits>(&self, load: Load) -> (moments: [Rational; 2]) {
        load.fem(self)
    }

    fn fem_a<Load: LoadTraits>(&self, load: Load) -> (moment: Rational) {
        load.fem_a(self)
    }

    fn fem_b<Load: LoadTraits>(&self, load: Load) -> (moment: Rational) {
        load.fem_b(self)
    }
}

} // verus!
