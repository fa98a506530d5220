//! What a span offers: how it is built, what it is, and the moments at its ends.

use vstd::prelude::*;
use crate::errors::FrameError;
use crate::loads::distributed_load::DistributedLoad;
use crate::loads::load_traits::LoadTraits;
use crate::loads::point_load::PunctualLoad;
use crate::nodes::node::{Node, SupportType};
use crate::numbers::rational::Rational;
use crate::spans::span::{
    SpanView, end_shear_far, end_shear_near, member_end_moment_far, member_end_moment_near,
    new_span_view,
};

verus! {

/// Building a member from its two joints and its loads.
pub trait SpanBuilder: Sized + View<V = SpanView> {
    /// A member of unit rigidity from `start_node` to `end_node`.
    ///
    /// It is refused as `InvalidGeometry` exactly when it would not be well
    /// formed: the end does not lie beyond the start, a point load lies off
    /// the member, or the range of a distributed load is empty, is reversed
    /// or leaves the member.
    fn new(
        start_node: Node,
        end_node: Node,
        distributed_loads: Vec<DistributedLoad>,
        point_loads: Vec<PunctualLoad>,
    ) -> (r: Result<Self, FrameError>)
        ensures
            r is Ok <==> new_span_view(
                start_node@,
                end_node@,
                distributed_loads.deep_view(),
                point_loads.deep_view(),
            ).wf(),
            r is Ok ==> r->Ok_0@ == new_span_view(
                start_node@,
                end_node@,
                distributed_loads.deep_view(),
                point_loads.deep_view(),
            ),
            r is Err ==> r->Err_0 == FrameError::InvalidGeometry,
    ;
}

/// The length of a member and the way its two ends are held.
pub trait SpanDetails: View<V = SpanView> {
    /// The length of the member.
    fn get_length(&self) -> (length: Rational)
        ensures
            length@ == self@.length,
    ;

    /// How the start of the member is held.
    fn get_est_a(&self) -> (support: SupportType)
        ensures
            support == self@.start_node.support,
    ;

    /// How the end of the member is held.
    fn get_est_b(&self) -> (support: SupportType)
        ensures
            support == self@.end_node.support,
    ;

    /// How both ends are held, start first.
    fn get_est(&self) -> (supports: [SupportType; 2])
        ensures
            supports[0] == self@.start_node.support,
            supports[1] == self@.end_node.support,
    {
        [self.get_est_a(), self.get_est_b()]
    }
}

/// The fixed-end moments that a load causes on this member.
pub trait SpanFEM: View<V = SpanView> {
    /// Both fixed-end moments of `load`, start first.
    fn fem<Load: LoadTraits>(&self, load: Load) -> (moments: [Rational; 2])
        ensures
            moments[0]@ == load.fem_a_value(self@),
            moments[1]@ == load.fem_b_value(self@),
    ;

    /// The fixed-end moment of `load` at the start of the member.
    fn fem_a<Load: LoadTraits>(&self, load: Load) -> (moment: Rational)
        ensures
            moment@ == load.fem_a_value(self@),
    ;

    /// The fixed-end moment of `load` at the end of the member.
    fn fem_b<Load: LoadTraits>(&self, load: Load) -> (moment: Rational)
        ensures
            moment@ == load.fem_b_value(self@),
    ;
}

/// The moments and shears at the two ends of a member.
pub trait SpanTraits: View<V = SpanView> {
    /// Both member-end moments, start first.
    fn mem(&self) -> (moments: [Rational; 2])
        ensures
            moments[0]@ == member_end_moment_near(self@),
            moments[1]@ == member_end_moment_far(self@),
    {
        [self.mem_a(), self.mem_b()]
    }

    /// The member-end moment at the start.
    fn mem_a(&self) -> (moment: Rational)
        ensures
            moment@ == member_end_moment_near(self@),
    ;

    /// The member-end moment at the end.
    fn mem_b(&self) -> (moment: Rational)
        ensures
            moment@ == member_end_moment_far(self@),
    ;

    /// Both member-end shears, start first.
    fn mes(&self) -> (shears: [Rational; 2])
        ensures
            shears[0]@ == end_shear_near(self@),
            shears[1]@ == end_shear_far(self@),
    {
        [self.mes_a(), self.mes_b()]
    }

    /// The member-end shear at the start.
    fn mes_a(&self) -> (shear: Rational)
        ensures
            shear@ == end_shear_near(self@),
    ;

    /// The member-end shear at the end.
    fn mes_b(&self) -> (shear: Rational)
        ensures
            shear@ == end_shear_far(self@),
    ;
}

} // verus!
