//! A joint of the structure: where it lies, how far it has settled and
//! turned, and how it is held.

use vstd::prelude::*;
use crate::numbers::rational::Rational;

verus! {

/// How a joint is held.
#[derive(Debug, Clone, Copy, PartialEq, Eq, Structural)]
pub enum SupportType {
    /// Neither turns nor moves.
    Fixed,
    /// Turns freely, does not move.
    Hinged,
    /// Turns freely and moves along one direction.
    Roller,
}

/// The mathematical content of a [`Node`].
pub struct NodeView {
    pub x: real,
    pub settlement: real,
    pub rotation: real,
    pub support: SupportType,
}

/// A joint. Once made, it keeps its support type.
#[derive(Debug)]
pub struct Node {
    x: Rational,
    settlement: Rational,
    rotation: Rational,
    support: SupportType,
}

impl View for Node {
    type V = NodeView;

    closed spec fn view(&self) -> NodeView {
        NodeView {
            x: self.x@,
            settlement: self.settlement@,
            rotation: self.rotation@,
            support: self.support,
        }
    }
}

impl Clone for Node {
    fn clone(&self) -> (r: Self)
        ensures
            r@ == self@,
    {
        Node {
            x: self.x.clone(),
            settlement: self.settlement.clone(),
            rotation: self.rotation.clone(),
            support: self.support,
        }
    }
}

/// Making a joint and reading it.
pub trait NodeTraits: Sized + View<V = NodeView> {
    /// A joint at `x` that has settled by `settlement` and has not turned.
    fn new(x: Rational, settlement: Rational, support: SupportType) -> (node: Self)
        ensures
            node@ == (NodeView { x: x@, settlement: settlement@, rotation: 0 as real, support }),
    ;

    /// The position of the joint along the structure.
    fn get_x(&self) -> (x: Rational)
        ensures
            x@ == self@.x,
    ;

    /// How the joint is held.
    fn get_support(&self) -> (support: SupportType)
        ensures
            support == self@.support,
    ;

    /// The settlement of the joint.
    fn get_deflection(&self) -> (settlement: Rational)
        ensures
            settlement@ == self@.settlement,
    ;

    /// The rotation of the joint.
    fn get_rotation(&self) -> (rotation: Rational)
        ensures
            rotation@ == self@.rotation,
    ;
}

impl NodeTraits for Node {
    fn new(x: Rational, settlement: Rational, support: SupportType) -> (node: Self) {
        Node { x, settlement, rotation: Rational::from_int(0), support }
    }

    fn get_x(&self) -> (x: Rational) {
        self.x.clone()
    }

    fn get_support(&self) -> (support: SupportType) {
        self.support
    }

    fn get_deflection(&self) -> (settlement: Rational) {
        self.settlement.clone()
    }

    fn get_rotation(&self) -> (rotation: Rational) {
        self.rotation.clone()
    }
}

impl Node {
    /// The same joint turned by `rotation`.
    pub fn with_rotation(self, rotation: Rational) -> (node: Node)
        ensures
            node@ == (NodeView { rotation: rotation@, ..self@ }),
    {
        Node { x: self.x, settlement: self.settlement, rotation, support: self.support }
    }
}

} // verus!
