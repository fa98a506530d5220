//! The ways in which building or solving a structure can fail.

use vstd::prelude::*;

verus! {

/// Why a structure was refused or could not be solved.
#[derive(Debug, Clone, Copy, PartialEq, Eq, Structural)]
pub enum FrameError {
    /// A member without positive length or rigidity, a load placed off its
    /// member, or a reference to a node that does not exist.
    InvalidGeometry,
    /// The stiffness equations have no single solution: the structure is not
    /// held well enough to stand.
    SingularSystem,
}

} // verus!
