//! Elastic analysis of beams and frames in exact rational arithmetic:
//! fixed-end moments of point and distributed loads, slope-deflection
//! member-end moments of a span, and a direct-stiffness frame solver.

pub mod errors;
pub mod frames;
pub mod loads;
pub mod nodes;
pub mod numbers;
pub mod spans;
