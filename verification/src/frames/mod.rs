//! Frames of several members, solved by the direct stiffness method.

pub mod element;
pub mod elimination;
pub mod frame;
pub mod laws;
pub mod linear;
pub mod matrix;
pub mod model;
pub mod progress;
pub mod reduced;
pub mod row_operations;
pub mod unsupported;
