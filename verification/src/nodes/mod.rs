//! Structural joints.

pub mod node;
