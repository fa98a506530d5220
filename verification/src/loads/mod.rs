//! Loads on a span and the fixed-end moments they cause.

pub mod distributed_load;
pub mod load_traits;
pub mod point_load;
