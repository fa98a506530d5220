//! Exact numbers: arbitrary-size naturals and the rationals built on them.

pub mod natural;
pub mod rational;
