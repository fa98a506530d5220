//! Single beam members.

pub mod span;
pub mod traits;
