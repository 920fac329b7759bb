//! Feature selection: the decisions that need no floating point.

pub mod correlation_threshold;
pub mod select_kbest;
pub mod variance_threshold;
