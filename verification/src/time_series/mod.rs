//! Time-series features.

pub mod diff;
pub mod lag;
