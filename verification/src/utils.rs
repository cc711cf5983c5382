//! Utility helpers, re-exported under their traditional grouping.

pub use crate::rand;
