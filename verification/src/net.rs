//! Network address helpers.

pub mod ipv4;
