//! A small system-utility library: binary and hexadecimal text codecs with
//! cleaning, validation and formatting, plus string, parity, environment,
//! path and randomness helpers.

pub mod cmd;
pub mod codec;
pub mod env;
pub mod fs;
pub mod hex;
pub mod info;
pub mod log;
pub mod math;
pub mod net;
pub mod rand;
pub mod text;
pub mod types;
pub mod utils;

pub use net::ipv4;
pub use net::ipv4 as ip;
pub use types::error;
pub use types::error::SysxError;
pub use types::error::TimeError;

use vstd::prelude::*;

verus! {

/// Alias kept for callers that name the error type through the crate root.
pub type Error = SysxError;

} // verus!
