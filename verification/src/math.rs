//! Mathematical helpers: the binary and hexadecimal codecs and parity checks.

pub mod bin;
pub mod hex;
pub mod parity;

pub use parity::is_even;
pub use parity::is_even_or_odd;
pub use parity::is_odd;
