//! Comments: `//!` is emitted as an HTML comment, `//` is not emitted.
pub mod node;
pub mod process;
