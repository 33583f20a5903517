//! Attributes: `key`, `key="value"`, and the parenthesized list of them.
pub mod node;
pub mod process;
