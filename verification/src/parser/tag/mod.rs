//! Tags: the header, the content tail and the children.
pub mod node;
pub mod process;
