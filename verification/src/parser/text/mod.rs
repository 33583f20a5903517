//! Text: inline after a space, or a piped block under the tag.
pub mod node;
pub mod process;
