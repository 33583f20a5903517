//! Class selectors: `.name`.
pub mod node;
pub mod process;
