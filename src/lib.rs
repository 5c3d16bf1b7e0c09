//! Extraction of file-system routing conventions into a typed route tree,
//! and rendering of that tree into generated declarations.

pub mod segment;
pub mod tree;
pub mod walk;
pub mod generate;
pub mod paths;
pub mod laws;
