//! Depth-first directory navigation over directory-tree values.
//!
//! A [`DirNav`] walks a [`DirNode`] tree, counts what it meets, and tells its handler
//! of the directories and of the files whose extension is among its patterns.

pub mod laws;
pub mod nav;
pub mod pattern;
pub mod sep;
mod text;
pub mod tree;
pub mod walk;

pub use nav::{DirEvent, DirNav};
pub use tree::{DirNode, DirState, Entry, IoError};
