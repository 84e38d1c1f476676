//! A directory-listing library: a filesystem entry model, a depth-limited
//! traversal engine, a sorting engine, a styled-text composer, and grid/long
//! renderers.

use vstd::prelude::*;

pub mod config;
pub mod files;
pub mod output;
pub mod sorting;
pub mod style;
pub mod util;

verus! {

/// Errors of the listing library.
#[derive(Debug, Clone, Copy, PartialEq, Eq, Structural)]
pub enum LilsError {
    /// The traversal root is not a directory.
    NotADirectory,
    /// The traversal root could not be read.
    Io,
}

} // verus!
