//! The configuration consumed by the traversal, sorting and rendering
//! stages. It is built once by the caller and passed by value through every
//! function that needs it.

use vstd::prelude::*;

use crate::sorting::SortingMode;

verus! {

/// How sibling entries are ordered.
#[derive(Debug, Clone, Copy, PartialEq, Eq, Structural)]
pub struct SortingConfig {
    pub mode: SortingMode,
    pub reverse: bool,
}

/// What decorations the renderers add to a name.
#[derive(Debug, Clone, Copy, PartialEq, Eq, Structural)]
pub struct Display {
    pub icons: bool,
    pub suffix: bool,
}

/// Which entries the traversal visits: whether it recurses below the
/// first level, how deep, whether git ignore files are honoured (`git`),
/// and whether hidden entries are shown (`hidden`). `depth` is the
/// effective maximum depth: the raw configuration value `0` stands for
/// "unlimited" and is translated by [`effective_depth`] before it is
/// stored here.
#[derive(Debug, Clone, Copy, PartialEq, Eq, Structural)]
pub struct Filter {
    pub recurse: bool,
    pub depth: usize,
    pub git: bool,
    pub hidden: bool,
}

/// The whole configuration.
#[derive(Debug, Clone, Copy, PartialEq, Eq, Structural)]
pub struct Config {
    pub sorting: SortingConfig,
    pub display: Display,
    pub filter: Filter,
}

/// What [`effective_depth`] returns: the raw sentinel `0` stands for
/// "unlimited" and becomes the largest representable depth.
pub open spec fn spec_effective_depth(raw: usize) -> usize {
    if raw == 0 {
        usize::MAX
    } else {
        raw
    }
}

/// Translates the raw maximum-depth setting once, at configuration-build
/// time: `0` is a sentinel for "unlimited" and becomes the largest
/// representable depth, so that the traversal never stops on account of it.
pub fn effective_depth(raw: usize) -> (r: usize)
    ensures
        r == spec_effective_depth(raw),
        raw == 0 ==> r == usize::MAX,
        raw != 0 ==> r == raw,
{
    if raw == 0 {
        usize::MAX
    } else {
        raw
    }
}

impl Default for SortingConfig {
    /// Name order, not reversed.
    fn default() -> (r: Self)
        ensures
            r.mode == SortingMode::Name,
            !r.reverse,
    {
        SortingConfig { mode: SortingMode::Name, reverse: false }
    }
}

impl Default for Display {
    /// Suffix glyphs on, icons off.
    fn default() -> (r: Self)
        ensures
            !r.icons,
            r.suffix,
    {
        Display { icons: false, suffix: true }
    }
}

impl Default for Filter {
    /// No recursion, unlimited effective depth (the raw sentinel `0`
    /// translated), ignore files not honoured, hidden entries not shown.
    fn default() -> (r: Self)
        ensures
            !r.recurse,
            r.depth == usize::MAX,
            !r.git,
            !r.hidden,
    {
        Filter { recurse: false, depth: usize::MAX, git: false, hidden: false }
    }
}

impl Default for Config {
    fn default() -> (r: Self)
        ensures
            r.sorting.mode == SortingMode::Name,
            !r.sorting.reverse,
            !r.display.icons,
            r.display.suffix,
            !r.filter.recurse,
            r.filter.depth == usize::MAX,
            !r.filter.git,
            !r.filter.hidden,
    {
        Config {
            sorting: SortingConfig { mode: SortingMode::Name, reverse: false },
            display: Display { icons: false, suffix: true },
            filter: Filter { recurse: false, depth: usize::MAX, git: false, hidden: false },
        }
    }
}

} // verus!
