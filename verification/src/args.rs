//! The options of a run, as far as the engine reads them.

use vstd::prelude::*;

verus! {

/// The options of a run.
#[derive(Debug, PartialEq, Eq)]
pub struct Options {
    /// The directory that holds the rendered artifact of each template.
    pub cache_directory: String,
    /// Whether a target that is in conflict with what is expected may be removed
    /// and overwritten.
    pub force: bool,
}

impl Default for Options {
    fn default() -> (r: Self)
        ensures
            !r.force,
            r.cache_directory@ == ".dotter/cache"@,
    {
        Options { cache_directory: ".dotter/cache".to_string(), force: false }
    }
}

} // verus!
