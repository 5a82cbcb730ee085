//! Document layout detection options.
use vstd::prelude::*;

verus! {

/// Layout detector options.
pub struct LayoutOptions {
    /// Optional model download cache directory.
    pub cache_dir: Option<String>,
}

impl Default for LayoutOptions {
    fn default() -> (options: Self)
        ensures
            options.cache_dir is None,
    {
        LayoutOptions { cache_dir: None }
    }
}

} // verus!
