//! Where the documentation tree is built from and to.
use vstd::prelude::*;

verus! {

/// Configuration of the documentation build.
pub struct Config {
    /// The root of the documentation tree.
    pub target_docs_dir: String,
    /// The root of the source tree.
    pub source_dir: String,
}

impl Config {
    /// A configuration with the given roots.
    pub fn new(target_docs_dir: String, source_dir: String) -> (r: Config)
        ensures
            r.target_docs_dir == target_docs_dir,
            r.source_dir == source_dir,
    {
        Config { target_docs_dir, source_dir }
    }
}

} // verus!
