//! Where the code tree is built from and to.
use vstd::prelude::*;

verus! {

/// Configuration of the code build.
pub struct Config {
    /// The root of the code tree.
    pub target_code_dir: String,
    /// The root of the source tree.
    pub source_dir: String,
    /// The directory the plugins are loaded from.
    pub plugins_dir: String,
}

impl Config {
    /// A configuration with the given directories.
    pub fn new(target_code_dir: String, source_dir: String, plugins_dir: String) -> (r: Config)
        ensures
            r.target_code_dir == target_code_dir,
            r.source_dir == source_dir,
            r.plugins_dir == plugins_dir,
    {
        Config { target_code_dir, source_dir, plugins_dir }
    }
}

} // verus!
