//! The configuration of a build, and its default names.
use vstd::prelude::*;
use crate::paths::{join, join_path};

verus! {

/// Default source directory.
pub const DEFAULT_SOURCE_DIR_NAME: &'static str = "src";

/// Default target directory.
pub const DEFAULT_TARGETS_DIR_NAME: &'static str = "targets";

/// Default plugins directory.
pub const DEFAULT_PLUGINS_DIR_NAME: &'static str = "plugins";

/// The subdirectory of the target directory that receives the documentation.
pub const DOCS_SUBDIR_NAME: &'static str = "docs";

/// The subdirectory of the target directory that receives the code.
pub const CODE_SUBDIR_NAME: &'static str = "code";

/// Where a build reads and writes.
pub struct Config {
    /// The root of the documentation tree.
    pub docs_dir: String,
    /// The root of the code tree.
    pub code_dir: String,
    /// The directory of the code plugins.
    pub code_plugins_dir: String,
    /// The root of the source tree.
    pub source_dir: String,
    /// Clear both output roots before building.
    pub force: bool,
}

impl Config {
    /// The configuration for building `source_dir` into `target_dir/docs` and
    /// `target_dir/code` with the plugins of `code_plugins_dir`.
    pub fn new(target_dir: &str, source_dir: &str, code_plugins_dir: &str, force: bool) -> (r: Config)
        ensures
            r.docs_dir@ == join(target_dir@, DOCS_SUBDIR_NAME@),
            r.code_dir@ == join(target_dir@, CODE_SUBDIR_NAME@),
            r.code_plugins_dir@ == code_plugins_dir@,
            r.source_dir@ == source_dir@,
            r.force == force,
    {
        Config {
            docs_dir: join_path(target_dir, DOCS_SUBDIR_NAME),
            code_dir: join_path(target_dir, CODE_SUBDIR_NAME),
            code_plugins_dir: code_plugins_dir.to_owned(),
            source_dir: source_dir.to_owned(),
            force,
        }
    }

    /// A copy of this configuration.
    pub fn copy(&self) -> (r: Config)
        ensures
            r.docs_dir@ == self.docs_dir@,
            r.code_dir@ == self.code_dir@,
            r.code_plugins_dir@ == self.code_plugins_dir@,
            r.source_dir@ == self.source_dir@,
            r.force == self.force,
    {
        Config {
            docs_dir: self.docs_dir.clone(),
            code_dir: self.code_dir.clone(),
            code_plugins_dir: self.code_plugins_dir.clone(),
            source_dir: self.source_dir.clone(),
            force: self.force,
        }
    }
}

} // verus!
