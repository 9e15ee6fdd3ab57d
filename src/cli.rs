//! The parameters of a build as given on the command line, and their validation.
use vstd::prelude::*;
use crate::error::LPError;

verus! {

/// The command-line parameters.
pub struct Params {
    /// The source directory.
    pub src_dir: String,
    /// The target directory, parent of the two output roots.
    pub target_dir: String,
    /// The plugins directory.
    pub plugins_dir: String,
    /// Clear the output roots before building.
    pub force: bool,
}

/// Validates the command-line parameters.
pub struct ParamsProcessor {}

impl ParamsProcessor {
    /// A new processor.
    pub fn new() -> (r: ParamsProcessor) {
        ParamsProcessor {}
    }

    /// The error for `params`, if any: the source directory must be a directory
    /// (`src_is_dir` says whether it is).
    pub fn validate_params(&self, params: &Params, src_is_dir: bool) -> (r: Option<LPError>)
        ensures
            match r {
                Some(LPError::SourceDirectoryNotFound(p)) => !src_is_dir && p@ == params.src_dir@,
                Some(_) => false,
                None => src_is_dir,
            },
    {
        if !src_is_dir {
            return Some(LPError::SourceDirectoryNotFound(params.src_dir.clone()));
        }
        None
    }

    /// The parameters when they are valid, else the error.
    pub fn process_cli_params(&self, params: Params, src_is_dir: bool) -> (r: Result<Params, LPError>)
        ensures
            match r {
                Ok(p) => src_is_dir && p == params,
                Err(LPError::SourceDirectoryNotFound(s)) => !src_is_dir && s@ == params.src_dir@,
                Err(_) => false,
            },
    {
        match self.validate_params(&params, src_is_dir) {
            Some(e) => Err(e),
            None => Ok(params),
        }
    }
}

} // verus!
