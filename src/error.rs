//! The closed set of failures that a build can end with.
use vstd::prelude::*;
use vstd::string::StringExecFns;

verus! {

/// Errors that can occur while building a project.
#[derive(Debug)]
pub enum LPError {
    /// A filesystem operation failed; holds the operating system's message.
    Io(String),
    /// The source directory is missing or is not a directory.
    SourceDirectoryNotFound(String),
    /// Two sections of one notebook share a header anchor.
    DuplicateHeader(String),
    /// A file could not be read or decoded.
    CannotReadFile(String),
    /// No plugin serves files with this extension.
    PluginNotFound(String),
    /// A reference names no existing section: the module path and the header.
    IncorrectReference(String, String),
    /// A plugin script failed to load or to run.
    LuaRuntime(String),
}

impl LPError {
    /// The one-line diagnostic for this error.
    pub fn message(&self) -> (r: String)
        ensures
            match self {
                LPError::Io(m) => r@ == "IO error: "@ + m@,
                LPError::SourceDirectoryNotFound(p) => r@ == "Source directory not found: "@ + p@,
                LPError::DuplicateHeader(h) => r@ == "Duplicate header found: "@ + h@,
                LPError::CannotReadFile(p) => r@ == "Cannot read file: "@ + p@,
                LPError::PluginNotFound(e) => r@ == "No plugin for files extension: "@ + e@,
                LPError::IncorrectReference(p, h) => r@ == "Impossible to refer to the module: "@
                    + p@ + ", section: "@ + h@,
                LPError::LuaRuntime(m) => r@ == "Lua error: "@ + m@,
            },
    {
        match self {
            LPError::Io(m) => String::from_str("IO error: ").concat(m.as_str()),
            LPError::SourceDirectoryNotFound(p) => String::from_str(
                "Source directory not found: ",
            ).concat(p.as_str()),
            LPError::DuplicateHeader(h) => String::from_str("Duplicate header found: ").concat(
                h.as_str(),
            ),
            LPError::CannotReadFile(p) => String::from_str("Cannot read file: ").concat(p.as_str()),
            LPError::PluginNotFound(e) => String::from_str("No plugin for files extension: ").concat(
                e.as_str(),
            ),
            LPError::IncorrectReference(p, h) => String::from_str(
                "Impossible to refer to the module: ",
            ).concat(p.as_str()).concat(", section: ").concat(h.as_str()),
            LPError::LuaRuntime(m) => String::from_str("Lua error: ").concat(m.as_str()),
        }
    }
}

} // verus!
