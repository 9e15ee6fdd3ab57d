//! What a build asks of the filesystem, file by file.
use vstd::prelude::*;

verus! {

/// One file of an output tree.
#[derive(Debug)]
pub enum Emission {
    /// Copy the file at `from`, byte for byte, to `to`.
    Copy { from: String, to: String },
    /// Write `contents` to `to`.
    Write { to: String, contents: String },
}

impl Emission {
    /// The path the emission writes.
    pub fn target(&self) -> (r: &String)
        ensures
            match self {
                Emission::Copy { to, .. } => r@ == to@,
                Emission::Write { to, .. } => r@ == to@,
            },
    {
        match self {
            Emission::Copy { to, .. } => to,
            Emission::Write { to, .. } => to,
        }
    }
}

} // verus!
