//! Where command output goes.

use vstd::prelude::*;

verus! {

/// Where command output should be written.
#[derive(Debug, Clone, PartialEq, Eq)]
pub enum WriterTarget {
    Stdout,
    File(String),
}

impl WriterTarget {
    /// A file target for a given path, standard output otherwise.
    pub fn from_optional_path(path: Option<String>) -> (t: WriterTarget)
        ensures
            match path {
                Some(p) => t matches WriterTarget::File(q) && q@ == p@,
                None => t is Stdout,
            },
    {
        match path {
            Some(p) => WriterTarget::File(p),
            None => WriterTarget::Stdout,
        }
    }
}

} // verus!
