//! Error kinds that the memory tools report.

use vstd::prelude::*;

verus! {

/// The category of a failure, as reported to tool callers.
#[derive(Debug, Clone, Copy, PartialEq, Eq, Structural)]
pub enum ErrorKind {
    /// Bad library name, empty content, wrong dimension, limit out of range.
    InvalidInput,
    /// Unknown session id or memory id.
    NotFound,
    /// Embedder, HTTP or Git fetch failed.
    Unavailable,
    /// Filesystem, database or consistency failures.
    Internal,
}

/// A failure with its kind and a readable message.
#[derive(Debug, Clone)]
pub struct MemoryError {
    pub kind: ErrorKind,
    pub message: String,
}

impl MemoryError {
    /// Builds an error of the given kind.
    pub fn new(kind: ErrorKind, message: String) -> (r: MemoryError)
        ensures
            r.kind == kind,
            r.message@ == message@,
    {
        MemoryError { kind, message }
    }

    /// The name of the error's kind, as the tool envelope spells it.
    pub fn kind_name(&self) -> (r: &'static str)
        ensures
            r@ == kind_name_of(self.kind),
    {
        match self.kind {
            ErrorKind::InvalidInput => "InvalidInput",
            ErrorKind::NotFound => "NotFound",
            ErrorKind::Unavailable => "Unavailable",
            ErrorKind::Internal => "Internal",
        }
    }
}

/// The spelling of each kind.
pub open spec fn kind_name_of(k: ErrorKind) -> Seq<char> {
    match k {
        ErrorKind::InvalidInput => "InvalidInput"@,
        ErrorKind::NotFound => "NotFound"@,
        ErrorKind::Unavailable => "Unavailable"@,
        ErrorKind::Internal => "Internal"@,
    }
}

} // verus!
