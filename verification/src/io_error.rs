//! Failures of the file operations that the library decides about.

use vstd::prelude::*;

verus! {

/// What went wrong, in the categories the library tells apart.
#[derive(Clone, Copy, Debug, PartialEq, Eq, Structural)]
pub enum IoErrorKind {
    NotFound,
    PermissionDenied,
    InvalidInput,
    InvalidData,
    Interrupted,
    UnexpectedEof,
    BrokenPipe,
    Unsupported,
    Other,
}

/// A failed file operation.
#[derive(Debug)]
pub struct IoError {
    pub kind: IoErrorKind,
    pub message: String,
}

impl View for IoError {
    type V = (IoErrorKind, Seq<char>);

    open spec fn view(&self) -> (IoErrorKind, Seq<char>) {
        (self.kind, self.message@)
    }
}

impl Clone for IoError {
    fn clone(&self) -> (r: Self)
        ensures
            r@ == self@,
    {
        IoError { kind: self.kind, message: self.message.clone() }
    }
}

impl IoError {
    /// An error of the given kind with the given message.
    pub fn new(kind: IoErrorKind, message: &str) -> (r: IoError)
        ensures
            r@ == (kind, message@),
    {
        IoError { kind, message: message.to_owned() }
    }
}

} // verus!
