use vstd::prelude::*;

verus! {

/// The classes of failure the library reports: configuration trouble,
/// violated preconditions, object-store lookups that came back empty,
/// filesystem faults, and external processes that exited non-zero.
#[derive(Debug, Clone, Copy, PartialEq, Eq, Structural)]
pub enum ErrorKind {
    Config,
    Precondition,
    ObjectStore,
    Filesystem,
    Subprocess,
}

/// An error with its class and a human-readable message.
#[derive(Debug)]
pub struct AgtError {
    pub kind: ErrorKind,
    pub message: String,
}

impl AgtError {
    pub fn new(kind: ErrorKind, message: String) -> (r: AgtError)
        ensures
            r.kind == kind,
            r.message@ == message@,
    {
        AgtError { kind, message }
    }

    pub fn precondition(message: String) -> (r: AgtError)
        ensures
            r.kind == ErrorKind::Precondition,
            r.message@ == message@,
    {
        AgtError { kind: ErrorKind::Precondition, message }
    }

    pub fn object_store(message: String) -> (r: AgtError)
        ensures
            r.kind == ErrorKind::ObjectStore,
            r.message@ == message@,
    {
        AgtError { kind: ErrorKind::ObjectStore, message }
    }

    pub fn filesystem(message: String) -> (r: AgtError)
        ensures
            r.kind == ErrorKind::Filesystem,
            r.message@ == message@,
    {
        AgtError { kind: ErrorKind::Filesystem, message }
    }

    pub fn config(message: String) -> (r: AgtError)
        ensures
            r.kind == ErrorKind::Config,
            r.message@ == message@,
    {
        AgtError { kind: ErrorKind::Config, message }
    }

    pub fn subprocess(message: String) -> (r: AgtError)
        ensures
            r.kind == ErrorKind::Subprocess,
            r.message@ == message@,
    {
        AgtError { kind: ErrorKind::Subprocess, message }
    }

    /// The error rendered for display; the library's types carry no
    /// `Display` impl, so callers ask for the text through this method.
    pub fn describe(&self) -> (r: String)
        ensures
            r@ == self.message@,
    {
        self.message.clone()
    }
}

} // verus!
