//! The fatal errors of a run.

use vstd::prelude::*;

verus! {

/// What went wrong, when a run cannot finish.
#[derive(Clone, Copy, Debug, PartialEq, Eq, Structural)]
pub enum ErrorKind {
    /// A file's path could not be expressed relative to the scan root.
    Prefix,
    /// A file could not be opened or fully read while hashing.
    IO,
    /// A cache file was present but its contents could not be decoded.
    Cache,
}

/// A fatal error, carrying the kind of failure.
#[derive(Debug)]
pub struct SyncError(Box<ErrorKind>);

impl SyncError {
    /// The kind of failure this error reports.
    pub closed spec fn kind_spec(&self) -> ErrorKind {
        *self.0
    }

    pub fn new(kind: ErrorKind) -> (e: Self)
        ensures
            e.kind_spec() == kind,
    {
        SyncError(Box::new(kind))
    }

    pub fn kind(&self) -> (k: &ErrorKind)
        ensures
            *k == self.kind_spec(),
    {
        &self.0
    }

    pub fn into_kind(self) -> (k: ErrorKind)
        ensures
            k == self.kind_spec(),
    {
        *self.0
    }

    /// A short human-readable description of the failure.
    ///
    /// The error carries its kind only, so the text is fixed per kind: the
    /// words of an underlying OS error stay with the caller that saw it.
    pub fn message(&self) -> (m: String)
        ensures
            self.kind_spec() == ErrorKind::Prefix ==> m@ == "failed to strip path prefix"@,
            self.kind_spec() == ErrorKind::IO ==> m@ == "io error"@,
            self.kind_spec() == ErrorKind::Cache ==> m@ == "failed to decode cache"@,
    {
        match *self.kind() {
            ErrorKind::Prefix => String::from_str("failed to strip path prefix"),
            ErrorKind::IO => String::from_str("io error"),
            ErrorKind::Cache => String::from_str("failed to decode cache"),
        }
    }
}

} // verus!
