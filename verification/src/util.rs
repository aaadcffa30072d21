//! The engine's error type: a closed taxonomy of failure kinds, each carrying
//! a human-readable description.

use vstd::prelude::*;
use vstd::string::StrSliceExecFns;
use vstd::string::StringExecFns;

verus! {

/// The kinds of failure the engine can report.
#[derive(Clone, Copy, Debug, PartialEq, Eq, Structural)]
pub enum ErrorKind {
    /// The search pattern (possibly after word-boundary wrapping) does not
    /// compile; fatal for the whole run.
    InvalidPattern,
    /// A file could not be opened or read; the file is skipped.
    UnreadableFile,
    /// A replacement template references a capture group that is absent from
    /// a specific match; fatal for that file's replacement only.
    UngroupableCapture,
    /// Any other caller-described failure.
    Custom,
}

/// An error with a kind and a description.
#[derive(Debug)]
pub struct MyError {
    pub kind: ErrorKind,
    pub descr: String,
}

impl MyError {
    pub fn new(descr: &str) -> (r: MyError)
        ensures
            r.kind == ErrorKind::Custom,
            r.descr@ == descr@,
    {
        MyError { kind: ErrorKind::Custom, descr: descr.to_owned() }
    }

    pub fn create(descr: &str) -> (r: MyError)
        ensures
            r.kind == ErrorKind::Custom,
            r.descr@ == descr@,
    {
        MyError::new(descr)
    }

    pub fn with_kind(kind: ErrorKind, descr: &str) -> (r: MyError)
        ensures
            r.kind == kind,
            r.descr@ == descr@,
    {
        MyError { kind, descr: descr.to_owned() }
    }

    /// The displayable message: the description behind a fixed prefix.
    pub fn message(&self) -> (r: String)
        ensures
            r@ == "MyError: "@ + self.descr@,
    {
        let mut s = String::from_str("MyError: ");
        s.append(self.descr.as_str());
        s
    }
}

} // verus!
