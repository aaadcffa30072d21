//! A minimal string-carrying error, kept alongside the richer kind-tagged
//! error of `util` for callers that only need a description.

use vstd::prelude::*;
use vstd::string::StrSliceExecFns;
use vstd::string::StringExecFns;

verus! {

/// An error that carries only a description.
#[derive(Debug)]
pub struct MyError {
    pub descr: String,
}

impl MyError {
    pub fn new(descr: &str) -> (r: MyError)
        ensures
            r.descr@ == descr@,
    {
        MyError { descr: descr.to_owned() }
    }

    pub fn create(descr: &str) -> (r: MyError)
        ensures
            r.descr@ == descr@,
    {
        MyError::new(descr)
    }

    /// The displayable message: the description behind a fixed prefix.
    pub fn message(&self) -> (r: String)
        ensures
            r@ == "MyError: "@ + self.descr@,
    {
        let mut s = String::from_str("MyError: ");
        s.append(self.descr.as_str());
        s
    }
}

} // verus!
