//! The library's errors.
use vstd::prelude::*;

verus! {

/// What went wrong.
#[derive(Clone, Copy, Debug, PartialEq, Eq, Structural)]
pub enum ErrorKind {
    /// A network or transport failure.
    Fetch,
    /// Expected HTML or manifest structure is absent.
    Parse,
    /// A sandboxed script failed or left no expected output.
    Evaluation,
    /// A file system failure in the cache.
    Cache,
    /// No matching show, episode or provider.
    NotFound,
    /// The state is not ready for the request.
    State,
}

/// An error with its kind and a description for the client.
#[derive(Clone, Debug)]
pub struct HttpError {
    pub kind: ErrorKind,
    pub message: String,
}

impl HttpError {
    pub fn new(kind: ErrorKind, message: &str) -> (r: HttpError)
        ensures
            r.kind == kind,
            r.message@ == message@,
    {
        HttpError { kind, message: message.to_string() }
    }

    /// The description shown to the client.
    pub fn to_string(&self) -> (r: String)
        ensures
            r@ == self.message@,
    {
        self.message.clone()
    }
}

} // verus!
