use vstd::prelude::*;

verus! {

/// An error reported by the server, carrying a human-readable message.
#[derive(Debug)]
pub struct Error(pub String);

impl Error {
    /// Builds an error holding `msg`.
    pub fn new(msg: &str) -> (r: Error)
        ensures
            r.0@ == msg@,
    {
        Error(String::from_str(msg))
    }

    /// The message this error carries.
    pub fn message(&self) -> (r: &str)
        ensures
            r@ == self.0@,
    {
        self.0.as_str()
    }
}

} // verus!
