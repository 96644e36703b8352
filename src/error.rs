use vstd::prelude::*;

verus! {

/// The single error kind of the downloader: a human-readable message.
#[derive(Debug)]
pub struct ProgramError {
    message: String,
}

impl ProgramError {
    /// The message carried by this error.
    pub closed spec fn message(&self) -> Seq<char> {
        self.message@
    }

    pub fn new(message: String) -> (r: Self)
        ensures
            r.message() == message@,
    {
        ProgramError { message }
    }

    pub fn msg(&self) -> (r: &str)
        ensures
            r@ == self.message(),
    {
        self.message.as_str()
    }
}

} // verus!
