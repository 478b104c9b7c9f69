use vstd::prelude::*;

verus! {

/// The single error channel of the library.
#[derive(Clone, Copy, Debug)]
pub enum Error {
    /// A parameter or a byte stream that the library does not accept, with the
    /// reason in words.
    InvalidArgument(&'static str),
}

impl Error {
    /// The reason carried by the error.
    pub open spec fn reason(self) -> Seq<char> {
        match self {
            Error::InvalidArgument(m) => m@,
        }
    }

    /// The reason carried by the error, in words.
    pub fn message(&self) -> (r: &'static str)
        ensures
            r@ == self.reason(),
    {
        match self {
            Error::InvalidArgument(m) => m,
        }
    }
}

} // verus!
