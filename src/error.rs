use vstd::prelude::*;

verus! {

/// A failure of a board operation, described by its message.
#[derive(Clone, Debug, PartialEq, Eq)]
pub struct Error {
    message: String,
}

impl View for Error {
    type V = Seq<char>;

    closed spec fn view(&self) -> Seq<char> {
        self.message@
    }
}

impl Error {
    pub fn new(message: String) -> (r: Error)
        ensures
            r@ == message@,
    {
        Error { message }
    }

    /// The message, as an owned string.
    pub fn to_string(self) -> (r: String)
        ensures
            r@ == self@,
    {
        self.message
    }

    /// The message, borrowed.
    pub fn message(&self) -> (r: &str)
        ensures
            r@ == self@,
    {
        self.message.as_str()
    }
}

impl From<Error> for String {
    fn from(e: Error) -> (r: String) {
        e.message
    }
}

impl vstd::std_specs::convert::FromSpecImpl<Error> for String {
    open spec fn obeys_from_spec() -> bool {
        true
    }

    closed spec fn from_spec(e: Error) -> String {
        e.message
    }
}

} // verus!
