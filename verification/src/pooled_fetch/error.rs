//! What can go wrong on the way to an upstream.

use vstd::prelude::*;
use vstd::string::StringExecFns;

verus! {

/// A failure of the way to an upstream, with the message of the layer that
/// failed.
#[derive(Debug)]
pub enum Error {
    Io(String),
    Hyper(String),
    AddrParse(String),
}

pub type Result<T> = core::result::Result<T, Error>;

impl Error {
    /// The text of an error: the name of the layer, then its message.
    pub open spec fn spec_text(self) -> Seq<char> {
        match self {
            Error::Io(m) => "io: "@ + m@,
            Error::Hyper(m) => "hyper: "@ + m@,
            Error::AddrParse(m) => "address: "@ + m@,
        }
    }

    /// Renders the error as text.
    pub fn text(&self) -> (t: String)
        ensures
            t@ == self.spec_text(),
    {
        match self {
            Error::Io(m) => String::from_str("io: ").concat(m.as_str()),
            Error::Hyper(m) => String::from_str("hyper: ").concat(m.as_str()),
            Error::AddrParse(m) => String::from_str("address: ").concat(m.as_str()),
        }
    }
}

} // verus!
