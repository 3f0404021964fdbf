//! The library's error type.

use vstd::prelude::*;

verus! {

/// What kind of failure an error reports.
#[derive(Debug, Clone, Copy, PartialEq, Eq)]
pub enum ErrorKind {
    Io,
    Reqwest,
    Usage,
    Message,
}

/// An error of the program: a failed file operation, a failed request, a
/// command line that does not parse, or a refused operation. Each carries
/// the text that the program shows for it.
#[derive(Debug, PartialEq, Eq)]
pub enum NeoError {
    Io(String),
    Reqwest(String),
    Usage(String),
    Message(String),
}

impl View for NeoError {
    type V = (ErrorKind, Seq<char>);

    open spec fn view(&self) -> (ErrorKind, Seq<char>) {
        match self {
            NeoError::Io(m) => (ErrorKind::Io, m@),
            NeoError::Reqwest(m) => (ErrorKind::Reqwest, m@),
            NeoError::Usage(m) => (ErrorKind::Usage, m@),
            NeoError::Message(m) => (ErrorKind::Message, m@),
        }
    }
}

impl NeoError {
    /// The text shown for the error.
    pub fn message(&self) -> (m: String)
        ensures
            m@ == self@.1,
    {
        match self {
            NeoError::Io(m) => m.clone(),
            NeoError::Reqwest(m) => m.clone(),
            NeoError::Usage(m) => m.clone(),
            NeoError::Message(m) => m.clone(),
        }
    }
}

} // verus!
