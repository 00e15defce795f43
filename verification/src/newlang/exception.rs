//! Exceptions of the first interpreter version: a kind and a message.

use crate::text::{chars_of, push_chars, push_str, string_from_chars};
use vstd::prelude::*;

verus! {

/// The kind of an exception.
#[derive(Debug, Clone, Copy, PartialEq, Eq, Structural)]
pub enum Error {
    /// A value of the wrong type.
    Type,
    /// An integer overflow.
    Overflow,
    /// An unknown name.
    Name,
    /// Malformed source code.
    Syntax,
    /// Invalid arguments.
    Argument,
    /// An invalid assignment.
    Assign,
    /// An index out of bounds.
    Index,
    /// An input/output failure.
    Io,
    /// A failed import.
    Import,
    /// Raised by the program itself.
    UserRaised,
    /// A failed assertion.
    Assertion,
    /// A feature that does not exist yet.
    Unimplemented,
}

/// The name of an error kind, as it is displayed.
pub open spec fn error_name(e: Error) -> Seq<char> {
    match e {
        Error::Type => "Type"@,
        Error::Overflow => "Overflow"@,
        Error::Name => "Name"@,
        Error::Syntax => "Syntax"@,
        Error::Argument => "Argument"@,
        Error::Assign => "Assign"@,
        Error::Index => "Index"@,
        Error::Io => "Io"@,
        Error::Import => "Import"@,
        Error::UserRaised => "UserRaised"@,
        Error::Assertion => "Assertion"@,
        Error::Unimplemented => "Unimplemented"@,
    }
}

impl Error {
    /// The name of this error kind (see [`error_name`]).
    pub fn name(&self) -> (s: &'static str)
        ensures
            s@ == error_name(*self),
    {
        match self {
            Error::Type => "Type",
            Error::Overflow => "Overflow",
            Error::Name => "Name",
            Error::Syntax => "Syntax",
            Error::Argument => "Argument",
            Error::Assign => "Assign",
            Error::Index => "Index",
            Error::Io => "Io",
            Error::Import => "Import",
            Error::UserRaised => "UserRaised",
            Error::Assertion => "Assertion",
            Error::Unimplemented => "Unimplemented",
        }
    }
}

/// An exception: a message and the kind of error.
#[derive(Debug)]
pub struct Exception {
    /// The message.
    pub msg: String,
    /// The kind of error.
    pub error: Error,
}

impl Exception {
    /// Constructs an exception from its message and kind.
    pub fn new(msg: &str, error: Error) -> (e: Exception)
        ensures
            e.msg@ == msg@,
            e.error == error,
    {
        Exception { msg: string_from_chars(&chars_of(msg)), error }
    }

    /// The display text: the kind's name, a colon and the message.
    pub fn to_string(&self) -> (s: String)
        ensures
            s@ == error_name(self.error) + ": "@ + self.msg@,
    {
        let mut v: Vec<char> = Vec::new();
        push_str(&mut v, self.error.name());
        push_str(&mut v, ": ");
        push_chars(&mut v, &chars_of(self.msg.as_str()));
        string_from_chars(&v)
    }
}

} // verus!
