//! Errors of the library: a kind, a message and where the error was raised.
use vstd::prelude::*;
use vstd::string::StringExecFns;
use crate::decimal::{decimal, push_decimal};

verus! {

/// The kinds of file-system failure that the library tells apart.
#[derive(Debug, Clone, Copy, PartialEq, Eq, Structural)]
pub enum IoErrorKind {
    NotFound,
    PermissionDenied,
    AlreadyExists,
    InvalidData,
    Other,
}

/// What went wrong.
#[derive(Debug, Clone, Copy, PartialEq, Eq, Structural)]
pub enum Kind {
    IoError(IoErrorKind),
    ImageError,
    InvalidFont,
    BigImgBuilderError,
    TryFromIntError,
    Other,
}

/// An error with its kind, its message and, when known, the place
/// `file:line:column` where it was raised.
#[derive(Debug, Clone)]
pub struct Error {
    pub location: Option<String>,
    pub kind: Kind,
    pub message: String,
}

pub type Result<T> = core::result::Result<T, Error>;

/// The text `file:line:column`.
pub open spec fn location_text(file: Seq<char>, line: nat, column: nat) -> Seq<char> {
    file + seq![':'] + decimal(line) + seq![':'] + decimal(column)
}

impl Error {
    /// An error raised at `file:line:column`.
    pub fn new(file: &str, line: u32, column: u32, kind: Kind, message: &str) -> (e: Error)
        ensures
            e.location is Some,
            e.location->Some_0@ == location_text(file@, line as nat, column as nat),
            e.kind == kind,
            e.message@ == message@,
    {
        let mut location = String::from_str(file);
        location.append(":");
        push_decimal(&mut location, line as u64);
        location.append(":");
        push_decimal(&mut location, column as u64);
        proof {
            reveal_strlit(":");
            assert(location@ =~= location_text(file@, line as nat, column as nat));
        }
        Error { location: Some(location), kind, message: String::from_str(message) }
    }

    /// An error without a location.
    pub fn from_message(kind: Kind, message: &str) -> (e: Error)
        ensures
            e.location is None,
            e.kind == kind,
            e.message@ == message@,
    {
        Error { location: None, kind, message: String::from_str(message) }
    }

    /// The error's kind.
    pub fn kind(&self) -> (k: Kind)
        ensures
            k == self.kind,
    {
        self.kind
    }
}

} // verus!
