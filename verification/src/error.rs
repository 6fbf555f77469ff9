//! The error type shared by the library.

use crate::text::{push_str, string_from_chars};
use vstd::prelude::*;

verus! {

/// The kinds of failure reported by the library, each with its message.
#[derive(Debug, Clone, PartialEq, Eq)]
pub enum Error {
    /// The caller passed an argument that is not valid.
    InvalidArgument(String),
    /// The caller requested an operation that is not valid in this state.
    InvalidOperation(String),
    /// Any other failure.
    Other(String),
}

/// The `Result` type used throughout the library.
pub type Result<T> = std::result::Result<T, Error>;

/// Spec view of an error message prefix, as rendered by `Error::to_string`.
pub open spec fn error_prefix(e: Error) -> Seq<char> {
    match e {
        Error::InvalidArgument(_) => "Invalid argument: "@,
        Error::InvalidOperation(_) => "Invalid operation: "@,
        Error::Other(_) => Seq::empty(),
    }
}

/// Builds an `InvalidArgument` error with the given message.
pub fn inv_arg(msg: &str) -> (e: Error)
    ensures
        e is InvalidArgument,
        e->InvalidArgument_0@ == msg@,
{
    Error::InvalidArgument(msg.to_string())
}

/// Builds an `InvalidOperation` error with the given message.
pub fn inv_op(msg: &str) -> (e: Error)
    ensures
        e is InvalidOperation,
        e->InvalidOperation_0@ == msg@,
{
    Error::InvalidOperation(msg.to_string())
}

/// Builds a generic error with the given message.
pub fn other_err(msg: &str) -> (e: Error)
    ensures
        e is Other,
        e->Other_0@ == msg@,
{
    Error::Other(msg.to_string())
}

/// The message an error carries.
pub open spec fn error_message(e: Error) -> Seq<char> {
    match e {
        Error::InvalidArgument(m) => m@,
        Error::InvalidOperation(m) => m@,
        Error::Other(m) => m@,
    }
}

impl Error {
    /// Renders the error: its kind, then its message.
    pub fn to_string(&self) -> (s: String)
        ensures
            s@ == error_prefix(*self) + error_message(*self),
    {
        let mut out: Vec<char> = Vec::new();
        match self {
            Error::InvalidArgument(m) => {
                push_str(&mut out, "Invalid argument: ");
                push_str(&mut out, m.as_str());
            },
            Error::InvalidOperation(m) => {
                push_str(&mut out, "Invalid operation: ");
                push_str(&mut out, m.as_str());
            },
            Error::Other(m) => {
                push_str(&mut out, m.as_str());
            },
        }
        proof {
            assert(out@ =~= error_prefix(*self) + error_message(*self));
        }
        string_from_chars(&out)
    }
}

} // verus!
