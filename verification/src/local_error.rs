//! Error types: a single message-carrying error for collaborator-facing
//! failures, and the format-validation errors the scanner resynchronizes on.

use vstd::prelude::*;

verus! {

/// A format-validation failure. During scanning these are caught locally and
/// turned into one-byte resynchronization steps; everywhere else they are
/// fatal.
#[derive(Debug, Clone, Copy, PartialEq, Eq, Structural)]
pub enum FormatError {
    /// Fewer bytes than the minimum header size were available.
    NotEnoughData,
    /// The data does not start with the 4-byte magic sequence.
    NoMagicNumber,
    /// The decoded header length is below the minimum header length.
    HeaderTooSmall,
    /// The fixed-length preamble is missing or holds a nonzero byte.
    InvalidPreamble,
}

/// An error carrying a human-readable message.
#[derive(Debug)]
pub struct Error {
    msg: String,
}

impl View for Error {
    type V = Seq<char>;

    closed spec fn view(&self) -> Seq<char> {
        self.msg@
    }
}

impl Error {
    pub fn new(msg: String) -> (r: Self)
        ensures
            r@ == msg@,
    {
        Error { msg }
    }

    /// The message carried by this error.
    pub fn message(&self) -> (r: &String)
        ensures
            r@ == self@,
    {
        &self.msg
    }
}

} // verus!
