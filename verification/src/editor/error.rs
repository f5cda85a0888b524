use vstd::prelude::*;
use crate::text::{chars_of, push_all, string_of};

verus! {

/// `std::io::Error`, carried through from storage failures.
#[verifier::external_type_specification]
#[verifier::external_body]
pub struct ExIoError(std::io::Error);

/// Why a command was refused.
#[derive(Debug)]
pub enum EditorError {
    InvalidAddress(String),
    InvalidCommand(String),
    MissingFilename,
    EmptyBuffer,
    OutOfRange,
    UnsavedChanges,
    Io(std::io::Error),
}

/// The kind of an error, without its payload.
#[derive(Clone, Copy, PartialEq, Eq, Debug)]
pub enum ErrorKind {
    InvalidAddress,
    InvalidCommand,
    MissingFilename,
    EmptyBuffer,
    OutOfRange,
    UnsavedChanges,
    Io,
}

pub open spec fn kind_of(e: EditorError) -> ErrorKind {
    match e {
        EditorError::InvalidAddress(_) => ErrorKind::InvalidAddress,
        EditorError::InvalidCommand(_) => ErrorKind::InvalidCommand,
        EditorError::MissingFilename => ErrorKind::MissingFilename,
        EditorError::EmptyBuffer => ErrorKind::EmptyBuffer,
        EditorError::OutOfRange => ErrorKind::OutOfRange,
        EditorError::UnsavedChanges => ErrorKind::UnsavedChanges,
        EditorError::Io(_) => ErrorKind::Io,
    }
}

/// The text of an error as `Display` would show it.
#[verifier::external_body]
fn io_error_text(err: &std::io::Error) -> String {
    format!("{err}")
}

fn prefixed(prefix: &str, msg: &str) -> (r: String)
    ensures
        r@ == prefix@ + msg@,
{
    let mut v = chars_of(prefix);
    push_all(&mut v, &chars_of(msg));
    string_of(&v)
}

impl EditorError {
    /// The message shown to the user.
    pub fn message(&self) -> (r: String)
        ensures
            self matches EditorError::InvalidAddress(m) ==> r@ == "invalid address: "@ + m@,
            self matches EditorError::InvalidCommand(m) ==> r@ == "invalid command: "@ + m@,
            self is MissingFilename ==> r@ == "missing filename"@,
            self is EmptyBuffer ==> r@ == "buffer is empty"@,
            self is OutOfRange ==> r@ == "address out of range"@,
            self is UnsavedChanges ==> r@ == "buffer modified; write first"@,
            self is Io ==> exists|text: Seq<char>| r@ == "io error: "@ + text,
    {
        match self {
            EditorError::InvalidAddress(msg) => prefixed("invalid address: ", msg.as_str()),
            EditorError::InvalidCommand(msg) => prefixed("invalid command: ", msg.as_str()),
            EditorError::MissingFilename => String::from_str("missing filename"),
            EditorError::EmptyBuffer => String::from_str("buffer is empty"),
            EditorError::OutOfRange => String::from_str("address out of range"),
            EditorError::UnsavedChanges => String::from_str("buffer modified; write first"),
            EditorError::Io(err) => {
                let text = io_error_text(err);
                let r = prefixed("io error: ", text.as_str());
                assert(r@ == "io error: "@ + text@);
                r
            },
        }
    }
}

} // verus!
