//! Storage errors.

use crate::text::{chars_of, concat, starts_with, string_of};
use vstd::prelude::*;

verus! {

#[verifier::external_type_specification]
#[verifier::external_body]
pub struct ExIoError(std::io::Error);

#[derive(Debug)]
pub enum StorageError {
    InvalidPath(String),
    Rclone { op: &'static str, message: String },
    Io(std::io::Error),
    Other(String),
}

pub type StorageResult<T> = Result<T, StorageError>;

/// The operating system's description of an I/O error
/// (`<std::io::Error as Display>::fmt`). Nothing is stated of the text: it
/// depends on the platform and its locale.
#[verifier::external_body]
fn io_error_text(e: &std::io::Error) -> String {
    format!("{e}")
}

/// The user-facing text of an error, for every variant but `Io`.
pub open spec fn error_text(e: StorageError) -> Seq<char> {
    match e {
        StorageError::InvalidPath(m) => "invalid path: "@ + m@,
        StorageError::Rclone { op, message } => "rclone "@ + op@ + ": "@ + message@,
        StorageError::Io(_) => "io: "@,
        StorageError::Other(m) => m@,
    }
}

impl StorageError {
    /// The error's display text.
    pub fn message(&self) -> (m: String)
        ensures
            !(self is Io) ==> m@ == error_text(*self),
            self is Io ==> starts_with(m@, "io: "@),
    {
        match self {
            StorageError::InvalidPath(m) => {
                let a = chars_of("invalid path: ");
                let b = chars_of(m.as_str());
                string_of(concat(a.as_slice(), b.as_slice()).as_slice())
            },
            StorageError::Rclone { op, message } => {
                let a = chars_of("rclone ");
                let b = chars_of(op);
                let c = chars_of(": ");
                let d = chars_of(message.as_str());
                let ab = concat(a.as_slice(), b.as_slice());
                let abc = concat(ab.as_slice(), c.as_slice());
                string_of(concat(abc.as_slice(), d.as_slice()).as_slice())
            },
            StorageError::Io(e) => {
                let a = chars_of("io: ");
                let t = io_error_text(e);
                let b = chars_of(t.as_str());
                let r = concat(a.as_slice(), b.as_slice());
                assert(r@.take(a@.len() as int) =~= a@);
                string_of(r.as_slice())
            },
            StorageError::Other(m) => m.clone(),
        }
    }
}

impl From<std::io::Error> for StorageError {
    fn from(value: std::io::Error) -> (r: Self) {
        StorageError::Io(value)
    }
}

impl vstd::std_specs::convert::FromSpecImpl<std::io::Error> for StorageError {
    open spec fn obeys_from_spec() -> bool {
        true
    }

    open spec fn from_spec(v: std::io::Error) -> Self {
        StorageError::Io(v)
    }
}

} // verus!
