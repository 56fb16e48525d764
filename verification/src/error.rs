//! The error taxonomy shared by every store.

use vstd::prelude::*;

verus! {

/// The kind of a failure, without its detail text.
#[derive(Debug, Clone, Copy, PartialEq, Eq, Structural)]
pub enum ErrorKind {
    NotFound,
    InvalidInput,
    Corrupt,
    Io,
}

/// A failure of a store operation: its kind and a detail text.
#[derive(Debug)]
pub enum StoreError {
    /// The addressed entity is absent.
    NotFound(String),
    /// Malformed arguments, a hash or length mismatch, a merge conflict.
    InvalidInput(String),
    /// An on-disk invariant was found violated at read time.
    Corrupt(String),
    /// The host failed to read or write.
    Io(String),
}

impl StoreError {
    /// The kind of this error.
    pub open spec fn kind(&self) -> ErrorKind {
        match self {
            StoreError::NotFound(_) => ErrorKind::NotFound,
            StoreError::InvalidInput(_) => ErrorKind::InvalidInput,
            StoreError::Corrupt(_) => ErrorKind::Corrupt,
            StoreError::Io(_) => ErrorKind::Io,
        }
    }

    /// The detail text of this error.
    pub open spec fn detail(&self) -> Seq<char> {
        match self {
            StoreError::NotFound(m) => m@,
            StoreError::InvalidInput(m) => m@,
            StoreError::Corrupt(m) => m@,
            StoreError::Io(m) => m@,
        }
    }

    /// The kind of this error, computed.
    pub fn error_kind(&self) -> (k: ErrorKind)
        ensures
            k == self.kind(),
    {
        match self {
            StoreError::NotFound(_) => ErrorKind::NotFound,
            StoreError::InvalidInput(_) => ErrorKind::InvalidInput,
            StoreError::Corrupt(_) => ErrorKind::Corrupt,
            StoreError::Io(_) => ErrorKind::Io,
        }
    }

    /// A `NotFound` error with this detail.
    pub fn not_found(msg: &str) -> (e: StoreError)
        ensures
            e.kind() == ErrorKind::NotFound,
            e.detail() == msg@,
    {
        StoreError::NotFound(msg.to_string())
    }

    /// An `InvalidInput` error with this detail.
    pub fn invalid_input(msg: &str) -> (e: StoreError)
        ensures
            e.kind() == ErrorKind::InvalidInput,
            e.detail() == msg@,
    {
        StoreError::InvalidInput(msg.to_string())
    }

    /// A `Corrupt` error with this detail.
    pub fn corrupt(msg: &str) -> (e: StoreError)
        ensures
            e.kind() == ErrorKind::Corrupt,
            e.detail() == msg@,
    {
        StoreError::Corrupt(msg.to_string())
    }
}

/// The numeric code that the binary protocol carries for a kind of error.
pub open spec fn spec_error_code(kind: ErrorKind) -> u32 {
    match kind {
        ErrorKind::NotFound => 404,
        ErrorKind::InvalidInput => 422,
        ErrorKind::Corrupt => 500,
        ErrorKind::Io => 500,
    }
}

/// Maps an error to the code and detail of an `Error` frame.
pub fn map_error(err: &StoreError) -> (r: (u32, String))
    ensures
        r.0 == spec_error_code(err.kind()),
        r.1@ == err.detail(),
{
    match err {
        StoreError::NotFound(msg) => (404, msg.clone()),
        StoreError::InvalidInput(msg) => (422, msg.clone()),
        StoreError::Corrupt(msg) => (500, msg.clone()),
        StoreError::Io(msg) => (500, msg.clone()),
    }
}

} // verus!
