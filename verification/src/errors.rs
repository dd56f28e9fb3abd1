//! The error taxonomy: a storage fault, a broken record, or a missing
//! note. Absence is a distinct, expected outcome, never conflated with
//! a storage fault.

use vstd::prelude::*;

verus! {

/// Everything a manager operation can report.
#[derive(Debug)]
pub enum NFAError {
    /// The underlying store failed to open, read, write or remove.
    DatabaseError(sled::Error),
    /// A stored record could not be decoded.
    SerializationError,
    /// The requested identifier names no stored note.
    NoteNotFound,
}

impl From<sled::Error> for NFAError {
    fn from(err: sled::Error) -> (r: NFAError) {
        NFAError::DatabaseError(err)
    }
}

impl vstd::std_specs::convert::FromSpecImpl<sled::Error> for NFAError {
    open spec fn obeys_from_spec() -> bool {
        true
    }

    open spec fn from_spec(err: sled::Error) -> NFAError {
        NFAError::DatabaseError(err)
    }
}

} // verus!
