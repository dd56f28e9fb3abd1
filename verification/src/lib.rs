//! A local note-storage engine: structured text records (title, body,
//! timestamps) persisted in an embedded on-disk key-value store and
//! addressed by a unique identifier.

use vstd::prelude::*;

pub mod codec;
pub mod errors;
pub mod manager;
pub mod note;
pub mod store;

verus! {

pub use crate::errors::NFAError;
pub use crate::manager::NoteManager;
pub use crate::note::Note;

} // verus!
