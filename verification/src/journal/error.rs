//! What can go wrong with the journal.
use vstd::prelude::*;

use crate::time::SystemTimeError;

verus! {

/// An error of the journal.
#[derive(Debug)]
pub enum JournalError {
    /// The file has an entry already.
    DuplicateEntry,
    /// A time lies before the Unix epoch.
    SystemTime(SystemTimeError),
    /// The journal cannot stand at this path.
    InvalidPath(String),
    /// The journal's text could not be read or written.
    JsonSerialization(serde_json::Error),
    /// The file system failed.
    IO(std::io::Error),
}

} // verus!
