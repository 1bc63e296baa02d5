//! The boundary to a durable journal: what a backend that keeps a journal on
//! lasting storage offers, and the errors it reports.

use crate::journal::LSN;
use crate::Serializable;
use std::fmt::Debug;
use vstd::prelude::*;
use vstd::std_specs::convert::FromSpecImpl;

verus! {

/// Declares `anyhow::Error`, the cause of a failed open, as a type whose
/// values are carried through and never looked into.
#[verifier::external_type_specification]
#[verifier::external_body]
pub struct ExAnyhowError(anyhow::Error);

/// The identifier of a durable journal.
pub type JournalId = i32;

/// What a durable journal reports when an operation fails.
#[derive(Debug)]
pub enum JournalError {
    /// The journal could not be opened.
    FailedToOpenJournal(anyhow::Error),
    /// The storage under the journal failed.
    IoError(std::io::Error),
    /// An object could not be serialized.
    SerializationError(std::io::Error),
}

impl From<std::io::Error> for JournalError {
    /// A failure of the storage is an `IoError`.
    fn from(error: std::io::Error) -> (result: Self) {
        JournalError::IoError(error)
    }
}

impl FromSpecImpl<std::io::Error> for JournalError {
    open spec fn obeys_from_spec() -> bool {
        true
    }

    open spec fn from_spec(error: std::io::Error) -> Self {
        JournalError::IoError(error)
    }
}

/// The result of an operation of a durable journal.
pub type JournalResult<T> = Result<T, JournalError>;

/// A backend that can exchange batches of entries with another replica. How
/// batches travel is the backend's own matter.
pub trait Syncable {
}

/// A backend whose retained entries can be enumerated after it was reopened.
/// How they are enumerated is the backend's own matter.
pub trait Scannable {
}

/// A journal that lasts: it is opened by its identifier, takes objects at its
/// tail, and gives up its prefix when told to.
pub trait Journal: Syncable + Scannable + Debug + Sized {
    /// Open the journal with the identifier `id`.
    fn open(id: JournalId) -> JournalResult<Self>;

    /// This journal's identifier.
    fn id(&self) -> JournalId;

    /// Append a new entry that holds the serialized form of `obj`.
    fn append(&mut self, obj: impl Serializable) -> JournalResult<()>
        requires
            obj.can_serialize(),
    ;

    /// Drop the entries before `up_to`.
    fn drop_prefix(&mut self, up_to: LSN) -> JournalResult<()>;
}

} // verus!
