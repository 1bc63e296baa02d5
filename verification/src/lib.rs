//! Durability and paging core of an offline-first storage engine: a mergeable,
//! sequence-addressed journal and a sparse page store with a searchable
//! serialized directory.

use vstd::prelude::*;

pub mod directory;
pub mod endian;
pub mod journal;
pub mod page;
pub mod positioned_io;
pub mod vfs;

verus! {

/// A value that can be written out as bytes.
///
/// An implementation may say which values have a serialized form and what it
/// writes. Nothing is assumed of one that does not.
pub trait Serializable {
    /// Whether the value has a serialized form.
    open spec fn can_serialize(&self) -> bool {
        true
    }

    /// Whether a writer that held `before` may hold `after` once the value
    /// was serialized into it.
    open spec fn serialized(&self, before: Seq<u8>, after: Seq<u8>) -> bool {
        true
    }

    /// Write the serialized form of the value to `writer`.
    fn serialize_into(&self, writer: &mut Vec<u8>)
        requires
            self.can_serialize(),
        ensures
            self.serialized(old(writer)@, final(writer)@),
    ;
}

} // verus!
