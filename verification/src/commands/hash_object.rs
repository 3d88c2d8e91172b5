//! `hash-object`: the identifier of a file's content as a blob.

use crate::hex_text::hex_encoded;
use crate::object::{oid_of, spec_oid_of, ObjectKind};
use crate::store::{spec_write, ObjectStore};
use vstd::prelude::*;

verus! {

/// The `hash-object` command.
pub struct HashObject;

impl HashObject {
    /// Gives the identifier of the blob that `content` makes, as text, and
    /// with `write` set also writes the blob into the store.
    pub fn run(store: &mut ObjectStore, content: &[u8], write: bool) -> (printed: String)
        ensures
            printed@ == hex_encoded(spec_oid_of(ObjectKind::Blob, content@)),
            write ==> final(store)@ == spec_write(old(store)@, ObjectKind::Blob, content@),
            !write ==> final(store)@ == old(store)@,
    {
        let oid = if write {
            store.write(ObjectKind::Blob, content)
        } else {
            oid_of(ObjectKind::Blob, content)
        };
        oid.to_hex()
    }
}

} // verus!
