//! `cat-file -p`: the payload of an object.

use crate::error::GitError;
use crate::hex_text::{hex_decoded, is_hex_text};
use crate::object::{lemma_unframe_frame, spec_frame, spec_unframe, unframe, ObjectKind};
use crate::oid::Oid;
use crate::store::{spec_read, ObjectStore};
use vstd::prelude::*;

verus! {

/// The payload of the framed object `input`, or `None` where `input` is
/// not the frame of any object: where it holds no NUL byte, names no known
/// kind, or gives a size that is not the length of what follows the header.
pub open spec fn spec_extract_content(input: Seq<u8>) -> Option<Seq<u8>> {
    match spec_unframe(input) {
        Some((_, payload)) => Some(payload),
        None => None,
    }
}

/// What `cat-file` gives for the identifier written as `text`: `BadOid` where
/// `text` is not forty hexadecimal digits, else what reading the object
/// gives, of which the payload is kept.
pub open spec fn spec_cat_file(store: Seq<crate::store::StoredView>, text: Seq<char>) -> Result<
    Seq<u8>,
    GitError,
> {
    if text.len() == 40 && is_hex_text(text) {
        match spec_read(store, hex_decoded(text)) {
            Ok((_, payload)) => Ok(payload),
            Err(error) => Err(error),
        }
    } else {
        Err(GitError::BadOid)
    }
}

/// The content of a framed object is its payload.
pub proof fn lemma_extract_content_frame(kind: ObjectKind, payload: Seq<u8>)
    ensures
        spec_extract_content(spec_frame(kind, payload)) == Some(payload),
{
    lemma_unframe_frame(kind, payload);
}

/// The `cat-file` command.
pub struct CatFile;

impl CatFile {
    /// Gives the payload of the object whose identifier is written as
    /// `text`, unchanged.
    pub fn run(store: &ObjectStore, text: &str) -> (res: Result<Vec<u8>, GitError>)
        ensures
            match spec_cat_file(store@, text@) {
                Ok(payload) => res matches Ok(out) && out@ == payload,
                Err(error) => res matches Err(e) && e == error,
            },
    {
        let oid = match Oid::from_hex(text) {
            Ok(oid) => oid,
            Err(error) => {
                return Err(error);
            },
        };
        match store.read(&oid) {
            Ok((_, payload)) => Ok(payload),
            Err(error) => Err(error),
        }
    }

    /// Gives the payload of the framed object `input`, as `unframe` finds
    /// it, and nothing for bytes that are not the frame of any object.
    pub fn extract_content<'a>(input: &'a [u8]) -> (res: Option<&'a [u8]>)
        ensures
            match spec_extract_content(input@) {
                Some(content) => res matches Some(out) && out@ == content,
                None => res is None,
            },
    {
        match unframe(input) {
            Ok((_, payload)) => Some(payload),
            Err(_) => None,
        }
    }
}

} // verus!
