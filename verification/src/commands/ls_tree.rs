//! `ls-tree --name-only`: the names in a tree.

use crate::error::GitError;
use crate::hex_text::{hex_decoded, is_hex_text};
use crate::object::{spec_unframe, unframe, ObjectKind};
use crate::oid::Oid;
use crate::store::{spec_read, ObjectStore, StoredView};
use crate::text::{lossy_text, utf8_lossy};
use crate::tree::{parse_tree, spec_parse_tree, EntryView};
use vstd::prelude::*;
use vstd::slice::slice_to_vec;
use vstd::utf8::{decode_utf8, valid_utf8};

verus! {

/// The names of the entries as raw bytes, in the order of the entries.
pub open spec fn raw_entry_names(entries: Seq<EntryView>) -> Seq<Seq<u8>> {
    Seq::new(entries.len(), |i: int| entries[i].name)
}

/// The names of the entries as text, in the order of the entries.
pub open spec fn entry_names(entries: Seq<EntryView>) -> Seq<Seq<char>> {
    Seq::new(entries.len(), |i: int| utf8_lossy(entries[i].name))
}

/// Whether `names` are the names of the entries as text, one for each entry
/// and in the order of the entries, a name that is UTF-8 being the text
/// that its bytes spell.
pub open spec fn shows_names(entries: Seq<EntryView>, names: Seq<Seq<char>>) -> bool {
    &&& names == entry_names(entries)
    &&& forall|i: int|
        0 <= i < entries.len() && valid_utf8((#[trigger] entries[i]).name) ==> names[i]
            == decode_utf8(entries[i].name)
}

/// The entries of a tree payload, or `Malformed` where the payload does not
/// parse.
pub open spec fn spec_listed(payload: Seq<u8>) -> Result<Seq<EntryView>, GitError> {
    match spec_parse_tree(payload) {
        Some(entries) => Ok(entries),
        None => Err(GitError::Malformed),
    }
}

/// The entries of a framed tree: `Malformed` where the bytes do not unframe,
/// hold another kind of object, or hold a payload that does not parse.
pub open spec fn spec_parse_tree_object(content: Seq<u8>) -> Result<Seq<EntryView>, GitError> {
    match spec_unframe(content) {
        Some((kind, payload)) => if kind == ObjectKind::Tree {
            spec_listed(payload)
        } else {
            Err(GitError::Malformed)
        },
        None => Err(GitError::Malformed),
    }
}

/// The entries that `ls-tree` lists for the identifier written as `text`:
/// `BadOid` where `text` is not forty hexadecimal digits; what reading
/// fails with, where it fails; `Malformed` where the object is no tree or
/// its payload does not parse; else the entries of the tree.
pub open spec fn spec_ls_tree(store: Seq<StoredView>, text: Seq<char>) -> Result<
    Seq<EntryView>,
    GitError,
> {
    if text.len() == 40 && is_hex_text(text) {
        match spec_read(store, hex_decoded(text)) {
            Ok((kind, payload)) => if kind == ObjectKind::Tree {
                spec_listed(payload)
            } else {
                Err(GitError::Malformed)
            },
            Err(error) => Err(error),
        }
    } else {
        Err(GitError::BadOid)
    }
}

/// The `ls-tree` command.
pub struct LsTree;

impl LsTree {
    /// Gives the names in the tree whose identifier is written as `text`,
    /// one for each entry and in the order of the entries. A name that is
    /// not UTF-8 is shown with replacement characters.
    pub fn run(store: &ObjectStore, text: &str) -> (res: Result<Vec<String>, GitError>)
        ensures
            match spec_ls_tree(store@, text@) {
                Ok(entries) => res matches Ok(out) && shows_names(entries, out.deep_view()),
                Err(error) => res matches Err(e) && e == error,
            },
    {
        let oid = match Oid::from_hex(text) {
            Ok(oid) => oid,
            Err(error) => {
                return Err(error);
            },
        };
        match store.read(&oid) {
            Ok((kind, payload)) => match kind {
                ObjectKind::Tree => LsTree::names(payload.as_slice()),
                _ => Err(GitError::Malformed),
            },
            Err(error) => Err(error),
        }
    }

    /// Gives the names in a tree payload as text.
    pub fn names(payload: &[u8]) -> (res: Result<Vec<String>, GitError>)
        ensures
            match spec_listed(payload@) {
                Ok(entries) => res matches Ok(out) && shows_names(entries, out.deep_view()),
                Err(error) => res matches Err(e) && e == error,
            },
    {
        let entries = match parse_tree(payload) {
            Ok(entries) => entries,
            Err(error) => {
                return Err(error);
            },
        };
        let mut names: Vec<String> = Vec::new();
        let mut i: usize = 0;
        while i < entries.len()
            invariant
                i <= entries.len(),
                names.len() == i,
                forall|j: int| 0 <= j < i ==> names@[j]@ == utf8_lossy(entries.deep_view()[j].name),
                forall|j: int|
                    0 <= j < i && valid_utf8((#[trigger] entries.deep_view()[j]).name) ==> names@[j]@
                        == decode_utf8(entries.deep_view()[j].name),
            decreases entries.len() - i,
        {
            names.push(lossy_text(entries[i].name.as_slice()));
            i += 1;
        }
        assert(names.deep_view() =~= entry_names(entries.deep_view()));
        Ok(names)
    }

    /// Gives the names in a tree payload as raw bytes.
    pub fn raw_names(payload: &[u8]) -> (res: Result<Vec<Vec<u8>>, GitError>)
        ensures
            match spec_listed(payload@) {
                Ok(entries) => res matches Ok(out) && out.deep_view() == raw_entry_names(entries),
                Err(error) => res matches Err(e) && e == error,
            },
    {
        let entries = match parse_tree(payload) {
            Ok(entries) => entries,
            Err(error) => {
                return Err(error);
            },
        };
        let mut names: Vec<Vec<u8>> = Vec::new();
        let mut i: usize = 0;
        while i < entries.len()
            invariant
                i <= entries.len(),
                names.len() == i,
                forall|j: int| 0 <= j < i ==> names@[j]@ == entries.deep_view()[j].name,
            decreases entries.len() - i,
        {
            names.push(slice_to_vec(entries[i].name.as_slice()));
            i += 1;
        }
        assert forall|j: int| 0 <= j < names.len() implies names.deep_view()[j]
            == entries.deep_view()[j].name by {
            assert(names@[j].deep_view() =~= names@[j]@);
        }
        Ok(names)
    }

    /// Gives the names in a framed tree, as it comes out of decompression.
    pub fn parse_tree_object(content: &[u8]) -> (res: Result<Vec<String>, GitError>)
        ensures
            match spec_parse_tree_object(content@) {
                Ok(entries) => res matches Ok(out) && shows_names(entries, out.deep_view()),
                Err(error) => res matches Err(e) && e == error,
            },
    {
        match unframe(content) {
            Ok((kind, payload)) => match kind {
                ObjectKind::Tree => LsTree::names(payload),
                _ => Err(GitError::Malformed),
            },
            Err(error) => Err(error),
        }
    }
}

} // verus!
