//! `write-tree`: the snapshot of a directory.

use crate::error::GitError;
use crate::hex_text::hex_encoded;
use crate::object::{oid_of, spec_oid_of, ObjectKind};
use crate::oid::Oid;
use crate::store::{spec_write, ObjectStore};
use crate::tree::valid_entries;
use crate::worktree::{
    snapshot_error, store_tree, tree_entries, tree_oid, write_tree, Child,
};
use vstd::prelude::*;

verus! {

/// The `write-tree` command.
pub struct WriteTree;

impl WriteTree {
    /// Writes the snapshot of the directory that holds `children` and gives
    /// the identifier of its tree as text.
    pub fn run(store: &mut ObjectStore, children: &Vec<Child>) -> (res: Result<String, GitError>)
        ensures
            match snapshot_error(children.deep_view()) {
                Some(error) => res matches Err(e) && e == error && final(store)@ == old(store)@,
                None => res matches Ok(printed) && printed@ == hex_encoded(
                    tree_oid(children.deep_view()),
                ) && final(store)@ == store_tree(old(store)@, children.deep_view()),
            },
            snapshot_error(children.deep_view()) is None ==> valid_entries(
                tree_entries(children.deep_view()),
            ),
    {
        match WriteTree::write_tree(store, children) {
            Ok(oid) => Ok(oid.to_hex()),
            Err(error) => Err(error),
        }
    }

    /// Writes the snapshot of the directory that holds `children`: a blob
    /// for each file and symbolic link, a tree for each subdirectory, and
    /// the tree of the directory itself, whose identifier is given.
    pub fn write_tree(store: &mut ObjectStore, children: &Vec<Child>) -> (res: Result<
        Oid,
        GitError,
    >)
        ensures
            match snapshot_error(children.deep_view()) {
                Some(error) => res matches Err(e) && e == error && final(store)@ == old(store)@,
                None => res matches Ok(oid) && oid@ == tree_oid(children.deep_view())
                    && final(store)@ == store_tree(old(store)@, children.deep_view()),
            },
            snapshot_error(children.deep_view()) is None ==> valid_entries(
                tree_entries(children.deep_view()),
            ),
    {
        write_tree(store, children)
    }

    /// Gives the identifier of an object, as text and as raw bytes.
    pub fn hash_object(kind: ObjectKind, contents: &[u8]) -> (res: (String, Vec<u8>))
        ensures
            res.0@ == hex_encoded(spec_oid_of(kind, contents@)),
            res.0@.len() == 40,
            res.1@ == spec_oid_of(kind, contents@),
            res.1@.len() == 20,
    {
        let oid = oid_of(kind, contents);
        (oid.to_hex(), vstd::slice::slice_to_vec(oid.as_bytes()))
    }

    /// Writes an object into the store and gives its identifier as text.
    pub fn write_object(store: &mut ObjectStore, kind: ObjectKind, contents: &[u8]) -> (printed:
        String)
        ensures
            printed@ == hex_encoded(spec_oid_of(kind, contents@)),
            final(store)@ == spec_write(old(store)@, kind, contents@),
    {
        store.write(kind, contents).to_hex()
    }
}

} // verus!
