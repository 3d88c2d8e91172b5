//! `commit-tree`: a commit on a tree.

use crate::commit::{spec_commit_payload, valid_signature, write_commit, Signature};
use crate::error::GitError;
use crate::hex_text::{hex_decoded, hex_encoded, is_hex_text};
use crate::object::{spec_oid_of, ObjectKind};
use crate::oid::Oid;
use crate::store::{spec_write, ObjectStore};
use vstd::prelude::*;
use vstd::utf8::encode_utf8;

verus! {

/// Whether `text` is forty hexadecimal digits.
pub open spec fn valid_oid_text(text: Seq<char>) -> bool {
    text.len() == 40 && is_hex_text(text)
}

/// Whether each of `texts` is forty hexadecimal digits.
pub open spec fn valid_oid_texts(texts: Seq<Seq<char>>) -> bool {
    forall|i: int| 0 <= i < texts.len() ==> valid_oid_text(#[trigger] texts[i])
}

/// The identifiers that `texts` spell.
pub open spec fn oids_of_texts(texts: Seq<Seq<char>>) -> Seq<Seq<u8>> {
    Seq::new(texts.len(), |i: int| hex_decoded(texts[i]))
}

/// The payload of the commit that the command writes, with the message as
/// it was given.
pub open spec fn commit_tree_payload(
    tree: Seq<char>,
    parents: Seq<Seq<char>>,
    message: Seq<char>,
    author: crate::commit::SignatureView,
    committer: crate::commit::SignatureView,
) -> Seq<u8> {
    spec_commit_payload(
        hex_decoded(tree),
        oids_of_texts(parents),
        author,
        committer,
        encode_utf8(message),
    )
}

/// The `commit-tree` command.
pub struct CommitTree;

impl CommitTree {
    /// Reads the identifiers `texts` spell, or `None` where one of them is
    /// not forty hexadecimal digits.
    pub fn parse_oids(texts: &Vec<String>) -> (res: Option<Vec<Oid>>)
        ensures
            res is Some <==> valid_oid_texts(texts.deep_view()),
            res matches Some(oids) ==> oids.deep_view() == oids_of_texts(texts.deep_view()),
    {
        let mut oids: Vec<Oid> = Vec::new();
        let mut i: usize = 0;
        while i < texts.len()
            invariant
                i <= texts.len(),
                oids.len() == i,
                forall|j: int| 0 <= j < i ==> valid_oid_text(#[trigger] texts.deep_view()[j]),
                forall|j: int| 0 <= j < i ==> oids@[j]@ == hex_decoded(texts.deep_view()[j]),
            decreases texts.len() - i,
        {
            match Oid::from_hex(texts[i].as_str()) {
                Ok(oid) => {
                    oids.push(oid);
                },
                Err(_) => {
                    assert(!valid_oid_text(texts.deep_view()[i as int]));
                    return None;
                },
            }
            i += 1;
        }
        Some(oids)
    }

    /// Writes a commit on the tree written as `tree`, with the parents
    /// written as `parents` in their order and with `message` as it is, and
    /// gives the commit's identifier as text. An identifier
    /// that is not forty hexadecimal digits is `BadOid`; after that, a
    /// signature that cannot stand in a commit is `Malformed`. Nothing is
    /// written where the command fails.
    pub fn run(
        store: &mut ObjectStore,
        tree: &str,
        parents: &Vec<String>,
        message: &str,
        author: &Signature,
        committer: &Signature,
    ) -> (res: Result<String, GitError>)
        ensures
            if !(valid_oid_text(tree@) && valid_oid_texts(parents.deep_view())) {
                res matches Err(e) && e == GitError::BadOid && final(store)@ == old(store)@
            } else if !(valid_signature(author@) && valid_signature(committer@)) {
                res matches Err(e) && e == GitError::Malformed && final(store)@ == old(store)@
            } else {
                let payload = commit_tree_payload(
                    tree@,
                    parents.deep_view(),
                    message@,
                    author@,
                    committer@,
                );
                res matches Ok(printed) && printed@ == hex_encoded(
                    spec_oid_of(ObjectKind::Commit, payload),
                ) && final(store)@ == spec_write(old(store)@, ObjectKind::Commit, payload)
            },
    {
        let tree_oid = match Oid::from_hex(tree) {
            Ok(oid) => oid,
            Err(error) => {
                return Err(error);
            },
        };
        let parent_oids = match CommitTree::parse_oids(parents) {
            Some(oids) => oids,
            None => {
                return Err(GitError::BadOid);
            },
        };
        match write_commit(store, &tree_oid, &parent_oids, author, committer, message) {
            Ok(oid) => Ok(oid.to_hex()),
            Err(error) => Err(error),
        }
    }
}

} // verus!
