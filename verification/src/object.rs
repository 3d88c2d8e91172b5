//! The framed form of an object, `<kind> SP <size> NUL <payload>`, which is
//! what gets hashed and what gets compressed into the store.

use crate::bytes::{
    append_bytes, bytes_eq, decimal, find_byte, first_index, lemma_decimal_digits,
    lemma_first_index, lemma_first_index_concat, spec_decimal,
};
use crate::digest::{sha1_digest, sha1_of};
use crate::error::GitError;
use crate::oid::Oid;
use vstd::prelude::*;
use vstd::slice::slice_subrange;

verus! {

/// The kinds of object that the store holds.
#[derive(Clone, Copy, Debug, PartialEq, Eq, Structural)]
pub enum ObjectKind {
    /// The uninterpreted bytes of a file.
    Blob,
    /// The entries of a directory.
    Tree,
    /// A tree with its parents, authorship and message.
    Commit,
}

/// The ASCII name of a kind: `blob`, `tree` or `commit`.
pub open spec fn kind_name(kind: ObjectKind) -> Seq<u8> {
    match kind {
        ObjectKind::Blob => seq![98u8, 108u8, 111u8, 98u8],
        ObjectKind::Tree => seq![116u8, 114u8, 101u8, 101u8],
        ObjectKind::Commit => seq![99u8, 111u8, 109u8, 109u8, 105u8, 116u8],
    }
}

/// The kind that `name` is the name of.
pub open spec fn kind_of_name(name: Seq<u8>) -> Option<ObjectKind> {
    if name == kind_name(ObjectKind::Blob) {
        Some(ObjectKind::Blob)
    } else if name == kind_name(ObjectKind::Tree) {
        Some(ObjectKind::Tree)
    } else if name == kind_name(ObjectKind::Commit) {
        Some(ObjectKind::Commit)
    } else {
        None
    }
}

/// The framed object: the kind's name, a space, the payload's length in
/// decimal, a NUL byte, and the payload.
pub open spec fn spec_frame(kind: ObjectKind, payload: Seq<u8>) -> Seq<u8> {
    kind_name(kind) + seq![32u8] + spec_decimal(payload.len()) + seq![0u8] + payload
}

/// What a framed object holds. The header ends at the first NUL byte and is
/// split at its first space; the kind has to be known, and the size has to be
/// the decimal length of what follows the NUL byte.
pub open spec fn spec_unframe(bytes: Seq<u8>) -> Option<(ObjectKind, Seq<u8>)> {
    let nul = first_index(bytes, 0u8);
    let header = bytes.take(nul);
    let space = first_index(header, 32u8);
    let payload = bytes.skip(nul + 1);
    if nul < bytes.len() && space < header.len() {
        match kind_of_name(header.take(space)) {
            Some(kind) => if header.skip(space + 1) == spec_decimal(payload.len()) {
                Some((kind, payload))
            } else {
                None
            },
            None => None,
        }
    } else {
        None
    }
}

/// The identifier of an object: the SHA-1 digest of its framed bytes.
pub open spec fn spec_oid_of(kind: ObjectKind, payload: Seq<u8>) -> Seq<u8> {
    sha1_digest(spec_frame(kind, payload))
}

/// Unframing a framed object gives back its kind and payload.
pub proof fn lemma_unframe_frame(kind: ObjectKind, payload: Seq<u8>)
    ensures
        spec_unframe(spec_frame(kind, payload)) == Some((kind, payload)),
{
    let name = kind_name(kind);
    let size = spec_decimal(payload.len());
    let header = name + seq![32u8] + size;
    let bytes = spec_frame(kind, payload);
    lemma_decimal_digits(payload.len());
    lemma_first_index_concat(header, 0u8, payload);
    lemma_first_index_concat(name, 32u8, size);
    assert(bytes.take(header.len() as int) =~= header);
    assert(header.take(name.len() as int) =~= name);
    assert(header.skip(name.len() as int + 1) =~= size);
}

/// Bytes that unframe are the frame of what they hold: no two byte strings
/// unframe to the same object.
pub proof fn lemma_frame_unframe(bytes: Seq<u8>)
    requires
        spec_unframe(bytes) is Some,
    ensures
        spec_frame(spec_unframe(bytes).unwrap().0, spec_unframe(bytes).unwrap().1) == bytes,
{
    let nul = first_index(bytes, 0u8);
    let header = bytes.take(nul);
    lemma_first_index(bytes, 0u8);
    lemma_first_index(header, 32u8);
    let (kind, payload) = spec_unframe(bytes).unwrap();
}

impl ObjectKind {
    /// The ASCII name of the kind.
    pub fn name(&self) -> (out: Vec<u8>)
        ensures
            out@ == kind_name(*self),
    {
        let mut out: Vec<u8> = Vec::new();
        match self {
            ObjectKind::Blob => {
                out.push(98u8);
                out.push(108u8);
                out.push(111u8);
                out.push(98u8);
            },
            ObjectKind::Tree => {
                out.push(116u8);
                out.push(114u8);
                out.push(101u8);
                out.push(101u8);
            },
            ObjectKind::Commit => {
                out.push(99u8);
                out.push(111u8);
                out.push(109u8);
                out.push(109u8);
                out.push(105u8);
                out.push(116u8);
            },
        }
        out
    }

    /// The kind that `name` names, if it names one.
    pub fn from_name(name: &[u8]) -> (res: Option<ObjectKind>)
        ensures
            res == kind_of_name(name@),
    {
        if bytes_eq(name, ObjectKind::Blob.name().as_slice()) {
            Some(ObjectKind::Blob)
        } else if bytes_eq(name, ObjectKind::Tree.name().as_slice()) {
            Some(ObjectKind::Tree)
        } else if bytes_eq(name, ObjectKind::Commit.name().as_slice()) {
            Some(ObjectKind::Commit)
        } else {
            None
        }
    }
}

/// Frames a payload.
pub fn frame(kind: ObjectKind, payload: &[u8]) -> (out: Vec<u8>)
    ensures
        out@ == spec_frame(kind, payload@),
{
    let mut out = kind.name();
    out.push(32u8);
    let size = decimal(payload.len() as u64);
    append_bytes(&mut out, size.as_slice());
    out.push(0u8);
    append_bytes(&mut out, payload);
    out
}

/// Takes a framed object apart. Bytes that are not the frame of any object
/// are `Malformed`.
pub fn unframe<'a>(bytes: &'a [u8]) -> (res: Result<(ObjectKind, &'a [u8]), GitError>)
    ensures
        match spec_unframe(bytes@) {
            Some((kind, payload)) => res matches Ok((k, p)) && k == kind && p@ == payload,
            None => res matches Err(e) && e == GitError::Malformed,
        },
{
    assert(bytes@.skip(0) =~= bytes@);
    let nul = find_byte(bytes, 0, 0u8);
    if nul >= bytes.len() {
        return Err(GitError::Malformed);
    }
    let header = slice_subrange(bytes, 0, nul);
    assert(header@.skip(0) =~= header@);
    let space = find_byte(header, 0, 32u8);
    if space >= header.len() {
        return Err(GitError::Malformed);
    }
    let kind = match ObjectKind::from_name(slice_subrange(header, 0, space)) {
        Some(kind) => kind,
        None => {
            return Err(GitError::Malformed);
        },
    };
    let size = slice_subrange(header, space + 1, nul);
    let payload = slice_subrange(bytes, nul + 1, bytes.len());
    let expected = decimal(payload.len() as u64);
    if !bytes_eq(size, expected.as_slice()) {
        return Err(GitError::Malformed);
    }
    Ok((kind, payload))
}

/// The identifier of the object with the given kind and payload.
pub fn oid_of(kind: ObjectKind, payload: &[u8]) -> (oid: Oid)
    ensures
        oid@ == spec_oid_of(kind, payload@),
{
    let framed = frame(kind, payload);
    Oid::from_bytes(sha1_of(framed.as_slice()))
}

} // verus!
