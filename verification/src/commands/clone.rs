//! `clone`: what is done with a fetched pack and the refs that came with
//! it, once the transport has handed them over.

use crate::bytes::bytes_eq;
use crate::error::GitError;
use crate::hex_text::{hex_decoded, is_hex_text};
use crate::layout::{head_step, ref_step, write_head, write_ref, Step, StepView};
use crate::object::{spec_oid_of, ObjectKind};
use crate::oid::Oid;
use crate::store::{spec_write, ObjectStore, StoredView};
use vstd::prelude::*;
use vstd::slice::slice_subrange;
use vstd::string::StringSliceAdditionalSpecFns;

verus! {

/// A decoded object, as the contracts see it.
pub struct RawObjectView {
    /// The kind of the object.
    pub kind: ObjectKind,
    /// The payload of the object.
    pub payload: Seq<u8>,
}

/// A decoded object: its kind and its payload.
#[derive(Clone, Debug, PartialEq, Eq)]
pub struct RawObject {
    /// The kind of the object.
    pub kind: ObjectKind,
    /// The payload of the object.
    pub payload: Vec<u8>,
}

impl View for RawObject {
    type V = RawObjectView;

    open spec fn view(&self) -> RawObjectView {
        RawObjectView { kind: self.kind, payload: self.payload@ }
    }
}

impl DeepView for RawObject {
    type V = RawObjectView;

    open spec fn deep_view(&self) -> RawObjectView {
        self@
    }
}

/// A ref of the remote repository, as the contracts see it.
pub struct RemoteRefView {
    /// The name of the ref.
    pub name: Seq<char>,
    /// What the remote gave as the commit that it points at.
    pub target: Seq<char>,
}

/// A ref of the remote repository, as the remote advertised it.
#[derive(Clone, Debug, PartialEq, Eq)]
pub struct RemoteRef {
    /// The name of the ref, such as `refs/heads/main` or `HEAD`.
    pub name: String,
    /// What the remote gave as the commit that it points at.
    pub target: String,
}

impl View for RemoteRef {
    type V = RemoteRefView;

    open spec fn view(&self) -> RemoteRefView {
        RemoteRefView { name: self.name@, target: self.target@ }
    }
}

impl DeepView for RemoteRef {
    type V = RemoteRefView;

    open spec fn deep_view(&self) -> RemoteRefView {
        self@
    }
}

/// The store after the objects were written, one after another.
pub open spec fn store_all(store: Seq<StoredView>, objects: Seq<RawObjectView>) -> Seq<StoredView>
    decreases objects.len(),
{
    if objects.len() == 0 {
        store
    } else {
        spec_write(
            store_all(store, objects.drop_last()),
            objects.last().kind,
            objects.last().payload,
        )
    }
}

/// The identifiers of the objects, in their order.
pub open spec fn oids_of(objects: Seq<RawObjectView>) -> Seq<Seq<u8>> {
    Seq::new(objects.len(), |i: int| spec_oid_of(objects[i].kind, objects[i].payload))
}

/// The number that four bytes spell, the most significant byte first.
pub open spec fn be32(bytes: Seq<u8>) -> int {
    bytes[0] * 16777216 + bytes[1] * 65536 + bytes[2] * 256 + bytes[3]
}

/// The signature that a pack begins with: `PACK`.
pub open spec fn pack_signature() -> Seq<u8> {
    seq![80u8, 65u8, 67u8, 75u8]
}

/// The number of objects that the header of a pack announces, or `None`
/// where the pack is shorter than its header of twelve bytes, does not
/// begin with `PACK`, or is not of version 2.
pub open spec fn spec_pack_header(pack: Seq<u8>) -> Option<int> {
    if pack.len() >= 12 && pack.subrange(0, 4) == pack_signature() && be32(pack.subrange(4, 8))
        == 2 {
        Some(be32(pack.subrange(8, 12)))
    } else {
        None
    }
}

/// Whether a name begins with `refs/`.
pub open spec fn is_stored_ref(name: Seq<u8>) -> bool {
    "refs/".spec_bytes().is_prefix_of(name)
}

/// Whether the file of a ref is written: its name begins with `refs/`, and
/// what it points at is written as forty hexadecimal digits.
pub open spec fn is_written_ref(remote: RemoteRefView) -> bool {
    is_stored_ref(vstd::utf8::encode_utf8(remote.name)) && remote.target.len() == 40
        && is_hex_text(remote.target)
}

/// Whether a ref stands for the remote `HEAD`: it is named `HEAD`, or its
/// name ends in `/HEAD`.
pub open spec fn is_head_ref(name: Seq<u8>) -> bool {
    name == "HEAD".spec_bytes() || "/HEAD".spec_bytes().is_suffix_of(name)
}

/// The steps that write the files of the refs, in the order of the refs. A
/// ref whose name does not begin with `refs/`, or whose target is not an
/// identifier, has no file.
pub open spec fn ref_steps(refs: Seq<RemoteRefView>) -> Seq<StepView>
    decreases refs.len(),
{
    if refs.len() == 0 {
        Seq::empty()
    } else {
        let before = ref_steps(refs.drop_last());
        let last = refs.last();
        if is_written_ref(last) {
            before.push(ref_step(last.name, hex_decoded(last.target)))
        } else {
            before
        }
    }
}

/// Whether one of the refs stands for the remote `HEAD`.
pub open spec fn has_head_ref(refs: Seq<RemoteRefView>) -> bool {
    exists|i: int| 0 <= i < refs.len() && is_head_ref(vstd::utf8::encode_utf8(#[trigger] refs[i].name))
}

/// The steps that bring the refs of a clone up to date: the files of the
/// refs, then `HEAD` where one of the refs stands for the remote `HEAD`.
pub open spec fn spec_update_refs(refs: Seq<RemoteRefView>) -> Seq<StepView> {
    if has_head_ref(refs) {
        ref_steps(refs).push(head_step())
    } else {
        ref_steps(refs)
    }
}

fn four_bytes(bytes: &[u8], at: usize) -> (n: u32)
    requires
        at + 4 <= bytes.len(),
    ensures
        n == be32(bytes@.subrange(at as int, at + 4)),
{
    let a: u32 = bytes[at] as u32;
    let b: u32 = bytes[at + 1] as u32;
    let c: u32 = bytes[at + 2] as u32;
    let d: u32 = bytes[at + 3] as u32;
    a * 16777216 + b * 65536 + c * 256 + d
}

fn begins_with(text: &[u8], prefix: &[u8]) -> (r: bool)
    ensures
        r == prefix@.is_prefix_of(text@),
{
    if prefix.len() > text.len() {
        return false;
    }
    let r = bytes_eq(slice_subrange(text, 0, prefix.len()), prefix);
    r
}

fn ends_with(text: &[u8], suffix: &[u8]) -> (r: bool)
    ensures
        r == suffix@.is_suffix_of(text@),
{
    if suffix.len() > text.len() {
        return false;
    }
    let r = bytes_eq(slice_subrange(text, text.len() - suffix.len(), text.len()), suffix);
    r
}

/// The `clone` command.
pub struct Clone;

impl Clone {
    /// Writes the decoded objects of a pack into the store, one after
    /// another, and gives their identifiers in the same order.
    pub fn run(store: &mut ObjectStore, objects: &Vec<RawObject>) -> (oids: Vec<Oid>)
        ensures
            oids.deep_view() == oids_of(objects.deep_view()),
            final(store)@ == store_all(old(store)@, objects.deep_view()),
    {
        let ghost all = objects.deep_view();
        let mut oids: Vec<Oid> = Vec::new();
        let mut i: usize = 0;
        while i < objects.len()
            invariant
                i <= objects.len(),
                all == objects.deep_view(),
                oids.len() == i,
                forall|j: int|
                    0 <= j < i ==> oids@[j]@ == spec_oid_of(all[j].kind, #[trigger] all[j].payload),
                store@ == store_all(old(store)@, all.take(i as int)),
            decreases objects.len() - i,
        {
            proof {
                assert(all.take(i + 1).drop_last() =~= all.take(i as int));
            }
            let oid = store.write(objects[i].kind, objects[i].payload.as_slice());
            oids.push(oid);
            i += 1;
        }
        assert(all.take(objects.len() as int) =~= all);
        oids
    }

    /// Reads the header of a pack and gives the number of objects that it
    /// announces. A pack that is shorter than its header, does not begin
    /// with `PACK`, or is not of version 2 is `Malformed`.
    pub fn pack_header(pack: &[u8]) -> (res: Result<u32, GitError>)
        ensures
            match spec_pack_header(pack@) {
                Some(count) => res matches Ok(n) && n == count,
                None => res matches Err(e) && e == GitError::Malformed,
            },
    {
        if pack.len() < 12 {
            return Err(GitError::Malformed);
        }
        let signed = pack[0] == 80u8 && pack[1] == 65u8 && pack[2] == 67u8 && pack[3] == 75u8;
        assert(signed == (pack@.subrange(0, 4) == pack_signature())) by {
            if signed {
                assert(pack@.subrange(0, 4) =~= pack_signature());
            }
        }
        if !signed {
            return Err(GitError::Malformed);
        }
        if four_bytes(pack, 4) != 2 {
            return Err(GitError::Malformed);
        }
        Ok(four_bytes(pack, 8))
    }

    /// Plans the files of the refs of a clone: one file for each ref whose
    /// name begins with `refs/` and whose target is forty hexadecimal
    /// digits, in the order of the refs, and after them `HEAD`, pointed at
    /// the branch `main`, where one of the refs is named `HEAD` or has a
    /// name that ends in `/HEAD`. The other refs are passed over.
    pub fn update_refs(refs: &Vec<RemoteRef>) -> (steps: Vec<Step>)
        ensures
            steps.deep_view() == spec_update_refs(refs.deep_view()),
    {
        let ghost all = refs.deep_view();
        let mut steps: Vec<Step> = Vec::new();
        let mut head = false;
        let mut i: usize = 0;
        while i < refs.len()
            invariant
                i <= refs.len(),
                all == refs.deep_view(),
                steps.deep_view() == ref_steps(all.take(i as int)),
                head == has_head_ref(all.take(i as int)),
            decreases refs.len() - i,
        {
            let name = refs[i].name.as_str();
            proof {
                assert(all.take(i + 1).drop_last() =~= all.take(i as int));
            }
            if begins_with(name.as_bytes(), "refs/".as_bytes()) {
                match Oid::from_hex(refs[i].target.as_str()) {
                    Ok(oid) => {
                        let step = write_ref(name, &oid);
                        steps.push(step);
                    },
                    Err(_) => {},
                }
            }
            let is_head = bytes_eq(name.as_bytes(), "HEAD".as_bytes()) || ends_with(
                name.as_bytes(),
                "/HEAD".as_bytes(),
            );
            proof {
                let shorter = all.take(i as int);
                let longer = all.take(i + 1);
                if has_head_ref(shorter) {
                    let k = choose|k: int|
                        0 <= k < shorter.len() && is_head_ref(
                            vstd::utf8::encode_utf8(#[trigger] shorter[k].name),
                        );
                    assert(longer[k] == shorter[k]);
                }
                if is_head {
                    assert(is_head_ref(vstd::utf8::encode_utf8(longer[i as int].name)));
                }
                if has_head_ref(longer) && !is_head {
                    let k = choose|k: int|
                        0 <= k < longer.len() && is_head_ref(
                            vstd::utf8::encode_utf8(#[trigger] longer[k].name),
                        );
                    assert(shorter[k] == longer[k]);
                }
            }
            head = head || is_head;
            i += 1;
        }
        assert(all.take(refs.len() as int) =~= all);
        if head {
            let step = write_head();
            steps.push(step);
        }
        steps
    }
}

} // verus!
