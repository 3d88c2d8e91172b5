//! The object store: what stands under `.git/objects`, held in memory as the
//! files' identifiers and compressed contents. Reading the files in and
//! writing them out is left to the caller.

use crate::digest::{sha1_digest, sha1_of};
use crate::error::GitError;
use crate::hex_text::{encode_hex, hex_encoded};
use crate::object::{
    frame, lemma_unframe_frame, spec_frame, spec_oid_of, spec_unframe, unframe, ObjectKind,
};
use crate::oid::Oid;
use crate::zlib::{compress, decompress, zlib_deflated, zlib_inflated};
use vstd::prelude::*;
use vstd::slice::{slice_subrange, slice_to_vec};
use vstd::string::StringExecFns;

verus! {

/// One object file, as the contracts see it.
pub struct StoredView {
    /// The identifier that the file is placed under.
    pub oid: Seq<u8>,
    /// The file's content: the compressed framed object.
    pub data: Seq<u8>,
}

/// One object file.
#[derive(Clone, Debug, PartialEq, Eq)]
pub struct StoredObject {
    /// The identifier that the file is placed under.
    pub oid: Oid,
    /// The file's content: the compressed framed object.
    pub data: Vec<u8>,
}

impl View for StoredObject {
    type V = StoredView;

    open spec fn view(&self) -> StoredView {
        StoredView { oid: self.oid@, data: self.data@ }
    }
}

impl DeepView for StoredObject {
    type V = StoredView;

    open spec fn deep_view(&self) -> StoredView {
        self@
    }
}

/// The index of the file placed under `oid`, or `store.len()` where there is
/// none.
pub open spec fn store_find(store: Seq<StoredView>, oid: Seq<u8>) -> int
    decreases store.len(),
{
    if store.len() == 0 {
        0
    } else if store[0].oid == oid {
        0
    } else {
        1 + store_find(store.drop_first(), oid)
    }
}

/// Whether a file is placed under `oid`.
pub open spec fn store_has(store: Seq<StoredView>, oid: Seq<u8>) -> bool {
    store_find(store, oid) < store.len()
}

/// Whether no two files are placed under the same identifier.
pub open spec fn distinct_oids(store: Seq<StoredView>) -> bool {
    forall|i: int, j: int|
        0 <= i < j < store.len() ==> (#[trigger] store[i]).oid != (#[trigger] store[j]).oid
}

/// What the file `data`, placed under `oid`, holds: it has to decompress, to
/// unframe, and to hash to `oid`; else it is `Corrupt`.
pub open spec fn spec_decode(oid: Seq<u8>, data: Seq<u8>) -> Result<
    (ObjectKind, Seq<u8>),
    GitError,
> {
    match zlib_inflated(data) {
        Some(framed) => match spec_unframe(framed) {
            Some(object) => if sha1_digest(framed) == oid {
                Ok(object)
            } else {
                Err(GitError::Corrupt)
            },
            None => Err(GitError::Corrupt),
        },
        None => Err(GitError::Corrupt),
    }
}

/// What reading `oid` gives: `NotFound` where no file is placed under it,
/// else what that file holds.
pub open spec fn spec_read(store: Seq<StoredView>, oid: Seq<u8>) -> Result<
    (ObjectKind, Seq<u8>),
    GitError,
> {
    if store_has(store, oid) {
        spec_decode(oid, store[store_find(store, oid)].data)
    } else {
        Err(GitError::NotFound)
    }
}

/// The store after an object was written: unchanged where a file is placed
/// under the object's identifier already, else with the compressed framed
/// object added.
pub open spec fn spec_write(store: Seq<StoredView>, kind: ObjectKind, payload: Seq<u8>) -> Seq<
    StoredView,
> {
    let oid = spec_oid_of(kind, payload);
    if store_has(store, oid) {
        store
    } else {
        store.push(StoredView { oid, data: zlib_deflated(spec_frame(kind, payload)) })
    }
}

/// The store after the file `data` was placed under `oid`, in place of the
/// file that was there, if any.
pub open spec fn spec_load(store: Seq<StoredView>, oid: Seq<u8>, data: Seq<u8>) -> Seq<
    StoredView,
> {
    if store_has(store, oid) {
        store.update(store_find(store, oid), StoredView { oid, data })
    } else {
        store.push(StoredView { oid, data })
    }
}

/// `store_find` stays within the store, skips only files under other
/// identifiers, and stops on a file under `oid`.
pub proof fn lemma_store_find(store: Seq<StoredView>, oid: Seq<u8>)
    ensures
        0 <= store_find(store, oid) <= store.len(),
        forall|i: int| 0 <= i < store_find(store, oid) ==> (#[trigger] store[i]).oid != oid,
        store_has(store, oid) ==> store[store_find(store, oid)].oid == oid,
    decreases store.len(),
{
    if store.len() != 0 && store[0].oid != oid {
        let rest = store.drop_first();
        lemma_store_find(rest, oid);
        assert forall|i: int| 0 <= i < store_find(store, oid) implies (#[trigger] store[i]).oid
            != oid by {
            if i > 0 {
                assert(store[i] == rest[i - 1]);
            }
        }
    }
}

/// An index that is preceded only by files under other identifiers, and that
/// holds a file under `oid` or is the end of the store, is what `store_find`
/// gives.
pub proof fn lemma_store_find_is(store: Seq<StoredView>, oid: Seq<u8>, at: int)
    requires
        0 <= at <= store.len(),
        forall|i: int| 0 <= i < at ==> (#[trigger] store[i]).oid != oid,
        at < store.len() ==> store[at].oid == oid,
    ensures
        store_find(store, oid) == at,
    decreases store.len(),
{
    if store.len() != 0 && at > 0 {
        let rest = store.drop_first();
        lemma_store_find_is(rest, oid, at - 1);
    }
}

/// A written object's file is the last one, unless a file was placed under
/// its identifier before; the files that were there stay as they were.
pub proof fn lemma_write_keeps(store: Seq<StoredView>, kind: ObjectKind, payload: Seq<u8>)
    requires
        distinct_oids(store),
    ensures
        distinct_oids(spec_write(store, kind, payload)),
        store_has(spec_write(store, kind, payload), spec_oid_of(kind, payload)),
        store.len() <= spec_write(store, kind, payload).len() <= store.len() + 1,
        forall|i: int| 0 <= i < store.len() ==> spec_write(store, kind, payload)[i] == store[i],
        forall|other: Seq<u8>|
            store_has(store, other) ==> store_has(spec_write(store, kind, payload), other)
                && store_find(spec_write(store, kind, payload), other) == store_find(store, other),
{
    let oid = spec_oid_of(kind, payload);
    let after = spec_write(store, kind, payload);
    lemma_store_find(store, oid);
    if !store_has(store, oid) {
        lemma_store_find_is(after, oid, store.len() as int);
    }
    assert forall|other: Seq<u8>| store_has(store, other) implies store_has(after, other)
        && store_find(after, other) == store_find(store, other) by {
        lemma_store_find(store, other);
        lemma_store_find_is(after, other, store_find(store, other));
    }
}

/// Writing an object a second time changes nothing: the store holds one
/// file for it, the one that the first write left.
pub proof fn lemma_write_idempotent(store: Seq<StoredView>, kind: ObjectKind, payload: Seq<u8>)
    requires
        distinct_oids(store),
    ensures
        spec_write(spec_write(store, kind, payload), kind, payload) == spec_write(
            store,
            kind,
            payload,
        ),
        forall|i: int, j: int|
            0 <= i < j < spec_write(store, kind, payload).len() ==> !(spec_write(
                store,
                kind,
                payload,
            )[i].oid == spec_oid_of(kind, payload) && spec_write(store, kind, payload)[j].oid
                == spec_oid_of(kind, payload)),
{
    lemma_write_keeps(store, kind, payload);
}

/// Reading what was just written gives it back, where compression can be
/// undone and the store held no file under the object's identifier before.
/// Where it held one, that file is what is read, as it was before.
pub proof fn lemma_read_after_write(store: Seq<StoredView>, kind: ObjectKind, payload: Seq<u8>)
    requires
        zlib_inflated(zlib_deflated(spec_frame(kind, payload))) == Some(spec_frame(kind, payload)),
    ensures
        !store_has(store, spec_oid_of(kind, payload)) ==> spec_read(
            spec_write(store, kind, payload),
            spec_oid_of(kind, payload),
        ) == Ok::<(ObjectKind, Seq<u8>), GitError>((kind, payload)),
        store_has(store, spec_oid_of(kind, payload)) ==> spec_read(
            spec_write(store, kind, payload),
            spec_oid_of(kind, payload),
        ) == spec_read(store, spec_oid_of(kind, payload)),
{
    let oid = spec_oid_of(kind, payload);
    let after = spec_write(store, kind, payload);
    lemma_store_find(store, oid);
    if !store_has(store, oid) {
        lemma_store_find_is(after, oid, store.len() as int);
        lemma_unframe_frame(kind, payload);
    }
}

/// The name of the fan-out directory of `oid`: its first two hexadecimal
/// digits.
pub open spec fn fan_out_dir(oid: Seq<u8>) -> Seq<char> {
    hex_encoded(oid).take(2)
}

/// The name of the file of `oid` in its fan-out directory: the hexadecimal
/// digits after the first two.
pub open spec fn fan_out_file(oid: Seq<u8>) -> Seq<char> {
    hex_encoded(oid).skip(2)
}

/// Where the file of an object stands, below the repository's root.
#[derive(Clone, Debug, PartialEq, Eq)]
pub struct ObjectPath {
    /// The name of the fan-out directory under `.git/objects`.
    pub dir: String,
    /// The name of the file in that directory.
    pub file: String,
}

impl ObjectPath {
    /// The place of the file of `oid`.
    pub fn of(oid: &Oid) -> (path: ObjectPath)
        ensures
            path.dir@ == fan_out_dir(oid@),
            path.file@ == fan_out_file(oid@),
            path.dir@.len() == 2,
            path.file@.len() == 38,
    {
        let raw = oid.as_bytes();
        let dir = encode_hex(slice_subrange(raw, 0, 1));
        let file = encode_hex(slice_subrange(raw, 1, 20));
        ObjectPath { dir, file }
    }

    /// The path relative to the repository's root:
    /// `.git/objects/<dir>/<file>`.
    pub fn relative(&self) -> (path: String)
        ensures
            path@ == ".git/objects/"@ + self.dir@ + "/"@ + self.file@,
    {
        let mut path = String::from_str(".git/objects/");
        path.append(self.dir.as_str());
        path.append("/");
        path.append(self.file.as_str());
        path
    }

    /// The path of the fan-out directory relative to the repository's root:
    /// `.git/objects/<dir>`.
    pub fn relative_dir(&self) -> (path: String)
        ensures
            path@ == ".git/objects/"@ + self.dir@,
    {
        let mut path = String::from_str(".git/objects/");
        path.append(self.dir.as_str());
        path
    }
}

impl StoredObject {
    /// Where the file of the object is to be created, given whether it is on
    /// disk already: an object file is written once and never written again.
    pub fn file_to_create(&self, on_disk: bool) -> (res: Option<ObjectPath>)
        ensures
            res is None <==> on_disk,
            res matches Some(path) ==> path.dir@ == fan_out_dir(self.oid@) && path.file@
                == fan_out_file(self.oid@),
    {
        if on_disk {
            None
        } else {
            Some(ObjectPath::of(&self.oid))
        }
    }
}

/// The objects of a repository.
pub struct ObjectStore {
    objects: Vec<StoredObject>,
}

impl View for ObjectStore {
    type V = Seq<StoredView>;

    closed spec fn view(&self) -> Seq<StoredView> {
        self.objects.deep_view()
    }
}

impl ObjectStore {
    #[verifier::type_invariant]
    spec fn no_oid_twice(self) -> bool {
        distinct_oids(self.objects.deep_view())
    }

    /// A store without objects.
    pub fn new() -> (store: ObjectStore)
        ensures
            store@ == Seq::<StoredView>::empty(),
    {
        let store = ObjectStore { objects: Vec::new() };
        store
    }

    /// The number of object files.
    pub fn len(&self) -> (n: usize)
        ensures
            n == self@.len(),
            distinct_oids(self@),
    {
        proof {
            use_type_invariant(self);
        }
        self.objects.len()
    }

    /// The object file at `index`, in the order in which the files came in.
    pub fn get(&self, index: usize) -> (res: Option<&StoredObject>)
        ensures
            res is Some <==> index < self@.len(),
            res matches Some(object) ==> object@ == self@[index as int],
    {
        if index < self.objects.len() {
            Some(&self.objects[index])
        } else {
            None
        }
    }

    fn find(&self, oid: &Oid) -> (at: usize)
        ensures
            at == store_find(self@, oid@),
            at <= self@.len(),
            at < self@.len() ==> self.objects@[at as int].oid@ == oid@,
    {
        let mut at: usize = 0;
        while at < self.objects.len() && !self.objects[at].oid.same_as(oid)
            invariant
                at <= self.objects.len(),
                forall|i: int| 0 <= i < at ==> (#[trigger] self@[i]).oid != oid@,
            decreases self.objects.len() - at,
        {
            at += 1;
        }
        proof {
            lemma_store_find_is(self@, oid@, at as int);
        }
        at
    }

    /// Whether a file is placed under `oid`.
    pub fn has(&self, oid: &Oid) -> (r: bool)
        ensures
            r == store_has(self@, oid@),
    {
        self.find(oid) < self.objects.len()
    }

    /// Writes an object and gives its identifier. Where a file is placed
    /// under that identifier already, the store is left as it is.
    pub fn write(&mut self, kind: ObjectKind, payload: &[u8]) -> (oid: Oid)
        ensures
            oid@ == spec_oid_of(kind, payload@),
            final(self)@ == spec_write(old(self)@, kind, payload@),
            store_has(final(self)@, oid@),
            old(self)@.len() <= final(self)@.len() <= old(self)@.len() + 1,
            !store_has(old(self)@, oid@) ==> spec_read(final(self)@, oid@) == Ok::<
                (ObjectKind, Seq<u8>),
                GitError,
            >((kind, payload@)),
            store_has(old(self)@, oid@) ==> spec_read(final(self)@, oid@) == spec_read(
                old(self)@,
                oid@,
            ),
    {
        proof {
            use_type_invariant(&*self);
        }
        let framed = frame(kind, payload);
        let oid = Oid::from_bytes(sha1_of(framed.as_slice()));
        proof {
            lemma_write_keeps(self@, kind, payload@);
        }
        if self.find(&oid) >= self.objects.len() {
            let ghost before = self@;
            let object = StoredObject { oid, data: compress(framed.as_slice()) };
            proof {
                lemma_read_after_write(before, kind, payload@);
            }
            // the files are taken out, added to and put back, so that the
            // store never holds an identifier twice
            let mut objects: Vec<StoredObject> = Vec::new();
            core::mem::swap(&mut self.objects, &mut objects);
            objects.push(object);
            assert(objects.deep_view() =~= before.push(object@));
            core::mem::swap(&mut self.objects, &mut objects);
        }
        oid
    }

    /// Reads the object placed under `oid`: `NotFound` where there is none,
    /// `Corrupt` where the file does not decompress, does not unframe, or
    /// does not hash to `oid`.
    pub fn read(&self, oid: &Oid) -> (res: Result<(ObjectKind, Vec<u8>), GitError>)
        ensures
            match spec_read(self@, oid@) {
                Ok((kind, payload)) => res matches Ok((k, p)) && k == kind && p@ == payload,
                Err(error) => res matches Err(e) && e == error,
            },
    {
        let at = self.find(oid);
        if at >= self.objects.len() {
            return Err(GitError::NotFound);
        }
        decode_object(oid, self.objects[at].data.as_slice())
    }

    /// Places the file `data` under `oid`, as it was found on disk, in place
    /// of the file that was there, if any. The file is not looked into.
    pub fn load(&mut self, oid: Oid, data: Vec<u8>)
        ensures
            final(self)@ == spec_load(old(self)@, oid@, data@),
    {
        proof {
            use_type_invariant(&*self);
        }
        let ghost before = self@;
        let at = self.find(&oid);
        let object = StoredObject { oid, data };
        proof {
            lemma_store_find(before, oid@);
        }
        let within = at < self.objects.len();
        let mut objects: Vec<StoredObject> = Vec::new();
        core::mem::swap(&mut self.objects, &mut objects);
        if within {
            objects[at] = object;
            assert(objects.deep_view() =~= before.update(at as int, object@));
        } else {
            objects.push(object);
            assert(objects.deep_view() =~= before.push(object@));
        }
        core::mem::swap(&mut self.objects, &mut objects);
    }
}

/// What the file `data`, found under `oid`, holds. A file that does not
/// decompress, does not unframe, or does not hash to `oid` is `Corrupt`.
pub fn decode_object(oid: &Oid, data: &[u8]) -> (res: Result<(ObjectKind, Vec<u8>), GitError>)
    ensures
        match spec_decode(oid@, data@) {
            Ok((kind, payload)) => res matches Ok((k, p)) && k == kind && p@ == payload,
            Err(error) => res matches Err(e) && e == error,
        },
{
    let framed = match decompress(data) {
        Ok(framed) => framed,
        Err(_) => {
            return Err(GitError::Corrupt);
        },
    };
    let (kind, payload) = match unframe(framed.as_slice()) {
        Ok(object) => object,
        Err(_) => {
            return Err(GitError::Corrupt);
        },
    };
    let found = Oid::from_bytes(sha1_of(framed.as_slice()));
    if !found.same_as(oid) {
        return Err(GitError::Corrupt);
    }
    Ok((kind, slice_to_vec(payload)))
}

/// The file of an object: its identifier and its compressed framed bytes.
pub fn encode_object(kind: ObjectKind, payload: &[u8]) -> (object: StoredObject)
    ensures
        object.oid@ == spec_oid_of(kind, payload@),
        object.data@ == zlib_deflated(spec_frame(kind, payload@)),
        spec_decode(object.oid@, object.data@) == Ok::<(ObjectKind, Seq<u8>), GitError>(
            (kind, payload@),
        ),
{
    let framed = frame(kind, payload);
    let oid = Oid::from_bytes(sha1_of(framed.as_slice()));
    let data = compress(framed.as_slice());
    proof {
        lemma_unframe_frame(kind, payload@);
    }
    StoredObject { oid, data }
}

} // verus!
