//! Tree payloads: a run of entries, each `<mode> SP <name> NUL <raw-oid>`.

use crate::bytes::{
    append_bytes, bytes_eq, find_byte, first_index, lacks, lemma_first_index,
    lemma_first_index_concat,
};
use crate::error::GitError;
use crate::oid::Oid;
use vstd::prelude::*;
use vstd::slice::{slice_subrange, slice_to_vec};

verus! {

/// What an entry of a tree points at.
#[derive(Clone, Copy, Debug, PartialEq, Eq, Structural)]
pub enum EntryMode {
    /// A regular file that its owner cannot execute: `100644`.
    Regular,
    /// A regular file that its owner can execute: `100755`.
    Executable,
    /// A symbolic link: `120000`.
    Symlink,
    /// A subdirectory: `40000`, without a leading zero.
    Directory,
}

/// The octal digits of a mode in ASCII.
pub open spec fn mode_text(mode: EntryMode) -> Seq<u8> {
    match mode {
        EntryMode::Regular => seq![49u8, 48u8, 48u8, 54u8, 52u8, 52u8],
        EntryMode::Executable => seq![49u8, 48u8, 48u8, 55u8, 53u8, 53u8],
        EntryMode::Symlink => seq![49u8, 50u8, 48u8, 48u8, 48u8, 48u8],
        EntryMode::Directory => seq![52u8, 48u8, 48u8, 48u8, 48u8],
    }
}

/// The mode that `text` spells.
pub open spec fn mode_of_text(text: Seq<u8>) -> Option<EntryMode> {
    if text == mode_text(EntryMode::Regular) {
        Some(EntryMode::Regular)
    } else if text == mode_text(EntryMode::Executable) {
        Some(EntryMode::Executable)
    } else if text == mode_text(EntryMode::Symlink) {
        Some(EntryMode::Symlink)
    } else if text == mode_text(EntryMode::Directory) {
        Some(EntryMode::Directory)
    } else {
        None
    }
}

/// The name `.git`, which no entry may carry.
pub open spec fn git_dir_name() -> Seq<u8> {
    seq![46u8, 103u8, 105u8, 116u8]
}

/// Whether `name` may stand in a tree: a single path component that is not
/// empty, holds neither `/` nor NUL, and is none of `.`, `..` and `.git`.
pub open spec fn valid_name(name: Seq<u8>) -> bool {
    &&& name.len() > 0
    &&& lacks(name, 47u8)
    &&& lacks(name, 0u8)
    &&& name != seq![46u8]
    &&& name != seq![46u8, 46u8]
    &&& name != git_dir_name()
}

/// One entry of a tree, as the contracts see it.
pub struct EntryView {
    /// What the entry points at.
    pub mode: EntryMode,
    /// The path component, as raw bytes.
    pub name: Seq<u8>,
    /// The identifier of the blob or subtree.
    pub oid: Seq<u8>,
}

/// One entry of a tree.
#[derive(Clone, Debug, PartialEq, Eq)]
pub struct TreeEntry {
    /// What the entry points at.
    pub mode: EntryMode,
    /// The path component, as raw bytes.
    pub name: Vec<u8>,
    /// The identifier of the blob or subtree.
    pub oid: Oid,
}

impl View for TreeEntry {
    type V = EntryView;

    open spec fn view(&self) -> EntryView {
        EntryView { mode: self.mode, name: self.name@, oid: self.oid@ }
    }
}

impl DeepView for TreeEntry {
    type V = EntryView;

    open spec fn deep_view(&self) -> EntryView {
        self@
    }
}

/// Whether an entry may stand in a tree: its name is valid and its
/// identifier is twenty bytes long.
pub open spec fn valid_entry(entry: EntryView) -> bool {
    valid_name(entry.name) && entry.oid.len() == 20
}

/// Whether every entry may stand in a tree.
pub open spec fn valid_entries(entries: Seq<EntryView>) -> bool {
    forall|i: int| 0 <= i < entries.len() ==> valid_entry(#[trigger] entries[i])
}

/// The bytes of one entry: mode, space, name, NUL, raw identifier.
pub open spec fn spec_encode_entry(entry: EntryView) -> Seq<u8> {
    mode_text(entry.mode) + seq![32u8] + entry.name + seq![0u8] + entry.oid
}

/// The tree payload: the entries' bytes, one after another.
pub open spec fn spec_encode_tree(entries: Seq<EntryView>) -> Seq<u8>
    decreases entries.len(),
{
    if entries.len() == 0 {
        Seq::empty()
    } else {
        spec_encode_tree(entries.drop_last()) + spec_encode_entry(entries.last())
    }
}

/// The entry that `bytes` begins with, and the number of bytes it takes. The
/// mode runs to the first space and has to be known; the name runs from
/// there to the first NUL byte and has to be valid; twenty bytes of
/// identifier follow.
pub open spec fn spec_parse_entry(bytes: Seq<u8>) -> Option<(EntryView, int)> {
    let space = first_index(bytes, 32u8);
    let rest = bytes.skip(space + 1);
    let nul = first_index(rest, 0u8);
    let name = rest.take(nul);
    if space < bytes.len() && nul < rest.len() && nul + 21 <= rest.len() && valid_name(name) {
        match mode_of_text(bytes.take(space)) {
            Some(mode) => Some(
                (EntryView { mode, name, oid: rest.subrange(nul + 1, nul + 21) }, space + nul + 22),
            ),
            None => None,
        }
    } else {
        None
    }
}

/// The entries of a tree payload, in the order in which they stand, or `None`
/// where the payload is not a run of well-formed entries.
pub open spec fn spec_parse_tree(bytes: Seq<u8>) -> Option<Seq<EntryView>>
    decreases bytes.len(),
    via spec_parse_tree_decreases
{
    if bytes.len() == 0 {
        Some(Seq::empty())
    } else {
        match spec_parse_entry(bytes) {
            Some((entry, used)) => match spec_parse_tree(bytes.skip(used)) {
                Some(rest) => Some(seq![entry] + rest),
                None => None,
            },
            None => None,
        }
    }
}

#[via_fn]
proof fn spec_parse_tree_decreases(bytes: Seq<u8>) {
    lemma_parse_entry_used(bytes);
}

/// An entry takes at least twenty-two bytes and no more than there are.
pub proof fn lemma_parse_entry_used(bytes: Seq<u8>)
    ensures
        spec_parse_entry(bytes) matches Some((entry, used)) ==> 22 <= used <= bytes.len()
            && valid_entry(entry),
{
    let space = first_index(bytes, 32u8);
    lemma_first_index(bytes, 32u8);
    lemma_first_index(bytes.skip(space + 1), 0u8);
}

/// A tree payload is the entries before the last one followed by the last.
pub proof fn lemma_encode_tree_push(entries: Seq<EntryView>, entry: EntryView)
    ensures
        spec_encode_tree(entries.push(entry)) == spec_encode_tree(entries) + spec_encode_entry(
            entry,
        ),
{
    assert(entries.push(entry).drop_last() =~= entries);
}

/// A tree payload is the first entry followed by the entries after it.
pub proof fn lemma_encode_tree_first(entry: EntryView, entries: Seq<EntryView>)
    ensures
        spec_encode_tree(seq![entry] + entries) == spec_encode_entry(entry) + spec_encode_tree(
            entries,
        ),
    decreases entries.len(),
{
    let all = seq![entry] + entries;
    if entries.len() == 0 {
        assert(spec_encode_tree(all.drop_last()) =~= Seq::<u8>::empty());
    } else {
        assert(all.drop_last() =~= seq![entry] + entries.drop_last());
        lemma_encode_tree_first(entry, entries.drop_last());
    }
}

/// A valid entry is read back from its bytes, whatever follows them.
pub proof fn lemma_parse_entry_encode(entry: EntryView, tail: Seq<u8>)
    requires
        valid_entry(entry),
    ensures
        spec_parse_entry(spec_encode_entry(entry) + tail) == Some(
            (entry, spec_encode_entry(entry).len() as int),
        ),
        (spec_encode_entry(entry) + tail).skip(spec_encode_entry(entry).len() as int) == tail,
        spec_encode_entry(entry).len() > 0,
{
    let mode = mode_text(entry.mode);
    let bytes = spec_encode_entry(entry) + tail;
    let after_name = seq![0u8] + entry.oid + tail;
    let rest = entry.name + after_name;
    assert(bytes =~= mode + seq![32u8] + rest);
    lemma_first_index_concat(mode, 32u8, rest);
    assert(bytes.skip(mode.len() as int + 1) =~= rest);
    assert(rest =~= entry.name + seq![0u8] + (entry.oid + tail));
    lemma_first_index_concat(entry.name, 0u8, entry.oid + tail);
    assert(rest.take(entry.name.len() as int) =~= entry.name);
    assert(rest.subrange(entry.name.len() as int + 1, entry.name.len() as int + 21)
        =~= entry.oid);
    assert(bytes.take(mode.len() as int) =~= mode);
}

/// Parsing the payload made of valid entries gives those entries back.
pub proof fn lemma_parse_tree_encode(entries: Seq<EntryView>)
    requires
        valid_entries(entries),
    ensures
        spec_parse_tree(spec_encode_tree(entries)) == Some(entries),
    decreases entries.len(),
{
    if entries.len() > 0 {
        let first = entries[0];
        let others = entries.drop_first();
        assert(entries =~= seq![first] + others);
        lemma_encode_tree_first(first, others);
        lemma_parse_entry_encode(first, spec_encode_tree(others));
        lemma_parse_tree_encode(others);
    }
}

/// The bytes that an entry was read from are the bytes of that entry.
pub proof fn lemma_encode_entry_parse(bytes: Seq<u8>)
    requires
        spec_parse_entry(bytes) is Some,
    ensures
        bytes.take(spec_parse_entry(bytes).unwrap().1) == spec_encode_entry(
            spec_parse_entry(bytes).unwrap().0,
        ),
{
    let (entry, used) = spec_parse_entry(bytes).unwrap();
    let space = first_index(bytes, 32u8);
    lemma_first_index(bytes, 32u8);
    lemma_first_index(bytes.skip(space + 1), 0u8);
    assert(bytes.take(used) =~= spec_encode_entry(entry));
}

/// A payload that parses is made of valid entries, and is the payload of the
/// entries that it parses to.
pub proof fn lemma_encode_tree_parse(bytes: Seq<u8>)
    requires
        spec_parse_tree(bytes) is Some,
    ensures
        valid_entries(spec_parse_tree(bytes).unwrap()),
        spec_encode_tree(spec_parse_tree(bytes).unwrap()) == bytes,
    decreases bytes.len(),
{
    if bytes.len() != 0 {
        let (entry, used) = spec_parse_entry(bytes).unwrap();
        lemma_parse_entry_used(bytes);
        let rest = spec_parse_tree(bytes.skip(used)).unwrap();
        lemma_encode_tree_parse(bytes.skip(used));
        lemma_encode_tree_first(entry, rest);
        lemma_encode_entry_parse(bytes);
    }
}

impl EntryMode {
    /// The octal digits of the mode in ASCII.
    pub fn text(&self) -> (out: Vec<u8>)
        ensures
            out@ == mode_text(*self),
    {
        let mut out: Vec<u8> = Vec::new();
        match self {
            EntryMode::Regular => {
                out.push(49u8);
                out.push(48u8);
                out.push(48u8);
                out.push(54u8);
                out.push(52u8);
                out.push(52u8);
            },
            EntryMode::Executable => {
                out.push(49u8);
                out.push(48u8);
                out.push(48u8);
                out.push(55u8);
                out.push(53u8);
                out.push(53u8);
            },
            EntryMode::Symlink => {
                out.push(49u8);
                out.push(50u8);
                out.push(48u8);
                out.push(48u8);
                out.push(48u8);
                out.push(48u8);
            },
            EntryMode::Directory => {
                out.push(52u8);
                out.push(48u8);
                out.push(48u8);
                out.push(48u8);
                out.push(48u8);
            },
        }
        out
    }

    /// The mode that `text` spells, if it spells one.
    pub fn from_text(text: &[u8]) -> (res: Option<EntryMode>)
        ensures
            res == mode_of_text(text@),
    {
        if bytes_eq(text, EntryMode::Regular.text().as_slice()) {
            Some(EntryMode::Regular)
        } else if bytes_eq(text, EntryMode::Executable.text().as_slice()) {
            Some(EntryMode::Executable)
        } else if bytes_eq(text, EntryMode::Symlink.text().as_slice()) {
            Some(EntryMode::Symlink)
        } else if bytes_eq(text, EntryMode::Directory.text().as_slice()) {
            Some(EntryMode::Directory)
        } else {
            None
        }
    }
}

/// Whether `name` is `.git`.
pub fn is_git_dir(name: &[u8]) -> (r: bool)
    ensures
        r == (name@ == git_dir_name()),
{
    let r = name.len() == 4 && name[0] == 46u8 && name[1] == 103u8 && name[2] == 105u8 && name[3]
        == 116u8;
    assert(r ==> name@ =~= git_dir_name());
    r
}

/// Whether `name` may stand in a tree.
pub fn name_is_valid(name: &[u8]) -> (r: bool)
    ensures
        r == valid_name(name@),
{
    if name.len() == 0 {
        return false;
    }
    if name.len() == 1 && name[0] == 46u8 {
        assert(name@ =~= seq![46u8]);
        return false;
    }
    if name.len() == 2 && name[0] == 46u8 && name[1] == 46u8 {
        assert(name@ =~= seq![46u8, 46u8]);
        return false;
    }
    if is_git_dir(name) {
        return false;
    }
    let mut i: usize = 0;
    while i < name.len()
        invariant
            i <= name.len(),
            forall|j: int| 0 <= j < i ==> name@[j] != 47u8 && name@[j] != 0u8,
        decreases name.len() - i,
    {
        if name[i] == 47u8 || name[i] == 0u8 {
            return false;
        }
        i += 1;
    }
    true
}

/// Writes the entries out, one after another and in the order given.
pub fn encode_tree(entries: &Vec<TreeEntry>) -> (out: Vec<u8>)
    ensures
        out@ == spec_encode_tree(entries.deep_view()),
{
    let mut out: Vec<u8> = Vec::new();
    let mut i: usize = 0;
    while i < entries.len()
        invariant
            i <= entries.len(),
            out@ == spec_encode_tree(entries.deep_view().take(i as int)),
        decreases entries.len() - i,
    {
        let entry = &entries[i];
        proof {
            let done = entries.deep_view().take(i as int);
            assert(entries.deep_view().take(i + 1) =~= done.push(entry@));
            lemma_encode_tree_push(done, entry@);
        }
        let mode = entry.mode.text();
        append_bytes(&mut out, mode.as_slice());
        out.push(32u8);
        append_bytes(&mut out, entry.name.as_slice());
        out.push(0u8);
        append_bytes(&mut out, entry.oid.as_bytes());
        i += 1;
    }
    assert(entries.deep_view().take(entries.len() as int) =~= entries.deep_view());
    out
}

/// Reads a tree payload into its entries, in the order in which they stand.
/// A payload with a truncated entry, an unknown mode or a forbidden name is
/// `Malformed`.
pub fn parse_tree(payload: &[u8]) -> (res: Result<Vec<TreeEntry>, GitError>)
    ensures
        match spec_parse_tree(payload@) {
            Some(entries) => res matches Ok(out) && out.deep_view() == entries,
            None => res matches Err(e) && e == GitError::Malformed,
        },
{
    let mut entries: Vec<TreeEntry> = Vec::new();
    let mut pos: usize = 0;
    assert(payload@.skip(0) =~= payload@);
    while pos < payload.len()
        invariant
            pos <= payload.len(),
            spec_parse_tree(payload@) == match spec_parse_tree(payload@.skip(pos as int)) {
                Some(rest) => Some(entries.deep_view() + rest),
                None => None,
            },
        decreases payload.len() - pos,
    {
        let ghost here = payload@.skip(pos as int);
        let space = find_byte(payload, pos, 32u8);
        if space >= payload.len() {
            return Err(GitError::Malformed);
        }
        let ghost rest = here.skip(space - pos + 1);
        assert(rest =~= payload@.skip(space + 1));
        let nul = find_byte(payload, space + 1, 0u8);
        if nul >= payload.len() || payload.len() - nul < 21 {
            return Err(GitError::Malformed);
        }
        let name = slice_subrange(payload, space + 1, nul);
        assert(name@ =~= rest.take(nul - space - 1));
        if !name_is_valid(name) {
            return Err(GitError::Malformed);
        }
        let mode_bytes = slice_subrange(payload, pos, space);
        assert(mode_bytes@ =~= here.take(space - pos));
        let mode = match EntryMode::from_text(mode_bytes) {
            Some(mode) => mode,
            None => {
                return Err(GitError::Malformed);
            },
        };
        let raw = slice_subrange(payload, nul + 1, nul + 21);
        assert(raw@ =~= rest.subrange(nul - space, nul - space + 20));
        let oid = match Oid::from_slice(raw) {
            Some(oid) => oid,
            None => {
                return Err(GitError::Malformed);
            },
        };
        let entry = TreeEntry { mode, name: slice_to_vec(name), oid };
        proof {
            assert(here.skip(nul + 21 - pos) =~= payload@.skip(nul + 21));
        }
        entries.push(entry);
        pos = nul + 21;
    }
    Ok(entries)
}

} // verus!
