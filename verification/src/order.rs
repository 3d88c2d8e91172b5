//! The canonical order of the entries of a tree: by name, byte for byte,
//! where the name of a subdirectory counts as if a `/` followed it.

use crate::bytes::{
    bytes_le, lacks, lemma_lex_le_antisymmetric, lemma_lex_le_reflexive, lemma_lex_le_total,
    lemma_lex_le_transitive, lex_le,
};
use crate::tree::{
    lemma_parse_tree_encode, spec_encode_tree, spec_parse_tree, valid_entries, valid_entry,
    EntryMode, EntryView, TreeEntry,
};
use vstd::prelude::*;
use vstd::seq_lib::{to_multiset_contains, to_multiset_len};
use vstd::slice::slice_to_vec;

verus! {

/// What an entry is ordered by: its name, followed by `/` for a
/// subdirectory.
pub open spec fn sort_key(entry: EntryView) -> Seq<u8> {
    if entry.mode == EntryMode::Directory {
        entry.name.push(47u8)
    } else {
        entry.name
    }
}

/// Whether `a` may stand before `b` in a tree.
pub open spec fn entry_le(a: EntryView, b: EntryView) -> bool {
    lex_le(sort_key(a), sort_key(b))
}

/// Whether the entries stand in canonical order.
pub open spec fn sorted(entries: Seq<EntryView>) -> bool {
    forall|i: int, j: int| 0 <= i < j < entries.len() ==> entry_le(entries[i], entries[j])
}

/// `sorted` with `entry` put behind the last of the leading entries that may
/// stand before it.
pub open spec fn insert_sorted(sorted: Seq<EntryView>, entry: EntryView) -> Seq<EntryView>
    decreases sorted.len(),
{
    if sorted.len() == 0 {
        seq![entry]
    } else if entry_le(sorted[0], entry) {
        seq![sorted[0]] + insert_sorted(sorted.drop_first(), entry)
    } else {
        seq![entry] + sorted
    }
}

/// The entries in canonical order: each one in turn is put in its place
/// among those before it, behind the entries that equal it in the order.
pub open spec fn canonical_sort(entries: Seq<EntryView>) -> Seq<EntryView>
    decreases entries.len(),
{
    if entries.len() == 0 {
        Seq::empty()
    } else {
        insert_sorted(canonical_sort(entries.drop_last()), entries.last())
    }
}

/// Whether no two entries carry the same name.
pub open spec fn distinct_names(entries: Seq<EntryView>) -> bool {
    forall|i: int, j: int|
        0 <= i < j < entries.len() ==> (#[trigger] entries[i]).name != (#[trigger] entries[j]).name
}

/// Putting an entry in its place is inserting it at the first index whose
/// entry may not stand before it.
pub proof fn lemma_insert_sorted_at(sorted: Seq<EntryView>, entry: EntryView, at: int)
    requires
        0 <= at <= sorted.len(),
        forall|i: int| 0 <= i < at ==> entry_le(sorted[i], entry),
        at < sorted.len() ==> !entry_le(sorted[at], entry),
    ensures
        insert_sorted(sorted, entry) == sorted.insert(at, entry),
    decreases sorted.len(),
{
    if sorted.len() != 0 && at != 0 {
        lemma_insert_sorted_at(sorted.drop_first(), entry, at - 1);
    }
}

/// Putting an entry in its place adds that entry and no other.
pub proof fn lemma_insert_sorted_multiset(sorted: Seq<EntryView>, entry: EntryView)
    ensures
        insert_sorted(sorted, entry).to_multiset() == sorted.to_multiset().insert(entry),
        insert_sorted(sorted, entry).len() == sorted.len() + 1,
    decreases sorted.len(),
{
    broadcast use vstd::seq_lib::group_to_multiset_ensures;

    if sorted.len() == 0 {
    } else if entry_le(sorted[0], entry) {
        let rest = sorted.drop_first();
        lemma_insert_sorted_multiset(rest, entry);
        let placed = insert_sorted(rest, entry);
        assert(seq![sorted[0]] + placed =~= placed.insert(0, sorted[0]));
        assert(sorted =~= rest.insert(0, sorted[0]));
    } else {
        assert(seq![entry] + sorted =~= sorted.insert(0, entry));
    }
}

/// Putting an entry in its place keeps the order.
pub proof fn lemma_insert_sorted_sorted(entries: Seq<EntryView>, entry: EntryView)
    requires
        sorted(entries),
    ensures
        sorted(insert_sorted(entries, entry)),
    decreases entries.len(),
{
    let out = insert_sorted(entries, entry);
    if entries.len() == 0 {
    } else if entry_le(entries[0], entry) {
        let rest = entries.drop_first();
        let placed = insert_sorted(rest, entry);
        lemma_insert_sorted_sorted(rest, entry);
        lemma_insert_sorted_multiset(rest, entry);
        assert forall|i: int, j: int| 0 <= i < j < out.len() implies entry_le(out[i], out[j]) by {
            if i == 0 {
                // `out[j]` is `entry` or stands in `rest`, and `entries[0]` may
                // stand before either
                lemma_insert_sorted_holds(rest, entry, j - 1);
                assert(out[j] == placed[j - 1]);
            }
        }
    } else {
        lemma_lex_le_total(sort_key(entries[0]), sort_key(entry));
        assert forall|i: int, j: int| 0 <= i < j < out.len() implies entry_le(out[i], out[j]) by {
            if i == 0 && j > 1 {
                assert(entry_le(entries[0], entries[j - 1]));
                lemma_lex_le_transitive(
                    sort_key(entry),
                    sort_key(entries[0]),
                    sort_key(entries[j - 1]),
                );
            }
        }
    }
}

/// What stands in `insert_sorted(entries, entry)` is `entry` or stands in
/// `entries`.
pub proof fn lemma_insert_sorted_holds(entries: Seq<EntryView>, entry: EntryView, at: int)
    requires
        0 <= at < insert_sorted(entries, entry).len(),
    ensures
        insert_sorted(entries, entry)[at] == entry || exists|k: int|
            0 <= k < entries.len() && entries[k] == insert_sorted(entries, entry)[at],
    decreases entries.len(),
{
    if entries.len() != 0 && entry_le(entries[0], entry) && at != 0 {
        let rest = entries.drop_first();
        let placed = insert_sorted(rest, entry);
        lemma_insert_sorted_holds(rest, entry, at - 1);
        if placed[at - 1] != entry {
            let k = choose|k: int| 0 <= k < rest.len() && rest[k] == placed[at - 1];
            assert(entries[k + 1] == insert_sorted(entries, entry)[at]);
        }
    }
}

/// The canonical order holds the entries that it was given, each as often as
/// it was given.
pub proof fn lemma_canonical_sort_permutes(entries: Seq<EntryView>)
    ensures
        canonical_sort(entries).to_multiset() == entries.to_multiset(),
        canonical_sort(entries).len() == entries.len(),
    decreases entries.len(),
{
    broadcast use vstd::seq_lib::group_to_multiset_ensures;

    if entries.len() != 0 {
        let before = entries.drop_last();
        lemma_canonical_sort_permutes(before);
        lemma_insert_sorted_multiset(canonical_sort(before), entries.last());
        assert(entries =~= before.push(entries.last()));
    }
}

/// The canonical order is in order.
pub proof fn lemma_canonical_sort_sorted(entries: Seq<EntryView>)
    ensures
        sorted(canonical_sort(entries)),
    decreases entries.len(),
{
    if entries.len() != 0 {
        lemma_canonical_sort_sorted(entries.drop_last());
        lemma_insert_sorted_sorted(canonical_sort(entries.drop_last()), entries.last());
    }
}

/// Entries that stand in order already are left as they are.
pub proof fn lemma_canonical_sort_fixes_sorted(entries: Seq<EntryView>)
    requires
        sorted(entries),
    ensures
        canonical_sort(entries) == entries,
    decreases entries.len(),
{
    if entries.len() != 0 {
        let before = entries.drop_last();
        lemma_canonical_sort_fixes_sorted(before);
        lemma_insert_sorted_at(before, entries.last(), before.len() as int);
    }
}

/// Whether no two entries have the same sort key.
pub open spec fn distinct_keys(entries: Seq<EntryView>) -> bool {
    forall|i: int, j: int|
        0 <= i < j < entries.len() ==> sort_key(#[trigger] entries[i]) != sort_key(
            #[trigger] entries[j],
        )
}

/// Whether no name holds a `/`.
pub open spec fn names_lack_slash(entries: Seq<EntryView>) -> bool {
    forall|i: int| 0 <= i < entries.len() ==> lacks((#[trigger] entries[i]).name, 47u8)
}

/// Entries whose names hold no `/` and have the same sort key have the same
/// name.
pub proof fn lemma_sort_key_names(a: EntryView, b: EntryView)
    requires
        lacks(a.name, 47u8),
        lacks(b.name, 47u8),
        sort_key(a) == sort_key(b),
    ensures
        a.name == b.name,
{
    let a_dir = a.mode == EntryMode::Directory;
    let b_dir = b.mode == EntryMode::Directory;
    if a_dir && b_dir {
        assert(b.name =~= b.name.push(47u8).drop_last());
    } else if a_dir {
        assert(b.name[b.name.len() - 1] == a.name.push(47u8)[a.name.len() as int]);
    } else if b_dir {
        assert(a.name[a.name.len() - 1] == b.name.push(47u8)[b.name.len() as int]);
    }
}

/// There is one way to put entries with distinct sort keys in order.
pub proof fn lemma_sorted_unique(x: Seq<EntryView>, y: Seq<EntryView>)
    requires
        sorted(x),
        sorted(y),
        distinct_keys(x),
        x.to_multiset() == y.to_multiset(),
    ensures
        x == y,
    decreases x.len(),
{
    broadcast use vstd::seq_lib::group_to_multiset_ensures;

    to_multiset_len(x);
    to_multiset_len(y);
    if x.len() != 0 {
        to_multiset_contains(y, y[0]);
        to_multiset_contains(x, y[0]);
        let i = choose|i: int| 0 <= i < x.len() && x[i] == y[0];
        to_multiset_contains(x, x[0]);
        to_multiset_contains(y, x[0]);
        let j = choose|j: int| 0 <= j < y.len() && y[j] == x[0];
        lemma_lex_le_reflexive(sort_key(x[0]));
        lemma_lex_le_reflexive(sort_key(y[0]));
        assert(entry_le(x[0], x[i]));
        assert(entry_le(y[0], y[j]));
        lemma_lex_le_antisymmetric(sort_key(x[0]), sort_key(y[0]));
        let xs = x.drop_first();
        let ys = y.drop_first();
        assert(xs =~= x.remove(0));
        assert(ys =~= y.remove(0));
        lemma_sorted_unique(xs, ys);
        assert(y =~= seq![y[0]] + ys);
    }
}

/// The canonical order of entries does not depend on the order in which
/// they were collected: entries with distinct names, none of which holds a
/// `/`, come out the same however they are permuted.
pub proof fn lemma_canonical_sort_order_independent(a: Seq<EntryView>, b: Seq<EntryView>)
    requires
        distinct_names(a),
        names_lack_slash(a),
        a.to_multiset() == b.to_multiset(),
    ensures
        canonical_sort(a) == canonical_sort(b),
{
    broadcast use vstd::seq_lib::group_to_multiset_ensures;

    let x = canonical_sort(a);
    let y = canonical_sort(b);
    lemma_canonical_sort_permutes(a);
    lemma_canonical_sort_permutes(b);
    lemma_canonical_sort_sorted(a);
    lemma_canonical_sort_sorted(b);
    a.lemma_multiset_has_no_duplicates();
    x.lemma_multiset_has_no_duplicates_conv();
    assert forall|i: int, j: int| 0 <= i < j < x.len() implies sort_key(#[trigger] x[i])
        != sort_key(#[trigger] x[j]) by {
        to_multiset_contains(x, x[i]);
        to_multiset_contains(x, x[j]);
        to_multiset_contains(a, x[i]);
        to_multiset_contains(a, x[j]);
        if sort_key(x[i]) == sort_key(x[j]) {
            lemma_sort_key_names(x[i], x[j]);
        }
    }
    lemma_sorted_unique(x, y);
}

/// What stands in the canonical order stands among the entries that were
/// given.
pub proof fn lemma_canonical_sort_holds(entries: Seq<EntryView>, at: int)
    requires
        0 <= at < canonical_sort(entries).len(),
    ensures
        entries.contains(canonical_sort(entries)[at]),
{
    broadcast use vstd::seq_lib::group_to_multiset_ensures;

    lemma_canonical_sort_permutes(entries);
    let entry = canonical_sort(entries)[at];
    to_multiset_contains(canonical_sort(entries), entry);
    to_multiset_contains(entries, entry);
}

/// A tree payload in canonical order reads back as the entries that it was
/// made of, and putting those in canonical order and writing them out
/// again gives the same payload, byte for byte.
pub proof fn lemma_canonical_payload_reencodes(entries: Seq<EntryView>)
    requires
        valid_entries(entries),
    ensures
        spec_parse_tree(spec_encode_tree(canonical_sort(entries))) == Some(
            canonical_sort(entries),
        ),
        spec_encode_tree(
            canonical_sort(spec_parse_tree(spec_encode_tree(canonical_sort(entries))).unwrap()),
        ) == spec_encode_tree(canonical_sort(entries)),
{
    let ordered = canonical_sort(entries);
    assert forall|i: int| 0 <= i < ordered.len() implies valid_entry(#[trigger] ordered[i]) by {
        lemma_canonical_sort_holds(entries, i);
    }
    lemma_parse_tree_encode(ordered);
    lemma_canonical_sort_sorted(entries);
    lemma_canonical_sort_fixes_sorted(ordered);
}

impl TreeEntry {
    /// What the entry is ordered by.
    pub fn sort_key(&self) -> (key: Vec<u8>)
        ensures
            key@ == sort_key(self@),
    {
        let mut key = slice_to_vec(self.name.as_slice());
        match self.mode {
            EntryMode::Directory => {
                key.push(47u8);
            },
            _ => {},
        }
        key
    }

    /// Whether this entry may stand before `other` in a tree.
    pub fn le(&self, other: &TreeEntry) -> (r: bool)
        ensures
            r == entry_le(self@, other@),
    {
        let a = self.sort_key();
        let b = other.sort_key();
        bytes_le(a.as_slice(), b.as_slice())
    }
}

/// Puts the entries in canonical order.
pub fn sort_entries(entries: Vec<TreeEntry>) -> (out: Vec<TreeEntry>)
    ensures
        out.deep_view() == canonical_sort(entries.deep_view()),
{
    let ghost all = entries.deep_view();
    let mut rest = entries;
    let mut out: Vec<TreeEntry> = Vec::new();
    let mut done: usize = 0;
    let total = rest.len();
    while rest.len() > 0
        invariant
            done + rest.len() == total,
            total == all.len(),
            rest.deep_view() == all.skip(done as int),
            out.deep_view() == canonical_sort(all.take(done as int)),
        decreases rest.len(),
    {
        let ghost placed = out.deep_view();
        let ghost left = rest.deep_view();
        let ghost held = rest@;
        let entry = rest.remove(0);
        assert(entry@ == left[0]);
        assert forall|i: int| 0 <= i < rest.len() implies rest.deep_view()[i] == all.skip(
            done + 1,
        )[i] by {
            assert(left[i + 1] == held[i + 1]@);
        }
        let mut at: usize = 0;
        while at < out.len() && out[at].le(&entry)
            invariant
                at <= out.len(),
                out.deep_view() == placed,
                forall|i: int| 0 <= i < at ==> entry_le(placed[i], entry@),
            decreases out.len() - at,
        {
            at += 1;
        }
        proof {
            lemma_insert_sorted_at(placed, entry@, at as int);
            assert(all.take(done + 1).drop_last() =~= all.take(done as int));
        }
        out.insert(at, entry);
        done += 1;
    }
    assert(all.take(done as int) =~= all);
    out
}

} // verus!
