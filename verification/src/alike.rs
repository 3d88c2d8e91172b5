//! Directories that hold the same files: whatever the order in which their
//! children are listed, at any depth, and whatever stands under `.git`,
//! their snapshots are the same tree.

use crate::order::lemma_canonical_sort_order_independent;
use crate::tree::{git_dir_name, EntryView};
use crate::worktree::{
    child_entry, lemma_names_ok_entries, names_ok, tree_entries, tree_oid, tree_payload,
    ChildView, NodeView,
};
use vstd::prelude::*;
use vstd::seq_lib::to_multiset_contains;

verus! {

/// Whether each child of `a`, apart from those named `.git`, stands in `b`
/// under the same name and holds there what it holds in `a`.
pub open spec fn within(a: Seq<ChildView>, b: Seq<ChildView>) -> bool
    decreases a, 0nat,
{
    if a.len() == 0 {
        true
    } else {
        within(a.drop_last(), b) && (a.last().name == git_dir_name() || found_in(a.last(), b))
    }
}

/// Whether `child` stands in `b` under the same name and holds there what
/// it holds.
pub open spec fn found_in(child: ChildView, b: Seq<ChildView>) -> bool
    decreases child, b.len(),
{
    if b.len() == 0 {
        false
    } else {
        (b.last().name == child.name && node_within(child.node, b.last().node)) || found_in(
            child,
            b.drop_last(),
        )
    }
}

/// Whether `y` holds what `x` holds: the same file, the same link, or a
/// directory in which each child of `x` stands.
pub open spec fn node_within(x: NodeView, y: NodeView) -> bool
    decreases x, 0nat,
{
    match x {
        NodeView::Directory { children } => match y {
            NodeView::Directory { children: others } => within(children, others),
            _ => false,
        },
        _ => x == y,
    }
}

/// Whether two directories hold the same files under the same names, at
/// every depth, apart from what stands under `.git`.
pub open spec fn alike(a: Seq<ChildView>, b: Seq<ChildView>) -> bool {
    within(a, b) && within(b, a)
}

/// A child that is found in a directory has a place there.
pub proof fn lemma_found_in(child: ChildView, b: Seq<ChildView>)
    requires
        found_in(child, b),
    ensures
        exists|j: int|
            0 <= j < b.len() && (#[trigger] b[j]).name == child.name && node_within(
                child.node,
                b[j].node,
            ),
    decreases b.len(),
{
    if !(b.last().name == child.name && node_within(child.node, b.last().node)) {
        lemma_found_in(child, b.drop_last());
        let j = choose|j: int|
            0 <= j < b.drop_last().len() && (#[trigger] b.drop_last()[j]).name == child.name
                && node_within(child.node, b.drop_last()[j].node);
        assert(b[j] == b.drop_last()[j]);
    } else {
        assert(b[b.len() - 1] == b.last());
    }
}

/// Each child of a directory that stands within another is found there.
pub proof fn lemma_within(a: Seq<ChildView>, b: Seq<ChildView>, i: int)
    requires
        within(a, b),
        0 <= i < a.len(),
        a[i].name != git_dir_name(),
    ensures
        found_in(a[i], b),
    decreases a.len(),
{
    if i < a.len() - 1 {
        lemma_within(a.drop_last(), b, i);
    }
}

/// Where the names of a directory fit, no name but `.git` is given twice,
/// and the names in each subdirectory fit.
pub proof fn lemma_names_ok_at(a: Seq<ChildView>, i: int, k: int)
    requires
        names_ok(a),
        0 <= i < a.len(),
        0 <= k < a.len(),
        a[i].name != git_dir_name(),
    ensures
        a[k].name == a[i].name ==> k == i,
        a[i].node matches NodeView::Directory { children } ==> names_ok(children),
    decreases a.len(),
{
    let before = a.drop_last();
    if i < a.len() - 1 && k < a.len() - 1 {
        lemma_names_ok_at(before, i, k);
    } else if i < a.len() - 1 {
        lemma_names_ok_at(before, i, i);
        assert(before[i] == a[i]);
    } else if k < a.len() - 1 {
        assert(before[k] == a[k]);
    }
}

/// Each entry of a directory is the entry of one of its children.
pub proof fn lemma_entry_child(a: Seq<ChildView>, p: int)
    requires
        0 <= p < tree_entries(a).len(),
    ensures
        exists|i: int|
            0 <= i < a.len() && (#[trigger] a[i]).name != git_dir_name() && tree_entries(a)[p]
                == child_entry(a[i]),
    decreases a.len(),
{
    let before = a.drop_last();
    if p < tree_entries(before).len() {
        lemma_entry_child(before, p);
        let i = choose|i: int|
            0 <= i < before.len() && (#[trigger] before[i]).name != git_dir_name()
                && tree_entries(before)[p] == child_entry(before[i]);
        assert(a[i] == before[i]);
    } else {
        assert(a[a.len() - 1] == a.last());
    }
}

/// Each child of a directory that is not named `.git` has its entry among
/// the entries of the directory.
pub proof fn lemma_child_entry(a: Seq<ChildView>, i: int)
    requires
        0 <= i < a.len(),
        a[i].name != git_dir_name(),
    ensures
        tree_entries(a).contains(child_entry(a[i])),
    decreases a.len(),
{
    let before = a.drop_last();
    let entries = tree_entries(a);
    if i < a.len() - 1 {
        lemma_child_entry(before, i);
        let p = choose|p: int|
            0 <= p < tree_entries(before).len() && tree_entries(before)[p] == child_entry(
                before[i],
            );
        assert(entries[p] == child_entry(a[i]));
    } else {
        assert(entries[entries.len() - 1] == child_entry(a[i]));
    }
}

/// Children of two directories that are alike stand for the same entry
/// where they carry the same name.
pub proof fn lemma_alike_entry(a: Seq<ChildView>, b: Seq<ChildView>, i: int, j: int)
    requires
        names_ok(a),
        names_ok(b),
        alike(a, b),
        0 <= i < a.len(),
        0 <= j < b.len(),
        a[i].name != git_dir_name(),
        a[i].name == b[j].name,
    ensures
        child_entry(a[i]) == child_entry(b[j]),
    decreases a, 0nat,
{
    lemma_within(a, b, i);
    lemma_found_in(a[i], b);
    let j2 = choose|j2: int|
        0 <= j2 < b.len() && (#[trigger] b[j2]).name == a[i].name && node_within(
            a[i].node,
            b[j2].node,
        );
    lemma_names_ok_at(b, j, j2);
    lemma_within(b, a, j);
    lemma_found_in(b[j], a);
    let i2 = choose|i2: int|
        0 <= i2 < a.len() && (#[trigger] a[i2]).name == b[j].name && node_within(
            b[j].node,
            a[i2].node,
        );
    lemma_names_ok_at(a, i, i2);
    match a[i].node {
        NodeView::Directory { children } => {
            let others = b[j].node->children;
            lemma_names_ok_at(b, j, j);
            lemma_alike_tree(children, others);
        },
        _ => {},
    }
}

/// Two directories that are alike have the same tree: the order in which
/// children are listed, in them and in the directories below them, and
/// what stands under `.git` have no part in it.
pub proof fn lemma_alike_tree(a: Seq<ChildView>, b: Seq<ChildView>)
    requires
        names_ok(a),
        names_ok(b),
        alike(a, b),
    ensures
        tree_payload(a) == tree_payload(b),
        tree_oid(a) == tree_oid(b),
    decreases a, 1nat,
{
    let ea = tree_entries(a);
    let eb = tree_entries(b);
    lemma_names_ok_entries(a);
    lemma_names_ok_entries(b);
    assert forall|e: EntryView| ea.contains(e) implies eb.contains(e) by {
        let p = choose|p: int| 0 <= p < ea.len() && ea[p] == e;
        lemma_entry_child(a, p);
        let i = choose|i: int|
            0 <= i < a.len() && (#[trigger] a[i]).name != git_dir_name() && ea[p] == child_entry(
                a[i],
            );
        lemma_within(a, b, i);
        lemma_found_in(a[i], b);
        let j = choose|j: int|
            0 <= j < b.len() && (#[trigger] b[j]).name == a[i].name && node_within(
                a[i].node,
                b[j].node,
            );
        lemma_alike_entry(a, b, i, j);
        lemma_child_entry(b, j);
    }
    assert forall|e: EntryView| eb.contains(e) implies ea.contains(e) by {
        let p = choose|p: int| 0 <= p < eb.len() && eb[p] == e;
        lemma_entry_child(b, p);
        let j = choose|j: int|
            0 <= j < b.len() && (#[trigger] b[j]).name != git_dir_name() && eb[p] == child_entry(
                b[j],
            );
        lemma_within(b, a, j);
        lemma_found_in(b[j], a);
        let i = choose|i: int|
            0 <= i < a.len() && (#[trigger] a[i]).name == b[j].name && node_within(
                b[j].node,
                a[i].node,
            );
        lemma_alike_entry(a, b, i, j);
        lemma_child_entry(a, i);
    }
    assert(ea.no_duplicates());
    assert(eb.no_duplicates());
    ea.lemma_multiset_has_no_duplicates();
    eb.lemma_multiset_has_no_duplicates();
    assert forall|e: EntryView| ea.to_multiset().count(e) == eb.to_multiset().count(e) by {
        to_multiset_contains(ea, e);
        to_multiset_contains(eb, e);
    }
    assert(ea.to_multiset() =~= eb.to_multiset());
    lemma_canonical_sort_order_independent(ea, eb);
}

} // verus!
