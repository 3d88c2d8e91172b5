//! Snapshots of a working directory. The directory is handed over as a value
//! in memory; its files become blobs, its subdirectories trees, and what it
//! holds under the name `.git` is passed over.

use crate::bytes::bytes_eq;
use crate::error::GitError;
use crate::object::{spec_oid_of, ObjectKind};
use crate::oid::Oid;
use crate::order::{
    canonical_sort, distinct_names, lemma_canonical_payload_reencodes,
    lemma_canonical_sort_order_independent, names_lack_slash, sort_entries,
};
use crate::store::{spec_write, ObjectStore, StoredView};
use crate::tree::{
    encode_tree, git_dir_name, is_git_dir, name_is_valid, spec_encode_tree, spec_parse_tree,
    valid_entries, valid_name, EntryMode, EntryView, TreeEntry,
};
use vstd::pervasive::unreached;
use vstd::prelude::*;
use vstd::seq_lib::{to_multiset_contains, to_multiset_len};
use vstd::slice::slice_to_vec;

verus! {

/// What stands in a directory under one name, as the contracts see it.
pub enum NodeView {
    /// A regular file.
    File { content: Seq<u8>, executable: bool },
    /// A symbolic link.
    Symlink { target: Seq<u8> },
    /// A subdirectory.
    Directory { children: Seq<ChildView> },
    /// Anything else: a device, a socket, a FIFO.
    Other,
}

/// A name in a directory and what stands under it, as the contracts see it.
pub struct ChildView {
    /// The path component, as raw bytes.
    pub name: Seq<u8>,
    /// What stands under the name.
    pub node: NodeView,
}

/// What stands in a directory under one name.
#[derive(Debug, PartialEq, Eq)]
pub enum Node {
    /// A regular file, with its bytes and whether its owner can execute it.
    File { content: Vec<u8>, executable: bool },
    /// A symbolic link, with the bytes of its target. It is not followed.
    Symlink { target: Vec<u8> },
    /// A subdirectory, with what it holds.
    Directory { children: Vec<Child> },
    /// Anything else: a device, a socket, a FIFO.
    Other,
}

/// A name in a directory and what stands under it.
#[derive(Debug, PartialEq, Eq)]
pub struct Child {
    /// The path component, as raw bytes.
    pub name: Vec<u8>,
    /// What stands under the name.
    pub node: Node,
}

impl View for Node {
    type V = NodeView;

    open spec fn view(&self) -> NodeView
        decreases self,
    {
        match self {
            Node::File { content, executable } => NodeView::File {
                content: content@,
                executable: *executable,
            },
            Node::Symlink { target } => NodeView::Symlink { target: target@ },
            Node::Directory { children } => NodeView::Directory {
                children: Seq::new(
                    children@.len(),
                    |i: int|
                        if 0 <= i < children@.len() {
                            children@[i].view()
                        } else {
                            arbitrary()
                        },
                ),
            },
            Node::Other => NodeView::Other,
        }
    }
}

impl View for Child {
    type V = ChildView;

    open spec fn view(&self) -> ChildView
        decreases self,
    {
        ChildView { name: self.name@, node: self.node.view() }
    }
}

impl DeepView for Child {
    type V = ChildView;

    open spec fn deep_view(&self) -> ChildView {
        self@
    }
}

/// The mode of the entry that stands for `node`.
pub open spec fn node_mode(node: NodeView) -> EntryMode {
    match node {
        NodeView::File { executable, .. } => if executable {
            EntryMode::Executable
        } else {
            EntryMode::Regular
        },
        NodeView::Symlink { .. } => EntryMode::Symlink,
        NodeView::Directory { .. } => EntryMode::Directory,
        NodeView::Other => EntryMode::Regular,
    }
}

/// The identifier of the object that `node` becomes: a blob of the content
/// of a file, a blob of the target of a symbolic link, the tree of a
/// subdirectory.
pub open spec fn node_oid(node: NodeView) -> Seq<u8>
    decreases node,
{
    match node {
        NodeView::File { content, .. } => spec_oid_of(ObjectKind::Blob, content),
        NodeView::Symlink { target } => spec_oid_of(ObjectKind::Blob, target),
        NodeView::Directory { children } => spec_oid_of(
            ObjectKind::Tree,
            spec_encode_tree(canonical_sort(tree_entries(children))),
        ),
        NodeView::Other => Seq::empty(),
    }
}

/// The entries that stand for the children of a directory, in the order of
/// the children; a child named `.git` has none.
pub open spec fn tree_entries(children: Seq<ChildView>) -> Seq<EntryView>
    decreases children,
{
    if children.len() == 0 {
        Seq::empty()
    } else {
        let before = tree_entries(children.drop_last());
        let child = children.last();
        if child.name == git_dir_name() {
            before
        } else {
            before.push(
                EntryView {
                    mode: node_mode(child.node),
                    name: child.name,
                    oid: node_oid(child.node),
                },
            )
        }
    }
}

/// The payload of the tree of a directory: its entries in canonical order.
pub open spec fn tree_payload(children: Seq<ChildView>) -> Seq<u8> {
    spec_encode_tree(canonical_sort(tree_entries(children)))
}

/// The identifier of the tree of a directory.
pub open spec fn tree_oid(children: Seq<ChildView>) -> Seq<u8> {
    spec_oid_of(ObjectKind::Tree, tree_payload(children))
}

/// Whether `name` is given to none of `children`.
pub open spec fn name_is_free(children: Seq<ChildView>, name: Seq<u8>) -> bool {
    forall|i: int| 0 <= i < children.len() ==> (#[trigger] children[i]).name != name
}

/// Whether the names in a directory and below it can stand in trees: apart
/// from `.git`, which is passed over with all that it holds, each name is
/// valid and is given once in its directory.
pub open spec fn names_ok(children: Seq<ChildView>) -> bool
    decreases children,
{
    if children.len() == 0 {
        true
    } else {
        let before = children.drop_last();
        let child = children.last();
        names_ok(before) && (child.name == git_dir_name() || (valid_name(child.name)
            && name_is_free(before, child.name) && match child.node {
            NodeView::Directory { children: inner } => names_ok(inner),
            _ => true,
        }))
    }
}

/// Whether a directory holds, at any depth and apart from what stands under
/// `.git`, only regular files, symbolic links and directories.
pub open spec fn kinds_ok(children: Seq<ChildView>) -> bool
    decreases children,
{
    if children.len() == 0 {
        true
    } else {
        let child = children.last();
        kinds_ok(children.drop_last()) && (child.name == git_dir_name() || match child.node {
            NodeView::Directory { children: inner } => kinds_ok(inner),
            NodeView::Other => false,
            _ => true,
        })
    }
}

/// The store after the objects of the children of a directory were written,
/// child by child.
pub open spec fn store_children(store: Seq<StoredView>, children: Seq<ChildView>) -> Seq<
    StoredView,
>
    decreases children, 0nat,
{
    if children.len() == 0 {
        store
    } else {
        let before = store_children(store, children.drop_last());
        let child = children.last();
        if child.name == git_dir_name() {
            before
        } else {
            store_node(before, child.node)
        }
    }
}

/// The store after the objects of `node` were written: the blob of a file or
/// of a symbolic link; for a subdirectory the objects of its children, then
/// its tree.
pub open spec fn store_node(store: Seq<StoredView>, node: NodeView) -> Seq<StoredView>
    decreases node, 1nat,
{
    match node {
        NodeView::File { content, .. } => spec_write(store, ObjectKind::Blob, content),
        NodeView::Symlink { target } => spec_write(store, ObjectKind::Blob, target),
        NodeView::Directory { children } => spec_write(
            store_children(store, children),
            ObjectKind::Tree,
            tree_payload(children),
        ),
        NodeView::Other => store,
    }
}

/// The store after the snapshot of a directory was written: the objects of
/// its children, then its tree.
pub open spec fn store_tree(store: Seq<StoredView>, children: Seq<ChildView>) -> Seq<StoredView> {
    spec_write(store_children(store, children), ObjectKind::Tree, tree_payload(children))
}

/// What a snapshot of the directory fails with, if it fails: `Malformed`
/// where a name cannot stand in a tree, else `Unsupported` where something is
/// neither a file, a symbolic link nor a directory.
pub open spec fn snapshot_error(children: Seq<ChildView>) -> Option<GitError> {
    if !names_ok(children) {
        Some(GitError::Malformed)
    } else if !kinds_ok(children) {
        Some(GitError::Unsupported)
    } else {
        None
    }
}

/// The entry that stands for a child: its name, with the mode and the
/// identifier of what stands under it.
pub open spec fn child_entry(child: ChildView) -> EntryView {
    EntryView { mode: node_mode(child.node), name: child.name, oid: node_oid(child.node) }
}

/// Each entry of a directory carries the name of one of its children.
pub proof fn lemma_entry_names(children: Seq<ChildView>, at: int)
    requires
        0 <= at < tree_entries(children).len(),
    ensures
        !name_is_free(children, tree_entries(children)[at].name),
        tree_entries(children)[at].name != git_dir_name(),
    decreases children.len(),
{
    if children.len() > 0 && at < tree_entries(children.drop_last()).len() {
        lemma_entry_names(children.drop_last(), at);
    }
}

/// Where the names of a directory fit, its entries carry valid names, each
/// of them once.
pub proof fn lemma_names_ok_entries(children: Seq<ChildView>)
    requires
        names_ok(children),
    ensures
        distinct_names(tree_entries(children)),
        names_lack_slash(tree_entries(children)),
        forall|i: int|
            0 <= i < tree_entries(children).len() ==> valid_name(
                (#[trigger] tree_entries(children)[i]).name,
            ),
    decreases children.len(),
{
    if children.len() > 0 {
        let before = children.drop_last();
        lemma_names_ok_entries(before);
        let entries = tree_entries(children);
        let earlier = tree_entries(before);
        assert forall|i: int, j: int| 0 <= i < j < entries.len() implies (#[trigger] entries[i]).name
            != (#[trigger] entries[j]).name by {
            if j < earlier.len() {
            } else {
                lemma_entry_names(before, i);
            }
        }
    }
}

/// A child that is put into a directory, at whatever place, adds its entry
/// to the entries of the directory, unless it is named `.git`.
pub proof fn lemma_tree_entries_insert(children: Seq<ChildView>, at: int, child: ChildView)
    requires
        0 <= at <= children.len(),
    ensures
        tree_entries(children.insert(at, child)).to_multiset() == if child.name == git_dir_name() {
            tree_entries(children).to_multiset()
        } else {
            tree_entries(children).to_multiset().insert(child_entry(child))
        },
    decreases children.len(),
{
    broadcast use vstd::seq_lib::group_to_multiset_ensures;

    let longer = children.insert(at, child);
    if at == children.len() {
        assert(longer.drop_last() =~= children);
    } else {
        let before = children.drop_last();
        let last = children.last();
        assert(longer.drop_last() =~= before.insert(at, child));
        lemma_tree_entries_insert(before, at, child);
    }
}

/// The entries of a directory are the same, each as often, in whatever
/// order the children of the directory are listed.
pub proof fn lemma_tree_entries_permuted(a: Seq<ChildView>, b: Seq<ChildView>)
    requires
        a.to_multiset() == b.to_multiset(),
    ensures
        tree_entries(a).to_multiset() == tree_entries(b).to_multiset(),
    decreases a.len(),
{
    broadcast use vstd::seq_lib::group_to_multiset_ensures;

    to_multiset_len(a);
    to_multiset_len(b);
    if a.len() != 0 {
        let child = a.last();
        let rest = a.drop_last();
        to_multiset_contains(a, child);
        to_multiset_contains(b, child);
        let k = choose|k: int| 0 <= k < b.len() && b[k] == child;
        let others = b.remove(k);
        assert(rest =~= a.remove(a.len() - 1));
        assert(b =~= others.insert(k, child));
        lemma_tree_entries_permuted(rest, others);
        lemma_tree_entries_insert(others, k, child);
    }
}

/// The tree of a directory does not depend on the order in which its
/// children are listed.
pub proof fn lemma_tree_order_independent(a: Seq<ChildView>, b: Seq<ChildView>)
    requires
        names_ok(a),
        a.to_multiset() == b.to_multiset(),
    ensures
        tree_payload(a) == tree_payload(b),
        tree_oid(a) == tree_oid(b),
{
    lemma_names_ok_entries(a);
    lemma_tree_entries_permuted(a, b);
    lemma_canonical_sort_order_independent(tree_entries(a), tree_entries(b));
}

/// The payload of the tree of a directory reads back as its entries in
/// canonical order, and putting what was read in canonical order and
/// writing it out again gives the same payload, byte for byte.
pub proof fn lemma_tree_payload_reencodes(children: Seq<ChildView>)
    requires
        valid_entries(tree_entries(children)),
    ensures
        spec_parse_tree(tree_payload(children)) == Some(canonical_sort(tree_entries(children))),
        spec_encode_tree(canonical_sort(spec_parse_tree(tree_payload(children)).unwrap()))
            == tree_payload(children),
{
    lemma_canonical_payload_reencodes(tree_entries(children));
}

/// The directory without what stands under the name `.git`, in it and in
/// the directories below it.
pub open spec fn without_git(children: Seq<ChildView>) -> Seq<ChildView>
    decreases children,
{
    if children.len() == 0 {
        Seq::empty()
    } else {
        let before = without_git(children.drop_last());
        let child = children.last();
        if child.name == git_dir_name() {
            before
        } else {
            before.push(
                ChildView {
                    name: child.name,
                    node: match child.node {
                        NodeView::Directory { children: inner } => NodeView::Directory {
                            children: without_git(inner),
                        },
                        other => other,
                    },
                },
            )
        }
    }
}

/// A name other than `.git` is free in a directory exactly if it is free in
/// the directory without `.git`.
pub proof fn lemma_without_git_free(children: Seq<ChildView>, name: Seq<u8>)
    requires
        name != git_dir_name(),
    ensures
        name_is_free(without_git(children), name) == name_is_free(children, name),
    decreases children.len(),
{
    if children.len() > 0 {
        let before = children.drop_last();
        lemma_without_git_free(before, name);
        let kept = without_git(before);
        if name_is_free(children, name) {
        } else {
            let k = choose|k: int| 0 <= k < children.len() && (#[trigger] children[k]).name == name;
            if k < before.len() {
                assert(before[k] == children[k]);
                let j = choose|j: int| 0 <= j < kept.len() && (#[trigger] kept[j]).name == name;
                assert(without_git(children)[j] == kept[j]);
            } else {
                assert(without_git(children)[kept.len() as int].name == name);
            }
        }
    }
}

/// What stands under `.git` has no part in a snapshot: the entries of a
/// directory, and whether its names and kinds fit, are those of the
/// directory without `.git`.
pub proof fn lemma_without_git_entries(children: Seq<ChildView>)
    ensures
        tree_entries(without_git(children)) == tree_entries(children),
        names_ok(without_git(children)) == names_ok(children),
        kinds_ok(without_git(children)) == kinds_ok(children),
    decreases children,
{
    if children.len() > 0 {
        let before = children.drop_last();
        let child = children.last();
        lemma_without_git_entries(before);
        if child.name != git_dir_name() {
            let kept = without_git(children);
            assert(kept.drop_last() =~= without_git(before));
            lemma_without_git_free(before, child.name);
            match child.node {
                NodeView::Directory { children: inner } => {
                    lemma_without_git_entries(inner);
                },
                _ => {
                },
            }
            assert(node_oid(kept.last().node) == node_oid(child.node));
        }
    }
}

/// What stands under `.git` has no part in what a snapshot writes.
pub proof fn lemma_without_git_store(store: Seq<StoredView>, children: Seq<ChildView>)
    ensures
        store_children(store, without_git(children)) == store_children(store, children),
    decreases children,
{
    if children.len() > 0 {
        let before = children.drop_last();
        let child = children.last();
        lemma_without_git_store(store, before);
        if child.name != git_dir_name() {
            let kept = without_git(children);
            assert(kept.drop_last() =~= without_git(before));
            match child.node {
                NodeView::Directory { children: inner } => {
                    lemma_without_git_entries(inner);
                    lemma_without_git_store(store_children(store, before), inner);
                },
                _ => {
                },
            }
            assert(store_node(store_children(store, before), kept.last().node) == store_node(
                store_children(store, before),
                child.node,
            ));
        }
    }
}

/// Two directories that differ only in what stands under `.git`, in them or
/// in the directories below them, have the same snapshot: it fails or not
/// alike, the tree has one identifier, and the same objects are written.
pub proof fn lemma_snapshot_ignores_git(
    store: Seq<StoredView>,
    a: Seq<ChildView>,
    b: Seq<ChildView>,
)
    requires
        without_git(a) == without_git(b),
    ensures
        snapshot_error(a) == snapshot_error(b),
        tree_payload(a) == tree_payload(b),
        tree_oid(a) == tree_oid(b),
        store_tree(store, a) == store_tree(store, b),
{
    lemma_without_git_entries(a);
    lemma_without_git_entries(b);
    lemma_without_git_store(store, a);
    lemma_without_git_store(store, b);
}

/// The view of a directory's children is the view of each child.
proof fn lemma_children_view(children: Vec<Child>)
    ensures
        (Node::Directory { children })@ == (NodeView::Directory {
            children: children.deep_view(),
        }),
{
    let node = Node::Directory { children };
    assert(node@->children =~= children.deep_view());
}

fn name_free(children: &Vec<Child>, until: usize, name: &[u8]) -> (r: bool)
    requires
        until <= children.len(),
    ensures
        r == name_is_free(children.deep_view().take(until as int), name@),
{
    let mut i: usize = 0;
    while i < until
        invariant
            i <= until <= children.len(),
            forall|j: int| 0 <= j < i ==> (#[trigger] children.deep_view()[j]).name != name@,
        decreases until - i,
    {
        if bytes_eq(children[i].name.as_slice(), name) {
            assert(children.deep_view().take(until as int)[i as int].name == name@);
            return false;
        }
        i += 1;
    }
    true
}

/// Whether the names in the directory and below it can stand in trees.
pub fn check_names(children: &Vec<Child>) -> (r: bool)
    ensures
        r == names_ok(children.deep_view()),
    decreases children,
{
    let ghost all = children.deep_view();
    let mut i: usize = 0;
    while i < children.len()
        invariant
            i <= children.len(),
            all == children.deep_view(),
            names_ok(all.take(i as int)),
        decreases children.len() - i,
    {
        let child = &children[i];
        proof {
            assert(all.take(i + 1).drop_last() =~= all.take(i as int));
        }
        if !is_git_dir(child.name.as_slice()) {
            let fits = name_is_valid(child.name.as_slice()) && name_free(
                children,
                i,
                child.name.as_slice(),
            ) && match &child.node {
                Node::Directory { children: inner } => {
                    proof {
                        lemma_children_view(*inner);
                    }
                    check_names(inner)
                },
                _ => true,
            };
            if !fits {
                proof {
                    if names_ok(all) {
                        lemma_names_ok_prefix(all, i + 1);
                    }
                }
                return false;
            }
        }
        i += 1;
    }
    assert(all.take(children.len() as int) =~= all);
    true
}

/// Whether the directory holds only files, symbolic links and directories.
pub fn check_kinds(children: &Vec<Child>) -> (r: bool)
    ensures
        r == kinds_ok(children.deep_view()),
    decreases children,
{
    let ghost all = children.deep_view();
    let mut i: usize = 0;
    while i < children.len()
        invariant
            i <= children.len(),
            all == children.deep_view(),
            kinds_ok(all.take(i as int)),
        decreases children.len() - i,
    {
        let child = &children[i];
        proof {
            assert(all.take(i + 1).drop_last() =~= all.take(i as int));
        }
        if !is_git_dir(child.name.as_slice()) {
            let fits = match &child.node {
                Node::Directory { children: inner } => {
                    proof {
                        lemma_children_view(*inner);
                    }
                    check_kinds(inner)
                },
                Node::Other => false,
                _ => true,
            };
            if !fits {
                proof {
                    if kinds_ok(all) {
                        lemma_kinds_ok_prefix(all, i + 1);
                    }
                }
                return false;
            }
        }
        i += 1;
    }
    assert(all.take(children.len() as int) =~= all);
    true
}

/// Names that fit in a directory fit in each leading part of it.
pub proof fn lemma_names_ok_prefix(children: Seq<ChildView>, n: int)
    requires
        0 <= n <= children.len(),
        names_ok(children),
    ensures
        names_ok(children.take(n)),
    decreases children.len(),
{
    if n < children.len() {
        lemma_names_ok_prefix(children.drop_last(), n);
        assert(children.drop_last().take(n) =~= children.take(n));
    } else {
        assert(children.take(n) =~= children);
    }
}

/// Kinds that fit in a directory fit in each leading part of it.
pub proof fn lemma_kinds_ok_prefix(children: Seq<ChildView>, n: int)
    requires
        0 <= n <= children.len(),
        kinds_ok(children),
    ensures
        kinds_ok(children.take(n)),
    decreases children.len(),
{
    if n < children.len() {
        lemma_kinds_ok_prefix(children.drop_last(), n);
        assert(children.drop_last().take(n) =~= children.take(n));
    } else {
        assert(children.take(n) =~= children);
    }
}

fn write_children(store: &mut ObjectStore, children: &Vec<Child>) -> (oid: Oid)
    requires
        names_ok(children.deep_view()),
        kinds_ok(children.deep_view()),
    ensures
        oid@ == tree_oid(children.deep_view()),
        final(store)@ == store_tree(old(store)@, children.deep_view()),
        valid_entries(tree_entries(children.deep_view())),
    decreases children,
{
    let ghost all = children.deep_view();
    let mut entries: Vec<TreeEntry> = Vec::new();
    let mut i: usize = 0;
    while i < children.len()
        invariant
            i <= children.len(),
            all == children.deep_view(),
            names_ok(all),
            kinds_ok(all),
            entries.deep_view() == tree_entries(all.take(i as int)),
            valid_entries(entries.deep_view()),
            store@ == store_children(old(store)@, all.take(i as int)),
        decreases children.len() - i,
    {
        let child = &children[i];
        let ghost before = entries.deep_view();
        let ghost stored = store@;
        proof {
            assert(all.take(i + 1).drop_last() =~= all.take(i as int));
            lemma_kinds_ok_prefix(all, i + 1);
            lemma_names_ok_prefix(all, i + 1);
        }
        if !is_git_dir(child.name.as_slice()) {
            let (mode, oid) = match &child.node {
                Node::File { content, executable } => {
                    let oid = store.write(ObjectKind::Blob, content.as_slice());
                    if *executable {
                        (EntryMode::Executable, oid)
                    } else {
                        (EntryMode::Regular, oid)
                    }
                },
                Node::Symlink { target } => {
                    let oid = store.write(ObjectKind::Blob, target.as_slice());
                    (EntryMode::Symlink, oid)
                },
                Node::Directory { children: inner } => {
                    proof {
                        lemma_children_view(*inner);
                    }
                    let oid = write_children(store, inner);
                    (EntryMode::Directory, oid)
                },
                Node::Other => {
                    unreached()
                },
            };
            assert(oid@ == node_oid(child@.node));
            assert(store@ == store_node(stored, child@.node));
            let entry = TreeEntry { mode, name: slice_to_vec(child.name.as_slice()), oid };
            entries.push(entry);
            assert(entries.deep_view() =~= before.push(entry@));
        }
        i += 1;
    }
    assert(all.take(children.len() as int) =~= all);
    let sorted = sort_entries(entries);
    let payload = encode_tree(&sorted);
    store.write(ObjectKind::Tree, payload.as_slice())
}

/// Writes the snapshot of a directory into the store and gives the
/// identifier of its tree. `children` is what the directory holds. Nothing is
/// written where the snapshot fails.
pub fn write_tree(store: &mut ObjectStore, children: &Vec<Child>) -> (res: Result<Oid, GitError>)
    ensures
        match snapshot_error(children.deep_view()) {
            Some(error) => res matches Err(e) && e == error && final(store)@ == old(store)@,
            None => res matches Ok(oid) && oid@ == tree_oid(children.deep_view())
                && final(store)@ == store_tree(old(store)@, children.deep_view()),
        },
        snapshot_error(children.deep_view()) is None ==> valid_entries(
            tree_entries(children.deep_view()),
        ),
{
    if !check_names(children) {
        return Err(GitError::Malformed);
    }
    if !check_kinds(children) {
        return Err(GitError::Unsupported);
    }
    Ok(write_children(store, children))
}

} // verus!
