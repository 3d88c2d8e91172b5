use mini_git::error::GitError;
use mini_git::object::{oid_of, ObjectKind};
use mini_git::oid::Oid;
use mini_git::order::sort_entries;
use mini_git::store::ObjectStore;
use mini_git::tree::{encode_tree, is_git_dir, name_is_valid, parse_tree, EntryMode, TreeEntry};
use mini_git::worktree::{check_kinds, check_names, write_tree, Child, Node};

fn file(name: &[u8], content: &[u8]) -> Child {
    Child { name: name.to_vec(), node: Node::File { content: content.to_vec(), executable: false } }
}

fn dir(name: &[u8], children: Vec<Child>) -> Child {
    Child { name: name.to_vec(), node: Node::Directory { children } }
}

fn entry(mode: EntryMode, name: &[u8], content: &[u8]) -> TreeEntry {
    TreeEntry { mode, name: name.to_vec(), oid: oid_of(ObjectKind::Blob, content) }
}

fn names(entries: &[TreeEntry]) -> Vec<Vec<u8>> {
    entries.iter().map(|e| e.name.clone()).collect()
}

fn hello_oid() -> Oid {
    Oid::from_hex("ce013625030ba8dba906f756967f9e9ca394464a").unwrap()
}

#[test]
fn modes_are_written_in_octal() {
    assert_eq!(EntryMode::Regular.text(), b"100644".to_vec());
    assert_eq!(EntryMode::Executable.text(), b"100755".to_vec());
    assert_eq!(EntryMode::Symlink.text(), b"120000".to_vec());
    assert_eq!(EntryMode::Directory.text(), b"40000".to_vec());
}

#[test]
fn modes_are_read_back() {
    assert_eq!(EntryMode::from_text(b"100644"), Some(EntryMode::Regular));
    assert_eq!(EntryMode::from_text(b"100755"), Some(EntryMode::Executable));
    assert_eq!(EntryMode::from_text(b"120000"), Some(EntryMode::Symlink));
    assert_eq!(EntryMode::from_text(b"40000"), Some(EntryMode::Directory));
    assert_eq!(EntryMode::from_text(b"040000"), None);
    assert_eq!(EntryMode::from_text(b"100664"), None);
    assert_eq!(EntryMode::from_text(b""), None);
}

#[test]
fn names_are_checked() {
    assert!(name_is_valid(b"hello.txt"));
    assert!(name_is_valid(b".gitignore"));
    assert!(name_is_valid(b"..."));
    assert!(name_is_valid("héllo".as_bytes()));
    assert!(name_is_valid(&[0xff, 0xfe]));
    assert!(!name_is_valid(b""));
    assert!(!name_is_valid(b"."));
    assert!(!name_is_valid(b".."));
    assert!(!name_is_valid(b".git"));
    assert!(!name_is_valid(b"a/b"));
    assert!(!name_is_valid(b"/"));
    assert!(!name_is_valid(b"a\0b"));
    assert!(is_git_dir(b".git"));
    assert!(!is_git_dir(b".gi"));
    assert!(!is_git_dir(b".gitx"));
    assert!(!is_git_dir(b".Git"));
}

#[test]
fn single_entry_is_encoded_byte_for_byte() {
    let entries = vec![TreeEntry {
        mode: EntryMode::Regular,
        name: b"hello.txt".to_vec(),
        oid: hello_oid(),
    }];
    let mut expected = b"100644 hello.txt\0".to_vec();
    expected.extend_from_slice(&hello_oid().bytes);
    assert_eq!(encode_tree(&entries), expected);
    assert_eq!(expected.len(), 37);
}

#[test]
fn encode_tree_keeps_the_order_given() {
    let entries =
        vec![entry(EntryMode::Regular, b"b", b"1"), entry(EntryMode::Executable, b"a", b"2")];
    let payload = encode_tree(&entries);
    assert_eq!(&payload[..9], b"100644 b\0");
    assert_eq!(&payload[29..38], b"100755 a\0");
    assert_eq!(payload.len(), 58);
    assert_eq!(encode_tree(&vec![]), Vec::<u8>::new());
}

#[test]
fn parse_tree_reads_what_encode_tree_wrote() {
    let entries = vec![
        entry(EntryMode::Regular, b"a.txt", b"1"),
        entry(EntryMode::Executable, b"run", b"2"),
        entry(EntryMode::Symlink, b"link", b"3"),
        TreeEntry {
            mode: EntryMode::Directory,
            name: "dir ü".as_bytes().to_vec(),
            oid: oid_of(ObjectKind::Tree, b""),
        },
    ];
    assert_eq!(parse_tree(&encode_tree(&entries)), Ok(entries));
    assert_eq!(parse_tree(b""), Ok(vec![]));
}

#[test]
fn parse_tree_rejects_a_truncated_entry() {
    let payload = encode_tree(&vec![entry(EntryMode::Regular, b"a", b"1")]);
    for cut in 1..payload.len() {
        assert_eq!(parse_tree(&payload[..cut]), Err(GitError::Malformed));
    }
    let mut longer = payload.clone();
    longer.extend_from_slice(b"100644 b\0short");
    assert_eq!(parse_tree(&longer), Err(GitError::Malformed));
}

#[test]
fn parse_tree_rejects_an_unknown_mode() {
    let mut payload = b"100664 a\0".to_vec();
    payload.extend_from_slice(&[0u8; 20]);
    assert_eq!(parse_tree(&payload), Err(GitError::Malformed));
    let mut payload = b"040000 a\0".to_vec();
    payload.extend_from_slice(&[0u8; 20]);
    assert_eq!(parse_tree(&payload), Err(GitError::Malformed));
    let mut payload = b" a\0".to_vec();
    payload.extend_from_slice(&[0u8; 20]);
    assert_eq!(parse_tree(&payload), Err(GitError::Malformed));
}

#[test]
fn parse_tree_rejects_forbidden_names() {
    let forbidden: Vec<&[u8]> = vec![b"", b".", b"..", b".git", b"a/b"];
    for name in forbidden {
        let mut payload = b"100644 ".to_vec();
        payload.extend_from_slice(name);
        payload.push(0);
        payload.extend_from_slice(&[7u8; 20]);
        assert_eq!(parse_tree(&payload), Err(GitError::Malformed));
    }
}

#[test]
fn parse_tree_keeps_nul_bytes_of_an_oid() {
    let mut payload = b"100644 a\0".to_vec();
    payload.extend_from_slice(&[0u8; 20]);
    payload.extend_from_slice(b"40000 b\0");
    payload.extend_from_slice(&[0u8; 20]);
    let entries = parse_tree(&payload).unwrap();
    assert_eq!(entries.len(), 2);
    assert_eq!(entries[0].oid, Oid::from_bytes([0u8; 20]));
    assert_eq!(entries[1].mode, EntryMode::Directory);
    assert_eq!(entries[1].name, b"b".to_vec());
}

#[test]
fn entries_are_sorted_by_name_bytes() {
    let entries = vec![
        entry(EntryMode::Regular, b"b", b""),
        entry(EntryMode::Regular, b"B", b""),
        entry(EntryMode::Regular, b"ab", b""),
        entry(EntryMode::Regular, b"a", b""),
        entry(EntryMode::Regular, &[0xc3, 0xa9], b""),
        entry(EntryMode::Regular, b"z", b""),
    ];
    let sorted = sort_entries(entries);
    let expected: Vec<Vec<u8>> = vec![
        b"B".to_vec(),
        b"a".to_vec(),
        b"ab".to_vec(),
        b"b".to_vec(),
        b"z".to_vec(),
        vec![0xc3, 0xa9],
    ];
    assert_eq!(names(&sorted), expected);
}

#[test]
fn directory_sorts_as_if_a_slash_followed_its_name() {
    let tree = oid_of(ObjectKind::Tree, b"");
    let entries = vec![
        TreeEntry { mode: EntryMode::Directory, name: b"foo".to_vec(), oid: tree },
        entry(EntryMode::Regular, b"foo.c", b""),
        entry(EntryMode::Regular, b"foo0", b""),
        entry(EntryMode::Regular, b"foo-bar", b""),
    ];
    let sorted = sort_entries(entries);
    let expected: Vec<Vec<u8>> =
        vec![b"foo-bar".to_vec(), b"foo.c".to_vec(), b"foo".to_vec(), b"foo0".to_vec()];
    assert_eq!(names(&sorted), expected);
}

#[test]
fn file_sorts_by_its_bare_name() {
    let entries = vec![
        entry(EntryMode::Regular, b"foo.c", b""),
        entry(EntryMode::Regular, b"foo", b""),
        entry(EntryMode::Regular, b"foo-bar", b""),
    ];
    let sorted = sort_entries(entries);
    let expected: Vec<Vec<u8>> = vec![b"foo".to_vec(), b"foo-bar".to_vec(), b"foo.c".to_vec()];
    assert_eq!(names(&sorted), expected);
}

#[test]
fn entry_order_is_decided_by_the_sort_key() {
    let tree = oid_of(ObjectKind::Tree, b"");
    let folder = TreeEntry { mode: EntryMode::Directory, name: b"foo".to_vec(), oid: tree };
    let source = entry(EntryMode::Regular, b"foo.c", b"");
    assert_eq!(folder.sort_key(), b"foo/".to_vec());
    assert_eq!(source.sort_key(), b"foo.c".to_vec());
    assert!(source.le(&folder));
    assert!(!folder.le(&source));
    assert!(folder.le(&folder));
}

#[test]
fn sorting_leaves_sorted_entries_as_they_are() {
    let entries = vec![
        entry(EntryMode::Regular, b"a", b"1"),
        entry(EntryMode::Regular, b"b", b"2"),
        entry(EntryMode::Regular, b"c", b"3"),
    ];
    assert_eq!(sort_entries(entries.clone()), entries);
    assert_eq!(sort_entries(vec![]), vec![]);
}

#[test]
fn sorting_does_not_depend_on_the_order_given() {
    let a = entry(EntryMode::Regular, b"a", b"1");
    let b = entry(EntryMode::Executable, b"b", b"2");
    let c = entry(EntryMode::Symlink, b"c", b"3");
    let expected = vec![a.clone(), b.clone(), c.clone()];
    assert_eq!(sort_entries(vec![c.clone(), a.clone(), b.clone()]), expected);
    assert_eq!(sort_entries(vec![b.clone(), c.clone(), a.clone()]), expected);
    assert_eq!(sort_entries(vec![c, b, a]), expected);
}

#[test]
fn reencoding_a_written_tree_gives_the_same_bytes() {
    let mut store = ObjectStore::new();
    let children = vec![
        file(b"zeta", b"z"),
        dir(b"foo", vec![file(b"x", b"x")]),
        file(b"foo.c", b"int main;\n"),
        file(b"alpha", b"a"),
    ];
    let oid = write_tree(&mut store, &children).unwrap();
    let (kind, payload) = store.read(&oid).unwrap();
    assert_eq!(kind, ObjectKind::Tree);
    let parsed = parse_tree(&payload).unwrap();
    assert_eq!(names(&parsed), vec![
        b"alpha".to_vec(),
        b"foo.c".to_vec(),
        b"foo".to_vec(),
        b"zeta".to_vec()
    ]);
    assert_eq!(encode_tree(&sort_entries(parsed)), payload);
}

#[test]
fn empty_directory_gives_the_empty_tree() {
    let mut store = ObjectStore::new();
    let oid = write_tree(&mut store, &vec![]).unwrap();
    assert_eq!(oid.to_hex(), "4b825dc642cb6eb9a060e54bf8d69288fbee4904");
    assert_eq!(store.len(), 1);
    assert_eq!(store.read(&oid), Ok((ObjectKind::Tree, vec![])));
}

#[test]
fn directory_with_only_git_gives_the_empty_tree() {
    let mut store = ObjectStore::new();
    let children = vec![dir(b".git", vec![file(b"HEAD", b"ref: refs/heads/main\n")])];
    let oid = write_tree(&mut store, &children).unwrap();
    assert_eq!(oid.to_hex(), "4b825dc642cb6eb9a060e54bf8d69288fbee4904");
    assert_eq!(store.len(), 1);
}

#[test]
fn empty_subdirectory_gets_the_empty_tree() {
    let mut store = ObjectStore::new();
    let oid = write_tree(&mut store, &vec![dir(b"empty", vec![])]).unwrap();
    let (_, payload) = store.read(&oid).unwrap();
    let entries = parse_tree(&payload).unwrap();
    assert_eq!(entries.len(), 1);
    assert_eq!(entries[0].mode, EntryMode::Directory);
    assert_eq!(entries[0].oid.to_hex(), "4b825dc642cb6eb9a060e54bf8d69288fbee4904");
    assert_eq!(&payload[..12], b"40000 empty\0");
    assert_eq!(store.len(), 2);
}

#[test]
fn single_file_tree_has_the_expected_payload_and_oid() {
    let mut store = ObjectStore::new();
    let oid = write_tree(&mut store, &vec![file(b"hello.txt", b"hello\n")]).unwrap();
    let mut expected = b"100644 hello.txt\0".to_vec();
    expected.extend_from_slice(&hello_oid().bytes);
    assert_eq!(store.read(&oid), Ok((ObjectKind::Tree, expected)));
    assert_eq!(oid.to_hex(), "aaa96ced2d9a1c8e72c56b253a0e2fe78393feb7");
    assert_eq!(store.len(), 2);
    assert_eq!(store.read(&hello_oid()), Ok((ObjectKind::Blob, b"hello\n".to_vec())));
}

#[test]
fn subdirectory_stands_after_the_file_with_a_dot() {
    let mut store = ObjectStore::new();
    let children = vec![dir(b"foo", vec![file(b"x", b"x")]), file(b"foo.c", b"int main;\n")];
    let oid = write_tree(&mut store, &children).unwrap();
    assert_eq!(oid.to_hex(), "5cb7e25754773af20f1edc50493749ba4f385c5c");
    let (_, payload) = store.read(&oid).unwrap();
    let entries = parse_tree(&payload).unwrap();
    assert_eq!(entries.len(), 2);
    assert_eq!(entries[0].name, b"foo.c".to_vec());
    assert_eq!(entries[0].mode, EntryMode::Regular);
    assert_eq!(entries[1].name, b"foo".to_vec());
    assert_eq!(entries[1].mode, EntryMode::Directory);
    assert_eq!(entries[1].oid.to_hex(), "f115c6d5cfb15ca1a72429900dcaca0fd1057951");
    assert_eq!(store.len(), 4);
}

#[test]
fn executable_files_and_symlinks_get_their_modes() {
    let mut store = ObjectStore::new();
    let children = vec![
        Child {
            name: b"run.sh".to_vec(),
            node: Node::File { content: b"#!/bin/sh\n".to_vec(), executable: true },
        },
        Child { name: b"link".to_vec(), node: Node::Symlink { target: b"run.sh".to_vec() } },
    ];
    let oid = write_tree(&mut store, &children).unwrap();
    assert_eq!(oid.to_hex(), "5fbde7197c63f6405aea1cc8244f9d43d5262948");
    let (_, payload) = store.read(&oid).unwrap();
    let entries = parse_tree(&payload).unwrap();
    assert_eq!(entries[0].mode, EntryMode::Symlink);
    assert_eq!(entries[0].oid, oid_of(ObjectKind::Blob, b"run.sh"));
    assert_eq!(entries[1].mode, EntryMode::Executable);
    assert_eq!(store.read(&entries[0].oid), Ok((ObjectKind::Blob, b"run.sh".to_vec())));
}

#[test]
fn unicode_name_is_stored_verbatim() {
    let mut store = ObjectStore::new();
    let name = "héllo-世界.txt".as_bytes();
    let oid = write_tree(&mut store, &vec![file(name, b"hello\n")]).unwrap();
    assert_eq!(oid.to_hex(), "2b71954161811a7d9fdb0417553ad4ba204b94cb");
    let (_, payload) = store.read(&oid).unwrap();
    let mut expected = b"100644 ".to_vec();
    expected.extend_from_slice(name);
    expected.push(0);
    expected.extend_from_slice(&hello_oid().bytes);
    assert_eq!(payload, expected);
}

#[test]
fn decomposed_and_composed_names_stay_distinct() {
    let mut store = ObjectStore::new();
    let composed = "é".as_bytes();
    let decomposed = "e\u{301}".as_bytes();
    let children = vec![file(composed, b"1"), file(decomposed, b"2")];
    let oid = write_tree(&mut store, &children).unwrap();
    let (_, payload) = store.read(&oid).unwrap();
    let entries = parse_tree(&payload).unwrap();
    assert_eq!(names(&entries), vec![decomposed.to_vec(), composed.to_vec()]);
}

#[test]
fn tree_oid_does_not_depend_on_the_order_of_the_children() {
    let mut first = ObjectStore::new();
    let mut second = ObjectStore::new();
    let a =
        vec![file(b"b", b"2"), dir(b"d", vec![file(b"y", b"y"), file(b"x", b"x")]), file(b"a", b"1")];
    let b =
        vec![file(b"a", b"1"), file(b"b", b"2"), dir(b"d", vec![file(b"x", b"x"), file(b"y", b"y")])];
    assert_eq!(write_tree(&mut first, &a), write_tree(&mut second, &b));
}

#[test]
fn tree_oid_does_not_depend_on_what_the_store_holds() {
    let children = vec![file(b"a", b"1"), dir(b"d", vec![file(b"x", b"x")])];
    let mut empty = ObjectStore::new();
    let mut filled = ObjectStore::new();
    filled.write(ObjectKind::Blob, b"1");
    filled.write(ObjectKind::Blob, b"unrelated");
    let first = write_tree(&mut empty, &children).unwrap();
    let second = write_tree(&mut filled, &children).unwrap();
    let third = write_tree(&mut filled, &children).unwrap();
    assert_eq!(first, second);
    assert_eq!(second, third);
    assert_eq!(empty.len(), 4);
    assert_eq!(filled.len(), 5);
}

#[test]
fn tree_oid_does_not_depend_on_what_git_holds() {
    let plain = vec![file(b"a", b"1"), dir(b"d", vec![file(b"x", b"x")])];
    let with_git = vec![
        dir(b".git", vec![file(b"HEAD", b"ref: refs/heads/main\n"), dir(b"objects", vec![])]),
        file(b"a", b"1"),
        dir(b"d", vec![file(b"x", b"x"), dir(b".git", vec![file(b"config", b"[core]\n")])]),
    ];
    let with_other_git = vec![
        file(b"a", b"1"),
        Child { name: b".git".to_vec(), node: Node::Other },
        dir(b"d", vec![file(b".git", b"gitdir: elsewhere\n"), file(b"x", b"x")]),
    ];
    let mut first = ObjectStore::new();
    let mut second = ObjectStore::new();
    let mut third = ObjectStore::new();
    let oid = write_tree(&mut first, &plain).unwrap();
    assert_eq!(write_tree(&mut second, &with_git), Ok(oid));
    assert_eq!(write_tree(&mut third, &with_other_git), Ok(oid));
    assert_eq!(first.len(), 4);
    assert_eq!(second.len(), 4);
    assert_eq!(third.len(), 4);
}

#[test]
fn gitignore_is_not_passed_over() {
    let mut store = ObjectStore::new();
    let oid = write_tree(&mut store, &vec![file(b".gitignore", b"target\n")]).unwrap();
    let (_, payload) = store.read(&oid).unwrap();
    assert_eq!(names(&parse_tree(&payload).unwrap()), vec![b".gitignore".to_vec()]);
}

#[test]
fn other_file_types_are_unsupported() {
    let mut store = ObjectStore::new();
    store.write(ObjectKind::Blob, b"before");
    let children = vec![file(b"a", b"1"), Child { name: b"socket".to_vec(), node: Node::Other }];
    assert!(check_names(&children));
    assert!(!check_kinds(&children));
    assert_eq!(write_tree(&mut store, &children), Err(GitError::Unsupported));
    assert_eq!(store.len(), 1);
    let nested = vec![dir(b"d", vec![Child { name: b"fifo".to_vec(), node: Node::Other }])];
    assert_eq!(write_tree(&mut store, &nested), Err(GitError::Unsupported));
    assert_eq!(store.len(), 1);
}

#[test]
fn forbidden_names_are_malformed() {
    let mut store = ObjectStore::new();
    let forbidden: Vec<&[u8]> = vec![b"", b".", b"..", b"a/b", b"a\0"];
    for name in forbidden {
        let children = vec![file(b"ok", b"1"), file(name, b"2")];
        assert!(!check_names(&children));
        assert_eq!(write_tree(&mut store, &children), Err(GitError::Malformed));
        let nested = vec![dir(b"d", vec![file(name, b"2")])];
        assert_eq!(write_tree(&mut store, &nested), Err(GitError::Malformed));
    }
    assert_eq!(store.len(), 0);
}

#[test]
fn a_name_given_twice_is_malformed() {
    let mut store = ObjectStore::new();
    let children = vec![file(b"a", b"1"), file(b"b", b"2"), dir(b"a", vec![])];
    assert_eq!(write_tree(&mut store, &children), Err(GitError::Malformed));
    let nested = vec![dir(b"d", vec![file(b"x", b"1"), file(b"x", b"1")])];
    assert_eq!(write_tree(&mut store, &nested), Err(GitError::Malformed));
    let twice_git = vec![dir(b".git", vec![]), dir(b".git", vec![])];
    assert!(write_tree(&mut store, &twice_git).is_ok());
}

#[test]
fn a_forbidden_name_is_reported_before_an_unsupported_type() {
    let mut store = ObjectStore::new();
    let children = vec![Child { name: b"socket".to_vec(), node: Node::Other }, file(b"..", b"")];
    assert_eq!(write_tree(&mut store, &children), Err(GitError::Malformed));
}
