use mini_git::commands::cat_file::CatFile;
use mini_git::commands::clone::{RawObject, RemoteRef};
use mini_git::commands::commit_tree::CommitTree;
use mini_git::commands::hash_object::HashObject;
use mini_git::commands::init::Init;
use mini_git::commands::ls_tree::LsTree;
use mini_git::commands::write_tree::WriteTree;
use mini_git::commit::Signature;
use mini_git::error::GitError;
use mini_git::layout::{skeleton, write_head, write_ref, Step};
use mini_git::object::{frame, oid_of, ObjectKind};
use mini_git::oid::Oid;
use mini_git::store::ObjectStore;
use mini_git::tree::{encode_tree, EntryMode, TreeEntry};
use mini_git::worktree::{Child, Node};
use mini_git::zlib::compress;

fn file(name: &[u8], content: &[u8]) -> Child {
    Child { name: name.to_vec(), node: Node::File { content: content.to_vec(), executable: false } }
}

fn who() -> Signature {
    Signature { name: "A".to_string(), email: "a@x".to_string(), seconds: 0, tz: "+0000".to_string() }
}

fn create_dir(path: &str) -> Step {
    Step::CreateDir { path: path.to_string() }
}

fn write_file(path: &str, content: &str) -> Step {
    Step::WriteFile { path: path.to_string(), content: content.to_string() }
}

#[test]
fn init_lays_out_the_skeleton() {
    let steps = Init::run(false).unwrap();
    assert_eq!(steps, vec![
        create_dir(".git"),
        create_dir(".git/objects"),
        create_dir(".git/refs"),
        create_dir(".git/refs/heads"),
        write_file(".git/HEAD", "ref: refs/heads/main\n"),
    ]);
    assert_eq!(skeleton(), steps);
}

#[test]
fn init_does_not_touch_a_repository_that_is_there() {
    assert_eq!(Init::run(true), Err(GitError::AlreadyExists));
}

#[test]
fn init_then_write_tree_of_an_empty_directory_gives_the_empty_tree() {
    assert!(Init::run(false).is_ok());
    let mut store = ObjectStore::new();
    let children = vec![Child { name: b".git".to_vec(), node: Node::Directory { children: vec![] } }];
    assert_eq!(
        WriteTree::run(&mut store, &children),
        Ok("4b825dc642cb6eb9a060e54bf8d69288fbee4904".to_string())
    );
    assert_eq!(
        WriteTree::run(&mut store, &vec![]),
        Ok("4b825dc642cb6eb9a060e54bf8d69288fbee4904".to_string())
    );
}

#[test]
fn hash_object_prints_the_oid() {
    let mut store = ObjectStore::new();
    assert_eq!(
        HashObject::run(&mut store, b"hello\n", false),
        "ce013625030ba8dba906f756967f9e9ca394464a"
    );
    assert_eq!(store.len(), 0);
}

#[test]
fn hash_object_writes_when_asked_to() {
    let mut store = ObjectStore::new();
    assert_eq!(HashObject::run(&mut store, b"", true), "e69de29bb2d1d6434b8b29ae775ad8c2e48c5391");
    assert_eq!(store.len(), 1);
    assert_eq!(
        CatFile::run(&store, "e69de29bb2d1d6434b8b29ae775ad8c2e48c5391"),
        Ok(Vec::<u8>::new())
    );
}

#[test]
fn cat_file_gives_the_payload_unchanged() {
    let mut store = ObjectStore::new();
    let text = HashObject::run(&mut store, b"a\0b\xff\n", true);
    assert_eq!(CatFile::run(&store, &text), Ok(b"a\0b\xff\n".to_vec()));
    assert_eq!(CatFile::run(&store, &text.to_uppercase()), Ok(b"a\0b\xff\n".to_vec()));
}

#[test]
fn cat_file_with_an_oid_of_wrong_length_is_bad_oid() {
    let mut store = ObjectStore::new();
    HashObject::run(&mut store, b"hello\n", true);
    assert_eq!(CatFile::run(&store, "ce0136"), Err(GitError::BadOid));
    assert_eq!(CatFile::run(&store, ""), Err(GitError::BadOid));
    assert_eq!(
        CatFile::run(&store, "ce013625030ba8dba906f756967f9e9ca394464a0"),
        Err(GitError::BadOid)
    );
    assert_eq!(
        CatFile::run(&store, "xe013625030ba8dba906f756967f9e9ca394464a"),
        Err(GitError::BadOid)
    );
}

#[test]
fn cat_file_of_an_absent_object_is_not_found() {
    let store = ObjectStore::new();
    assert_eq!(
        CatFile::run(&store, "ce013625030ba8dba906f756967f9e9ca394464a"),
        Err(GitError::NotFound)
    );
}

#[test]
fn cat_file_of_a_damaged_object_is_corrupt() {
    let mut store = ObjectStore::new();
    let oid = oid_of(ObjectKind::Blob, b"hello\n");
    store.load(oid, vec![0x78, 0x9c, 0x00]);
    assert_eq!(CatFile::run(&store, &oid.to_hex()), Err(GitError::Corrupt));
}

#[test]
fn extract_content_gives_the_payload_of_a_frame() {
    assert_eq!(CatFile::extract_content(b"blob 6\0hello\n"), Some(&b"hello\n"[..]));
    assert_eq!(CatFile::extract_content(b"blob 3\0a\0b"), Some(&b"a\0b"[..]));
    assert_eq!(CatFile::extract_content(b"tree 0\0"), Some(&b""[..]));
    assert_eq!(CatFile::extract_content(&frame(ObjectKind::Commit, b"x\0y")), Some(&b"x\0y"[..]));
}

#[test]
fn extract_content_without_a_nul_gives_nothing() {
    assert_eq!(CatFile::extract_content(b"blob 6 hello"), None);
    assert_eq!(CatFile::extract_content(b""), None);
}

#[test]
fn extract_content_of_a_frame_with_a_wrong_size_gives_nothing() {
    assert_eq!(CatFile::extract_content(b"blob 5\0abc"), None);
    assert_eq!(CatFile::extract_content(b"blob 2\0abc"), None);
    assert_eq!(CatFile::extract_content(b"blob 03\0abc"), None);
}

#[test]
fn extract_content_of_what_is_no_frame_gives_nothing() {
    assert_eq!(CatFile::extract_content(b"\0"), None);
    assert_eq!(CatFile::extract_content(b"tag 3\0abc"), None);
    assert_eq!(CatFile::extract_content(b"blob3\0abc"), None);
}

#[test]
fn ls_tree_lists_the_names_in_tree_order() {
    let mut store = ObjectStore::new();
    let children = vec![
        file(b"zeta", b"z"),
        Child { name: b"foo".to_vec(), node: Node::Directory { children: vec![file(b"x", b"x")] } },
        file(b"foo.c", b"c"),
        file("ü".as_bytes(), b"u"),
    ];
    let text = WriteTree::run(&mut store, &children).unwrap();
    assert_eq!(
        LsTree::run(&store, &text),
        Ok(vec!["foo.c".to_string(), "foo".to_string(), "zeta".to_string(), "ü".to_string()])
    );
}

#[test]
fn ls_tree_shows_names_that_are_not_utf8_with_replacement_characters() {
    let entries = vec![
        TreeEntry {
            mode: EntryMode::Regular,
            name: vec![0x61, 0xff, 0x62],
            oid: oid_of(ObjectKind::Blob, b""),
        },
        TreeEntry {
            mode: EntryMode::Regular,
            name: b"plain".to_vec(),
            oid: oid_of(ObjectKind::Blob, b""),
        },
    ];
    let payload = encode_tree(&entries);
    assert_eq!(LsTree::names(&payload), Ok(vec!["a\u{fffd}b".to_string(), "plain".to_string()]));
}

#[test]
fn raw_names_are_given_as_they_are_stored() {
    let entries = vec![TreeEntry {
        mode: EntryMode::Regular,
        name: vec![0x61, 0xff, 0x62],
        oid: oid_of(ObjectKind::Blob, b""),
    }];
    assert_eq!(LsTree::raw_names(&encode_tree(&entries)), Ok(vec![vec![0x61, 0xff, 0x62]]));
    assert_eq!(LsTree::raw_names(b"100644 a"), Err(GitError::Malformed));
}

#[test]
fn ls_tree_of_a_blob_is_malformed() {
    let mut store = ObjectStore::new();
    let text = HashObject::run(&mut store, b"hello\n", true);
    assert_eq!(LsTree::run(&store, &text), Err(GitError::Malformed));
}

#[test]
fn ls_tree_of_a_tree_that_does_not_parse_is_malformed() {
    let mut store = ObjectStore::new();
    let oid = store.write(ObjectKind::Tree, b"100644 a\0short");
    assert_eq!(LsTree::run(&store, &oid.to_hex()), Err(GitError::Malformed));
}

#[test]
fn ls_tree_reports_how_reading_failed() {
    let mut store = ObjectStore::new();
    assert_eq!(LsTree::run(&store, "nothex"), Err(GitError::BadOid));
    let oid = oid_of(ObjectKind::Tree, b"");
    assert_eq!(LsTree::run(&store, &oid.to_hex()), Err(GitError::NotFound));
    store.load(oid, compress(b"tree 1\0"));
    assert_eq!(LsTree::run(&store, &oid.to_hex()), Err(GitError::Corrupt));
}

#[test]
fn parse_tree_object_lists_the_names_of_a_framed_tree() {
    let entries = vec![
        TreeEntry {
            mode: EntryMode::Regular,
            name: b"a.txt".to_vec(),
            oid: oid_of(ObjectKind::Blob, b"1"),
        },
        TreeEntry {
            mode: EntryMode::Directory,
            name: b"dir".to_vec(),
            oid: oid_of(ObjectKind::Tree, b""),
        },
    ];
    let framed = frame(ObjectKind::Tree, &encode_tree(&entries));
    assert_eq!(
        LsTree::parse_tree_object(&framed),
        Ok(vec!["a.txt".to_string(), "dir".to_string()])
    );
    assert_eq!(LsTree::parse_tree_object(b"tree 0\0"), Ok(vec![]));
}

#[test]
fn parse_tree_object_rejects_what_is_no_framed_tree() {
    assert_eq!(LsTree::parse_tree_object(b""), Err(GitError::Malformed));
    assert_eq!(LsTree::parse_tree_object(b"tree 1\0"), Err(GitError::Malformed));
    assert_eq!(LsTree::parse_tree_object(b"blob 0\0"), Err(GitError::Malformed));
    assert_eq!(LsTree::parse_tree_object(b"tree 3\0abc"), Err(GitError::Malformed));
}

#[test]
fn write_tree_prints_the_oid_of_the_tree() {
    let mut store = ObjectStore::new();
    assert_eq!(
        WriteTree::run(&mut store, &vec![file(b"hello.txt", b"hello\n")]),
        Ok("aaa96ced2d9a1c8e72c56b253a0e2fe78393feb7".to_string())
    );
    assert_eq!(
        WriteTree::write_tree(&mut store, &vec![file(b"hello.txt", b"hello\n")]),
        Oid::from_hex("aaa96ced2d9a1c8e72c56b253a0e2fe78393feb7")
    );
    assert_eq!(store.len(), 2);
}

#[test]
fn write_tree_reports_why_it_failed() {
    let mut store = ObjectStore::new();
    let other = vec![Child { name: b"dev".to_vec(), node: Node::Other }];
    assert_eq!(WriteTree::run(&mut store, &other), Err(GitError::Unsupported));
    assert_eq!(WriteTree::run(&mut store, &vec![file(b"", b"")]), Err(GitError::Malformed));
    assert_eq!(store.len(), 0);
}

#[test]
fn hash_object_of_write_tree_gives_text_and_raw_bytes() {
    let (text, raw) = WriteTree::hash_object(ObjectKind::Blob, b"hello\n");
    assert_eq!(text, "ce013625030ba8dba906f756967f9e9ca394464a");
    assert_eq!(raw, Oid::from_hex(&text).unwrap().bytes.to_vec());
    assert_eq!(raw.len(), 20);
    assert_eq!(text.len(), 40);
}

#[test]
fn write_object_writes_and_prints() {
    let mut store = ObjectStore::new();
    let text = WriteTree::write_object(&mut store, ObjectKind::Tree, b"");
    assert_eq!(text, "4b825dc642cb6eb9a060e54bf8d69288fbee4904");
    assert!(store.has(&Oid::from_hex(&text).unwrap()));
}

#[test]
fn commit_tree_writes_the_message_as_it_is() {
    let mut store = ObjectStore::new();
    let printed = CommitTree::run(
        &mut store,
        "4b825dc642cb6eb9a060e54bf8d69288fbee4904",
        &vec![],
        "init\n",
        &who(),
        &who(),
    );
    assert_eq!(printed, Ok("eafcd34920e940972a46d4742d8c62fa4d5f51e7".to_string()));
    let payload = CatFile::run(&store, "eafcd34920e940972a46d4742d8c62fa4d5f51e7").unwrap();
    let expected = b"tree 4b825dc642cb6eb9a060e54bf8d69288fbee4904\n\
author A <a@x> 0 +0000\n\
committer A <a@x> 0 +0000\n\
\n\
init\n";
    assert_eq!(payload, expected.to_vec());
    assert_eq!(payload.len(), 101);
}

#[test]
fn commit_tree_adds_no_line_feed_to_the_message() {
    let mut store = ObjectStore::new();
    let tree = "4b825dc642cb6eb9a060e54bf8d69288fbee4904";
    let printed = CommitTree::run(&mut store, tree, &vec![], "init", &who(), &who()).unwrap();
    let payload = CatFile::run(&store, &printed).unwrap();
    assert!(payload.ends_with(b"+0000\n\ninit"));
    assert_eq!(payload.len(), 100);
}

#[test]
fn commit_tree_writes_the_parents() {
    let mut store = ObjectStore::new();
    let parents = vec![
        "EAFCD34920E940972A46D4742D8C62FA4D5F51E7".to_string(),
        "ce013625030ba8dba906f756967f9e9ca394464a".to_string(),
    ];
    let printed = CommitTree::run(
        &mut store,
        "4b825dc642cb6eb9a060e54bf8d69288fbee4904",
        &parents,
        "m",
        &who(),
        &who(),
    )
    .unwrap();
    let payload = String::from_utf8(CatFile::run(&store, &printed).unwrap()).unwrap();
    assert!(payload.starts_with(
        "tree 4b825dc642cb6eb9a060e54bf8d69288fbee4904\n\
parent eafcd34920e940972a46d4742d8c62fa4d5f51e7\n\
parent ce013625030ba8dba906f756967f9e9ca394464a\n\
author A <a@x> 0 +0000\n"
    ));
}

#[test]
fn commit_tree_rejects_bad_oids_before_bad_signatures() {
    let mut store = ObjectStore::new();
    let bad_signature = Signature { name: "<".to_string(), ..who() };
    let tree = "4b825dc642cb6eb9a060e54bf8d69288fbee4904";
    assert_eq!(
        CommitTree::run(&mut store, "4b825d", &vec![], "m", &bad_signature, &who()),
        Err(GitError::BadOid)
    );
    assert_eq!(
        CommitTree::run(&mut store, tree, &vec!["zz".to_string()], "m", &who(), &who()),
        Err(GitError::BadOid)
    );
    assert_eq!(
        CommitTree::run(&mut store, tree, &vec![], "m", &bad_signature, &who()),
        Err(GitError::Malformed)
    );
    assert_eq!(store.len(), 0);
}

#[test]
fn parse_oids_reads_each_text() {
    let texts = vec![
        "ce013625030ba8dba906f756967f9e9ca394464a".to_string(),
        "4b825dc642cb6eb9a060e54bf8d69288fbee4904".to_string(),
    ];
    assert_eq!(
        CommitTree::parse_oids(&texts),
        Some(vec![oid_of(ObjectKind::Blob, b"hello\n"), oid_of(ObjectKind::Tree, b"")])
    );
    assert_eq!(CommitTree::parse_oids(&vec![]), Some(vec![]));
    assert_eq!(CommitTree::parse_oids(&vec![texts[0].clone(), "4b82".to_string()]), None);
}

#[test]
fn clone_persists_decoded_objects() {
    let mut store = ObjectStore::new();
    let objects = vec![
        RawObject { kind: ObjectKind::Blob, payload: b"hello\n".to_vec() },
        RawObject { kind: ObjectKind::Tree, payload: vec![] },
        RawObject { kind: ObjectKind::Blob, payload: b"hello\n".to_vec() },
    ];
    let oids = mini_git::commands::clone::Clone::run(&mut store, &objects);
    assert_eq!(oids.len(), 3);
    assert_eq!(oids[0].to_hex(), "ce013625030ba8dba906f756967f9e9ca394464a");
    assert_eq!(oids[1].to_hex(), "4b825dc642cb6eb9a060e54bf8d69288fbee4904");
    assert_eq!(oids[2], oids[0]);
    assert_eq!(store.len(), 2);
    assert_eq!(store.read(&oids[0]), Ok((ObjectKind::Blob, b"hello\n".to_vec())));
}

#[test]
fn pack_header_gives_the_number_of_objects() {
    assert_eq!(mini_git::commands::clone::Clone::pack_header(b"PACK\0\0\0\x02\0\0\0\x03"), Ok(3));
    assert_eq!(mini_git::commands::clone::Clone::pack_header(b"PACK\0\0\0\x02\x01\x02\x03\x04rest"), Ok(0x01020304));
    assert_eq!(mini_git::commands::clone::Clone::pack_header(b"PACK\0\0\0\x02\xff\xff\xff\xff"), Ok(u32::MAX));
    assert_eq!(mini_git::commands::clone::Clone::pack_header(b"PACK\0\0\0\x02\0\0\0\0"), Ok(0));
}

#[test]
fn pack_header_rejects_what_is_no_pack() {
    assert_eq!(mini_git::commands::clone::Clone::pack_header(b""), Err(GitError::Malformed));
    assert_eq!(mini_git::commands::clone::Clone::pack_header(b"PACK\0\0\0\x02\0\0\0"), Err(GitError::Malformed));
    assert_eq!(mini_git::commands::clone::Clone::pack_header(b"pack\0\0\0\x02\0\0\0\x03"), Err(GitError::Malformed));
    assert_eq!(mini_git::commands::clone::Clone::pack_header(b"PACK\0\0\0\x03\0\0\0\x03"), Err(GitError::Malformed));
    assert_eq!(mini_git::commands::clone::Clone::pack_header(b"PACK\x02\0\0\0\0\0\0\x03"), Err(GitError::Malformed));
}

#[test]
fn refs_are_written_as_forty_digits_and_a_line_feed() {
    let oid = oid_of(ObjectKind::Blob, b"hello\n");
    assert_eq!(
        write_ref("refs/heads/main", &oid),
        write_file(".git/refs/heads/main", "ce013625030ba8dba906f756967f9e9ca394464a\n")
    );
    assert_eq!(write_head(), write_file(".git/HEAD", "ref: refs/heads/main\n"));
}

#[test]
fn update_refs_writes_stored_refs_and_head() {
    let oid = "ce013625030ba8dba906f756967f9e9ca394464a".to_string();
    let refs = vec![
        RemoteRef { name: "HEAD".to_string(), target: oid.clone() },
        RemoteRef { name: "refs/heads/main".to_string(), target: oid.clone() },
        RemoteRef { name: "capabilities".to_string(), target: oid.clone() },
        RemoteRef { name: "refs/tags/v1".to_string(), target: oid.clone() },
    ];
    assert_eq!(mini_git::commands::clone::Clone::update_refs(&refs), vec![
        write_file(".git/refs/heads/main", "ce013625030ba8dba906f756967f9e9ca394464a\n"),
        write_file(".git/refs/tags/v1", "ce013625030ba8dba906f756967f9e9ca394464a\n"),
        write_file(".git/HEAD", "ref: refs/heads/main\n"),
    ]);
}

#[test]
fn update_refs_leaves_head_alone_without_a_remote_head() {
    let oid = "ce013625030ba8dba906f756967f9e9ca394464a".to_string();
    let refs = vec![
        RemoteRef { name: "refs/heads/dev".to_string(), target: oid.clone() },
        RemoteRef { name: "refs".to_string(), target: oid.clone() },
        RemoteRef { name: "xHEAD".to_string(), target: oid.clone() },
    ];
    assert_eq!(mini_git::commands::clone::Clone::update_refs(&refs), vec![write_file(
        ".git/refs/heads/dev",
        "ce013625030ba8dba906f756967f9e9ca394464a\n"
    )]);
    assert_eq!(mini_git::commands::clone::Clone::update_refs(&vec![]), vec![]);
}

#[test]
fn update_refs_passes_over_targets_that_are_no_identifiers() {
    let refs = vec![
        RemoteRef { name: "refs/heads/a".to_string(), target: "HEAD\0multi_ack".to_string() },
        RemoteRef { name: "refs/heads/b".to_string(), target: "ce0136".to_string() },
        RemoteRef {
            name: "refs/heads/c".to_string(),
            target: "CE013625030BA8DBA906F756967F9E9CA394464A".to_string(),
        },
        RemoteRef { name: "refs/heads/d".to_string(), target: "".to_string() },
    ];
    assert_eq!(mini_git::commands::clone::Clone::update_refs(&refs), vec![write_file(
        ".git/refs/heads/c",
        "ce013625030ba8dba906f756967f9e9ca394464a\n"
    )]);
}

#[test]
fn update_refs_takes_a_remote_tracking_head_for_head() {
    let oid = "ce013625030ba8dba906f756967f9e9ca394464a".to_string();
    let refs = vec![RemoteRef { name: "refs/remotes/origin/HEAD".to_string(), target: oid.clone() }];
    assert_eq!(mini_git::commands::clone::Clone::update_refs(&refs), vec![
        write_file(".git/refs/remotes/origin/HEAD", "ce013625030ba8dba906f756967f9e9ca394464a\n"),
        write_file(".git/HEAD", "ref: refs/heads/main\n"),
    ]);
}
