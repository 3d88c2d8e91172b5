use mini_git::error::GitError;
use mini_git::object::{frame, oid_of, ObjectKind};
use mini_git::oid::Oid;
use mini_git::store::{decode_object, encode_object, ObjectPath, ObjectStore};
use mini_git::zlib::{compress, decompress};

#[test]
fn new_store_is_empty() {
    let store = ObjectStore::new();
    assert_eq!(store.len(), 0);
    assert!(store.get(0).is_none());
    assert!(!store.has(&oid_of(ObjectKind::Blob, b"")));
}

#[test]
fn write_gives_the_oid_and_keeps_the_compressed_frame() {
    let mut store = ObjectStore::new();
    let oid = store.write(ObjectKind::Blob, b"hello\n");
    assert_eq!(oid.to_hex(), "ce013625030ba8dba906f756967f9e9ca394464a");
    assert!(store.has(&oid));
    assert_eq!(store.len(), 1);
    let object = store.get(0).unwrap();
    assert_eq!(object.oid, oid);
    assert_eq!(decompress(&object.data), Ok(b"blob 6\0hello\n".to_vec()));
}

#[test]
fn write_twice_leaves_one_object() {
    let mut store = ObjectStore::new();
    let first = store.write(ObjectKind::Blob, b"twice");
    let data = store.get(0).unwrap().data.clone();
    let second = store.write(ObjectKind::Blob, b"twice");
    assert_eq!(first, second);
    assert_eq!(store.len(), 1);
    assert_eq!(store.get(0).unwrap().data, data);
}

#[test]
fn read_gives_back_what_was_written() {
    let mut store = ObjectStore::new();
    let payloads: Vec<Vec<u8>> = vec![vec![], b"one".to_vec(), vec![0u8; 70000]];
    for kind in [ObjectKind::Blob, ObjectKind::Tree, ObjectKind::Commit] {
        for payload in &payloads {
            let oid = store.write(kind, payload);
            assert_eq!(store.read(&oid), Ok((kind, payload.clone())));
        }
    }
    assert_eq!(store.len(), 9);
}

#[test]
fn blob_with_nul_bytes_round_trips() {
    let mut store = ObjectStore::new();
    let oid = store.write(ObjectKind::Blob, b"a\0b\0\0c");
    assert_eq!(oid.to_hex(), "0d902eb0dcf51694dbf982481989c5e8ad9e36a7");
    assert_eq!(store.read(&oid), Ok((ObjectKind::Blob, b"a\0b\0\0c".to_vec())));
}

#[test]
fn read_of_an_absent_object_is_not_found() {
    let mut store = ObjectStore::new();
    store.write(ObjectKind::Blob, b"present");
    let absent = oid_of(ObjectKind::Blob, b"absent");
    assert!(!store.has(&absent));
    assert_eq!(store.read(&absent), Err(GitError::NotFound));
}

#[test]
fn read_of_a_file_that_is_no_zlib_stream_is_corrupt() {
    let mut store = ObjectStore::new();
    let oid = oid_of(ObjectKind::Blob, b"hello\n");
    store.load(oid, b"blob 6\0hello\n".to_vec());
    assert!(store.has(&oid));
    assert_eq!(store.read(&oid), Err(GitError::Corrupt));
}

#[test]
fn read_of_a_file_that_does_not_unframe_is_corrupt() {
    let mut store = ObjectStore::new();
    let oid = oid_of(ObjectKind::Blob, b"hello\n");
    store.load(oid, compress(b"blob 7\0hello\n"));
    assert_eq!(store.read(&oid), Err(GitError::Corrupt));
}

#[test]
fn read_of_a_file_under_a_foreign_oid_is_corrupt() {
    let mut store = ObjectStore::new();
    let oid = oid_of(ObjectKind::Blob, b"hello\n");
    store.load(oid, compress(&frame(ObjectKind::Blob, b"other")));
    assert_eq!(store.read(&oid), Err(GitError::Corrupt));
}

#[test]
fn load_places_a_file_as_it_was_found() {
    let mut store = ObjectStore::new();
    let object = encode_object(ObjectKind::Tree, b"");
    assert_eq!(object.oid.to_hex(), "4b825dc642cb6eb9a060e54bf8d69288fbee4904");
    store.load(object.oid, object.data.clone());
    assert_eq!(store.len(), 1);
    assert_eq!(store.read(&object.oid), Ok((ObjectKind::Tree, vec![])));
}

#[test]
fn load_replaces_the_file_under_the_same_oid() {
    let mut store = ObjectStore::new();
    let other = store.write(ObjectKind::Blob, b"other");
    let oid = oid_of(ObjectKind::Blob, b"hello\n");
    store.load(oid, b"garbage".to_vec());
    assert_eq!(store.len(), 2);
    assert_eq!(store.read(&oid), Err(GitError::Corrupt));
    store.load(oid, compress(&frame(ObjectKind::Blob, b"hello\n")));
    assert_eq!(store.len(), 2);
    assert_eq!(store.read(&oid), Ok((ObjectKind::Blob, b"hello\n".to_vec())));
    assert_eq!(store.read(&other), Ok((ObjectKind::Blob, b"other".to_vec())));
}

#[test]
fn write_does_not_touch_a_file_that_is_there() {
    let mut store = ObjectStore::new();
    let oid = oid_of(ObjectKind::Blob, b"hello\n");
    store.load(oid, b"garbage".to_vec());
    assert_eq!(store.write(ObjectKind::Blob, b"hello\n"), oid);
    assert_eq!(store.len(), 1);
    assert_eq!(store.get(0).unwrap().data, b"garbage".to_vec());
    assert_eq!(store.read(&oid), Err(GitError::Corrupt));
}

#[test]
fn objects_come_out_in_the_order_in_which_they_came_in() {
    let mut store = ObjectStore::new();
    let a = store.write(ObjectKind::Blob, b"a");
    let b = store.write(ObjectKind::Blob, b"b");
    store.write(ObjectKind::Blob, b"a");
    let c = store.write(ObjectKind::Commit, b"a");
    assert_eq!(store.len(), 3);
    assert_eq!(store.get(0).unwrap().oid, a);
    assert_eq!(store.get(1).unwrap().oid, b);
    assert_eq!(store.get(2).unwrap().oid, c);
    assert!(store.get(3).is_none());
}

#[test]
fn decode_object_checks_the_oid() {
    let object = encode_object(ObjectKind::Commit, b"payload");
    assert_eq!(
        decode_object(&object.oid, &object.data),
        Ok((ObjectKind::Commit, b"payload".to_vec()))
    );
    let other = oid_of(ObjectKind::Blob, b"payload");
    assert_eq!(decode_object(&other, &object.data), Err(GitError::Corrupt));
    assert_eq!(decode_object(&object.oid, b"\x78\x9c"), Err(GitError::Corrupt));
}

#[test]
fn empty_blob_is_placed_under_its_fan_out_directory() {
    let path = ObjectPath::of(&oid_of(ObjectKind::Blob, b""));
    assert_eq!(path.dir, "e6");
    assert_eq!(path.file, "9de29bb2d1d6434b8b29ae775ad8c2e48c5391");
    assert_eq!(path.relative(), ".git/objects/e6/9de29bb2d1d6434b8b29ae775ad8c2e48c5391");
    assert_eq!(path.relative_dir(), ".git/objects/e6");
}

#[test]
fn object_file_is_created_once() {
    let object = encode_object(ObjectKind::Blob, b"");
    assert_eq!(object.file_to_create(true), None);
    assert_eq!(object.file_to_create(false), Some(ObjectPath::of(&object.oid)));
}

#[test]
fn fan_out_keeps_leading_zeroes() {
    let oid = Oid::from_hex("000a0b0000000000000000000000000000000f00").unwrap();
    let path = ObjectPath::of(&oid);
    assert_eq!(path.dir, "00");
    assert_eq!(path.file, "0a0b0000000000000000000000000000000f00");
}
