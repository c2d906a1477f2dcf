use openshare::crypto::chunk_id;
use openshare::storage::{LocalStorage, MemoryStorage, Storage};

#[test]
fn test_storage_roundtrip() {
    let mut storage = MemoryStorage::new();

    let data = b"test chunk data";
    let id = storage.put_chunk(data).unwrap();

    let retrieved = storage.get_chunk(&id).unwrap();
    assert_eq!(retrieved, Some(data.to_vec()));

    let missing = storage.get_chunk("nonexistent").unwrap();
    assert_eq!(missing, None);
}

#[test]
fn put_returns_hex_sha256() {
    let mut storage = MemoryStorage::new();
    let id = storage.put(b"test chunk data");
    assert_eq!(id, "34fa0947d659ce6343cbfe6be3a1ca882f6b21b35232210f194791d545440c40");
    assert_eq!(chunk_id(b"abc"), "ba7816bf8f01cfea414140de5dae2223b00361a396177a9cb410ff61f20015ad");
}

#[test]
fn put_twice_is_idempotent() {
    let mut storage = MemoryStorage::new();
    let first = storage.put(b"same bytes");
    let second = storage.put(b"same bytes");
    assert_eq!(first, second);
    assert_eq!(storage.get(&first), Some(b"same bytes".to_vec()));
    assert!(storage.contains(&first));
    assert!(!storage.contains("ab"));
}

#[test]
fn put_empty_chunk() {
    let mut storage = MemoryStorage::new();
    let id = storage.put(b"");
    assert_eq!(id, "e3b0c44298fc1c149afbf4c8996fb92427ae41e4649b934ca495991b7852b855");
    assert_eq!(storage.get(&id), Some(Vec::new()));
}

#[test]
fn local_storage_paths() {
    let store = LocalStorage::new("/var/data");
    assert_eq!(store.chunks_dir(), "/var/data/chunks");
    assert_eq!(store.chunk_path("abcdef"), "/var/data/chunks/ab/abcdef");
    assert_eq!(store.chunk_path("a"), "/var/data/chunks/a/a");
    assert_eq!(store.chunk_path(""), "/var/data/chunks//");
}
