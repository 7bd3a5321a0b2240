use rustic_server::layout::{collection_types, entry_location, repository_layout, shard};
use rustic_server::memory::MemoryStorage;
use rustic_server::path::{decompose, ObjectType};
use rustic_server::storage::StorageError;

fn strings(parts: &[&str]) -> Vec<String> {
    parts.iter().map(|s| s.to_string()).collect()
}

#[test]
fn locations_of_references() {
    assert_eq!(entry_location(&decompose("/repo1").unwrap()), strings(&["repo1"]));
    assert_eq!(entry_location(&decompose("/a/b").unwrap()), strings(&["a", "b"]));
    assert_eq!(entry_location(&decompose("/repo1/config").unwrap()), strings(&["repo1", "config"]));
    assert_eq!(entry_location(&decompose("/repo1/keys/").unwrap()), strings(&["repo1", "keys"]));
    assert_eq!(
        entry_location(&decompose("/repo1/keys/abcdef").unwrap()),
        strings(&["repo1", "keys", "abcdef"])
    );
    assert_eq!(
        entry_location(&decompose("/repo1/locks/0102").unwrap()),
        strings(&["repo1", "locks", "0102"])
    );
    assert_eq!(
        entry_location(&decompose("/repo1/snapshots/0102").unwrap()),
        strings(&["repo1", "snapshots", "0102"])
    );
}

#[test]
fn content_addressed_objects_lie_under_their_prefix() {
    assert_eq!(
        entry_location(&decompose("/repo1/data/abcdef").unwrap()),
        strings(&["repo1", "data", "ab", "abcdef"])
    );
    assert_eq!(
        entry_location(&decompose("/a/b/index/0f").unwrap()),
        strings(&["a", "b", "index", "0f", "0f"])
    );
}

#[test]
fn prefix_of_an_id() {
    assert_eq!(shard("abcdef"), "ab");
    assert_eq!(shard("ab"), "ab");
    assert_eq!(shard("a"), "a0");
    assert_eq!(shard(""), "00");
}

#[test]
fn layout_of_a_repository() {
    assert_eq!(
        collection_types(),
        vec![
            ObjectType::Data,
            ObjectType::Keys,
            ObjectType::Locks,
            ObjectType::Snapshots,
            ObjectType::Index
        ]
    );
    assert_eq!(
        repository_layout(&decompose("/a/repo1").unwrap()),
        vec![
            strings(&["a", "repo1", "data"]),
            strings(&["a", "repo1", "keys"]),
            strings(&["a", "repo1", "locks"]),
            strings(&["a", "repo1", "snapshots"]),
            strings(&["a", "repo1", "index"]),
        ]
    );
}

#[test]
fn new_store_is_empty() {
    let store = MemoryStorage::new();
    let object = decompose("/repo1/data/abcd").unwrap();
    assert!(!store.contains(&object));
    assert_eq!(store.size(&object), None);
    assert_eq!(store.read(&object, None), Err(StorageError::NotFound));
    assert!(store.list(&object).is_empty());
    assert!(!store.has_repository(&object));
    assert!(!store.has_directory(&object));
}

#[test]
fn exclusive_create_succeeds_once() {
    let mut store = MemoryStorage::new();
    let lock = decompose("/repo1/locks/abcd").unwrap();
    assert_eq!(store.write_new(&lock, vec![1, 2, 3]), Ok(()));
    assert_eq!(store.write_new(&lock, vec![4, 5]), Err(StorageError::AlreadyExists));
    assert_eq!(store.read(&lock, None), Ok(vec![1, 2, 3]));
    assert_eq!(store.size(&lock), Some(3));
    assert!(store.contains(&lock));
}

#[test]
fn two_writers_of_one_lock() {
    let lock = decompose("/repo1/locks/abcd").unwrap();
    for (first, second) in [(vec![1u8; 8], vec![2u8; 8]), (vec![2u8; 8], vec![1u8; 8])] {
        let mut store = MemoryStorage::new();
        let outcomes = [store.write_new(&lock, first.clone()), store.write_new(&lock, second)];
        assert_eq!(outcomes.iter().filter(|r| r.is_ok()).count(), 1);
        assert_eq!(
            outcomes.iter().filter(|r| **r == Err(StorageError::AlreadyExists)).count(),
            1
        );
        assert_eq!(store.read(&lock, None), Ok(first));
    }
}

#[test]
fn writes_need_an_object_reference() {
    let mut store = MemoryStorage::new();
    let root = decompose("/repo1").unwrap();
    let collection = decompose("/repo1/data/").unwrap();
    assert_eq!(store.write_new(&root, vec![1]), Err(StorageError::InvalidPath));
    assert_eq!(store.write_new(&collection, vec![1]), Err(StorageError::InvalidPath));
    assert_eq!(store.write_overwrite(&root, vec![1]), Err(StorageError::InvalidPath));
    assert_eq!(store.read(&collection, None), Err(StorageError::NotFound));
    assert_eq!(store.delete(&root), Err(StorageError::NotFound));
    assert!(!store.has_repository(&root));
}

#[test]
fn overwrite_replaces_the_config() {
    let mut store = MemoryStorage::new();
    let config = decompose("/repo1/config").unwrap();
    assert_eq!(store.write_overwrite(&config, vec![1, 2, 3]), Ok(()));
    assert_eq!(store.read(&config, None), Ok(vec![1, 2, 3]));
    assert_eq!(store.write_overwrite(&config, vec![7]), Ok(()));
    assert_eq!(store.read(&config, None), Ok(vec![7]));
    assert_eq!(store.size(&config), Some(1));
    assert_eq!(store.write_new(&config, vec![8]), Err(StorageError::AlreadyExists));
    assert_eq!(store.read(&config, None), Ok(vec![7]));
}

#[test]
fn overwrite_leaves_other_objects() {
    let mut store = MemoryStorage::new();
    let a = decompose("/repo1/keys/aa").unwrap();
    let b = decompose("/repo1/keys/bb").unwrap();
    let c = decompose("/repo1/keys/cc").unwrap();
    assert_eq!(store.write_new(&a, vec![1]), Ok(()));
    assert_eq!(store.write_new(&b, vec![2]), Ok(()));
    assert_eq!(store.write_new(&c, vec![3]), Ok(()));
    assert_eq!(store.write_overwrite(&b, vec![20, 21]), Ok(()));
    assert_eq!(store.read(&a, None), Ok(vec![1]));
    assert_eq!(store.read(&b, None), Ok(vec![20, 21]));
    assert_eq!(store.read(&c, None), Ok(vec![3]));
    assert_eq!(store.list(&a).len(), 3);
}

#[test]
fn ranges_are_half_open_and_checked() {
    let mut store = MemoryStorage::new();
    let object = decompose("/repo1/data/abcd").unwrap();
    assert_eq!(store.write_new(&object, vec![10, 11, 12, 13, 14]), Ok(()));
    assert_eq!(store.read(&object, Some((0, 5))), Ok(vec![10, 11, 12, 13, 14]));
    assert_eq!(store.read(&object, Some((1, 3))), Ok(vec![11, 12]));
    assert_eq!(store.read(&object, Some((4, 5))), Ok(vec![14]));
    assert_eq!(store.read(&object, Some((2, 2))), Ok(vec![]));
    assert_eq!(store.read(&object, Some((5, 5))), Ok(vec![]));
    assert_eq!(store.read(&object, Some((3, 2))), Err(StorageError::InvalidRange));
    assert_eq!(store.read(&object, Some((0, 6))), Err(StorageError::InvalidRange));
    assert_eq!(store.read(&object, Some((6, 7))), Err(StorageError::InvalidRange));
    assert_eq!(store.read(&object, Some((0, u64::MAX))), Err(StorageError::InvalidRange));
    let missing = decompose("/repo1/data/ffff").unwrap();
    assert_eq!(store.read(&missing, Some((0, 1))), Err(StorageError::NotFound));
}

#[test]
fn delete_removes_one_object() {
    let mut store = MemoryStorage::new();
    let a = decompose("/repo1/locks/aa").unwrap();
    let b = decompose("/repo1/locks/bb").unwrap();
    assert_eq!(store.delete(&a), Err(StorageError::NotFound));
    assert_eq!(store.write_new(&a, vec![1]), Ok(()));
    assert_eq!(store.write_new(&b, vec![2]), Ok(()));
    assert_eq!(store.delete(&a), Ok(()));
    assert!(!store.contains(&a));
    assert_eq!(store.read(&b, None), Ok(vec![2]));
    assert_eq!(store.delete(&a), Err(StorageError::NotFound));
    assert_eq!(store.write_new(&a, vec![3]), Ok(()));
    assert_eq!(store.read(&a, None), Ok(vec![3]));
}

#[test]
fn list_gives_the_ids_of_one_collection() {
    let mut store = MemoryStorage::new();
    for raw in ["/repo1/data/aa", "/repo1/data/bb", "/repo1/keys/cc", "/repo2/data/dd", "/repo1/config"] {
        assert_eq!(store.write_new(&decompose(raw).unwrap(), vec![0]), Ok(()));
    }
    let mut data = store.list(&decompose("/repo1/data/").unwrap());
    data.sort();
    assert_eq!(data, strings(&["aa", "bb"]));
    assert_eq!(store.list(&decompose("/repo1/keys").unwrap()), strings(&["cc"]));
    assert_eq!(store.list(&decompose("/repo2/data/").unwrap()), strings(&["dd"]));
    assert!(store.list(&decompose("/repo1/locks/").unwrap()).is_empty());
    assert!(store.list(&decompose("/repo3/data/").unwrap()).is_empty());
    assert!(store.list(&decompose("/repo1/config").unwrap()).is_empty());
    assert!(store.list(&decompose("/repo1").unwrap()).is_empty());
}

#[test]
fn layout_is_idempotent() {
    let mut store = MemoryStorage::new();
    let root = decompose("/repo1").unwrap();
    assert_eq!(store.create_repository_layout(&root), Ok(()));
    let collections = ["data", "keys", "locks", "snapshots", "index"];
    for name in collections {
        assert!(store.has_directory(&decompose(&format!("/repo1/{name}/")).unwrap()), "{name}");
        assert!(!store.has_directory(&decompose(&format!("/repo2/{name}/")).unwrap()), "{name}");
    }
    assert!(!store.has_directory(&decompose("/repo1/config").unwrap()));
    assert!(!store.has_directory(&root));
    assert_eq!(store.create_repository_layout(&root), Ok(()));
    for name in collections {
        assert!(store.has_directory(&decompose(&format!("/repo1/{name}/")).unwrap()), "{name}");
    }
    assert!(store.has_repository(&root));
    assert_eq!(store.remove_repository(&root), Ok(()));
    for name in collections {
        assert!(!store.has_directory(&decompose(&format!("/repo1/{name}/")).unwrap()), "{name}");
    }
    assert!(!store.has_repository(&root));
}

#[test]
fn removing_a_repository_takes_everything_below_it() {
    let mut store = MemoryStorage::new();
    let outer = decompose("/a").unwrap();
    let inner = decompose("/a/b").unwrap();
    let other = decompose("/ab").unwrap();
    assert_eq!(store.create_repository_layout(&inner), Ok(()));
    assert_eq!(store.create_repository_layout(&other), Ok(()));
    let object = decompose("/a/b/data/abcd").unwrap();
    let config = decompose("/a/config").unwrap();
    let kept = decompose("/ab/data/abcd").unwrap();
    assert_eq!(store.write_new(&object, vec![1]), Ok(()));
    assert_eq!(store.write_new(&config, vec![2]), Ok(()));
    assert_eq!(store.write_new(&kept, vec![3]), Ok(()));
    assert!(store.has_repository(&outer));
    assert_eq!(store.remove_repository(&outer), Ok(()));
    assert!(!store.has_repository(&outer));
    assert!(!store.has_repository(&inner));
    assert!(!store.contains(&object));
    assert!(!store.contains(&config));
    assert!(!store.has_directory(&decompose("/a/b/data/").unwrap()));
    assert!(store.has_repository(&other));
    assert!(store.has_directory(&decompose("/ab/data/").unwrap()));
    assert_eq!(store.read(&kept, None), Ok(vec![3]));
}

#[test]
fn removing_a_missing_repository_fails() {
    let mut store = MemoryStorage::new();
    let root = decompose("/repo1").unwrap();
    assert_eq!(store.remove_repository(&root), Err(StorageError::RemovingRepositoryFailed));
    assert_eq!(store.create_repository_layout(&root), Ok(()));
    assert_eq!(store.remove_repository(&root), Ok(()));
    assert_eq!(store.remove_repository(&root), Err(StorageError::RemovingRepositoryFailed));
    let object = decompose("/repo1/keys/abcd").unwrap();
    assert_eq!(store.write_new(&object, vec![1]), Ok(()));
    assert_eq!(store.remove_repository(&root), Ok(()));
    assert!(!store.contains(&object));
}
