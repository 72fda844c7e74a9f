use sled_storage::SledStorage;

/// The JSON bytes of an entity {data: <value>}, the shape every test stores.
fn entity(value: &str) -> Vec<u8> {
    let mut map = serde_json::Map::new();
    map.insert("data".to_string(), serde_json::Value::from(value));
    serde_json::to_vec(&serde_json::Value::Object(map)).unwrap()
}

/// Decodes stored entity bytes back into a JSON value.
fn decode(bytes: &[u8]) -> serde_json::Value {
    serde_json::from_slice(bytes).unwrap()
}

fn setup_storage() -> SledStorage {
    let dir = tempfile::tempdir().unwrap();
    SledStorage::new_from_path(dir.path().to_str().unwrap()).unwrap()
}

#[test]
fn test_new_from_path() {
    let dir = tempfile::tempdir().unwrap();
    let storage = SledStorage::new_from_path(dir.path().to_str().unwrap());
    assert!(storage.is_ok());
    let read = storage.unwrap().read(b"t", b"k");
    assert_eq!(read.unwrap(), None);
}

#[test]
fn test_new_from_db() {
    let db = sled::open(tempfile::tempdir().unwrap()).unwrap();
    let storage = SledStorage::new_from_db(db);
    assert!(storage.is_ok());
    let read = storage.unwrap().read(b"t", b"k");
    assert_eq!(read.unwrap(), None);
}

#[test]
fn test_write_and_read() {
    let mut storage = setup_storage();
    let tree = b"test_tree";
    let key = b"test_key";
    let value = entity("test_data");

    let write_result = storage.write(tree, key, value.clone());
    assert!(write_result.is_ok());

    let read_result = storage.read(tree, key);
    assert!(read_result.is_ok());
    assert_eq!(read_result.unwrap(), Some(value));
}

#[test]
fn test_append_and_read_list() {
    let mut storage = setup_storage();
    let tree = b"test_tree";
    let key = b"test_key";
    let values = vec![entity("data1"), entity("data2")];

    for value in &values {
        let append_result = storage.append(tree, key, value.clone());
        assert!(append_result.is_ok());
    }

    let read_result = storage.read_list(tree, key);
    assert!(read_result.is_ok());
    assert_eq!(read_result.unwrap(), values);
}

#[test]
fn test_remove_item() {
    let mut storage = setup_storage();
    let tree = b"test_tree";
    let key = b"test_key";
    let values = vec![entity("data1"), entity("data2")];

    for value in &values {
        storage.append(tree, key, value.clone()).unwrap();
    }

    let remove_result = storage.remove_item(tree, key, values[0].clone());
    assert!(remove_result.is_ok());

    let read_result = storage.read_list(tree, key);
    assert!(read_result.is_ok());
    assert_eq!(read_result.unwrap(), vec![values[1].clone()]);
}

#[test]
fn test_delete() {
    let mut storage = setup_storage();
    let tree = b"test_tree";
    let key = b"test_key";
    let value = entity("test_data");

    storage.write(tree, key, value).unwrap();

    let delete_result = storage.delete(tree, key);
    assert!(delete_result.is_ok());

    let read_result = storage.read(tree, key);
    assert!(read_result.is_ok());
    assert_eq!(read_result.unwrap(), None);
}

#[test]
fn test_read_nonexistent_key() {
    let storage = setup_storage();
    let prefix = b"nonexistent_prefix";
    let key = b"nonexistent_key";

    let read_result = storage.read(prefix, key);
    assert!(read_result.is_ok());
    assert_eq!(read_result.unwrap(), None);
}

#[test]
fn test_remove_from_empty_list() {
    let mut storage = setup_storage();
    let prefix = b"test_prefix";
    let key = b"test_key";
    let value = entity("test_data");

    // Try to remove from non-existent list
    let remove_result = storage.remove_item(prefix, key, value);
    assert!(remove_result.is_ok());
}

#[test]
fn test_read_empty_list() {
    let storage = setup_storage();
    let prefix = b"test_prefix";
    let key = b"test_key";

    let read_result = storage.read_list(prefix, key);
    assert!(read_result.is_ok());
    assert!(read_result.unwrap().is_empty());
}

#[test]
fn test_delete_all_data() {
    let mut storage = setup_storage();
    let trees = [b"tree1", b"tree2", b"tree3"];
    let keys = [b"key1", b"key2"];
    let value = entity("test_data");

    // Write data to multiple trees and keys
    for tree in &trees {
        for key in &keys {
            storage.write(*tree, *key, value.clone()).unwrap();
        }
    }

    // Delete all data
    let delete_result = storage.delete_all_data();
    assert!(delete_result.is_ok());

    // Verify all data is gone
    for tree in &trees {
        for key in &keys {
            let read_result = storage.read(*tree, *key);
            assert!(read_result.is_ok());
            assert_eq!(read_result.unwrap(), None);
        }
    }

    // Verify the lists read back empty as well
    for tree in &trees {
        for key in &keys {
            assert!(storage.read_list(*tree, *key).unwrap().is_empty());
        }
    }
}

#[test]
fn test_remove_item_duplicate_removes_one() {
    // With two byte-identical elements, removal takes out exactly the first.
    let mut storage = setup_storage();
    let tree = b"test_tree";
    let key = b"test_key";
    let twice = entity("twin");
    let other = entity("other");

    storage.append(tree, key, twice.clone()).unwrap();
    storage.append(tree, key, twice.clone()).unwrap();
    storage.append(tree, key, other.clone()).unwrap();

    storage.remove_item(tree, key, twice.clone()).unwrap();

    let rest = storage.read_list(tree, key).unwrap();
    assert_eq!(rest, vec![twice, other]);
}

#[test]
fn test_remove_item_no_match_is_noop() {
    let mut storage = setup_storage();
    let tree = b"test_tree";
    let key = b"test_key";
    let kept = entity("kept");

    storage.append(tree, key, kept.clone()).unwrap();
    storage.remove_item(tree, key, entity("absent")).unwrap();

    let rest = storage.read_list(tree, key).unwrap();
    assert_eq!(rest, vec![kept]);
}

#[test]
fn test_read_list_on_scalar_errors() {
    // A scalar entry is not a stored list: reading it as one is a
    // serialization error, never a silent empty result.
    let mut storage = setup_storage();
    let tree = b"test_tree";
    let key = b"test_key";

    storage.write(tree, key, vec![1, 2, 3]).unwrap();

    let read_result = storage.read_list(tree, key);
    assert_eq!(
        read_result,
        Err(sled_storage::SledStorageError::SerializationError)
    );
}

#[test]
fn test_read_on_list_errors() {
    // A stored list is not a scalar entry: reading it as one is a
    // serialization error, never an absent value.
    let mut storage = setup_storage();
    let tree = b"test_tree";
    let key = b"test_key";

    storage.append(tree, key, entity("elem")).unwrap();

    let read_result = storage.read(tree, key);
    assert_eq!(
        read_result,
        Err(sled_storage::SledStorageError::SerializationError)
    );
}

#[test]
fn test_append_on_scalar_errors() {
    // Appending where a scalar sits fails the decode and writes nothing:
    // the stored value is untouched.
    let mut storage = setup_storage();
    let tree = b"test_tree";
    let key = b"test_key";

    storage.write(tree, key, vec![1, 2, 3]).unwrap();

    let append_result = storage.append(tree, key, entity("x"));
    assert_eq!(
        append_result,
        Err(sled_storage::SledStorageError::SerializationError)
    );
    assert_eq!(storage.read(tree, key).unwrap(), Some(vec![1, 2, 3]));
}

#[test]
fn test_write_overwrites() {
    let mut storage = setup_storage();
    let tree = b"test_tree";
    let key = b"test_key";

    storage.write(tree, key, entity("first")).unwrap();
    storage.write(tree, key, entity("second")).unwrap();

    assert_eq!(storage.read(tree, key).unwrap(), Some(entity("second")));
}

#[test]
fn test_flush() {
    let mut storage = setup_storage();
    storage.write(b"t", b"k", entity("x")).unwrap();
    assert!(storage.flush().is_ok());
    assert_eq!(storage.read(b"t", b"k").unwrap(), Some(entity("x")));
}

#[test]
fn test_scenario_write_read_append() {
    // Build a key, store an entity under it, read it back, then grow a list.
    let built = sled_storage::helpers::build_key_from_vec::<1>(b"test_label", vec![1, 2, 3, 4]);
    let mut expected = b"test_label".to_vec();
    expected.extend_from_slice(&[1, 2, 3, 4, 0, 1]);
    assert_eq!(built, expected);
    assert_eq!(built.len(), 16);

    let mut storage = setup_storage();
    storage.write(b"t", b"k", entity("x")).unwrap();
    let back = storage.read(b"t", b"k").unwrap().unwrap();
    assert_eq!(decode(&back), decode(&entity("x")));

    storage.append(b"t", b"list", entity("a")).unwrap();
    storage.append(b"t", b"list", entity("b")).unwrap();
    let list = storage.read_list(b"t", b"list").unwrap();
    let decoded: Vec<serde_json::Value> = list.iter().map(|b| decode(b)).collect();
    assert_eq!(decoded, vec![decode(&entity("a")), decode(&entity("b"))]);
}
