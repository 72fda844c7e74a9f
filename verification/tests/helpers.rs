use sled_storage::helpers::build_key_from_vec;
use sled_storage::helpers::epoch_key_pairs_id;

/// The JSON bytes of an object with one field holding a string.
fn json_string_field(field: &str, value: &str) -> Vec<u8> {
    let mut map = serde_json::Map::new();
    map.insert(field.to_string(), serde_json::Value::from(value));
    serde_json::to_vec(&serde_json::Value::Object(map)).unwrap()
}

/// The JSON bytes of an object with one field holding an unsigned number.
fn json_number_field(field: &str, value: u64) -> Vec<u8> {
    let mut map = serde_json::Map::new();
    map.insert(field.to_string(), serde_json::Value::from(value));
    serde_json::to_vec(&serde_json::Value::Object(map)).unwrap()
}

#[test]
fn test_build_key_from_vec() {
    let label = b"test_label";
    let key = vec![1, 2, 3, 4];
    let result = build_key_from_vec::<1>(label, key);
    assert_eq!(
        result,
        vec![116, 101, 115, 116, 95, 108, 97, 98, 101, 108, 1, 2, 3, 4, 0, 1]
    );
}

#[test]
fn test_build_key() {
    // The key {id: 42}, serialized before the key is built.
    let label = b"test_label";
    let key = json_number_field("id", 42);
    let result = build_key_from_vec::<1>(label, key);
    assert_eq!(
        result,
        vec![
            116, 101, 115, 116, 95, 108, 97, 98, 101, 108, 123, 34, 105, 100, 34, 58, 52, 50,
            125, 0, 1
        ]
    );
}

#[test]
fn test_epoch_key_pairs_id() {
    let expected_group_id = json_string_field("id", "test_group");
    let expected_epoch = json_number_field("epoch", 42);
    let leaf_index = 123u32;

    let result = epoch_key_pairs_id(&expected_group_id, &expected_epoch, leaf_index).unwrap();

    let expected_leaf = serde_json::to_vec(&leaf_index).unwrap();

    // Check that the result starts with the group_id
    assert!(result.starts_with(&expected_group_id));

    // Check that epoch and leaf_index components are present in the correct order
    let epoch_start = expected_group_id.len();
    let leaf_start = epoch_start + expected_epoch.len();

    assert_eq!(&result[epoch_start..leaf_start], expected_epoch);
    assert_eq!(&result[leaf_start..], expected_leaf);
}

#[test]
fn test_build_key_from_vec_empty() {
    let label = b"";
    let key = Vec::<u8>::new();
    let result = build_key_from_vec::<1>(label, key);
    assert_eq!(result, vec![0, 1]); // Just contains version number
}

#[test]
fn test_build_key_different_versions() {
    let label = b"test";
    let key = vec![1, 2, 3];

    let result_v1 = build_key_from_vec::<1>(label, key.clone());
    let result_v2 = build_key_from_vec::<2>(label, key.clone());

    assert_eq!(result_v1[result_v1.len() - 2..], vec![0, 1]);
    assert_eq!(result_v2[result_v2.len() - 2..], vec![0, 2]);
}

#[test]
fn test_build_key_with_special_characters() {
    let label = b"test_label";
    let key = json_string_field("value", "special@#$%^&*");
    let result = build_key_from_vec::<1>(label, key);
    // We don't assert exact bytes since JSON serialization might vary,
    // but we ensure the key is properly constructed
    assert!(result.starts_with(label));
    assert_eq!(result[result.len() - 2..], vec![0, 1]);
}

#[test]
fn test_epoch_key_pairs_id_with_large_values() {
    let expected_group_id = json_string_field("id", &"a".repeat(1000));
    let expected_epoch = json_number_field("epoch", u64::MAX);
    let leaf_index = u32::MAX;

    let result = epoch_key_pairs_id(&expected_group_id, &expected_epoch, leaf_index).unwrap();

    let expected_leaf = serde_json::to_vec(&leaf_index).unwrap();

    assert!(result.starts_with(&expected_group_id));
    assert_eq!(
        result.len(),
        expected_group_id.len() + expected_epoch.len() + expected_leaf.len()
    );
}

#[test]
fn test_build_key_with_unicode() {
    let label = "\u{1F511}".as_bytes(); // Unicode label
    let key = json_string_field("value", "Hello \u{4E16}\u{754C}");
    let result = build_key_from_vec::<1>(label, key);
    assert!(result.starts_with(label));
    assert_eq!(result[result.len() - 2..], vec![0, 1]);
}

#[test]
fn test_epoch_key_pairs_id_leaf_digits() {
    // The leaf index is encoded as its plain decimal digits.
    let result = epoch_key_pairs_id(b"g", b"e", 907).unwrap();
    assert_eq!(result, b"ge907".to_vec());
}
