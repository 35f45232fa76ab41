use redis_client::mapping::Mapping;

#[test]
fn mapping_starts_empty() {
    let mapping = Mapping::new();
    assert_eq!(mapping.len(), 0);
    assert_eq!(mapping.get(b"a"), None);
}

#[test]
fn mapping_insert_then_get() {
    let mut mapping = Mapping::new();
    mapping.insert(b"a".to_vec(), b"1".to_vec());
    mapping.insert(b"b".to_vec(), b"2".to_vec());
    assert_eq!(mapping.len(), 2);
    assert_eq!(mapping.get(b"a"), Some(&b"1".to_vec()));
    assert_eq!(mapping.get(b"b"), Some(&b"2".to_vec()));
    assert_eq!(mapping.get(b"c"), None);
}

#[test]
fn mapping_insert_replaces_the_value_of_a_key() {
    let mut mapping = Mapping::new();
    mapping.insert(b"a".to_vec(), b"1".to_vec());
    mapping.insert(b"b".to_vec(), b"2".to_vec());
    mapping.insert(b"a".to_vec(), b"3".to_vec());
    assert_eq!(mapping.len(), 2);
    assert_eq!(mapping.get(b"a"), Some(&b"3".to_vec()));
    assert_eq!(mapping.key(0), Some(&b"a".to_vec()));
    assert_eq!(mapping.value(0), Some(&b"3".to_vec()));
    assert_eq!(mapping.key(1), Some(&b"b".to_vec()));
    assert_eq!(mapping.value(1), Some(&b"2".to_vec()));
    assert_eq!(mapping.key(2), None);
    assert_eq!(mapping.value(2), None);
}

#[test]
fn mapping_keys_are_compared_byte_by_byte() {
    let mut mapping = Mapping::new();
    mapping.insert(Vec::new(), b"empty".to_vec());
    mapping.insert(b"a".to_vec(), b"short".to_vec());
    mapping.insert(b"ab".to_vec(), b"long".to_vec());
    assert_eq!(mapping.len(), 3);
    assert_eq!(mapping.get(b""), Some(&b"empty".to_vec()));
    assert_eq!(mapping.get(b"a"), Some(&b"short".to_vec()));
    assert_eq!(mapping.get(b"ab"), Some(&b"long".to_vec()));
    assert_eq!(mapping.get(b"b"), None);
}
