//! String hash functions.

use aistore::infrastructure::hash::{fnv1a_hash, hash_string, murmur3_hash, xxh64_hash};
use aistore::infrastructure::hash_table::HashTable;

#[test]
fn test_fnv1a_hash_consistency() {
    let s = "hello world";
    let hash1 = fnv1a_hash(s);
    let hash2 = fnv1a_hash(s);
    let hash3 = fnv1a_hash(s);

    assert_eq!(hash1, hash2);
    assert_eq!(hash2, hash3);
}

#[test]
fn test_hash_string_consistency() {
    let s = "hello world";
    let hash1 = hash_string(s);
    let hash2 = hash_string(s);
    let hash3 = hash_string(s);

    assert_eq!(hash1, hash2);
    assert_eq!(hash2, hash3);

    assert_eq!(hash1, fnv1a_hash(s));
}

#[test]
fn test_hash_different_strings() {
    let s1 = "hello";
    let s2 = "world";
    let s3 = "hello world";

    let hash1_fnv = fnv1a_hash(s1);
    let hash2_fnv = fnv1a_hash(s2);
    let hash3_fnv = fnv1a_hash(s3);

    assert_ne!(hash1_fnv, hash2_fnv);
    assert_ne!(hash2_fnv, hash3_fnv);
    assert_ne!(hash1_fnv, hash3_fnv);
}

#[test]
fn test_hash_empty_string() {
    let s = "";

    let hash_fnv = fnv1a_hash(s);
    let hash_default = hash_string(s);

    assert_eq!(hash_default, hash_fnv);
    assert_eq!(hash_fnv, fnv1a_hash(s));
}

#[test]
fn test_hash_long_string() {
    let s = "This is a very long string that should test the hash function's ability to handle longer inputs efficiently.";

    let hash_fnv = fnv1a_hash(s);
    let hash_default = hash_string(s);

    assert_eq!(hash_fnv, fnv1a_hash(s));
    assert_eq!(hash_default, hash_string(s));
    assert_eq!(hash_default, hash_fnv);
}

#[test]
fn test_hash_similar_strings() {
    let s1 = "test string 1";
    let s2 = "test string 2";

    let hash1_fnv = fnv1a_hash(s1);
    let hash2_fnv = fnv1a_hash(s2);

    let hash1_murmur3 = murmur3_hash(s1);
    let hash2_murmur3 = murmur3_hash(s2);

    assert_ne!(hash1_fnv, hash2_fnv);
    assert_ne!(hash1_murmur3, hash2_murmur3);
}

#[test]
fn test_murmur3_hash_consistency() {
    let s = "hello world";
    let hash1 = murmur3_hash(s);
    let hash2 = murmur3_hash(s);
    let hash3 = murmur3_hash(s);

    assert_eq!(hash1, hash2);
    assert_eq!(hash2, hash3);
}

#[test]
fn test_murmur3_hash_different_strings() {
    let s1 = "hello";
    let s2 = "world";
    let s3 = "hello world";

    let hash1 = murmur3_hash(s1);
    let hash2 = murmur3_hash(s2);
    let hash3 = murmur3_hash(s3);

    assert_ne!(hash1, hash2);
    assert_ne!(hash2, hash3);
    assert_ne!(hash1, hash3);
}

#[test]
fn test_murmur3_hash_empty_string() {
    let s = "";

    let hash = murmur3_hash(s);

    assert_eq!(hash, murmur3_hash(s));
}

#[test]
fn test_murmur3_hash_long_string() {
    let s = "This is a very long string that should test the hash function's ability to handle longer inputs efficiently.";

    let hash = murmur3_hash(s);

    assert_eq!(hash, murmur3_hash(s));
}

#[test]
fn xxh64_consistency() {
    let s = "hello world";
    assert_eq!(xxh64_hash(s), xxh64_hash(s));
    assert_ne!(xxh64_hash("hello"), xxh64_hash("world"));
}

#[test]
fn hash_table_insert_get_remove() {
    let mut t: HashTable<u64> = HashTable::new(8);
    assert!(t.is_empty());
    t.insert(1, 10);
    t.insert(2, 20);
    t.insert(1, 11);
    assert_eq!(t.size(), 2);
    assert_eq!(t.get(1), Some(&11));
    assert_eq!(t.get(2), Some(&20));
    assert_eq!(t.get(3), None);
    assert_eq!(t.remove(1), Some(11));
    assert_eq!(t.get(1), None);
    assert_eq!(t.size(), 1);
}
