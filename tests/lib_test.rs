use hash_finder::{compute_hash, find_hashes, hash_ends_with_zeros};

#[test]
fn test_compute_hash_known_values() {
    let hash1 = compute_hash(1);
    assert_eq!(hash1.len(), 64);

    let hash1_again = compute_hash(1);
    assert_eq!(hash1, hash1_again);
}

#[test]
fn test_hash_ends_with_zeros() {
    assert!(hash_ends_with_zeros("abc000", 3));
    assert!(!hash_ends_with_zeros("abc001", 3));
    assert!(!hash_ends_with_zeros("", 1));
}

#[test]
fn test_find_hashes_count() {
    let results = find_hashes(3, 2);
    assert_eq!(results.len(), 2);
}

#[test]
fn test_find_hashes_validity() {
    let results = find_hashes(3, 1);
    assert_eq!(results.len(), 1);
    assert!(results[0].1.ends_with("000"));
}
