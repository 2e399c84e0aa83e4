use hash_finder::digest::{decimal_string, hex_string};
use hash_finder::search::SearchState;
use hash_finder::{compute_hash, find_hashes, hash_ends_with_zeros};

#[test]
fn digest_of_one_is_sha256_of_its_text() {
    assert_eq!(
        compute_hash(1),
        "6b86b273ff34fce19d6b804eff5a3f5747ada4eaa22f1d49c01e52ddb7875b4b"
    );
}

#[test]
fn digest_of_zero_and_max_have_digest_shape() {
    for v in [0u64, 9, 10, u64::MAX] {
        let d = compute_hash(v);
        assert_eq!(d.len(), 64);
        assert!(d.chars().all(|c| c.is_ascii_digit() || ('a'..='f').contains(&c)));
    }
}

#[test]
fn known_value_ends_in_three_zeros() {
    assert!(compute_hash(4163).ends_with("000"));
}

#[test]
fn decimal_text_has_no_leading_zeros() {
    assert_eq!(decimal_string(0), "0");
    assert_eq!(decimal_string(7), "7");
    assert_eq!(decimal_string(10), "10");
    assert_eq!(decimal_string(4163), "4163");
    assert_eq!(decimal_string(u64::MAX), "18446744073709551615");
}

#[test]
fn hex_text_is_lowercase_high_nibble_first() {
    assert_eq!(hex_string(&[]), "");
    assert_eq!(hex_string(&[0x00, 0x0f, 0xa5, 0xff]), "000fa5ff");
}

#[test]
fn zero_count_never_matches() {
    assert!(!hash_ends_with_zeros("abc000", 0));
    assert!(!hash_ends_with_zeros("", 0));
    assert!(!hash_ends_with_zeros(&compute_hash(4163), 0));
}

#[test]
fn count_beyond_length_never_matches() {
    assert!(!hash_ends_with_zeros("000", 4));
    assert!(hash_ends_with_zeros("000", 3));
    let d = compute_hash(4163);
    assert!(!hash_ends_with_zeros(&d, 65));
}

#[test]
fn suffix_test_counts_characters_of_non_ascii_text() {
    assert!(hash_ends_with_zeros("é00", 2));
    assert!(!hash_ends_with_zeros("é00", 3));
    assert!(!hash_ends_with_zeros("0é", 1));
}

#[test]
fn search_for_zero_results_is_empty() {
    assert!(find_hashes(3, 0).is_empty());
}

#[test]
fn search_returns_valid_distinct_pairs() {
    let results = find_hashes(3, 5);
    assert_eq!(results.len(), 5);
    for (v, d) in &results {
        assert!(*v >= 1);
        assert_eq!(*d, compute_hash(*v));
        assert!(hash_ends_with_zeros(d, 3));
    }
    for i in 0..results.len() {
        for j in 0..results.len() {
            if i != j {
                assert_ne!(results[i].0, results[j].0);
            }
        }
    }
}

#[test]
fn search_never_over_collects_on_any_pool_size() {
    for threads in [1usize, 2, 4, 8] {
        let pool = rayon::ThreadPoolBuilder::new().num_threads(threads).build().unwrap();
        for _ in 0..3 {
            let results = pool.install(|| find_hashes(3, 2));
            assert_eq!(results.len(), 2);
            for (v, d) in &results {
                assert_eq!(*d, compute_hash(*v));
                assert!(d.ends_with("000"));
            }
        }
    }
}

#[test]
fn search_state_records_up_to_the_target() {
    let mut state = SearchState::new(2);
    assert!(!state.target_reached());
    assert!(!state.record(5, "a0".to_string()));
    assert!(state.record(6, "b0".to_string()));
    assert!(state.target_reached());
    assert!(state.record(7, "c0".to_string()));
    let results = state.into_results();
    assert_eq!(results, vec![(5, "a0".to_string()), (6, "b0".to_string())]);
}

#[test]
fn search_state_with_zero_target_is_reached_at_once() {
    let state = SearchState::new(0);
    assert!(state.target_reached());
    assert!(state.into_results().is_empty());
}
