//! The duplicate filter and its key.

use signalhub::filter::DuplicateFilter;
use signalhub::filter::key_for_filter;

#[test]
fn key_is_plain_concatenation() {
    assert_eq!(key_for_filter("ab", "cd"), "abcd");
    // the collision the format implies is intentional
    assert_eq!(key_for_filter("abc", "d"), key_for_filter("ab", "cd"));
}

#[test]
fn filter_holds_what_was_put() {
    let mut f = DuplicateFilter::new();
    assert!(!f.contains("alicebobby"));
    f.put(String::from("alicebobby"));
    assert!(f.contains("alicebobby"));
    assert_eq!(f.len(), 1);
}

#[test]
fn filter_evicts_first_inserted_at_capacity() {
    let mut f = DuplicateFilter::new();
    let mut i: usize = 0;
    while i < 6001 {
        f.put(format!("key{}", i));
        i += 1;
    }
    assert_eq!(f.len(), 6000);
    assert!(!f.contains("key0"));
    assert!(f.contains("key1"));
    assert!(f.contains("key6000"));
}

#[test]
fn filter_lookup_does_not_refresh_recency() {
    let mut f = DuplicateFilter::new();
    let mut i: usize = 0;
    while i < 6000 {
        f.put(format!("key{}", i));
        i += 1;
    }
    // probing the oldest key does not save it from eviction
    assert!(f.contains("key0"));
    f.put(String::from("one-more"));
    assert!(!f.contains("key0"));
    assert!(f.contains("key1"));
}
