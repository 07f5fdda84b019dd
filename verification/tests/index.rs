//! Index keys, prefix scans and query results.

use kappa_store::index::{assertion_key, collect_assertions, subject_range};
use kappa_store::persistent::PersistentStore;
use std::collections::BTreeSet;

#[test]
fn prefix_successor_normal() {
    let s = PersistentStore::prefix_successor(b"abc");
    assert_eq!(s, Some(b"abd".to_vec()));
}

#[test]
fn prefix_successor_trailing_ff() {
    let s = PersistentStore::prefix_successor(b"ab\xff");
    assert_eq!(s, Some(b"ac".to_vec()));
}

#[test]
fn prefix_successor_all_ff() {
    let s = PersistentStore::prefix_successor(b"\xff\xff");
    assert_eq!(s, None);
}

#[test]
fn empty_prefix_has_no_successor() {
    assert_eq!(PersistentStore::prefix_successor(b""), None);
}

#[test]
fn successor_bounds_exactly_the_prefix() {
    let prefix = b"a\xfe\xff".to_vec();
    let next = PersistentStore::prefix_successor(&prefix).unwrap();
    let keys: Vec<Vec<u8>> = vec![
        b"a".to_vec(),
        b"a\xfe".to_vec(),
        b"a\xfe\xfe\xff".to_vec(),
        b"a\xfe\xff".to_vec(),
        b"a\xfe\xff\x00".to_vec(),
        b"a\xfe\xff\xff\xff".to_vec(),
        b"a\xff".to_vec(),
        b"b".to_vec(),
    ];
    for key in keys {
        assert_eq!(prefix <= key && key < next, key.starts_with(&prefix));
    }
}

#[test]
fn assertion_keys_hold_a_nul_between_subject_and_facet() {
    assert_eq!(assertion_key("subject", "facet"), "subject\x00facet");
    assert_eq!(assertion_key("", ""), "\x00");
}

#[test]
fn subject_scan_finds_only_its_subject() {
    let (start, end) = subject_range("alice");
    assert_eq!(start, "alice\x00");
    assert_eq!(end, "alice\x01");
    assert_eq!(PersistentStore::prefix_successor(start.as_bytes()), Some(end.clone().into_bytes()));
    for (subject, facet, found) in [
        ("alice", "", true),
        ("alice", "\u{10ffff}", true),
        ("alice2", "f", false),
        ("alic", "e", false),
        ("bob", "f", false),
        ("älice", "f", false),
    ] {
        let key = assertion_key(subject, facet);
        assert_eq!(start <= key && key < end, found);
    }
}

#[test]
fn query_results_are_sorted_and_unique() {
    let found: Vec<String> =
        ["b", "é", "a", "b", "aa", "", "é", "a"].iter().map(|s| s.to_string()).collect();
    let mut expected = found.clone();
    expected.sort();
    expected.dedup();
    assert_eq!(collect_assertions(found), expected);
    assert_eq!(expected, ["", "a", "aa", "b", "é"]);
    assert_eq!(collect_assertions(Vec::new()), Vec::<String>::new());
}

#[test]
fn a_subject_query_unites_its_facets() {
    let table: BTreeSet<(String, String)> = [
        ("alice", "f", "b"),
        ("alice", "g", "a"),
        ("alice", "", "b"),
        ("alice2", "f", "c"),
        ("al", "ice", "d"),
    ]
    .iter()
    .map(|(subject, facet, value)| (assertion_key(subject, facet), value.to_string()))
    .collect();
    let (start, end) = subject_range("alice");
    let found = table.iter().filter(|e| start <= e.0 && e.0 < end).map(|e| e.1.clone()).collect();
    assert_eq!(collect_assertions(found), ["a", "b"]);
}
