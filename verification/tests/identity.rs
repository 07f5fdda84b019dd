//! Identity bindings and successions.

use kappa_store::identity::{
    binding_change, bindings_by_asserter, bindings_to_delete, change_for, plan_succession,
    records_bound, watermark_tag, BindingChange, SuccessionWalk, MAX_HOPS,
};
use kappa_store::types::StoreError;
use std::collections::HashMap;

fn strings(texts: &[&str]) -> Vec<String> {
    texts.iter().map(|t| t.to_string()).collect()
}

/// Puts a record the way a store does.
fn put(records: &mut Vec<String>, target: &str, json: &str) {
    match binding_change(records, target, json) {
        BindingChange::Keep => {}
        BindingChange::Replace(old) => {
            records.retain(|r| r != &old);
            records.push(json.to_string());
        }
        BindingChange::Insert => records.push(json.to_string()),
    }
}

/// Follows successions the way a store does.
fn follow(table: &HashMap<String, String>, anchor: &str) -> Result<Vec<String>, StoreError> {
    let mut walk = SuccessionWalk::new(anchor);
    while let Some(next) = table.get(walk.current()) {
        walk.advance(next.clone())?;
    }
    Ok(walk.into_chain())
}

fn chain_of(n: usize) -> HashMap<String, String> {
    (0..n).map(|i| (format!("a{i}"), format!("a{}", i + 1))).collect()
}

#[test]
fn a_new_target_is_appended() {
    let mut records = Vec::new();
    put(&mut records, "t1", r#"{"source":"s","target":"t1"}"#);
    put(&mut records, "t2", r#"{"source":"s","target":"t2"}"#);
    assert_eq!(records.len(), 2);
}

#[test]
fn the_same_target_is_replaced() {
    let mut records = Vec::new();
    put(&mut records, "t1", r#"{"target":"t1","v":1}"#);
    put(&mut records, "t2", r#"{"target":"t2","v":1}"#);
    put(&mut records, "t1", r#"{"target":"t1","v":2}"#);
    records.sort();
    assert_eq!(records, [r#"{"target":"t1","v":2}"#, r#"{"target":"t2","v":1}"#]);
}

#[test]
fn putting_a_binding_twice_changes_nothing() {
    let json = r#"{"target":"t","v":1}"#;
    let mut records = strings(&["not json", r#"{"target":7}"#, r#"{"other":"t"}"#]);
    put(&mut records, "t", json);
    let once = records.clone();
    assert!(matches!(binding_change(&records, "t", json), BindingChange::Keep));
    put(&mut records, "t", json);
    assert_eq!(records, once);
    assert_eq!(records.len(), 4);
}

#[test]
fn deleting_takes_the_records_of_the_target() {
    let records = strings(&[
        r#"{"target":"t","v":1}"#,
        r#"{"target":"u"}"#,
        "broken",
        r#"{"v":2,"target":"t"}"#,
    ]);
    assert_eq!(bindings_to_delete(&records, "t"), [records[0].clone(), records[3].clone()]);
    assert!(bindings_to_delete(&records, "x").is_empty());
}

#[test]
fn decisions_go_by_what_the_records_bind() {
    let records = strings(&["r0", "r1", "r2"]);
    let targets = vec![None, Some("t".to_string()), Some("t".to_string())];
    assert!(matches!(change_for(&records, &targets, "u", "r1"), BindingChange::Insert));
    assert!(matches!(change_for(&records, &targets, "t", "r1"), BindingChange::Keep));
    let replaced = change_for(&records, &targets, "t", "r2");
    assert!(matches!(replaced, BindingChange::Replace(old) if old == "r1"));
    assert_eq!(records_bound(&records, &targets, "t"), ["r1", "r2"]);
}

#[test]
fn bindings_are_listed_by_asserter() {
    let targets = strings(&["a", "b", "a", "c"]);
    assert_eq!(bindings_by_asserter(&targets, "a"), [0, 2]);
    assert!(bindings_by_asserter(&targets, "z").is_empty());
}

#[test]
fn an_anchor_cannot_succeed_itself() {
    let error = plan_succession("a", "a", "rotation", 5).unwrap_err();
    assert!(matches!(error, StoreError::Rejected(t) if t == "cannot succeed to self"));
}

#[test]
fn watermark_voids_up_to_the_effective_time() {
    let plan = plan_succession("old", "new", "rotation", 1234).unwrap();
    assert_eq!(plan.asserter, "old");
    assert_eq!(plan.invalidate_before_ms, 1234);
    assert_eq!(plan.reason, "rotation succession");
    let plan = plan_succession("old", "new", "key-compromise", 1234).unwrap();
    assert_eq!(plan.invalidate_before_ms, 0);
    assert_eq!(plan.reason, "key-compromise succession");
    assert_eq!(watermark_tag("sha256:ab"), "watermark/sha256:ab");
}

#[test]
fn a_chain_is_followed_to_its_end() {
    let table = chain_of(3);
    assert_eq!(follow(&table, "a0").unwrap(), strings(&["a0", "a1", "a2", "a3"]));
    assert_eq!(follow(&table, "a3").unwrap(), strings(&["a3"]));
    let mut walk = SuccessionWalk::new("a0");
    walk.advance("a1".to_string()).unwrap();
    assert_eq!(walk.into_current(), "a1");
}

#[test]
fn ten_hops_are_followed_and_eleven_are_not() {
    assert_eq!(MAX_HOPS, 10);
    let chain = follow(&chain_of(10), "a0").unwrap();
    assert_eq!(chain.len(), 11);
    assert_eq!(chain[10], "a10");
    let error = follow(&chain_of(11), "a0").unwrap_err();
    assert!(matches!(error, StoreError::Rejected(t) if t == "succession chain exceeds 10 hops"));
}

#[test]
fn a_cycle_is_refused() {
    let mut table = chain_of(2);
    table.insert("a2".to_string(), "a1".to_string());
    let error = follow(&table, "a0").unwrap_err();
    assert!(matches!(error, StoreError::Rejected(t) if t == "succession cycle detected at a1"));
}

#[test]
fn a_cycle_back_to_the_anchor_is_refused() {
    let mut table = chain_of(1);
    table.insert("a1".to_string(), "a0".to_string());
    for anchor in ["a0", "a1"] {
        let error = follow(&table, anchor).unwrap_err();
        let text = format!("succession cycle detected at {anchor}");
        assert!(matches!(error, StoreError::Rejected(t) if t == text));
    }
}

#[test]
fn deleting_a_second_time_finds_nothing() {
    let mut records = strings(&[r#"{"target":"t","v":1}"#, r#"{"target":"u"}"#]);
    let gone = bindings_to_delete(&records, "t");
    records.retain(|r| !gone.contains(r));
    assert_eq!(records, [r#"{"target":"u"}"#]);
    assert!(bindings_to_delete(&records, "t").is_empty());
}
