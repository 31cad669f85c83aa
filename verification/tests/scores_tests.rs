//! Score tables and their differences.

use yoinker::scores::{subtract_hashmaps, ScoreMap};

fn table(pairs: &[(&str, u64)]) -> ScoreMap {
    let mut m = ScoreMap::new();
    for (k, v) in pairs {
        m.insert(k.to_string(), *v);
    }
    m
}

#[test]
fn empty_table_has_nothing() {
    let m = ScoreMap::new();
    assert_eq!(m.len(), 0);
    assert_eq!(m.get("anyone"), None);
    assert!(!m.contains_key("anyone"));
}

#[test]
fn insert_and_get() {
    let m = table(&[("alice", 100), ("bob", 50)]);
    assert_eq!(m.len(), 2);
    assert_eq!(m.get("alice"), Some(100));
    assert_eq!(m.get("bob"), Some(50));
    assert_eq!(m.get("carol"), None);
}

#[test]
fn insert_overwrites() {
    let mut m = table(&[("alice", 100)]);
    m.insert("alice".to_string(), 7);
    assert_eq!(m.len(), 1);
    assert_eq!(m.get("alice"), Some(7));
}

#[test]
fn same_scores_ignores_order() {
    let a = table(&[("alice", 100), ("bob", 50)]);
    let b = table(&[("bob", 50), ("alice", 100)]);
    assert!(a.same_scores(&b));
    let c = table(&[("alice", 100), ("bob", 51)]);
    assert!(!a.same_scores(&c));
    let d = table(&[("alice", 100)]);
    assert!(!a.same_scores(&d));
}

#[test]
fn subtract_keeps_only_growth() {
    let newer = table(&[("alice", 150), ("bob", 50), ("carol", 20)]);
    let older = table(&[("alice", 100), ("bob", 50), ("dave", 99)]);
    let d = subtract_hashmaps(&newer, &older);
    // alice grew by 50; bob did not grow; carol is new growth;
    // dave only exists in the older table and is ignored
    assert_eq!(d.get("alice"), Some(50));
    assert_eq!(d.get("bob"), None);
    assert_eq!(d.get("carol"), Some(20));
    assert_eq!(d.get("dave"), None);
    assert_eq!(d.len(), 2);
}

#[test]
fn subtract_of_equal_tables_is_empty() {
    let x = table(&[("alice", 100), ("bob", 50)]);
    let d = subtract_hashmaps(&x, &x);
    assert_eq!(d.len(), 0);
}

#[test]
fn subtract_from_empty_basis_filters_zeroes() {
    let x = table(&[("alice", 100), ("idle", 0)]);
    let d = subtract_hashmaps(&x, &ScoreMap::new());
    assert_eq!(d.get("alice"), Some(100));
    assert_eq!(d.get("idle"), None);
    assert_eq!(d.len(), 1);
}

#[test]
fn subtract_drops_shrinking_scores() {
    let newer = table(&[("alice", 10)]);
    let older = table(&[("alice", 90)]);
    let d = subtract_hashmaps(&newer, &older);
    assert_eq!(d.len(), 0);
}
