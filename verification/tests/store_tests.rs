use recent_paths::records::{load_records, render_output, LIMIT};
use recent_paths::store::{promote_or_insert, RecordStore};

fn store_of(items: &[&str]) -> RecordStore {
    let mut s = RecordStore::new();
    for it in items {
        s.insert(it.to_string());
    }
    s
}

fn contents(s: &RecordStore) -> Vec<String> {
    let mut out = Vec::new();
    let mut i = 0;
    while let Some(v) = s.get_at(i) {
        out.push(v);
        i += 1;
    }
    out
}

#[test]
fn insert_keeps_order_and_dedups() {
    let mut s = RecordStore::new();
    assert!(s.insert("a".to_string()));
    assert!(s.insert("b".to_string()));
    assert!(!s.insert("a".to_string()));
    assert_eq!(s.len(), 2);
    assert_eq!(contents(&s), vec!["a", "b"]);
}

#[test]
fn remove_preserves_relative_order() {
    let mut s = store_of(&["a", "b", "c"]);
    assert!(s.remove(&"b".to_string()));
    assert!(!s.remove(&"b".to_string()));
    assert_eq!(contents(&s), vec!["a", "c"]);
}

#[test]
fn promote_of_most_recent_changes_nothing() {
    let mut loaded = store_of(&["a", "b", "c"]);
    let mut fresh = RecordStore::new();
    promote_or_insert(&mut loaded, &mut fresh, "a".to_string());
    assert_eq!(contents(&loaded), vec!["a", "b", "c"]);
    assert_eq!(fresh.len(), 0);
}

#[test]
fn promote_of_non_front_moves_it_to_fresh() {
    let mut loaded = store_of(&["a", "b", "c"]);
    let mut fresh = RecordStore::new();
    promote_or_insert(&mut loaded, &mut fresh, "b".to_string());
    assert_eq!(contents(&loaded), vec!["a", "c"]);
    assert_eq!(contents(&fresh), vec!["b"]);
}

#[test]
fn promote_of_unknown_record_only_adds_it() {
    let mut loaded = store_of(&["a", "b"]);
    let mut fresh = RecordStore::new();
    promote_or_insert(&mut loaded, &mut fresh, "x".to_string());
    assert_eq!(contents(&loaded), vec!["a", "b"]);
    assert_eq!(contents(&fresh), vec!["x"]);
}

#[test]
fn promote_twice_is_idempotent() {
    let mut loaded = store_of(&["a", "b", "c"]);
    let mut fresh = RecordStore::new();
    promote_or_insert(&mut loaded, &mut fresh, "c".to_string());
    let l1 = contents(&loaded);
    let f1 = contents(&fresh);
    promote_or_insert(&mut loaded, &mut fresh, "c".to_string());
    assert_eq!(contents(&loaded), l1);
    assert_eq!(contents(&fresh), f1);
}

#[test]
fn load_dedups_in_file_order() {
    let lines = vec![
        "x".to_string(),
        "y".to_string(),
        "x".to_string(),
        "z".to_string(),
        "y".to_string(),
    ];
    let s = load_records(lines);
    assert_eq!(contents(&s), vec!["x", "y", "z"]);
}

#[test]
fn render_puts_fresh_first_then_loaded() {
    let fresh = store_of(&["n1", "n2"]);
    let loaded = store_of(&["o1", "o2", "o3"]);
    let out = render_output(&fresh, &loaded, 10);
    assert_eq!(out, vec!["n1", "n2", "o1", "o2", "o3"]);
}

#[test]
fn render_truncates_loaded_to_capacity() {
    let fresh = store_of(&["n1", "n2"]);
    let loaded = store_of(&["o1", "o2", "o3"]);
    let out = render_output(&fresh, &loaded, 4);
    assert_eq!(out, vec!["n1", "n2", "o1", "o2"]);
}

#[test]
fn render_with_full_fresh_batch_keeps_no_loaded() {
    let fresh = store_of(&["n1", "n2", "n3"]);
    let loaded = store_of(&["o1"]);
    let out = render_output(&fresh, &loaded, 3);
    assert_eq!(out, vec!["n1", "n2", "n3"]);
}

#[test]
fn capacity_keeps_the_most_recent_records() {
    let mut fresh = RecordStore::new();
    for i in 0..5000u32 {
        fresh.insert(format!("new{}", i));
    }
    let mut loaded = RecordStore::new();
    for i in 0..20000u32 {
        loaded.insert(format!("old{}", i));
    }
    let out = render_output(&fresh, &loaded, LIMIT);
    assert_eq!(out.len(), 20000);
    assert_eq!(out[0], "new0");
    assert_eq!(out[4999], "new4999");
    assert_eq!(out[5000], "old0");
    assert_eq!(out[19999], "old14999");
    for w in out.windows(2) {
        assert_ne!(w[0], w[1]);
    }
}
