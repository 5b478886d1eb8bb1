use karsher_db::store::{Batch, BatchOp, InMemoryDb};

fn read_string(db: &InMemoryDb, k: u64) -> Option<String> {
    db.read(k, |v: &String| Some(v.clone()))
}

#[test]
fn no_current_tree_gives_absent_results() {
    let mut db = InMemoryDb::new();
    assert_eq!(db.get_current_tree(), None);
    assert_eq!(db.insert(1, "x".to_string()), None);
    assert_eq!(db.len(), None);
    assert_eq!(db.contains(&1), None);
    assert_eq!(read_string(&db, 1), None);
    assert_eq!(db.remove(1), None);
    assert!(db.keys().is_empty());
    assert!(db.list_all().is_empty());
    assert_eq!(db.apply_batch(Batch { ops: vec![BatchOp::Insert(1, "x".to_string())] }), None);
    db.clear();
    assert!(db.tree_names().is_empty());
}

#[test]
fn insert_read_remove_on_current_tree() {
    let mut db = InMemoryDb::new();
    db.open_tree("t");
    assert_eq!(db.get_current_tree(), Some("t".to_string()));
    assert_eq!(db.insert(7, "a".to_string()), None);
    assert_eq!(db.insert(7, "b".to_string()), Some("a".to_string()));
    assert_eq!(db.len(), Some(1));
    assert_eq!(db.contains(&7), Some(true));
    assert_eq!(db.contains(&8), Some(false));
    assert_eq!(read_string(&db, 7), Some("b".to_string()));
    assert_eq!(db.read(7, |v: &String| Some(v.len())), Some(1));
    assert_eq!(read_string(&db, 8), None);
    assert_eq!(db.remove(7), Some("b".to_string()));
    assert_eq!(db.remove(7), None);
    assert_eq!(db.len(), Some(0));
}

#[test]
fn tree_isolation() {
    let mut db = InMemoryDb::new();
    db.open_tree("b");
    db.insert(1, "in b".to_string());
    db.open_tree("a");
    db.insert(42, "only in a".to_string());
    db.open_tree("b");
    assert_eq!(db.contains(&42), Some(false));
    assert_eq!(read_string(&db, 42), None);
    assert!(db.drop_tree("a"));
    db.open_tree("b");
    assert_eq!(db.len(), Some(1));
    assert_eq!(read_string(&db, 1), Some("in b".to_string()));
}

#[test]
fn merge_trees_copies_and_source_wins() {
    let mut db = InMemoryDb::new();
    db.open_tree("a");
    db.insert(1, "x".to_string());
    db.insert(2, "y".to_string());
    db.open_tree("b");
    db.insert(2, "z".to_string());
    db.insert(3, "w".to_string());
    assert_eq!(db.merge_trees("a", "b"), Some(()));
    db.open_tree("b");
    assert_eq!(db.len(), Some(3));
    assert_eq!(read_string(&db, 1), Some("x".to_string()));
    assert_eq!(read_string(&db, 2), Some("y".to_string()));
    assert_eq!(read_string(&db, 3), Some("w".to_string()));
    db.open_tree("a");
    assert_eq!(db.len(), Some(2));
    assert_eq!(read_string(&db, 1), Some("x".to_string()));
    assert_eq!(read_string(&db, 2), Some("y".to_string()));
}

#[test]
fn merge_with_missing_tree_fails() {
    let mut db = InMemoryDb::new();
    db.open_tree("a");
    assert_eq!(db.merge_trees("a", "nope"), None);
    assert_eq!(db.merge_trees("nope", "a"), None);
    assert_eq!(db.merge_current_tree_with("nope"), None);
}

#[test]
fn merge_current_tree_with_source() {
    let mut db = InMemoryDb::new();
    db.open_tree("src");
    db.insert(5, "five".to_string());
    db.open_tree("dst");
    db.insert(5, "old".to_string());
    db.insert(6, "six".to_string());
    assert_eq!(db.merge_current_tree_with("src"), Some(()));
    assert_eq!(read_string(&db, 5), Some("five".to_string()));
    assert_eq!(read_string(&db, 6), Some("six".to_string()));
    assert_eq!(db.get_current_tree(), Some("dst".to_string()));
}

#[test]
fn open_tree_twice_is_like_once() {
    let mut db = InMemoryDb::new();
    db.open_tree("t");
    db.insert(1, "one".to_string());
    db.open_tree("t");
    db.open_tree("t");
    assert_eq!(db.tree_names(), vec!["t".to_string()]);
    assert_eq!(db.len(), Some(1));
    assert_eq!(db.get_current_tree(), Some("t".to_string()));
}

#[test]
fn drop_current_tree_clears_selection() {
    let mut db = InMemoryDb::new();
    db.open_tree("t");
    db.insert(1, "one".to_string());
    assert!(db.drop_tree("t"));
    assert!(!db.drop_tree("t"));
    assert_eq!(db.get_current_tree(), None);
    assert_eq!(db.len(), None);
    db.open_tree("t");
    assert_eq!(db.len(), Some(0));
}

#[test]
fn clear_tree_and_clear() {
    let mut db = InMemoryDb::new();
    db.open_tree("a");
    db.insert(1, "one".to_string());
    db.open_tree("b");
    db.insert(2, "two".to_string());
    assert!(db.clear_tree("a"));
    assert!(!db.clear_tree("missing"));
    assert_eq!(db.len(), Some(1));
    db.clear();
    assert_eq!(db.len(), Some(0));
    db.open_tree("a");
    assert_eq!(db.len(), Some(0));
    let mut names = db.tree_names();
    names.sort();
    assert_eq!(names, vec!["a".to_string(), "b".to_string()]);
}

#[test]
fn apply_batch_in_order() {
    let mut db = InMemoryDb::new();
    db.open_tree("t");
    db.insert(9, "nine".to_string());
    let batch = Batch {
        ops: vec![
            BatchOp::Insert(1, "a".to_string()),
            BatchOp::Insert(1, "b".to_string()),
            BatchOp::Insert(2, "c".to_string()),
            BatchOp::Remove(2),
            BatchOp::Remove(9),
        ],
    };
    assert_eq!(db.apply_batch(batch), Some(()));
    assert_eq!(db.len(), Some(1));
    assert_eq!(read_string(&db, 1), Some("b".to_string()));
}

#[test]
fn keys_and_list_all() {
    let mut db = InMemoryDb::new();
    db.open_tree("t");
    db.insert(3, "c".to_string());
    db.insert(1, "a".to_string());
    db.insert(2, "b".to_string());
    let mut keys = db.keys();
    keys.sort();
    assert_eq!(keys, vec![1, 2, 3]);
    let all = db.list_all();
    assert_eq!(all.len(), 3);
    assert_eq!(all.get(&2), Some(&"b".to_string()));
}

#[test]
fn snapshot_round_trip_in_memory() {
    let mut db = InMemoryDb::new();
    db.open_tree("a");
    db.insert(1, "x".to_string());
    db.open_tree("b");
    db.insert(2, "y".to_string());
    let mut back = InMemoryDb::from_snapshot(db.to_snapshot());
    assert_eq!(back.get_current_tree(), Some("b".to_string()));
    back.open_tree("a");
    assert_eq!(read_string(&back, 1), Some("x".to_string()));
    back.open_tree("b");
    assert_eq!(read_string(&back, 2), Some("y".to_string()));
    assert_eq!(back.len(), Some(1));
}

#[test]
fn snapshot_naming_a_missing_tree_selects_none() {
    let back = InMemoryDb::from_snapshot((Some("gone".to_string()), Vec::new()));
    assert_eq!(back.get_current_tree(), None);
}
