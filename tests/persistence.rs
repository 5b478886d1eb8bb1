use karsher_db::codec::{flush_and_reopen, recover, restore, snapshot_bytes};
use karsher_db::config::{Config, FLUSH_INTERVAL_MS};
use karsher_db::error::DbError;
use karsher_db::policy::{next_open_step, next_sync_step, OpenEvent, OpenStep, SyncStep};
use karsher_db::store::InMemoryDb;

#[test]
fn reopen_after_flush_keeps_hundred_keys() {
    let mut db = InMemoryDb::new();
    db.open_tree("t");
    for i in 1..=100u64 {
        db.insert(i, format!("v{i}"));
    }
    let bytes = snapshot_bytes(&db);
    drop(db);
    let reopened = restore(&bytes);
    assert_eq!(reopened.get_current_tree(), Some("t".to_string()));
    assert_eq!(reopened.len(), Some(100));
    assert_eq!(reopened.read(50, |v: &String| Some(v.clone())), Some("v50".to_string()));
}

#[test]
fn snapshot_bytes_are_not_empty() {
    let mut db = InMemoryDb::new();
    db.open_tree("t");
    db.insert(1, "one".to_string());
    let bytes = snapshot_bytes(&db);
    assert!(!bytes.is_empty());
}

#[test]
fn reopen_keeps_trees_and_current_tree() {
    let mut db = InMemoryDb::new();
    db.open_tree("a");
    db.insert(1, "x".to_string());
    db.open_tree("b");
    db.insert(2, "y".to_string());
    db.open_tree("a");
    let back = flush_and_reopen(&db);
    assert_eq!(back.get_current_tree(), Some("a".to_string()));
    assert_eq!(back.read(1, |v: &String| Some(v.clone())), Some("x".to_string()));
    let mut names = back.tree_names();
    names.sort();
    assert_eq!(names, vec!["a".to_string(), "b".to_string()]);
}

#[test]
fn reopen_without_current_tree_has_none() {
    let mut db = InMemoryDb::new();
    db.open_tree("a");
    db.insert(1, "x".to_string());
    assert!(db.drop_tree("a"));
    db.open_tree("b");
    assert!(db.drop_tree("b"));
    let back = restore(&snapshot_bytes(&db));
    assert_eq!(back.get_current_tree(), None);
    assert!(back.tree_names().is_empty());
}

#[test]
fn corrupt_snapshot_gives_empty_store() {
    let garbage: Vec<u8> = vec![0xff, 0xfe, 0x01, 0x02, 0x03];
    let db = restore(&garbage);
    assert!(db.tree_names().is_empty());
    let db = restore(&[0xff; 64]);
    assert!(db.tree_names().is_empty());
    assert_eq!(db.get_current_tree(), None);
}

#[test]
fn empty_snapshot_gives_empty_store() {
    let db = restore(&[]);
    assert!(db.tree_names().is_empty());
    let db = recover(None);
    assert!(db.tree_names().is_empty());
}

#[test]
fn config_in_memory_ignores_path() {
    let c = Config::new(Some("/tmp/x.db".to_string()), true, true, None);
    assert!(c.in_memory());
    assert_eq!(c.path(), None);
    assert!(!c.fall_back_in_memory());
}

#[test]
fn config_takes_default_path_when_none_given() {
    let c = Config::new(None, false, false, Some("/data/karsher.db".to_string()));
    assert_eq!(c.path(), Some("/data/karsher.db".to_string()));
    assert!(!c.fall_back_in_memory());
    let c = Config::new(Some("/tmp/k.db".to_string()), false, true, Some("/data/karsher.db".to_string()));
    assert_eq!(c.path(), Some("/tmp/k.db".to_string()));
    assert!(c.fall_back_in_memory());
    let d = Config::with_default_path(Some("/d".to_string()));
    assert!(!d.in_memory());
    assert!(d.fall_back_in_memory());
    assert_eq!(d.path(), Some("/d".to_string()));
}

#[test]
fn open_in_memory_and_missing_path() {
    let c = Config::new(None, true, false, None);
    assert_eq!(next_open_step(&c, OpenEvent::Start), OpenStep::InMemory);
    let c = Config::new(None, false, true, None);
    assert_eq!(next_open_step(&c, OpenEvent::Start), OpenStep::Fail(DbError::MissingPathConfig));
    let c = Config::new(Some("/tmp/k.db".to_string()), false, false, None);
    assert_eq!(next_open_step(&c, OpenEvent::Start), OpenStep::AcquireLock("/tmp/k.db".to_string()));
}

#[test]
fn second_open_while_locked_fails_or_falls_back() {
    let strict = Config::new(Some("/tmp/k.db".to_string()), false, false, None);
    assert_eq!(
        next_open_step(&strict, OpenEvent::LockFailed),
        OpenStep::Fail(DbError::LockAcquisitionFailed)
    );
    let lenient = Config::new(Some("/tmp/k.db".to_string()), false, true, None);
    assert_eq!(
        next_open_step(&lenient, OpenEvent::LockFailed),
        OpenStep::FallBack(DbError::LockAcquisitionFailed)
    );
}

#[test]
fn open_steps_after_the_lock() {
    let strict = Config::new(Some("/tmp/k.db".to_string()), false, false, None);
    let lenient = Config::new(Some("/tmp/k.db".to_string()), false, true, None);
    assert_eq!(next_open_step(&strict, OpenEvent::LockAcquired), OpenStep::ReadSnapshot);
    assert_eq!(next_open_step(&strict, OpenEvent::ReadDone), OpenStep::StartDurable);
    assert_eq!(next_open_step(&strict, OpenEvent::Started), OpenStep::Done);
    assert_eq!(next_open_step(&strict, OpenEvent::ReadFailed), OpenStep::Fail(DbError::IoFailure));
    assert_eq!(next_open_step(&lenient, OpenEvent::ReadFailed), OpenStep::FallBack(DbError::IoFailure));
    assert_eq!(
        next_open_step(&strict, OpenEvent::StartFailed),
        OpenStep::Fail(DbError::ThreadSpawnFailure)
    );
    assert_eq!(
        next_open_step(&lenient, OpenEvent::StartFailed),
        OpenStep::FallBack(DbError::ThreadSpawnFailure)
    );
}

#[test]
fn sync_loop_steps() {
    assert_eq!(next_sync_step(false), SyncStep::Flush);
    assert_eq!(next_sync_step(true), SyncStep::FinalFlush);
    assert_eq!(FLUSH_INTERVAL_MS, 500);
}

#[test]
fn error_messages() {
    assert_eq!(DbError::MissingPathConfig.message(), "not in memory but path empty");
    assert!(!DbError::IoFailure.message().is_empty());
}
