use hummock_compaction::level_handler::LevelHandler;
use hummock_compaction::model::{KeyRange, SstableInfo};

fn sst(id: u64, size: u64) -> SstableInfo {
    SstableInfo {
        id,
        key_range: KeyRange { left: id, right: id, right_exclusive: false },
        file_size: size,
        table_ids: vec![],
        stale_key_count: 0,
        total_key_count: 0,
    }
}

#[test]
fn add_then_remove_restores_handler() {
    let mut h = LevelHandler::new(2);
    h.add_pending_task(1, 3, &vec![sst(10, 5)]);
    let count = h.get_pending_file_count();
    let out = h.get_pending_output_file_size(3);
    h.add_pending_task(2, 3, &vec![sst(11, 7), sst(12, 8)]);
    assert_eq!(h.get_pending_file_count(), 3);
    assert_eq!(h.get_pending_output_file_size(3), 20);
    assert_eq!(h.get_pending_output_file_size(4), 0);
    assert!(h.is_pending_compact(&11));
    h.remove_task(2);
    assert_eq!(h.get_pending_file_count(), count);
    assert_eq!(h.get_pending_output_file_size(3), out);
    assert!(!h.is_pending_compact(&11));
    assert!(!h.is_pending_compact(&12));
    assert!(h.is_pending_compact(&10));
    assert_eq!(h.get_level(), 2);
}

#[test]
fn remove_unknown_task_changes_nothing() {
    let mut h = LevelHandler::new(0);
    h.add_pending_task(1, 0, &vec![sst(10, 5)]);
    h.remove_task(5);
    assert_eq!(h.get_pending_file_count(), 1);
    assert!(h.is_pending_compact(&10));
    assert!(h.is_any_pending(&vec![sst(3, 1), sst(10, 1)]));
    assert!(!h.is_any_pending(&vec![sst(3, 1)]));
}

#[test]
fn output_size_saturates() {
    let mut h = LevelHandler::new(1);
    h.add_pending_task(1, 2, &vec![sst(1, u64::MAX), sst(2, 5)]);
    assert_eq!(h.get_pending_output_file_size(2), u64::MAX);
}
