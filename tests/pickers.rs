use hummock_compaction::config::{CompactionConfig, CompressionAlgorithm};
use hummock_compaction::level_handler::LevelHandler;
use hummock_compaction::level_picker::LevelCompactionPicker;
use hummock_compaction::level_selector::DynamicLevelSelectorCore;
use hummock_compaction::manual_picker::ManualCompactionOption;
use hummock_compaction::min_overlapping_picker::MinOverlappingPicker;
use hummock_compaction::model::{KeyRange, Level, LevelType, Levels, OverlappingLevel, SstableInfo};
use hummock_compaction::picker::{CompactionInput, InputLevel};
use hummock_compaction::reclaim_picker::{SpaceReclaimCompactionPicker, TtlReclaimCompactionPicker};
use hummock_compaction::selector::{CompactionPicker, DynamicLevelSelector, LocalSelectorStatistic};
use hummock_compaction::task::{create_compaction_task, TaskType};
use hummock_compaction::tier_picker::TierCompactionPicker;

fn sst(id: u64, left: u64, right: u64, size: u64) -> SstableInfo {
    SstableInfo {
        id,
        key_range: KeyRange { left, right, right_exclusive: false },
        file_size: size,
        table_ids: vec![1],
        stale_key_count: 0,
        total_key_count: 1,
    }
}

fn level(idx: u32, files: Vec<SstableInfo>) -> Level {
    let total_file_size = files.iter().map(|f| f.file_size).sum();
    Level { level_idx: idx, level_type: LevelType::Nonoverlapping, table_infos: files, total_file_size, sub_level_id: 0 }
}

fn sub_level(id: u64, files: Vec<SstableInfo>) -> Level {
    let total_file_size = files.iter().map(|f| f.file_size).sum();
    Level { level_idx: 0, level_type: LevelType::Overlapping, table_infos: files, total_file_size, sub_level_id: id }
}

fn snapshot(l0: Vec<Level>, levels: Vec<Level>) -> Levels {
    let total_file_size = l0.iter().map(|l| l.total_file_size).sum();
    Levels { levels, l0: OverlappingLevel { sub_levels: l0, total_file_size } }
}

fn handlers(n: u32) -> Vec<LevelHandler> {
    (0..n).map(LevelHandler::new).collect()
}

fn ids(files: &[SstableInfo]) -> Vec<u64> {
    files.iter().map(|f| f.id).collect()
}

#[test]
fn tier_picker_respects_bounds_and_reservations() {
    let subs: Vec<Level> = (0..6u64).map(|i| sub_level(i, vec![sst(10 + i, 0, 100, 5)])).collect();
    let levels = snapshot(subs, vec![level(1, vec![])]);
    let mut hs = handlers(2);
    // At most three files per merge, at least two.
    let picker = TierCompactionPicker::new(2, 3);
    let input = picker.pick_compaction(&levels, &hs).unwrap();
    assert_eq!(ids(&input.input_levels[0].table_infos), vec![10, 11, 12]);
    assert_eq!(input.target_level, 0);
    assert_eq!(input.target_sub_level_id, 0);
    // With sub-level 1 reserved, the run starting at 0 is too short; the next starts at 2.
    hs[0].add_pending_task(5, 0, &vec![sst(11, 0, 100, 5)]);
    let input = picker.pick_compaction(&levels, &hs).unwrap();
    assert_eq!(ids(&input.input_levels[0].table_infos), vec![12, 13, 14]);
    assert_eq!(input.target_sub_level_id, 2);
    // A single sub-level is never merged with itself.
    let one = snapshot(vec![sub_level(0, vec![sst(1, 0, 1, 1), sst(2, 2, 3, 1), sst(3, 4, 5, 1)])], vec![level(1, vec![])]);
    assert!(picker.pick_compaction(&one, &handlers(2)).is_none());
}

#[test]
fn level_picker_takes_fitting_prefix_and_overlaps() {
    let subs = vec![sub_level(0, vec![sst(1, 10, 20, 40)]), sub_level(1, vec![sst(2, 30, 40, 40)]), sub_level(2, vec![sst(3, 0, 90, 40)])];
    let levels = snapshot(subs, vec![level(1, vec![sst(7, 0, 9, 5), sst(8, 15, 35, 5), sst(9, 41, 50, 5)])]);
    let mut hs = handlers(2);
    let picker = LevelCompactionPicker::new(1, 100);
    let input = picker.pick_compaction(&levels, &hs).unwrap();
    assert_eq!(ids(&input.input_levels[0].table_infos), vec![1, 2]);
    assert_eq!(ids(&input.input_levels[1].table_infos), vec![8]);
    assert_eq!(input.target_level, 1);
    // A reserved target file blocks the whole pick.
    hs[1].add_pending_task(3, 2, &vec![sst(8, 15, 35, 5)]);
    assert!(picker.pick_compaction(&levels, &hs).is_none());
    // Nothing fits the byte bound.
    assert!(LevelCompactionPicker::new(1, 10).pick_compaction(&levels, &handlers(2)).is_none());
}

#[test]
fn min_overlapping_breaks_ties_by_id() {
    let levels = snapshot(
        vec![],
        vec![
            level(1, vec![sst(20, 0, 9, 10), sst(21, 10, 19, 10), sst(22, 20, 29, 10)]),
            level(2, vec![sst(30, 0, 19, 40), sst(31, 25, 29, 20)]),
        ],
    );
    let mut hs = handlers(3);
    let picker = MinOverlappingPicker::new(1, 2);
    // Files 20 and 21 each overlap 40 bytes, file 22 overlaps 20: file 22 wins.
    let input = picker.pick_compaction(&levels, &hs).unwrap();
    assert_eq!(ids(&input.input_levels[0].table_infos), vec![22]);
    assert_eq!(ids(&input.input_levels[1].table_infos), vec![31]);
    // With file 31 reserved, 20 and 21 tie and the smaller id wins.
    hs[2].add_pending_task(1, 3, &vec![sst(31, 25, 29, 20)]);
    let input = picker.pick_compaction(&levels, &hs).unwrap();
    assert_eq!(ids(&input.input_levels[0].table_infos), vec![20]);
    assert_eq!(ids(&input.input_levels[1].table_infos), vec![30]);
}

#[test]
fn key_ranges_and_exclusive_ends() {
    let a = KeyRange::new(0, 10, true);
    let b = KeyRange::new(10, 20, false);
    let c = KeyRange::new(10, 20, true);
    assert!(!a.overlaps(&b));
    assert!(!b.overlaps(&a));
    assert!(b.overlaps(&c));
    assert!(KeyRange::new(0, 10, false).overlaps(&b));
}

#[test]
fn manual_option_filters() {
    let mut f = sst(5, 10, 20, 1);
    f.table_ids = vec![3, 4];
    let all = KeyRange::new(0, 100, false);
    let o = ManualCompactionOption { sst_ids: vec![], key_range: all, internal_table_id: vec![], level: 1 };
    assert!(o.matches(&f));
    let o = ManualCompactionOption { sst_ids: vec![6], key_range: all, internal_table_id: vec![], level: 1 };
    assert!(!o.matches(&f));
    let o = ManualCompactionOption { sst_ids: vec![], key_range: all, internal_table_id: vec![4], level: 1 };
    assert!(o.matches(&f));
    let o = ManualCompactionOption { sst_ids: vec![], key_range: KeyRange::new(30, 40, false), internal_table_id: vec![], level: 1 };
    assert!(!o.matches(&f));
}

#[test]
fn reclaim_stops_at_budget() {
    let mut files = vec![];
    for i in 0..4u64 {
        let mut f = sst(i, i * 10, i * 10 + 5, 30);
        f.table_ids = vec![9];
        f.stale_key_count = 1;
        files.push(f);
    }
    let levels = snapshot(vec![], vec![level(1, vec![]), level(2, files)]);
    let picker = SpaceReclaimCompactionPicker::new(50, vec![1]);
    let input = picker.pick_compaction(&levels, &handlers(3)).unwrap();
    // 30 bytes is under the budget, 60 reaches it.
    assert_eq!(ids(&input.input_levels[0].table_infos), vec![0, 1]);
    assert_eq!(input.target_level, 2);
    let ttl = TtlReclaimCompactionPicker::new(1000);
    let input = ttl.pick_compaction(&levels, &handlers(3)).unwrap();
    assert_eq!(ids(&input.input_levels[0].table_infos), vec![0, 1, 2, 3]);
    // A live table keeps a file.
    let keep = SpaceReclaimCompactionPicker::new(50, vec![9]);
    assert!(keep.pick_compaction(&levels, &handlers(3)).is_none());
}

#[test]
fn task_file_size_and_compression() {
    let cfg = CompactionConfig::default();
    let input = |target: usize| CompactionInput {
        input_levels: vec![InputLevel { level_idx: 1, level_type: LevelType::Nonoverlapping, table_infos: vec![] }],
        target_level: target,
        target_sub_level_id: 0,
    };
    let t = create_compaction_task(&cfg, input(0), 2, TaskType::Dynamic);
    assert_eq!(t.target_file_size, cfg.target_file_size_base);
    assert_eq!(t.compression_algorithm.as_str(), "None");
    let t = create_compaction_task(&cfg, input(3), 2, TaskType::Manual);
    assert_eq!(t.target_file_size, cfg.target_file_size_base);
    let t = create_compaction_task(&cfg, input(6), 2, TaskType::Ttl);
    assert_eq!(t.target_file_size, cfg.target_file_size_base * 4);
    assert_eq!(t.compression_algorithm, CompressionAlgorithm::Zstd);
    assert_eq!(t.compression_algorithm.as_str(), "Zstd");
    let t = create_compaction_task(&cfg, input(9), 2, TaskType::Ttl);
    assert_eq!(t.compression_algorithm, CompressionAlgorithm::Uncompressed);
    assert_eq!(t.task_type, TaskType::Ttl);
}

#[test]
fn picker_enum_dispatches() {
    let core = DynamicLevelSelectorCore::new(CompactionConfig::default());
    assert!(matches!(core.create_compaction_picker(0, 0), CompactionPicker::Tier(_)));
    assert!(matches!(core.create_compaction_picker(0, 3), CompactionPicker::Level(_)));
    assert!(matches!(core.create_compaction_picker(2, 3), CompactionPicker::MinOverlapping(_)));
}

#[test]
fn pending_anomaly_is_flagged() {
    let mut cfg = CompactionConfig::default();
    cfg.max_level = 2;
    cfg.max_bytes_for_level_base = 100;
    let levels = snapshot(vec![sub_level(0, vec![sst(1, 0, 9, 10)])], vec![level(1, vec![]), level(2, vec![])]);
    let mut hs = handlers(3);
    // More bytes pending out of level 0 than it holds.
    hs[0].add_pending_task(4, 2, &vec![sst(77, 0, 9, 500)]);
    let core = DynamicLevelSelectorCore::new(cfg.clone());
    let ctx = core.get_priority_levels(&levels, &hs);
    assert!(ctx.pending_anomaly);
    let mut selector = DynamicLevelSelector::new(cfg);
    let mut stats = LocalSelectorStatistic::new();
    let _ = selector.pick_compaction(5, &levels, &mut hs, &mut stats);
    assert!(stats.pending_anomaly);
    let ctx = core.get_priority_levels(&levels, &handlers(3));
    assert!(!ctx.pending_anomaly);
}
