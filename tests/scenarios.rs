use hummock_compaction::config::{CompactionConfig, CompressionAlgorithm};
use hummock_compaction::level_handler::LevelHandler;
use hummock_compaction::level_selector::{DynamicLevelSelectorCore, SCORE_BASE};
use hummock_compaction::manual_picker::ManualCompactionOption;
use hummock_compaction::model::{KeyRange, Level, LevelType, Levels, OverlappingLevel, SstableInfo};
use hummock_compaction::selector::{
    DynamicLevelSelector, LocalSelectorStatistic, ManualCompactionSelector, SkipReason,
    SpaceReclaimCompactionSelector, TtlCompactionSelector,
};
use hummock_compaction::selector_option::{
    DynamicLevelSelectorOption, SelectorOption, SpaceReclaimCompactionSelectorOption,
};
use hummock_compaction::task::TaskType;

fn sst(id: u64, left: u64, right: u64, size: u64) -> SstableInfo {
    SstableInfo {
        id,
        key_range: KeyRange { left, right, right_exclusive: false },
        file_size: size,
        table_ids: vec![1],
        stale_key_count: 0,
        total_key_count: 10,
    }
}

fn level(idx: u32, files: Vec<SstableInfo>) -> Level {
    let total_file_size = files.iter().map(|f| f.file_size).sum();
    Level { level_idx: idx, level_type: LevelType::Nonoverlapping, table_infos: files, total_file_size, sub_level_id: 0 }
}

fn sub_level(id: u64, files: Vec<SstableInfo>) -> Level {
    let total_file_size = files.iter().map(|f| f.file_size).sum();
    Level { level_idx: 0, level_type: LevelType::Overlapping, table_infos: files, total_file_size, sub_level_id: id }
}

fn snapshot(l0: Vec<Level>, levels: Vec<Level>) -> Levels {
    let total_file_size = l0.iter().map(|l| l.total_file_size).sum();
    Levels { levels, l0: OverlappingLevel { sub_levels: l0, total_file_size } }
}

fn small_config() -> CompactionConfig {
    let mut c = CompactionConfig::default();
    c.max_level = 4;
    c.max_bytes_for_level_base = 100;
    c.max_bytes_for_level_multiplier = 5;
    c.level0_tier_compact_file_number = 4;
    c
}

fn handlers(n: u32) -> Vec<LevelHandler> {
    (0..n).map(LevelHandler::new).collect()
}

fn empty_levels(max_level: u32) -> Vec<Level> {
    (1..=max_level).map(|i| level(i, vec![])).collect()
}

/// Ten level-0 sub-levels of one 60-byte file each.
fn ten_sub_levels() -> Vec<Level> {
    (0..10u64).map(|i| sub_level(i, vec![sst(100 + i, i * 10, i * 10 + 9, 60)])).collect()
}

#[test]
fn empty_cluster_has_bottom_base_and_no_task() {
    let core = DynamicLevelSelectorCore::new(small_config());
    let levels = snapshot(vec![], empty_levels(4));
    let ctx = core.calculate_level_base_size(&levels);
    assert_eq!(ctx.base_level, 4);
    assert_eq!(ctx.level_max_bytes, vec![u64::MAX; 5]);
    let mut selector = DynamicLevelSelector::new(small_config());
    let mut hs = handlers(5);
    let mut stats = LocalSelectorStatistic::new();
    assert!(selector.pick_compaction(1, &levels, &mut hs, &mut stats).is_none());
    assert_eq!(hs[0].get_pending_file_count(), 0);
}

#[test]
fn single_l0_overflow_goes_to_bottom() {
    let levels = snapshot(ten_sub_levels(), empty_levels(4));
    let mut selector = DynamicLevelSelector::new(small_config());
    let mut hs = handlers(5);
    let mut stats = LocalSelectorStatistic::new();
    let task = selector.pick_compaction(1, &levels, &mut hs, &mut stats).unwrap();
    assert_eq!(task.base_level, 4);
    assert_eq!(task.task_type, TaskType::Dynamic);
    assert_eq!(task.input.target_level, 4);
    assert_eq!(task.input.input_levels[0].level_idx, 0);
    let ids: Vec<u64> = task.input.input_levels[0].table_infos.iter().map(|f| f.id).collect();
    assert_eq!(ids, (100..110).collect::<Vec<u64>>());
    assert!(task.input.input_levels[1].table_infos.is_empty());
    assert_eq!(hs[0].get_pending_file_count(), 10);
    assert_eq!(hs[0].get_pending_output_file_size(4), 600);
    // Two levels below the base level: no doubling yet; level 4 compresses with Lz4.
    assert_eq!(task.target_file_size, small_config().target_file_size_base);
    assert_eq!(task.compression_algorithm, CompressionAlgorithm::Lz4);
}

#[test]
fn pending_reservation_blocks_duplicate() {
    let levels = snapshot(ten_sub_levels(), empty_levels(4));
    let mut selector = DynamicLevelSelector::new(small_config());
    let mut hs = handlers(5);
    let mut stats = LocalSelectorStatistic::new();
    let first = selector.pick_compaction(1, &levels, &mut hs, &mut stats).unwrap();
    let second = selector.pick_compaction(2, &levels, &mut hs, &mut stats);
    assert!(second.is_none());
    assert_eq!(first.input.input_levels[0].table_infos.len(), 10);
    // Releasing the task lets the same files be picked again.
    hs[0].remove_task(1);
    hs[4].remove_task(1);
    assert!(selector.pick_compaction(3, &levels, &mut hs, &mut stats).is_some());
}

#[test]
fn stable_pyramid_level_targets() {
    // Sizes 0, 50, 250, 1200 at levels 1 to 4.
    let levels = snapshot(
        vec![],
        vec![
            level(1, vec![]),
            level(2, vec![sst(1, 0, 99, 50)]),
            level(3, vec![sst(2, 0, 99, 250)]),
            level(4, vec![sst(3, 0, 99, 1200)]),
        ],
    );
    let core = DynamicLevelSelectorCore::new(small_config());
    let ctx = core.calculate_level_base_size(&levels);
    assert_eq!(ctx.base_level, 2);
    // 1200 / 5 / 5 = 48 is the base size, below the 100-byte base capacity.
    assert_eq!(ctx.level_max_bytes[2], 100);
    assert_eq!(ctx.level_max_bytes[3], 240);
    assert_eq!(ctx.level_max_bytes[4], 1200);
}

#[test]
fn stable_pyramid_without_pressure_has_no_task() {
    // Sizes 0, 50, 200, 1200. With 250 bytes at level 3, as in the pyramid above, level 3
    // would score 250 * 100 / 240 = 104 against its 240-byte target and be compacted; at
    // 200 bytes every level is at or under its target, so no task comes.
    let levels = snapshot(
        vec![],
        vec![
            level(1, vec![]),
            level(2, vec![sst(1, 0, 99, 50)]),
            level(3, vec![sst(2, 0, 99, 200)]),
            level(4, vec![sst(3, 0, 99, 1200)]),
        ],
    );
    let mut selector = DynamicLevelSelector::new(small_config());
    let mut hs = handlers(5);
    let mut stats = LocalSelectorStatistic::new();
    assert!(selector.pick_compaction(1, &levels, &mut hs, &mut stats).is_none());
    assert!(stats.skip_picker.is_empty());
}

#[test]
fn level_n_overflow_moves_least_overlapping_file() {
    // Level 2 holds 300 bytes against a 100-byte target.
    let levels = snapshot(
        vec![],
        vec![
            level(1, vec![]),
            level(2, vec![sst(1, 0, 99, 100), sst(2, 100, 199, 100), sst(3, 200, 299, 100)]),
            level(3, vec![sst(4, 0, 150, 200), sst(5, 160, 299, 50)]),
            level(4, vec![sst(6, 0, 999, 1000)]),
        ],
    );
    let core = DynamicLevelSelectorCore::new(small_config());
    let hs0 = handlers(5);
    let ctx = core.get_priority_levels(&levels, &hs0);
    assert_eq!(ctx.score_levels[0], (300, 2, 3));
    assert_eq!(ctx.score_levels[1], (125, 3, 4));
    let mut selector = DynamicLevelSelector::new(small_config());
    let mut hs = handlers(5);
    let mut stats = LocalSelectorStatistic::new();
    let task = selector.pick_compaction(1, &levels, &mut hs, &mut stats).unwrap();
    assert_eq!(task.input.input_levels[0].level_idx, 2);
    assert_eq!(task.input.target_level, 3);
    // File 3 overlaps only the 50-byte file 5: the lowest ratio.
    assert_eq!(task.input.input_levels[0].table_infos[0].id, 3);
    let targets: Vec<u64> = task.input.input_levels[1].table_infos.iter().map(|f| f.id).collect();
    assert_eq!(targets, vec![5]);
    assert!(hs[2].is_pending_compact(&3));
    assert!(hs[3].is_pending_compact(&5));
    assert!(!hs[3].is_pending_compact(&4));
}

#[test]
fn manual_compaction_in_dead_zone() {
    // Levels 3 and 4 hold 100 and 500 bytes: the base level is 3.
    let levels = snapshot(
        vec![],
        vec![
            level(1, vec![sst(1, 0, 9, 10)]),
            level(2, vec![]),
            level(3, vec![sst(2, 0, 99, 100)]),
            level(4, vec![sst(3, 0, 99, 500)]),
        ],
    );
    let core = DynamicLevelSelectorCore::new(small_config());
    assert_eq!(core.calculate_level_base_size(&levels).base_level, 1);
    let levels = snapshot(
        vec![],
        vec![level(1, vec![]), level(2, vec![]), level(3, vec![sst(2, 0, 99, 100)]), level(4, vec![sst(3, 0, 99, 500)])],
    );
    assert_eq!(core.calculate_level_base_size(&levels).base_level, 3);
    let option = ManualCompactionOption {
        sst_ids: vec![],
        key_range: KeyRange { left: 0, right: u64::MAX, right_exclusive: false },
        internal_table_id: vec![],
        level: 1,
    };
    let mut selector = ManualCompactionSelector::new(small_config(), option);
    let mut hs = handlers(5);
    let mut stats = LocalSelectorStatistic::new();
    assert!(selector.pick_compaction(1, &levels, &mut hs, &mut stats).is_none());
}

#[test]
fn manual_compaction_targets() {
    let levels = snapshot(
        vec![sub_level(7, vec![sst(9, 0, 50, 5)])],
        vec![level(1, vec![]), level(2, vec![]), level(3, vec![sst(2, 0, 99, 100)]), level(4, vec![sst(3, 0, 99, 500)])],
    );
    let all_keys = KeyRange { left: 0, right: u64::MAX, right_exclusive: false };
    // Level 0 goes to the base level.
    let option = ManualCompactionOption { sst_ids: vec![], key_range: all_keys, internal_table_id: vec![], level: 0 };
    let mut selector = ManualCompactionSelector::new(small_config(), option);
    let mut hs = handlers(5);
    let mut stats = LocalSelectorStatistic::new();
    let task = selector.pick_compaction(1, &levels, &mut hs, &mut stats).unwrap();
    assert_eq!(task.task_type, TaskType::Manual);
    assert_eq!(task.input.target_level, 3);
    assert_eq!(task.input.input_levels[1].table_infos[0].id, 2);
    // The last level compacts into itself.
    let option = ManualCompactionOption { sst_ids: vec![3], key_range: all_keys, internal_table_id: vec![], level: 4 };
    let mut selector = ManualCompactionSelector::new(small_config(), option);
    let mut hs = handlers(5);
    let task = selector.pick_compaction(2, &levels, &mut hs, &mut stats).unwrap();
    assert_eq!(task.input.target_level, 4);
    assert_eq!(task.input.input_levels[0].table_infos[0].id, 3);
    assert!(task.input.input_levels[1].table_infos.is_empty());
    // A level in between goes to the next one.
    let option = ManualCompactionOption { sst_ids: vec![], key_range: all_keys, internal_table_id: vec![], level: 3 };
    let mut selector = ManualCompactionSelector::new(small_config(), option);
    let task = selector.pick_compaction(3, &levels, &mut hs, &mut stats);
    // File 3 is still reserved by task 2.
    assert!(task.is_none());
}

#[test]
fn space_reclaim_takes_dropped_table_file() {
    let mut dead = sst(42, 0, 99, 70);
    dead.table_ids = vec![99];
    let levels = snapshot(
        vec![],
        vec![level(1, vec![]), level(2, vec![sst(1, 0, 9, 10)]), level(3, vec![]), level(4, vec![sst(2, 0, 9, 30), dead])],
    );
    let option = SpaceReclaimCompactionSelectorOption { compaction_config: small_config(), all_table_ids: vec![1, 2] };
    let mut selector = SpaceReclaimCompactionSelector::new(option);
    let mut hs = handlers(5);
    let mut stats = LocalSelectorStatistic::new();
    let task = selector.pick_compaction(7, &levels, &mut hs, &mut stats).unwrap();
    assert_eq!(task.task_type, TaskType::SpaceReclaim);
    assert_eq!(task.input.input_levels[0].level_idx, 4);
    assert_eq!(task.input.target_level, 4);
    let ids: Vec<u64> = task.input.input_levels[0].table_infos.iter().map(|f| f.id).collect();
    assert_eq!(ids, vec![42]);
    assert!(hs[4].is_pending_compact(&42));
    assert!(selector.pick_compaction(8, &levels, &mut hs, &mut stats).is_none());
}

#[test]
fn ttl_reclaim_takes_expired_files() {
    let mut expired = sst(5, 0, 9, 10);
    expired.stale_key_count = 10;
    let levels = snapshot(
        vec![],
        vec![level(1, vec![]), level(2, vec![expired]), level(3, vec![sst(6, 0, 9, 10)]), level(4, vec![])],
    );
    let mut selector = TtlCompactionSelector::new(small_config());
    let mut hs = handlers(5);
    let mut stats = LocalSelectorStatistic::new();
    let task = selector.pick_compaction(1, &levels, &mut hs, &mut stats).unwrap();
    assert_eq!(task.task_type, TaskType::Ttl);
    assert_eq!(task.input.target_level, 2);
    assert_eq!(task.input.input_levels[0].table_infos[0].id, 5);
}

#[test]
fn score_grows_with_level_data() {
    let core = DynamicLevelSelectorCore::new(small_config());
    let hs = handlers(5);
    let mut scores = vec![];
    for size in [100u64, 150, 200] {
        let levels = snapshot(
            vec![],
            vec![level(1, vec![]), level(2, vec![sst(1, 0, 9, size)]), level(3, vec![]), level(4, vec![sst(2, 0, 9, 1000)])],
        );
        let ctx = core.get_priority_levels(&levels, &hs);
        let s = ctx.score_levels.iter().find(|c| c.1 == 2).unwrap().0;
        scores.push(s);
    }
    assert_eq!(scores, vec![100, 150, 200]);
}

#[test]
fn capacity_shape_and_base_range() {
    let core = DynamicLevelSelectorCore::new(small_config());
    for big in [0u64, 10, 700, 5000, 100_000, u64::MAX] {
        let levels = snapshot(vec![], vec![level(1, vec![]), level(2, vec![]), level(3, vec![sst(1, 0, 9, big / 7)]), level(4, vec![sst(2, 0, 9, big)])]);
        let ctx = core.calculate_level_base_size(&levels);
        assert!(1 <= ctx.base_level && ctx.base_level <= 4);
        for i in 0..=4 {
            assert!(ctx.level_max_bytes[i] >= 100);
        }
        for i in ctx.base_level..4 {
            assert!(ctx.level_max_bytes[i + 1] >= ctx.level_max_bytes[i]);
        }
    }
}

#[test]
fn ticks_are_deterministic() {
    let levels = snapshot(ten_sub_levels(), empty_levels(4));
    let mut a = DynamicLevelSelector::new(small_config());
    let mut b = DynamicLevelSelector::new(small_config());
    let mut ha = handlers(5);
    let mut hb = handlers(5);
    let mut stats = LocalSelectorStatistic::new();
    let ta = a.pick_compaction(9, &levels, &mut ha, &mut stats).unwrap();
    let tb = b.pick_compaction(9, &levels, &mut hb, &mut stats).unwrap();
    assert_eq!(ta.input.target_level, tb.input.target_level);
    assert_eq!(ta.target_file_size, tb.target_file_size);
    let ia: Vec<u64> = ta.input.input_levels[0].table_infos.iter().map(|f| f.id).collect();
    let ib: Vec<u64> = tb.input.input_levels[0].table_infos.iter().map(|f| f.id).collect();
    assert_eq!(ia, ib);
    assert_eq!(ha[0].get_pending_file_count(), hb[0].get_pending_file_count());
}

#[test]
fn try_update_is_idempotent() {
    let mut selector = DynamicLevelSelector::new(small_config());
    let mut cfg = small_config();
    cfg.max_bytes_for_level_base = 300;
    selector.try_update(SelectorOption::Dynamic(DynamicLevelSelectorOption { compaction_config: cfg.clone() }));
    assert_eq!(selector.get_config().max_bytes_for_level_base, 300);
    selector.try_update(SelectorOption::Dynamic(DynamicLevelSelectorOption { compaction_config: cfg }));
    assert_eq!(selector.get_config().max_bytes_for_level_base, 300);
    assert_eq!(selector.name(), "DynamicLevelSelector");
    assert_eq!(selector.task_type(), TaskType::Dynamic);
}

#[test]
fn selector_option_variants() {
    let o = SelectorOption::Dynamic(DynamicLevelSelectorOption { compaction_config: small_config() });
    assert!(o.as_dynamic().is_some());
    assert!(o.as_manual().is_none());
    assert!(o.as_space_reclaim().is_none());
    assert!(o.as_ttl().is_none());
    assert_eq!(o.as_dynamic().unwrap().compaction_config.max_level, 4);
}

#[test]
fn score_base_is_capacity() {
    assert_eq!(SCORE_BASE, 100);
}

#[test]
fn skipped_candidates_carry_reasons() {
    // Level 4 makes level 1 the base level. The level-0 file and the level-2 file are
    // reserved by an earlier task.
    let levels = snapshot(
        vec![sub_level(0, vec![sst(50, 0, 9, 500)])],
        vec![level(1, vec![]), level(2, vec![sst(1, 0, 99, 300)]), level(3, vec![sst(2, 0, 99, 100)]), level(4, vec![sst(3, 0, 99, 5000)])],
    );
    let mut selector = DynamicLevelSelector::new(small_config());
    let mut hs = handlers(5);
    hs[0].add_pending_task(1, 9, &vec![sst(50, 0, 9, 500)]);
    hs[2].add_pending_task(1, 9, &vec![sst(1, 0, 99, 300)]);
    let mut stats = LocalSelectorStatistic::new();
    assert!(selector.pick_compaction(2, &levels, &mut hs, &mut stats).is_none());
    assert_eq!(stats.skip_picker, vec![(0, 1, SkipReason::L0Unavailable), (2, 3, SkipReason::NoPickableFile)]);

    // A free level-0 file whose span meets a reserved base-level file.
    let levels = snapshot(
        vec![sub_level(0, vec![sst(50, 0, 9, 500)])],
        vec![level(1, vec![sst(7, 0, 9, 10)]), level(2, vec![]), level(3, vec![]), level(4, vec![sst(3, 0, 99, 5000)])],
    );
    let mut hs = handlers(5);
    hs[1].add_pending_task(1, 9, &vec![sst(7, 0, 9, 10)]);
    let mut stats = LocalSelectorStatistic::new();
    assert!(selector.pick_compaction(2, &levels, &mut hs, &mut stats).is_none());
    assert_eq!(stats.skip_picker, vec![(0, 1, SkipReason::TargetPending)]);
}

#[test]
fn space_reclaim_update_compares_table_sets() {
    let option = SpaceReclaimCompactionSelectorOption { compaction_config: small_config(), all_table_ids: vec![1, 2] };
    let mut selector = SpaceReclaimCompactionSelector::new(option);
    let reordered = SpaceReclaimCompactionSelectorOption { compaction_config: small_config(), all_table_ids: vec![2, 1, 2] };
    selector.try_update(SelectorOption::SpaceReclaim(reordered));
    let mut dead = sst(42, 0, 99, 70);
    dead.table_ids = vec![3];
    let levels = snapshot(vec![], vec![level(1, vec![]), level(2, vec![]), level(3, vec![]), level(4, vec![dead])]);
    let mut hs = handlers(5);
    let mut stats = LocalSelectorStatistic::new();
    assert!(selector.pick_compaction(1, &levels, &mut hs, &mut stats).is_some());
    let keep_three = SpaceReclaimCompactionSelectorOption { compaction_config: small_config(), all_table_ids: vec![3] };
    selector.try_update(SelectorOption::SpaceReclaim(keep_three));
    let mut hs = handlers(5);
    assert!(selector.pick_compaction(2, &levels, &mut hs, &mut stats).is_none());
}

#[test]
fn default_selector_uses_default_config() {
    let selector = DynamicLevelSelector::default();
    assert_eq!(selector.get_config().max_level, 6);
    assert_eq!(selector.get_config().max_bytes_for_level_base, 512 * 1024 * 1024);
}

#[test]
fn manual_compaction_takes_contiguous_run() {
    let levels = snapshot(
        vec![
            sub_level(0, vec![sst(20, 0, 9, 5)]),
            sub_level(1, vec![sst(21, 50, 59, 5)]),
            sub_level(2, vec![sst(22, 0, 9, 5)]),
            sub_level(3, vec![sst(23, 70, 79, 5)]),
        ],
        vec![
            level(1, vec![]),
            level(2, vec![]),
            level(3, vec![sst(2, 0, 99, 100)]),
            level(4, vec![sst(10, 0, 9, 100), sst(11, 10, 19, 100), sst(12, 20, 29, 100), sst(13, 30, 39, 100)]),
        ],
    );
    // Files 10 and 12 are asked for; file 11 between them comes along, file 13 does not.
    let option = ManualCompactionOption {
        sst_ids: vec![12, 10],
        key_range: KeyRange { left: 0, right: u64::MAX, right_exclusive: false },
        internal_table_id: vec![],
        level: 4,
    };
    let mut selector = ManualCompactionSelector::new(small_config(), option);
    let mut hs = handlers(5);
    let mut stats = LocalSelectorStatistic::new();
    let task = selector.pick_compaction(1, &levels, &mut hs, &mut stats).unwrap();
    let ids: Vec<u64> = task.input.input_levels[0].table_infos.iter().map(|f| f.id).collect();
    assert_eq!(ids, vec![10, 11, 12]);
    assert!(hs[4].is_pending_compact(&11));
    // Keys 0 to 20 meet sub-levels 0 and 2: sub-level 1 between them comes along, 3 does not.
    let option = ManualCompactionOption {
        sst_ids: vec![],
        key_range: KeyRange { left: 0, right: 20, right_exclusive: false },
        internal_table_id: vec![],
        level: 0,
    };
    let mut selector = ManualCompactionSelector::new(small_config(), option);
    let mut hs = handlers(5);
    let task = selector.pick_compaction(2, &levels, &mut hs, &mut stats).unwrap();
    let ids: Vec<u64> = task.input.input_levels[0].table_infos.iter().map(|f| f.id).collect();
    assert_eq!(ids, vec![20, 21, 22]);
    assert_eq!(task.input.target_level, 3);
    // A reserved file inside the run blocks the whole request.
    let mut hs = handlers(5);
    hs[0].add_pending_task(9, 0, &vec![sst(21, 50, 59, 5)]);
    assert!(selector.pick_compaction(3, &levels, &mut hs, &mut stats).is_none());
}
