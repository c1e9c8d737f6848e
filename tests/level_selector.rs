use hummock_compaction::config::{CompactionConfig, CompactionMode, COMPACTION_FILTER_STATE_CLEAN, COMPACTION_FILTER_TTL};
use hummock_compaction::level_handler::LevelHandler;
use hummock_compaction::level_selector::DynamicLevelSelectorCore;
use hummock_compaction::model::{KeyRange, Level, LevelType, Levels, OverlappingLevel, SstableInfo};
use hummock_compaction::selector::{DynamicLevelSelector, LocalSelectorStatistic};
use hummock_compaction::task::CompactionTask;

/// A full key: the user key `(table_prefix, idx)`, newer epochs first.
fn iterator_test_key_of_epoch(table_prefix: u64, idx: usize, epoch: u64) -> u64 {
    table_prefix * 1_000_000_000_000 + (idx as u64) * 10_000 + (9_999 - epoch)
}

fn generate_table(id: u64, table_prefix: u64, left: usize, right: usize, epoch: u64) -> SstableInfo {
    SstableInfo {
        id,
        key_range: KeyRange {
            left: iterator_test_key_of_epoch(table_prefix, left, epoch),
            right: iterator_test_key_of_epoch(table_prefix, right, epoch),
            right_exclusive: false,
        },
        file_size: (right - left + 1) as u64,
        table_ids: vec![],
        stale_key_count: 0,
        total_key_count: 0,
    }
}

fn generate_tables(ids: std::ops::Range<u64>, keys: std::ops::Range<usize>, epoch: u64, file_size: u64) -> Vec<SstableInfo> {
    let step = (keys.end - keys.start) / (ids.end - ids.start) as usize;
    let mut start = keys.start;
    let mut tables = vec![];
    for id in ids {
        let mut table = generate_table(id, 1, start, start + step - 1, epoch);
        table.file_size = file_size;
        tables.push(table);
        start += step;
    }
    tables
}

fn generate_level(level_idx: u32, table_infos: Vec<SstableInfo>) -> Level {
    let total_file_size = table_infos.iter().map(|sst| sst.file_size).sum();
    Level { level_idx, level_type: LevelType::Nonoverlapping, table_infos, total_file_size, sub_level_id: 0 }
}

fn generate_l0_nonoverlapping_sublevels(table_infos: Vec<SstableInfo>) -> OverlappingLevel {
    let total_file_size = table_infos.iter().map(|table| table.file_size).sum::<u64>();
    OverlappingLevel {
        sub_levels: table_infos
            .into_iter()
            .enumerate()
            .map(|(idx, table)| Level {
                level_idx: 0,
                level_type: LevelType::Nonoverlapping,
                total_file_size: table.file_size,
                sub_level_id: idx as u64,
                table_infos: vec![table],
            })
            .collect(),
        total_file_size,
    }
}

fn push_tables_level0_nonoverlapping(levels: &mut Levels, table_infos: Vec<SstableInfo>) {
    let total_file_size = table_infos.iter().map(|table| table.file_size).sum::<u64>();
    let sub_level_id = table_infos[0].id;
    levels.l0.total_file_size += total_file_size;
    levels.l0.sub_levels.push(Level {
        level_idx: 0,
        level_type: LevelType::Nonoverlapping,
        total_file_size,
        sub_level_id,
        table_infos,
    });
}

fn config(base: u64, max_level: u64, multiplier: u64, max_compaction_bytes: u64, tier: u64) -> CompactionConfig {
    let mut config = CompactionConfig::default();
    config.max_bytes_for_level_base = base;
    config.max_level = max_level;
    config.max_bytes_for_level_multiplier = multiplier;
    config.max_compaction_bytes = max_compaction_bytes;
    config.level0_tier_compact_file_number = tier;
    config.compaction_mode = CompactionMode::Range;
    config
}

fn assert_compaction_task(compact_task: &CompactionTask, level_handlers: &[LevelHandler]) {
    for i in &compact_task.input.input_levels {
        for t in &i.table_infos {
            assert!(level_handlers[i.level_idx as usize].is_pending_compact(&t.id));
        }
    }
}

fn handlers(n: u32) -> Vec<LevelHandler> {
    (0..n).map(LevelHandler::new).collect()
}

#[test]
fn test_dynamic_level() {
    let config = config(100, 4, 5, 1, 2);
    let selector = DynamicLevelSelectorCore::new(config);
    let levels = vec![
        generate_level(1, vec![]),
        generate_level(2, generate_tables(0..5, 0..1000, 3, 10)),
        generate_level(3, generate_tables(5..10, 0..1000, 2, 50)),
        generate_level(4, generate_tables(10..15, 0..1000, 1, 200)),
    ];
    let mut levels = Levels { levels, l0: generate_l0_nonoverlapping_sublevels(vec![]) };
    let ctx = selector.calculate_level_base_size(&levels);
    assert_eq!(ctx.base_level, 2);
    assert_eq!(ctx.level_max_bytes[2], 100);
    assert_eq!(ctx.level_max_bytes[3], 200);
    assert_eq!(ctx.level_max_bytes[4], 1000);

    levels.levels[3].table_infos.append(&mut generate_tables(15..20, 2000..3000, 1, 400));
    levels.levels[3].total_file_size = levels.levels[3].table_infos.iter().map(|sst| sst.file_size).sum::<u64>();

    let ctx = selector.calculate_level_base_size(&levels);
    // data size increase, so we need increase one level to place more data.
    assert_eq!(ctx.base_level, 1);
    assert_eq!(ctx.level_max_bytes[1], 100);
    assert_eq!(ctx.level_max_bytes[2], 120);
    assert_eq!(ctx.level_max_bytes[3], 600);
    assert_eq!(ctx.level_max_bytes[4], 3000);

    // append a large data to L0 but it does not change the base size of LSM tree.
    push_tables_level0_nonoverlapping(&mut levels, generate_tables(20..26, 0..1000, 1, 100));

    let ctx = selector.calculate_level_base_size(&levels);
    assert_eq!(ctx.base_level, 1);
    assert_eq!(ctx.level_max_bytes[1], 100);
    assert_eq!(ctx.level_max_bytes[2], 120);
    assert_eq!(ctx.level_max_bytes[3], 600);
    assert_eq!(ctx.level_max_bytes[4], 3000);

    levels.l0.sub_levels.clear();
    levels.l0.total_file_size = 0;
    levels.levels[0].table_infos = generate_tables(26..32, 0..1000, 1, 100);
    levels.levels[0].total_file_size = levels.levels[0].table_infos.iter().map(|sst| sst.file_size).sum::<u64>();

    let ctx = selector.calculate_level_base_size(&levels);
    assert_eq!(ctx.base_level, 1);
    assert_eq!(ctx.level_max_bytes[1], 100);
    assert_eq!(ctx.level_max_bytes[2], 120);
    assert_eq!(ctx.level_max_bytes[3], 600);
    assert_eq!(ctx.level_max_bytes[4], 3000);
}

#[test]
fn test_pick_compaction() {
    let config = config(200, 4, 5, 10000, 4);
    let levels = vec![
        generate_level(1, vec![]),
        generate_level(2, generate_tables(0..5, 0..1000, 3, 10)),
        generate_level(3, generate_tables(5..10, 0..1000, 2, 50)),
        generate_level(4, generate_tables(10..15, 0..1000, 1, 200)),
    ];
    let mut levels = Levels { levels, l0: generate_l0_nonoverlapping_sublevels(generate_tables(15..25, 0..600, 3, 10)) };

    let mut selector = DynamicLevelSelector::new(config.clone());
    let mut levels_handlers = handlers(5);
    let mut local_stats = LocalSelectorStatistic::new();
    let compaction = selector.pick_compaction(1, &levels, &mut levels_handlers, &mut local_stats).unwrap();
    // trivial move.
    assert_compaction_task(&compaction, &levels_handlers);
    assert_eq!(compaction.input.input_levels[0].level_idx, 0);
    assert!(compaction.input.input_levels[1].table_infos.is_empty());
    assert_eq!(compaction.input.target_level, 0);

    let compaction_filter_flag = COMPACTION_FILTER_STATE_CLEAN | COMPACTION_FILTER_TTL;
    let mut config = config;
    config.max_bytes_for_level_base = 100;
    config.compaction_filter_mask = compaction_filter_flag;
    let mut selector = DynamicLevelSelector::new(config.clone());

    levels.l0.sub_levels.clear();
    levels.l0.total_file_size = 0;
    push_tables_level0_nonoverlapping(&mut levels, generate_tables(15..25, 0..600, 3, 20));
    let mut levels_handlers = handlers(5);
    let compaction = selector.pick_compaction(1, &levels, &mut levels_handlers, &mut local_stats).unwrap();
    assert_compaction_task(&compaction, &levels_handlers);
    assert_eq!(compaction.input.input_levels[0].level_idx, 0);
    assert_eq!(compaction.input.target_level, 2);
    assert_eq!(compaction.target_file_size, config.target_file_size_base);

    levels_handlers[0].remove_task(1);
    levels_handlers[2].remove_task(1);
    levels.l0.sub_levels.clear();
    levels.levels[1].table_infos = generate_tables(20..30, 0..1000, 3, 10);
    let compaction = selector.pick_compaction(2, &levels, &mut levels_handlers, &mut local_stats).unwrap();
    assert_compaction_task(&compaction, &levels_handlers);
    assert_eq!(compaction.input.input_levels[0].level_idx, 3);
    assert_eq!(compaction.input.target_level, 4);
    assert_eq!(compaction.input.input_levels[0].table_infos.len(), 1);
    assert_eq!(compaction.input.input_levels[1].table_infos.len(), 1);
    assert_eq!(compaction.target_file_size, config.target_file_size_base * 2);
    assert_eq!(compaction.compression_algorithm.as_str(), "Lz4",);
    // no compaction need to be scheduled because we do not calculate the size of pending files
    // to score.
    let compaction = selector.pick_compaction(2, &levels, &mut levels_handlers, &mut local_stats);
    assert!(compaction.is_none());
}
