//! Compaction selection for a leveled LSM store: level sizing, scoring,
//! file pickers, per-level reservation tracking and task assembly.

pub mod model;
pub mod config;
pub mod level_handler;
pub mod level_selector;
pub mod picker;
pub mod tier_picker;
pub mod level_picker;
pub mod min_overlapping_picker;
pub mod manual_picker;
pub mod reclaim_picker;
pub mod task;
pub mod selector;
pub mod selector_option;
