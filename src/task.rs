//! Turning a picked input into the task handed to a worker.
use vstd::prelude::*;
use crate::config::{CompactionConfig, CompressionAlgorithm};
use crate::level_selector::mul_repeat;
use crate::model::mul_saturating;
use crate::picker::{CompactionInput, InputView};

verus! {

/// What kind of selector produced a task.
#[derive(Clone, Copy, Debug, PartialEq, Eq, Structural)]
pub enum TaskType {
    Dynamic,
    Manual,
    SpaceReclaim,
    Ttl,
}

/// A compaction ready to run.
#[derive(Clone, Debug)]
pub struct CompactionTask {
    pub input: CompactionInput,
    pub base_level: usize,
    pub task_type: TaskType,
    pub target_file_size: u64,
    pub compression_algorithm: CompressionAlgorithm,
    pub compaction_filter_mask: u32,
}

/// The value of a `CompactionTask`.
pub struct CompactionTaskView {
    pub input: InputView,
    pub base_level: usize,
    pub task_type: TaskType,
    pub target_file_size: u64,
    pub compression_algorithm: CompressionAlgorithm,
    pub compaction_filter_mask: u32,
}

impl View for CompactionTask {
    type V = CompactionTaskView;

    open spec fn view(&self) -> CompactionTaskView {
        CompactionTaskView {
            input: self.input@,
            base_level: self.base_level,
            task_type: self.task_type,
            target_file_size: self.target_file_size,
            compression_algorithm: self.compression_algorithm,
            compaction_filter_mask: self.compaction_filter_mask,
        }
    }
}

/// Output file size: the base size at level 0 and down to the base level, doubled for
/// every two levels below the base level, clamped to the largest `u64`.
pub open spec fn spec_target_file_size(cfg: CompactionConfig, target: int, base: int) -> int {
    if target == 0 || target < base {
        cfg.target_file_size_base as int
    } else {
        mul_repeat(cfg.target_file_size_base as int, 2, (target - base) / 2)
    }
}

/// The compression configured for `target`; none where the table has no entry.
pub open spec fn spec_compression(cfg: CompactionConfig, target: int) -> CompressionAlgorithm {
    if target < cfg.compression_algorithm@.len() {
        cfg.compression_algorithm@[target]
    } else {
        CompressionAlgorithm::Uncompressed
    }
}

/// The task built from `input`.
pub open spec fn spec_task(
    cfg: CompactionConfig,
    input: InputView,
    base_level: usize,
    task_type: TaskType,
) -> CompactionTaskView {
    CompactionTaskView {
        input,
        base_level,
        task_type,
        target_file_size: spec_target_file_size(
            cfg,
            input.target_level as int,
            base_level as int,
        ) as u64,
        compression_algorithm: spec_compression(cfg, input.target_level as int),
        compaction_filter_mask: cfg.compaction_filter_mask,
    }
}

proof fn lemma_mul_repeat_bound(size: int, m: int, k: int)
    requires
        0 <= size <= crate::model::u64_max(),
        m >= 0,
    ensures
        0 <= mul_repeat(size, m, k) <= crate::model::u64_max(),
    decreases k,
{
    if k > 0 {
        lemma_mul_repeat_bound(size, m, k - 1);
        let a = mul_repeat(size, m, k - 1);
        assert(a * m >= 0) by (nonlinear_arith)
            requires
                a >= 0,
                m >= 0,
        ;
    }
}

/// Wraps `input` into a task: output file size and compression by target level, the
/// configured compaction filters.
pub fn create_compaction_task(
    cfg: &CompactionConfig,
    input: CompactionInput,
    base_level: usize,
    task_type: TaskType,
) -> (r: CompactionTask)
    ensures
        r@ == spec_task(*cfg, input@, base_level, task_type),
{
    let target = input.target_level;
    let mut target_file_size = cfg.target_file_size_base;
    if target != 0 && target >= base_level {
        let steps = (target - base_level) / 2;
        let mut k: usize = 0;
        while k < steps
            invariant
                k <= steps,
                target_file_size == mul_repeat(cfg.target_file_size_base as int, 2, k as int),
            decreases steps - k,
        {
            target_file_size = mul_saturating(target_file_size, 2);
            k += 1;
        }
    }
    proof {
        lemma_mul_repeat_bound(cfg.target_file_size_base as int, 2, (target - base_level) / 2);
    }
    let compression_algorithm = if target < cfg.compression_algorithm.len() {
        cfg.compression_algorithm[target]
    } else {
        CompressionAlgorithm::Uncompressed
    };
    CompactionTask {
        input,
        base_level,
        task_type,
        target_file_size,
        compression_algorithm,
        compaction_filter_mask: cfg.compaction_filter_mask,
    }
}

} // verus!
