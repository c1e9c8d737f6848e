//! The tunables that level sizing, scoring and the pickers consult.
use vstd::prelude::*;

verus! {

/// Compaction-filter bit: drop rows of tables that no longer exist.
pub const COMPACTION_FILTER_STATE_CLEAN: u32 = 1;

/// Compaction-filter bit: drop rows whose time to live has passed.
pub const COMPACTION_FILTER_TTL: u32 = 2;

/// How the key space is partitioned. The pickers judge overlap by key-range
/// intersection in either mode: the file model carries no hash partition, so hash mode
/// picks exactly as range mode does.
#[derive(Clone, Copy, Debug, PartialEq, Eq, Structural)]
pub enum CompactionMode {
    Range,
    Hash,
}

/// The block compression a task's output files use.
#[derive(Clone, Copy, Debug, PartialEq, Eq, Structural)]
pub enum CompressionAlgorithm {
    Uncompressed,
    Lz4,
    Zstd,
}

impl CompressionAlgorithm {
    pub open spec fn spec_name(self) -> Seq<char> {
        match self {
            CompressionAlgorithm::Uncompressed => "None"@,
            CompressionAlgorithm::Lz4 => "Lz4"@,
            CompressionAlgorithm::Zstd => "Zstd"@,
        }
    }

    /// The algorithm's name.
    pub fn as_str(&self) -> (r: &'static str)
        ensures
            r@ == self.spec_name(),
    {
        match self {
            CompressionAlgorithm::Uncompressed => "None",
            CompressionAlgorithm::Lz4 => "Lz4",
            CompressionAlgorithm::Zstd => "Zstd",
        }
    }
}

#[derive(Clone, Debug)]
pub struct CompactionConfig {
    pub max_bytes_for_level_base: u64,
    pub max_level: u64,
    pub max_bytes_for_level_multiplier: u64,
    pub max_compaction_bytes: u64,
    /// Fewest level-0 files that an intra-level-0 merge takes.
    pub level0_tier_compact_file_number: u64,
    /// Most level-0 files that one intra-level-0 merge takes.
    pub level0_max_compact_file_number: u64,
    pub compaction_mode: CompactionMode,
    /// The compression of output files, indexed by target level.
    pub compression_algorithm: Vec<CompressionAlgorithm>,
    pub target_file_size_base: u64,
    pub compaction_filter_mask: u32,
    pub max_space_reclaim_bytes: u64,
}

impl CompactionConfig {
    /// The ranges that every recognised option must lie in.
    pub open spec fn valid(&self) -> bool {
        &&& 1 <= self.max_level < u32::MAX
        &&& self.max_bytes_for_level_base > 0
        &&& self.max_bytes_for_level_multiplier >= 2
        &&& self.level0_tier_compact_file_number >= 2
        &&& self.max_compaction_bytes > 0
        &&& self.max_space_reclaim_bytes > 0
        &&& self.target_file_size_base > 0
    }

    /// The values of the default configuration.
    pub open spec fn has_default_values(&self) -> bool {
        &&& self.valid()
        &&& self.max_level == 6
        &&& self.max_bytes_for_level_base == 512 * 1024 * 1024
        &&& self.max_bytes_for_level_multiplier == 5
        &&& self.max_compaction_bytes == 2 * 1024 * 1024 * 1024
        &&& self.level0_tier_compact_file_number == 6
        &&& self.level0_max_compact_file_number == 96
        &&& self.compaction_mode == CompactionMode::Range
        &&& self.target_file_size_base == 32 * 1024 * 1024
        &&& self.compaction_filter_mask == 0
        &&& self.max_space_reclaim_bytes == 512 * 1024 * 1024
        &&& self.compression_algorithm@ == seq![
            CompressionAlgorithm::Uncompressed,
            CompressionAlgorithm::Uncompressed,
            CompressionAlgorithm::Uncompressed,
            CompressionAlgorithm::Uncompressed,
            CompressionAlgorithm::Lz4,
            CompressionAlgorithm::Lz4,
            CompressionAlgorithm::Zstd,
        ]
    }

    /// Two configurations hold the same values.
    pub open spec fn same(&self, o: &CompactionConfig) -> bool {
        &&& self.max_bytes_for_level_base == o.max_bytes_for_level_base
        &&& self.max_level == o.max_level
        &&& self.max_bytes_for_level_multiplier == o.max_bytes_for_level_multiplier
        &&& self.max_compaction_bytes == o.max_compaction_bytes
        &&& self.level0_tier_compact_file_number == o.level0_tier_compact_file_number
        &&& self.level0_max_compact_file_number == o.level0_max_compact_file_number
        &&& self.compaction_mode == o.compaction_mode
        &&& self.compression_algorithm@ == o.compression_algorithm@
        &&& self.target_file_size_base == o.target_file_size_base
        &&& self.compaction_filter_mask == o.compaction_filter_mask
        &&& self.max_space_reclaim_bytes == o.max_space_reclaim_bytes
    }

    /// A copy of the configuration.
    pub fn duplicate(&self) -> (r: CompactionConfig)
        ensures
            r.same(self),
    {
        let mut algos: Vec<CompressionAlgorithm> = Vec::new();
        let mut i: usize = 0;
        while i < self.compression_algorithm.len()
            invariant
                i <= self.compression_algorithm@.len(),
                algos@ == self.compression_algorithm@.subrange(0, i as int),
            decreases self.compression_algorithm@.len() - i,
        {
            algos.push(self.compression_algorithm[i]);
            i += 1;
            assert(algos@ =~= self.compression_algorithm@.subrange(0, i as int));
        }
        assert(algos@ =~= self.compression_algorithm@);
        CompactionConfig {
            max_bytes_for_level_base: self.max_bytes_for_level_base,
            max_level: self.max_level,
            max_bytes_for_level_multiplier: self.max_bytes_for_level_multiplier,
            max_compaction_bytes: self.max_compaction_bytes,
            level0_tier_compact_file_number: self.level0_tier_compact_file_number,
            level0_max_compact_file_number: self.level0_max_compact_file_number,
            compaction_mode: self.compaction_mode,
            compression_algorithm: algos,
            target_file_size_base: self.target_file_size_base,
            compaction_filter_mask: self.compaction_filter_mask,
            max_space_reclaim_bytes: self.max_space_reclaim_bytes,
        }
    }

    /// Whether `self` and `o` hold the same values.
    pub fn same_as(&self, o: &CompactionConfig) -> (r: bool)
        ensures
            r == self.same(o),
    {
        if self.compression_algorithm.len() != o.compression_algorithm.len() {
            return false;
        }
        let mut i: usize = 0;
        while i < self.compression_algorithm.len()
            invariant
                i <= self.compression_algorithm@.len(),
                self.compression_algorithm@.len() == o.compression_algorithm@.len(),
                self.compression_algorithm@.subrange(0, i as int)
                    == o.compression_algorithm@.subrange(0, i as int),
            decreases self.compression_algorithm@.len() - i,
        {
            if self.compression_algorithm[i] != o.compression_algorithm[i] {
                assert(self.compression_algorithm@[i as int] != o.compression_algorithm@[i as int]);
                return false;
            }
            proof {
                assert(self.compression_algorithm@.subrange(0, i + 1) =~= self.compression_algorithm@.subrange(0, i as int).push(self.compression_algorithm@[i as int]));
                assert(o.compression_algorithm@.subrange(0, i + 1) =~= o.compression_algorithm@.subrange(0, i as int).push(o.compression_algorithm@[i as int]));
            }
            i += 1;
        }
        assert(self.compression_algorithm@ =~= self.compression_algorithm@.subrange(0, i as int));
        assert(o.compression_algorithm@ =~= o.compression_algorithm@.subrange(0, i as int));
        self.max_bytes_for_level_base == o.max_bytes_for_level_base && self.max_level == o.max_level
            && self.max_bytes_for_level_multiplier == o.max_bytes_for_level_multiplier
            && self.max_compaction_bytes == o.max_compaction_bytes
            && self.level0_tier_compact_file_number == o.level0_tier_compact_file_number
            && self.level0_max_compact_file_number == o.level0_max_compact_file_number
            && self.compaction_mode == o.compaction_mode && self.target_file_size_base
            == o.target_file_size_base && self.compaction_filter_mask == o.compaction_filter_mask
            && self.max_space_reclaim_bytes == o.max_space_reclaim_bytes
    }
}

impl Default for CompactionConfig {
    /// Six levels below level 0, a 512 MiB base level growing fivefold per level.
    fn default() -> (r: CompactionConfig)
        ensures
            r.has_default_values(),
    {
        let compression_algorithm = vec![
            CompressionAlgorithm::Uncompressed,
            CompressionAlgorithm::Uncompressed,
            CompressionAlgorithm::Uncompressed,
            CompressionAlgorithm::Uncompressed,
            CompressionAlgorithm::Lz4,
            CompressionAlgorithm::Lz4,
            CompressionAlgorithm::Zstd,
        ];
        CompactionConfig {
            max_bytes_for_level_base: 512 * 1024 * 1024,
            max_level: 6,
            max_bytes_for_level_multiplier: 5,
            max_compaction_bytes: 2 * 1024 * 1024 * 1024,
            level0_tier_compact_file_number: 6,
            level0_max_compact_file_number: 96,
            compaction_mode: CompactionMode::Range,
            compression_algorithm,
            target_file_size_base: 32 * 1024 * 1024,
            compaction_filter_mask: 0,
            max_space_reclaim_bytes: 512 * 1024 * 1024,
        }
    }
}

} // verus!
