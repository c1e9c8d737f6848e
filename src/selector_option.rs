//! The options that configure each kind of selector.
use vstd::prelude::*;
use crate::config::CompactionConfig;
use crate::manual_picker::ManualCompactionOption;
use crate::model::copy_u32s;

verus! {

/// Options of a dynamic selector.
pub struct DynamicLevelSelectorOption {
    pub compaction_config: CompactionConfig,
}

/// Options of a manual selector.
pub struct ManualCompactionSelectorOption {
    pub compaction_config: CompactionConfig,
    pub option: ManualCompactionOption,
}

/// Options of a space-reclaim selector.
pub struct SpaceReclaimCompactionSelectorOption {
    pub compaction_config: CompactionConfig,
    /// The tables that still exist, as a set: order and repeats do not matter.
    pub all_table_ids: Vec<u32>,
}

/// Options of a time-to-live selector.
pub struct TtlCompactionSelectorOption {
    pub compaction_config: CompactionConfig,
}

/// New options for one kind of selector.
pub enum SelectorOption {
    Dynamic(DynamicLevelSelectorOption),
    Manual(ManualCompactionSelectorOption),
    SpaceReclaim(SpaceReclaimCompactionSelectorOption),
    Ttl(TtlCompactionSelectorOption),
}

impl SelectorOption {
    /// A copy of the dynamic options, if these are such.
    pub fn as_dynamic(&self) -> (r: Option<DynamicLevelSelectorOption>)
        ensures
            r is Some <==> self is Dynamic,
            r matches Some(o) ==> o.compaction_config.same(&self->Dynamic_0.compaction_config),
    {
        match self {
            SelectorOption::Dynamic(o) => Some(
                DynamicLevelSelectorOption { compaction_config: o.compaction_config.duplicate() },
            ),
            _ => None,
        }
    }

    /// A copy of the manual options, if these are such.
    pub fn as_manual(&self) -> (r: Option<ManualCompactionSelectorOption>)
        ensures
            r is Some <==> self is Manual,
            r matches Some(o) ==> o.compaction_config.same(&self->Manual_0.compaction_config)
                && o.option.same(&self->Manual_0.option),
    {
        match self {
            SelectorOption::Manual(o) => Some(
                ManualCompactionSelectorOption {
                    compaction_config: o.compaction_config.duplicate(),
                    option: o.option.duplicate(),
                },
            ),
            _ => None,
        }
    }

    /// A copy of the space-reclaim options, if these are such.
    pub fn as_space_reclaim(&self) -> (r: Option<SpaceReclaimCompactionSelectorOption>)
        ensures
            r is Some <==> self is SpaceReclaim,
            r matches Some(o) ==> o.compaction_config.same(&self->SpaceReclaim_0.compaction_config)
                && o.all_table_ids@ == self->SpaceReclaim_0.all_table_ids@,
    {
        match self {
            SelectorOption::SpaceReclaim(o) => Some(
                SpaceReclaimCompactionSelectorOption {
                    compaction_config: o.compaction_config.duplicate(),
                    all_table_ids: copy_u32s(&o.all_table_ids),
                },
            ),
            _ => None,
        }
    }

    /// A copy of the time-to-live options, if these are such.
    pub fn as_ttl(&self) -> (r: Option<TtlCompactionSelectorOption>)
        ensures
            r is Some <==> self is Ttl,
            r matches Some(o) ==> o.compaction_config.same(&self->Ttl_0.compaction_config),
    {
        match self {
            SelectorOption::Ttl(o) => Some(
                TtlCompactionSelectorOption { compaction_config: o.compaction_config.duplicate() },
            ),
            _ => None,
        }
    }
}

} // verus!
