pub mod relative_to;
pub mod relative_terrain_map;
pub mod conflict;
pub mod overwrite_strategy;
pub mod resolve_conflict_strategy;
pub mod texture_merge;
pub mod cells;
pub mod merge_strategy;
