//! Merging the LAND changes of a plugin into the merged landscape, layer by layer, with the
//! conflict strategy that the plugin chose for each layer.
use crate::land::grid::{IndexVTEX, Vec2, Vec3};
use crate::land::landscape_diff::{optional_modified, optional_wf, LandmassDiff, LandscapeDiff};
use crate::merge::conflict::{resolved_value, ConflictType};
use crate::merge::overwrite_strategy::OverwriteStrategy;
use crate::merge::relative_terrain_map::{IsModified, RelativeTerrainMap};
use crate::merge::relative_to::RelativeTo;
use crate::merge::resolve_conflict_strategy::{resolved_by, ResolveConflictStrategy};
use crate::repair::cleaning::deref_map;
use crate::repair::seam_detection::{coords_in_range, repair_landmass_seams, seam_repair_outcome, seams_repairable};
use crate::merge::texture_merge::{clone_optional, merge_openmw_texture_indices, same_optional_map, texture_base, texture_winner};
use vstd::prelude::*;

verus! {

/// How the changes of a plugin to one layer of a LAND record meet the changes of the plugins
/// before it.
#[derive(Clone, Copy, Debug, PartialEq, Eq, Structural)]
pub enum ConflictStrategy {
    /// Load order wins: the plugin's value replaces the merged one wherever the plugin changed
    /// the layer.
    Auto,
    /// The plugin's value replaces the merged one wherever the plugin changed the layer.
    Overwrite,
    /// The plugin's changes are taken only where no earlier plugin changed the layer.
    Ignore,
    /// Where both changed the layer, the two values are blended by the conflict classifier.
    Resolve,
}

/// The conflict strategy of each layer of a plugin's LAND records. The vertex normals follow
/// the strategy of the height map.
#[derive(Clone, Copy, Debug, PartialEq, Eq, Structural)]
pub struct LayerStrategies {
    pub height_map: ConflictStrategy,
    pub vertex_colors: ConflictStrategy,
    pub texture_indices: ConflictStrategy,
    pub world_map_data: ConflictStrategy,
}

/// Both optional maps are absent, or both hold the same content.
pub open spec fn same_map<U: RelativeTo, const T: usize>(a: Option<RelativeTerrainMap<U, T>>, b: Option<RelativeTerrainMap<U, T>>) -> bool {
    match (a, b) {
        (None, None) => true,
        (Some(x), Some(y)) => x.same_as(y),
        _ => false,
    }
}

/// `m` is `o` with the changes of `n` merged by resolving conflicts with `average`.
pub open spec fn resolve_merged<U: RelativeTo, const T: usize, F: Fn(U, U) -> Option<ConflictType<U>>>(
    o: RelativeTerrainMap<U, T>,
    n: RelativeTerrainMap<U, T>,
    m: RelativeTerrainMap<U, T>,
    average: F,
) -> bool {
    &&& forall|i: int|
        0 <= i < RelativeTerrainMap::<U, T>::size() && !o.differs_at(i) ==> #[trigger] m.value_at(i) == (if n.differs_at(i) {
            n.value_at(i)
        } else {
            o.value_at(i)
        })
    &&& forall|i: int|
        0 <= i < RelativeTerrainMap::<U, T>::size() && o.differs_at(i) && !n.differs_at(i) ==> #[trigger] m.value_at(i) == o.value_at(i)
    &&& forall|i: int|
        0 <= i < RelativeTerrainMap::<U, T>::size() && o.differs_at(i) && n.differs_at(i) ==> resolved_by(average, o.value_at(i), n.value_at(i), #[trigger] m.value_at(i))
}

/// `m` is `o` with the changes of `n` merged with `strategy`.
pub open spec fn merged_with<U: RelativeTo, const T: usize, F: Fn(U, U) -> Option<ConflictType<U>>>(
    strategy: ConflictStrategy,
    o: RelativeTerrainMap<U, T>,
    n: RelativeTerrainMap<U, T>,
    m: RelativeTerrainMap<U, T>,
    average: F,
) -> bool {
    &&& m.wf()
    &&& m.reference_seq() == o.reference_seq()
    &&& match strategy {
        ConflictStrategy::Ignore => forall|i: int|
            0 <= i < RelativeTerrainMap::<U, T>::size() ==> #[trigger] m.value_at(i) == (if n.differs_at(i) && !o.differs_at(i) {
                n.value_at(i)
            } else {
                o.value_at(i)
            }),
        ConflictStrategy::Resolve => resolve_merged(o, n, m, average),
        _ => forall|i: int|
            0 <= i < RelativeTerrainMap::<U, T>::size() ==> #[trigger] m.value_at(i) == (if n.differs_at(i) {
                n.value_at(i)
            } else {
                o.value_at(i)
            }),
    }
}

/// `r` is the layer `old` with the plugin's layer `new` merged with `strategy`: the old layer
/// when the plugin has none, the plugin's layer when there was none before, and otherwise the
/// merge of both.
pub open spec fn layer_merged<U: RelativeTo, const T: usize, F: Fn(U, U) -> Option<ConflictType<U>>>(
    strategy: ConflictStrategy,
    old: Option<RelativeTerrainMap<U, T>>,
    new: Option<RelativeTerrainMap<U, T>>,
    r: Option<RelativeTerrainMap<U, T>>,
    average: F,
) -> bool {
    match (old, new) {
        (_, None) => same_map(r, old),
        (None, Some(_)) => same_map(r, new),
        (Some(o), Some(n)) => r matches Some(m) && merged_with(strategy, o, n, m, average),
    }
}

/// The merged values of the layers `old` and `new` fit the reference of `old`, as `strategy`
/// computes them.
pub open spec fn layer_mergeable<U: RelativeTo, const T: usize, F: Fn(U, U) -> Option<ConflictType<U>>>(
    strategy: ConflictStrategy,
    old: Option<RelativeTerrainMap<U, T>>,
    new: Option<RelativeTerrainMap<U, T>>,
    average: F,
) -> bool {
    match (old, new) {
        (Some(o), Some(n)) => layer_pair_mergeable(strategy, o, n, average),
        _ => true,
    }
}

/// The merged values of the maps `o` and `n` fit the reference of `o`, as `strategy`
/// computes them.
pub open spec fn layer_pair_mergeable<U: RelativeTo, const T: usize, F: Fn(U, U) -> Option<ConflictType<U>>>(
    strategy: ConflictStrategy,
    o: RelativeTerrainMap<U, T>,
    n: RelativeTerrainMap<U, T>,
    average: F,
) -> bool {
    {
        &&& forall|i: int|
            0 <= i < RelativeTerrainMap::<U, T>::size() && #[trigger] n.differs_at(i) && (strategy != ConflictStrategy::Ignore || !o.differs_at(i))
                ==> U::subtract_ok(n.value_at(i), o.reference_at(i))
        &&& strategy == ConflictStrategy::Resolve ==> forall|i: int, c: Option<ConflictType<U>>|
            0 <= i < RelativeTerrainMap::<U, T>::size() && #[trigger] o.differs_at(i) && n.differs_at(i)
                && #[trigger] average.ensures((o.value_at(i), n.value_at(i)), c) ==> U::subtract_ok(resolved_value(c, o.value_at(i)), o.reference_at(i))
    }
}

/// Returns a copy of `lhs` that takes the changes of `rhs` only where `lhs` has none.
fn keep_earlier_changes<U: RelativeTo, const T: usize>(lhs: &RelativeTerrainMap<U, T>, rhs: &RelativeTerrainMap<U, T>) -> (new: RelativeTerrainMap<U, T>)
    requires
        lhs.wf(),
        rhs.wf(),
        forall|i: int|
            0 <= i < RelativeTerrainMap::<U, T>::size() && #[trigger] rhs.differs_at(i) && !lhs.differs_at(i)
                ==> U::subtract_ok(rhs.value_at(i), lhs.reference_at(i)),
    ensures
        new.wf(),
        new.reference_seq() == lhs.reference_seq(),
        forall|i: int|
            0 <= i < RelativeTerrainMap::<U, T>::size() ==> #[trigger] new.value_at(i) == (if rhs.differs_at(i) && !lhs.differs_at(i) {
                rhs.value_at(i)
            } else {
                lhs.value_at(i)
            }),
{
    let mut new = lhs.clone();
    proof {
        new.lemma_same_as(*lhs);
        lhs.lemma_wf();
    }
    let n = T * T;
    let mut i: usize = 0;
    while i < n
        invariant
            n == T * T,
            i <= n,
            lhs.wf(),
            rhs.wf(),
            new.wf(),
            forall|j: int|
                0 <= j < RelativeTerrainMap::<U, T>::size() && #[trigger] rhs.differs_at(j) && !lhs.differs_at(j)
                    ==> U::subtract_ok(rhs.value_at(j), lhs.reference_at(j)),
            new.reference_seq() == lhs.reference_seq(),
            forall|j: int| 0 <= j < n ==> #[trigger] new.reference_at(j) == lhs.reference_at(j),
            forall|j: int|
                0 <= j < n ==> #[trigger] new.value_at(j) == (if j < i && rhs.differs_at(j) && !lhs.differs_at(j) {
                    rhs.value_at(j)
                } else {
                    lhs.value_at(j)
                }),
        decreases n - i,
    {
        if rhs.differs_at_offset(i) && !lhs.differs_at_offset(i) {
            let v = rhs.value_at_offset(i);
            new.set_value_at_offset(i, v);
        }
        i += 1;
    }
    new
}

/// Merges the plugin's layer `new` into the merged layer `old` with `strategy`, where
/// `average` classifies conflicts for [`ConflictStrategy::Resolve`]. The cell coordinates,
/// plugin name and layer name identify the merge and do not influence it.
pub fn apply_merge_strategy<U: RelativeTo, const T: usize, F: Fn(U, U) -> Option<ConflictType<U>>>(
    coords: Vec2,
    plugin: &str,
    value: &str,
    old: Option<&RelativeTerrainMap<U, T>>,
    new: Option<&RelativeTerrainMap<U, T>>,
    strategy: ConflictStrategy,
    average: &F,
) -> (r: Option<RelativeTerrainMap<U, T>>)
    requires
        old matches Some(m) ==> m.wf(),
        new matches Some(m) ==> m.wf(),
        forall|a: U, b: U| average.requires((a, b)),
        layer_mergeable(strategy, deref_map(old), deref_map(new), *average),
    ensures
        layer_merged(strategy, deref_map(old), deref_map(new), r, *average),
{
    match (old, new) {
        (_, None) => clone_optional(old),
        (None, Some(_)) => clone_optional(new),
        (Some(o), Some(n)) => {
            proof {
                assert(deref_map(old) == Some(*o));
                assert(deref_map(new) == Some(*n));
                assert(layer_pair_mergeable(strategy, *o, *n, *average));
            }
            let m = match strategy {
                ConflictStrategy::Ignore => keep_earlier_changes(o, n),
                ConflictStrategy::Resolve => {
                    let s = ResolveConflictStrategy {};
                    s.apply(coords, plugin, value, o, n, average)
                },
                _ => {
                    let s = OverwriteStrategy {};
                    s.apply(coords, plugin, value, o, n)
                },
            };
            Some(m)
        },
    }
}

/// The base of the texture grid in `OpenMW` mode: the values of `old`, or the default texture
/// everywhere when there is no `old`.
pub open spec fn texture_start(old: Option<RelativeTerrainMap<IndexVTEX, 16>>) -> Seq<IndexVTEX> {
    match old {
        Some(m) => m.values(),
        None => Seq::new(256, |i: int| IndexVTEX { value: 0 }),
    }
}

/// `r` is the texture layer `old` with the plugin's layer `new` merged as categorical winner
/// data ([`merge_openmw_texture_indices`]).
pub open spec fn textures_openmw_merged(
    old: Option<RelativeTerrainMap<IndexVTEX, 16>>,
    new: Option<RelativeTerrainMap<IndexVTEX, 16>>,
    r: Option<RelativeTerrainMap<IndexVTEX, 16>>,
) -> bool {
    match new {
        None => same_map(r, old),
        Some(n) => {
            let base = texture_start(old);
            let merged = texture_winner(base, n);
            if merged == base {
                same_map(r, old)
            } else {
                r matches Some(m) && m.wf() && m.reference_seq() == base && m.values() == merged
            }
        },
    }
}

/// `after` is the vertex normal layer `before` with its differences kept only where the
/// height layer `heights` differs from its reference.
pub open spec fn normals_masked_by(
    before: Option<RelativeTerrainMap<Vec3<i8>, 65>>,
    heights: Option<RelativeTerrainMap<i32, 65>>,
    after: Option<RelativeTerrainMap<Vec3<i8>, 65>>,
) -> bool {
    match (before, after) {
        (None, None) => true,
        (Some(v), Some(a)) => {
            &&& a.wf()
            &&& a.reference_seq() == v.reference_seq()
            &&& forall|i: int| 0 <= i < 65 * 65 ==> #[trigger] a.value_at(i) == (if (heights matches Some(h) && h.difference_seq()[i]) {
                v.value_at(i)
            } else {
                v.reference_at(i)
            })
        },
        _ => false,
    }
}

/// The texture layer is merged as categorical winner data: in `OpenMW` mode with the
/// [`ConflictStrategy::Auto`] or [`ConflictStrategy::Overwrite`] strategy.
pub open spec fn textures_by_winner(openmw: bool, s: ConflictStrategy) -> bool {
    openmw && (s == ConflictStrategy::Auto || s == ConflictStrategy::Overwrite)
}

/// Every layer of the record `new` can be merged into the record `old` with the strategies
/// `s` and the classifiers.
pub open spec fn landscape_mergeable<
    FH: Fn(i32, i32) -> Option<ConflictType<i32>>,
    FN: Fn(Vec3<i8>, Vec3<i8>) -> Option<ConflictType<Vec3<i8>>>,
    FW: Fn(u8, u8) -> Option<ConflictType<u8>>,
    FC: Fn(Vec3<u8>, Vec3<u8>) -> Option<ConflictType<Vec3<u8>>>,
    FT: Fn(IndexVTEX, IndexVTEX) -> Option<ConflictType<IndexVTEX>>,
>(old: LandscapeDiff, new: LandscapeDiff, s: LayerStrategies, openmw: bool, ah: FH, an: FN, aw: FW, ac: FC, at: FT) -> bool {
    &&& layer_mergeable(s.height_map, old.height_map, new.height_map, ah)
    &&& layer_mergeable(s.height_map, old.vertex_normals, new.vertex_normals, an)
    &&& layer_mergeable(s.world_map_data, old.world_map_data, new.world_map_data, aw)
    &&& layer_mergeable(s.vertex_colors, old.vertex_colors, new.vertex_colors, ac)
    &&& !textures_by_winner(openmw, s.texture_indices) ==> layer_mergeable(s.texture_indices, old.texture_indices, new.texture_indices, at)
}

/// `after` is the list of contributing plugins `before` with the plugin `plugin` added last,
/// together with the fields `flags` that it modified.
pub open spec fn recorded(before: Seq<(String, u8)>, plugin: Seq<char>, flags: u8, after: Seq<(String, u8)>) -> bool {
    &&& after.len() == before.len() + 1
    &&& forall|i: int| 0 <= i < before.len() ==> #[trigger] after[i] == before[i]
    &&& after[before.len() as int].0@ == plugin
    &&& after[before.len() as int].1 == flags
}

/// `m` is the record `new` of the plugin `plugin` merged into the record `old`: every layer
/// merged with the plugin's strategy for it, the vertex normals then kept only where the
/// merged heights differ, and the plugin recorded with the fields it modified.
pub open spec fn landscape_merged<
    FH: Fn(i32, i32) -> Option<ConflictType<i32>>,
    FN: Fn(Vec3<i8>, Vec3<i8>) -> Option<ConflictType<Vec3<i8>>>,
    FW: Fn(u8, u8) -> Option<ConflictType<u8>>,
    FC: Fn(Vec3<u8>, Vec3<u8>) -> Option<ConflictType<Vec3<u8>>>,
    FT: Fn(IndexVTEX, IndexVTEX) -> Option<ConflictType<IndexVTEX>>,
>(plugin: Seq<char>, old: LandscapeDiff, new: LandscapeDiff, s: LayerStrategies, openmw: bool, m: LandscapeDiff, ah: FH, an: FN, aw: FW, ac: FC, at: FT) -> bool {
    &&& m.wf()
    &&& m.coords == old.coords
    &&& m.flags == old.flags
    &&& recorded(old.plugins@, plugin, new.modified_flags(), m.plugins@)
    &&& layer_merged(s.height_map, old.height_map, new.height_map, m.height_map, ah)
    &&& exists|vn: Option<RelativeTerrainMap<Vec3<i8>, 65>>|
        layer_merged(s.height_map, old.vertex_normals, new.vertex_normals, vn, an) && #[trigger] normals_masked_by(vn, m.height_map, m.vertex_normals)
    &&& layer_merged(s.world_map_data, old.world_map_data, new.world_map_data, m.world_map_data, aw)
    &&& layer_merged(s.vertex_colors, old.vertex_colors, new.vertex_colors, m.vertex_colors, ac)
    &&& if textures_by_winner(openmw, s.texture_indices) {
        textures_openmw_merged(old.texture_indices, new.texture_indices, m.texture_indices)
    } else {
        layer_merged(s.texture_indices, old.texture_indices, new.texture_indices, m.texture_indices, at)
    }
}

/// A layer that is merged is well formed.
proof fn lemma_layer_merged_wf<U: RelativeTo, const T: usize, F: Fn(U, U) -> Option<ConflictType<U>>>(
    strategy: ConflictStrategy,
    old: Option<RelativeTerrainMap<U, T>>,
    new: Option<RelativeTerrainMap<U, T>>,
    r: Option<RelativeTerrainMap<U, T>>,
    average: F,
)
    requires
        optional_wf(old),
        optional_wf(new),
        layer_merged(strategy, old, new, r, average),
    ensures
        optional_wf(r),
{
    match (old, new, r) {
        (Some(o), None, Some(m)) => {
            m.lemma_same_as(o);
        },
        (None, Some(n), Some(m)) => {
            m.lemma_same_as(n);
        },
        _ => {},
    }
}

/// Merges the record `new` of the plugin `plugin` into the merged record `old` of the same
/// cell. Each layer is merged with the plugin's strategy for it (`strategies`; the vertex
/// normals follow the heights), with the classifiers deciding conflicts for
/// [`ConflictStrategy::Resolve`]; in `OpenMW` mode, texture indices merged with
/// [`ConflictStrategy::Auto`] or [`ConflictStrategy::Overwrite`] are categorical winner data
/// instead. The vertex normals then keep their differences only where the merged heights
/// differ, and the plugin is recorded with the fields that it modified.
pub fn merge_landscape_diff<
    FH: Fn(i32, i32) -> Option<ConflictType<i32>>,
    FN: Fn(Vec3<i8>, Vec3<i8>) -> Option<ConflictType<Vec3<i8>>>,
    FW: Fn(u8, u8) -> Option<ConflictType<u8>>,
    FC: Fn(Vec3<u8>, Vec3<u8>) -> Option<ConflictType<Vec3<u8>>>,
    FT: Fn(IndexVTEX, IndexVTEX) -> Option<ConflictType<IndexVTEX>>,
>(
    plugin: &String,
    old: &LandscapeDiff,
    new: &LandscapeDiff,
    strategies: &LayerStrategies,
    is_openmw_mode: bool,
    average_heights: &FH,
    average_normals: &FN,
    average_world_map: &FW,
    average_colors: &FC,
    average_textures: &FT,
) -> (merged: LandscapeDiff)
    requires
        old.wf(),
        new.wf(),
        old.coords == new.coords,
        forall|a: i32, b: i32| average_heights.requires((a, b)),
        forall|a: Vec3<i8>, b: Vec3<i8>| average_normals.requires((a, b)),
        forall|a: u8, b: u8| average_world_map.requires((a, b)),
        forall|a: Vec3<u8>, b: Vec3<u8>| average_colors.requires((a, b)),
        forall|a: IndexVTEX, b: IndexVTEX| average_textures.requires((a, b)),
        landscape_mergeable(*old, *new, *strategies, is_openmw_mode, *average_heights, *average_normals, *average_world_map, *average_colors, *average_textures),
    ensures
        landscape_merged(plugin@, *old, *new, *strategies, is_openmw_mode, merged, *average_heights, *average_normals, *average_world_map, *average_colors, *average_textures),
{
    let coords = old.coords;
    let s = *strategies;
    let mut plugins: Vec<(String, u8)> = Vec::new();
    let mut i: usize = 0;
    while i < old.plugins.len()
        invariant
            0 <= i <= old.plugins@.len(),
            plugins@ == old.plugins@.subrange(0, i as int),
        decreases old.plugins@.len() - i,
    {
        let entry = (old.plugins[i].0.clone(), old.plugins[i].1);
        proof {
            assert(entry == old.plugins@[i as int]);
        }
        plugins.push(entry);
        proof {
            assert(plugins@ =~= old.plugins@.subrange(0, i + 1));
        }
        i += 1;
    }
    proof {
        assert(plugins@ =~= old.plugins@);
    }
    let flags = new.modified_data();
    plugins.push((plugin.clone(), flags));
    let height_map = apply_merge_strategy(
        coords,
        plugin.as_str(),
        "height_map",
        old.height_map.as_ref(),
        new.height_map.as_ref(),
        s.height_map,
        average_heights,
    );
    let normals = apply_merge_strategy(
        coords,
        plugin.as_str(),
        "vertex_normals",
        old.vertex_normals.as_ref(),
        new.vertex_normals.as_ref(),
        s.height_map,
        average_normals,
    );
    let world_map_data = apply_merge_strategy(
        coords,
        plugin.as_str(),
        "world_map_data",
        old.world_map_data.as_ref(),
        new.world_map_data.as_ref(),
        s.world_map_data,
        average_world_map,
    );
    let vertex_colors = apply_merge_strategy(
        coords,
        plugin.as_str(),
        "vertex_colors",
        old.vertex_colors.as_ref(),
        new.vertex_colors.as_ref(),
        s.vertex_colors,
        average_colors,
    );
    proof {
        lemma_layer_merged_wf(s.height_map, old.height_map, new.height_map, height_map, *average_heights);
        lemma_layer_merged_wf(s.height_map, old.vertex_normals, new.vertex_normals, normals, *average_normals);
        lemma_layer_merged_wf(s.world_map_data, old.world_map_data, new.world_map_data, world_map_data, *average_world_map);
        lemma_layer_merged_wf(s.vertex_colors, old.vertex_colors, new.vertex_colors, vertex_colors, *average_colors);
    }
    let vertex_normals = match &normals {
        Some(vn) => match &height_map {
            Some(h) => Some(LandscapeDiff::apply_mask(vn, Some(h.differences()))),
            None => Some(LandscapeDiff::apply_mask(vn, None)),
        },
        None => None,
    };
    let by_winner = is_openmw_mode && (s.texture_indices == ConflictStrategy::Auto || s.texture_indices == ConflictStrategy::Overwrite);
    let texture_indices = if by_winner {
        let old_textures = old.texture_indices.as_ref();
        let new_textures = new.texture_indices.as_ref();
        let t = merge_openmw_texture_indices(old_textures, new_textures);
        proof {
            assert(deref_map(old_textures) == old.texture_indices);
            assert(deref_map(new_textures) == new.texture_indices);
            assert(texture_base(old_textures) == texture_start(old.texture_indices));
            if t is Some && old.texture_indices is Some {
                if new.texture_indices is None || texture_winner(texture_start(old.texture_indices), new.texture_indices->0) == texture_start(old.texture_indices) {
                    t->0.lemma_same_as(old.texture_indices->0);
                }
            }
        }
        t
    } else {
        let t = apply_merge_strategy(
            coords,
            plugin.as_str(),
            "texture_indices",
            old.texture_indices.as_ref(),
            new.texture_indices.as_ref(),
            s.texture_indices,
            average_textures,
        );
        proof {
            lemma_layer_merged_wf(s.texture_indices, old.texture_indices, new.texture_indices, t, *average_textures);
        }
        t
    };
    let merged = LandscapeDiff {
        coords,
        flags: old.flags,
        height_map,
        vertex_normals,
        world_map_data,
        vertex_colors,
        texture_indices,
        plugins,
    };
    proof {
        assert(normals_masked_by(normals, merged.height_map, merged.vertex_normals));
    }
    merged
}

/// `m` is the record `new` of the plugin `plugin` taken as it is, for a cell that had no
/// merged record yet, with the plugin recorded with the fields that it modified.
pub open spec fn landscape_taken(plugin: Seq<char>, new: LandscapeDiff, m: LandscapeDiff) -> bool {
    &&& m.wf()
    &&& m.coords == new.coords
    &&& m.flags == new.flags
    &&& same_map(m.height_map, new.height_map)
    &&& same_map(m.vertex_normals, new.vertex_normals)
    &&& same_map(m.world_map_data, new.world_map_data)
    &&& same_map(m.vertex_colors, new.vertex_colors)
    &&& same_map(m.texture_indices, new.texture_indices)
    &&& recorded(new.plugins@, plugin, new.modified_flags(), m.plugins@)
}

/// Copies the plugins that contributed to a record, adding `plugin` with `flags`.
fn plugins_with(before: &Vec<(String, u8)>, plugin: &String, flags: u8) -> (r: Vec<(String, u8)>)
    ensures
        recorded(before@, plugin@, flags, r@),
{
    let mut r: Vec<(String, u8)> = Vec::new();
    let mut i: usize = 0;
    while i < before.len()
        invariant
            0 <= i <= before@.len(),
            r@ == before@.subrange(0, i as int),
        decreases before@.len() - i,
    {
        let entry = (before[i].0.clone(), before[i].1);
        proof {
            assert(entry == before@[i as int]);
        }
        r.push(entry);
        proof {
            assert(r@ =~= before@.subrange(0, i + 1));
        }
        i += 1;
    }
    r.push((plugin.clone(), flags));
    r
}

proof fn lemma_same_map_wf<U: RelativeTo, const T: usize>(a: Option<RelativeTerrainMap<U, T>>, b: Option<RelativeTerrainMap<U, T>>)
    requires
        same_map(a, b),
        optional_wf(b),
    ensures
        optional_wf(a),
{
    if let (Some(x), Some(y)) = (a, b) {
        x.lemma_same_as(y);
    }
}

/// Takes the record `new` of the plugin `plugin` as the merged record of its cell.
fn take_landscape(plugin: &String, new: &LandscapeDiff) -> (m: LandscapeDiff)
    requires
        new.wf(),
    ensures
        landscape_taken(plugin@, *new, m),
{
    let flags = new.modified_data();
    let m = LandscapeDiff {
        coords: new.coords,
        flags: new.flags,
        height_map: clone_optional(new.height_map.as_ref()),
        vertex_normals: clone_optional(new.vertex_normals.as_ref()),
        world_map_data: clone_optional(new.world_map_data.as_ref()),
        vertex_colors: clone_optional(new.vertex_colors.as_ref()),
        texture_indices: clone_optional(new.texture_indices.as_ref()),
        plugins: plugins_with(&new.plugins, plugin, flags),
    };
    proof {
        lemma_same_map_wf(m.height_map, new.height_map);
        lemma_same_map_wf(m.vertex_normals, new.vertex_normals);
        lemma_same_map_wf(m.world_map_data, new.world_map_data);
        lemma_same_map_wf(m.vertex_colors, new.vertex_colors);
        lemma_same_map_wf(m.texture_indices, new.texture_indices);
    }
    m
}

/// Merges the records of `plugin` into `merged`, cell by cell: the record of a cell that
/// `merged` already has is merged with the plugin's record by [`merge_landscape_diff`], and the
/// plugin's record of any other cell is taken as it is. Records of cells that the plugin has
/// no record of stay unchanged.
pub fn merge_landmass_into<
    FH: Fn(i32, i32) -> Option<ConflictType<i32>>,
    FN: Fn(Vec3<i8>, Vec3<i8>) -> Option<ConflictType<Vec3<i8>>>,
    FW: Fn(u8, u8) -> Option<ConflictType<u8>>,
    FC: Fn(Vec3<u8>, Vec3<u8>) -> Option<ConflictType<Vec3<u8>>>,
    FT: Fn(IndexVTEX, IndexVTEX) -> Option<ConflictType<IndexVTEX>>,
>(
    merged: &mut LandmassDiff,
    plugin: &LandmassDiff,
    strategies: &LayerStrategies,
    is_openmw_mode: bool,
    average_heights: &FH,
    average_normals: &FN,
    average_world_map: &FW,
    average_colors: &FC,
    average_textures: &FT,
)
    requires
        old(merged).wf(),
        plugin.wf(),
        forall|a: i32, b: i32| average_heights.requires((a, b)),
        forall|a: Vec3<i8>, b: Vec3<i8>| average_normals.requires((a, b)),
        forall|a: u8, b: u8| average_world_map.requires((a, b)),
        forall|a: Vec3<u8>, b: Vec3<u8>| average_colors.requires((a, b)),
        forall|a: IndexVTEX, b: IndexVTEX| average_textures.requires((a, b)),
        forall|j: int|
            0 <= j < plugin.cells().len() && old(merged).index_of(#[trigger] plugin.cells()[j].coords) is Some ==> landscape_mergeable(
                old(merged).cells()[old(merged).index_of(plugin.cells()[j].coords)->0],
                plugin.cells()[j],
                *strategies,
                is_openmw_mode,
                *average_heights,
                *average_normals,
                *average_world_map,
                *average_colors,
                *average_textures,
            ),
    ensures
        final(merged).wf(),
        final(merged).plugin_name() == old(merged).plugin_name(),
        forall|c: Vec2| #[trigger] final(merged).index_of(c) is Some <==> (old(merged).index_of(c) is Some || plugin.index_of(c) is Some),
        forall|c: Vec2|
            plugin.index_of(c) is None && old(merged).index_of(c) is Some ==> final(merged).cells()[#[trigger] final(merged).index_of(c)->0]
                == old(merged).cells()[old(merged).index_of(c)->0],
        forall|c: Vec2|
            plugin.index_of(c) is Some && old(merged).index_of(c) is Some ==> landscape_merged(
                plugin.plugin_name(),
                old(merged).cells()[old(merged).index_of(c)->0],
                plugin.cells()[plugin.index_of(c)->0],
                *strategies,
                is_openmw_mode,
                final(merged).cells()[#[trigger] final(merged).index_of(c)->0],
                *average_heights,
                *average_normals,
                *average_world_map,
                *average_colors,
                *average_textures,
            ),
        forall|c: Vec2|
            plugin.index_of(c) is Some && old(merged).index_of(c) is None ==> landscape_taken(
                plugin.plugin_name(),
                plugin.cells()[plugin.index_of(c)->0],
                final(merged).cells()[#[trigger] final(merged).index_of(c)->0],
            ),
{
    let ghost m0 = *merged;
    let cells = plugin.sorted();
    let name = plugin.plugin();
    let n = cells.len();
    let mut j: usize = 0;
    while j < n
        invariant
            cells@ == plugin.cells(),
            n == cells@.len(),
            name@ == plugin.plugin_name(),
            0 <= j <= n,
            plugin.wf(),
            m0.wf(),
            merged.wf(),
            merged.plugin_name() == m0.plugin_name(),
            forall|a: i32, b: i32| average_heights.requires((a, b)),
            forall|a: Vec3<i8>, b: Vec3<i8>| average_normals.requires((a, b)),
            forall|a: u8, b: u8| average_world_map.requires((a, b)),
            forall|a: Vec3<u8>, b: Vec3<u8>| average_colors.requires((a, b)),
            forall|a: IndexVTEX, b: IndexVTEX| average_textures.requires((a, b)),
            forall|jj: int|
                0 <= jj < plugin.cells().len() && m0.index_of(#[trigger] plugin.cells()[jj].coords) is Some ==> landscape_mergeable(
                    m0.cells()[m0.index_of(plugin.cells()[jj].coords)->0],
                    plugin.cells()[jj],
                    *strategies,
                    is_openmw_mode,
                    *average_heights,
                    *average_normals,
                    *average_world_map,
                    *average_colors,
                    *average_textures,
                ),
            forall|c: Vec2|
                #[trigger] merged.index_of(c) is Some <==> (m0.index_of(c) is Some || (plugin.index_of(c) matches Some(p) && p < j)),
            forall|c: Vec2|
                !(plugin.index_of(c) matches Some(p) && p < j) && m0.index_of(c) is Some ==> merged.cells()[#[trigger] merged.index_of(c)->0]
                    == m0.cells()[m0.index_of(c)->0],
            forall|c: Vec2|
                (plugin.index_of(c) matches Some(p) && p < j) && m0.index_of(c) is Some ==> landscape_merged(
                    plugin.plugin_name(),
                    m0.cells()[m0.index_of(c)->0],
                    plugin.cells()[plugin.index_of(c)->0],
                    *strategies,
                    is_openmw_mode,
                    merged.cells()[#[trigger] merged.index_of(c)->0],
                    *average_heights,
                    *average_normals,
                    *average_world_map,
                    *average_colors,
                    *average_textures,
                ),
            forall|c: Vec2|
                (plugin.index_of(c) matches Some(p) && p < j) && m0.index_of(c) is None ==> landscape_taken(
                    plugin.plugin_name(),
                    plugin.cells()[plugin.index_of(c)->0],
                    merged.cells()[#[trigger] merged.index_of(c)->0],
                ),
        decreases n - j,
    {
        let p = &cells[j];
        let c = p.coords;
        let ghost before = *merged;
        proof {
            assert(plugin.cells()[j as int].wf());
            assert(plugin.cells()[j as int].coords == c);
            let q = choose|k: int| 0 <= k < plugin.cells().len() && (#[trigger] plugin.cells()[k]).coords == c;
            plugin.lemma_unique(q, j as int);
            assert(plugin.index_of(c) == Some(j as int));
            assert(before.index_of(c) is Some == m0.index_of(c) is Some);
        }
        match merged.find(c) {
            Some(k) => {
                proof {
                    assert(before.index_of(c) == Some(k as int));
                    assert(before.cells()[k as int] == m0.cells()[m0.index_of(c)->0]);
                    assert(m0.index_of(plugin.cells()[j as int].coords) is Some);
                    assert(before.cells()[k as int].wf());
                }
                let m = merge_landscape_diff(
                    name,
                    &merged.sorted()[k],
                    p,
                    strategies,
                    is_openmw_mode,
                    average_heights,
                    average_normals,
                    average_world_map,
                    average_colors,
                    average_textures,
                );
                let _ = merged.replace_cell(k, m);
                proof {
                    let after = *merged;
                    assert forall|x: Vec2| after.index_of(x) == before.index_of(x) by {
                        assert forall|i: int| 0 <= i < after.cells().len() implies #[trigger] after.cells()[i].coords == before.cells()[i].coords by {}
                        LandmassDiff::lemma_same_coords_index(after, before, x);
                    }
                    assert forall|x: Vec2| x != c && before.index_of(x) is Some implies after.cells()[before.index_of(x)->0] == before.cells()[before.index_of(x)->0] by {
                        let i = before.index_of(x)->0;
                        assert(before.cells()[i].coords == x);
                        assert(i != k);
                    }
                    assert(after.cells()[k as int] == m);
                }
            },
            None => {
                proof {
                    assert(before.index_of(c) is None);
                }
                let m = take_landscape(name, p);
                merged.insert(m);
            },
        }
        proof {
            let after = *merged;
            assert forall|x: Vec2| #[trigger] after.index_of(x) is Some <==> (m0.index_of(x) is Some || (plugin.index_of(x) matches Some(pp) && pp < j + 1)) by {
                if x != c && plugin.index_of(x) is Some {
                    let pp = plugin.index_of(x)->0;
                    assert(plugin.cells()[pp].coords == x);
                    assert(pp != j);
                }
            }
            assert forall|x: Vec2|
                !(plugin.index_of(x) matches Some(pp) && pp < j + 1) && m0.index_of(x) is Some implies after.cells()[#[trigger] after.index_of(x)->0]
                    == m0.cells()[m0.index_of(x)->0] by {
                assert(x != c);
            }
            assert forall|x: Vec2|
                (plugin.index_of(x) matches Some(pp) && pp < j + 1) && m0.index_of(x) is Some implies landscape_merged(
                    plugin.plugin_name(),
                    m0.cells()[m0.index_of(x)->0],
                    plugin.cells()[plugin.index_of(x)->0],
                    *strategies,
                    is_openmw_mode,
                    after.cells()[#[trigger] after.index_of(x)->0],
                    *average_heights,
                    *average_normals,
                    *average_world_map,
                    *average_colors,
                    *average_textures,
                ) by {
                if x != c {
                    let pp = plugin.index_of(x)->0;
                    assert(plugin.cells()[pp].coords == x);
                    assert(pp != j);
                }
            }
            assert forall|x: Vec2|
                (plugin.index_of(x) matches Some(pp) && pp < j + 1) && m0.index_of(x) is None implies landscape_taken(
                    plugin.plugin_name(),
                    plugin.cells()[plugin.index_of(x)->0],
                    after.cells()[#[trigger] after.index_of(x)->0],
                ) by {
                if x != c {
                    let pp = plugin.index_of(x)->0;
                    assert(plugin.cells()[pp].coords == x);
                    assert(pp != j);
                }
            }
        }
        j += 1;
    }
}


/// `plugin` can be merged into `m` with the strategies `s`: the merged values of every record
/// that both have fit their reference.
pub open spec fn landmass_mergeable<
    FH: Fn(i32, i32) -> Option<ConflictType<i32>>,
    FN: Fn(Vec3<i8>, Vec3<i8>) -> Option<ConflictType<Vec3<i8>>>,
    FW: Fn(u8, u8) -> Option<ConflictType<u8>>,
    FC: Fn(Vec3<u8>, Vec3<u8>) -> Option<ConflictType<Vec3<u8>>>,
    FT: Fn(IndexVTEX, IndexVTEX) -> Option<ConflictType<IndexVTEX>>,
>(m: LandmassDiff, plugin: LandmassDiff, s: LayerStrategies, openmw: bool, ah: FH, an: FN, aw: FW, ac: FC, at: FT) -> bool {
    forall|j: int|
        0 <= j < plugin.cells().len() && m.index_of(#[trigger] plugin.cells()[j].coords) is Some ==> landscape_mergeable(
            m.cells()[m.index_of(plugin.cells()[j].coords)->0],
            plugin.cells()[j],
            s,
            openmw,
            ah,
            an,
            aw,
            ac,
            at,
        )
}

/// `m1` is `plugin` merged into `m0` with the strategies `s`: it holds the records of both;
/// a record that only `m0` has is kept, one that both have is merged, and one that only the
/// plugin has is taken from it.
pub open spec fn landmass_merged<
    FH: Fn(i32, i32) -> Option<ConflictType<i32>>,
    FN: Fn(Vec3<i8>, Vec3<i8>) -> Option<ConflictType<Vec3<i8>>>,
    FW: Fn(u8, u8) -> Option<ConflictType<u8>>,
    FC: Fn(Vec3<u8>, Vec3<u8>) -> Option<ConflictType<Vec3<u8>>>,
    FT: Fn(IndexVTEX, IndexVTEX) -> Option<ConflictType<IndexVTEX>>,
>(m0: LandmassDiff, plugin: LandmassDiff, s: LayerStrategies, openmw: bool, ah: FH, an: FN, aw: FW, ac: FC, at: FT, m1: LandmassDiff) -> bool {
    &&& m1.wf()
    &&& m1.plugin_name() == m0.plugin_name()
    &&& forall|c: Vec2| #[trigger] m1.index_of(c) is Some <==> (m0.index_of(c) is Some || plugin.index_of(c) is Some)
    &&& forall|c: Vec2|
        plugin.index_of(c) is None && m0.index_of(c) is Some ==> m1.cells()[#[trigger] m1.index_of(c)->0]
            == m0.cells()[m0.index_of(c)->0]
    &&& forall|c: Vec2|
        plugin.index_of(c) is Some && m0.index_of(c) is Some ==> landscape_merged(
            plugin.plugin_name(),
            m0.cells()[m0.index_of(c)->0],
            plugin.cells()[plugin.index_of(c)->0],
            s,
            openmw,
            m1.cells()[#[trigger] m1.index_of(c)->0],
            ah,
            an,
            aw,
            ac,
            at,
        )
    &&& forall|c: Vec2|
        plugin.index_of(c) is Some && m0.index_of(c) is None ==> landscape_taken(
            plugin.plugin_name(),
            plugin.cells()[plugin.index_of(c)->0],
            m1.cells()[#[trigger] m1.index_of(c)->0],
        )
}

/// The `i`-th step of `states`: its next state is the `i`-th landmass of `plugins` merged into
/// it with the `i`-th strategies.
pub open spec fn chain_step<
    FH: Fn(i32, i32) -> Option<ConflictType<i32>>,
    FN: Fn(Vec3<i8>, Vec3<i8>) -> Option<ConflictType<Vec3<i8>>>,
    FW: Fn(u8, u8) -> Option<ConflictType<u8>>,
    FC: Fn(Vec3<u8>, Vec3<u8>) -> Option<ConflictType<Vec3<u8>>>,
    FT: Fn(IndexVTEX, IndexVTEX) -> Option<ConflictType<IndexVTEX>>,
>(plugins: Seq<LandmassDiff>, strategies: Seq<LayerStrategies>, openmw: bool, ah: FH, an: FN, aw: FW, ac: FC, at: FT, states: Seq<LandmassDiff>, i: int) -> bool {
    landmass_merged(states[i], plugins[i], strategies[i], openmw, ah, an, aw, ac, at, states[i + 1])
}

/// `states` starts at `m0` and merges the first `n` landmasses of `plugins` in order, each
/// with its own strategies.
pub open spec fn merge_chain<
    FH: Fn(i32, i32) -> Option<ConflictType<i32>>,
    FN: Fn(Vec3<i8>, Vec3<i8>) -> Option<ConflictType<Vec3<i8>>>,
    FW: Fn(u8, u8) -> Option<ConflictType<u8>>,
    FC: Fn(Vec3<u8>, Vec3<u8>) -> Option<ConflictType<Vec3<u8>>>,
    FT: Fn(IndexVTEX, IndexVTEX) -> Option<ConflictType<IndexVTEX>>,
>(m0: LandmassDiff, plugins: Seq<LandmassDiff>, strategies: Seq<LayerStrategies>, openmw: bool, ah: FH, an: FN, aw: FW, ac: FC, at: FT, states: Seq<LandmassDiff>, n: int) -> bool {
    &&& states.len() == n + 1
    &&& states[0] == m0
    &&& forall|i: int| 0 <= i < n ==> #[trigger] chain_step(plugins, strategies, openmw, ah, an, aw, ac, at, states, i)
}

/// Merges each landmass of `modded` into `merged` in order, the `i`-th with the strategies
/// `strategies[i]`, each merge applied to the result of the previous ones; then repairs the
/// seams of the result, which tears that single plugins leave and later ones fix would
/// otherwise spoil. Returns the number of seam repairs.
///
/// Every merge must be possible (its merged values fit their references) and the result must be
/// repairable, whatever the averaging functions answer along the way.
pub fn merge_landmasses<
    FH: Fn(i32, i32) -> Option<ConflictType<i32>>,
    FN: Fn(Vec3<i8>, Vec3<i8>) -> Option<ConflictType<Vec3<i8>>>,
    FW: Fn(u8, u8) -> Option<ConflictType<u8>>,
    FC: Fn(Vec3<u8>, Vec3<u8>) -> Option<ConflictType<Vec3<u8>>>,
    FT: Fn(IndexVTEX, IndexVTEX) -> Option<ConflictType<IndexVTEX>>,
>(
    merged: &mut LandmassDiff,
    modded: &Vec<LandmassDiff>,
    strategies: &Vec<LayerStrategies>,
    is_openmw_mode: bool,
    average_heights: &FH,
    average_normals: &FN,
    average_world_map: &FW,
    average_colors: &FC,
    average_textures: &FT,
) -> (count: usize)
    requires
        old(merged).wf(),
        modded@.len() == strategies@.len(),
        forall|i: int| 0 <= i < modded@.len() ==> (#[trigger] modded@[i]).wf(),
        forall|a: i32, b: i32| average_heights.requires((a, b)),
        forall|a: Vec3<i8>, b: Vec3<i8>| average_normals.requires((a, b)),
        forall|a: u8, b: u8| average_world_map.requires((a, b)),
        forall|a: Vec3<u8>, b: Vec3<u8>| average_colors.requires((a, b)),
        forall|a: IndexVTEX, b: IndexVTEX| average_textures.requires((a, b)),
        forall|states: Seq<LandmassDiff>, i: int|
            0 <= i < modded@.len() && #[trigger] merge_chain(
                *old(merged),
                modded@,
                strategies@,
                is_openmw_mode,
                *average_heights,
                *average_normals,
                *average_world_map,
                *average_colors,
                *average_textures,
                states,
                i,
            ) ==> landmass_mergeable(
                states[i],
                modded@[i],
                strategies@[i],
                is_openmw_mode,
                *average_heights,
                *average_normals,
                *average_world_map,
                *average_colors,
                *average_textures,
            ),
        forall|states: Seq<LandmassDiff>|
            #[trigger] merge_chain(
                *old(merged),
                modded@,
                strategies@,
                is_openmw_mode,
                *average_heights,
                *average_normals,
                *average_world_map,
                *average_colors,
                *average_textures,
                states,
                modded@.len() as int,
            ) ==> {
                &&& seams_repairable(states[modded@.len() as int])
                &&& coords_in_range(states[modded@.len() as int])
                &&& states[modded@.len() as int].cells().len() * 160 <= usize::MAX
            },
    ensures
        exists|states: Seq<LandmassDiff>|
            #[trigger] merge_chain(
                *old(merged),
                modded@,
                strategies@,
                is_openmw_mode,
                *average_heights,
                *average_normals,
                *average_world_map,
                *average_colors,
                *average_textures,
                states,
                modded@.len() as int,
            ) && seam_repair_outcome(states[modded@.len() as int], *final(merged), count as int),
{
    let ghost m0 = *merged;
    let ghost mut states: Seq<LandmassDiff> = seq![m0];
    let n = modded.len();
    let mut i: usize = 0;
    while i < n
        invariant
            n == modded@.len(),
            n == strategies@.len(),
            0 <= i <= n,
            forall|j: int| 0 <= j < modded@.len() ==> (#[trigger] modded@[j]).wf(),
            forall|a: i32, b: i32| average_heights.requires((a, b)),
            forall|a: Vec3<i8>, b: Vec3<i8>| average_normals.requires((a, b)),
            forall|a: u8, b: u8| average_world_map.requires((a, b)),
            forall|a: Vec3<u8>, b: Vec3<u8>| average_colors.requires((a, b)),
            forall|a: IndexVTEX, b: IndexVTEX| average_textures.requires((a, b)),
            forall|st: Seq<LandmassDiff>, j: int|
                0 <= j < modded@.len() && #[trigger] merge_chain(
                    m0,
                    modded@,
                    strategies@,
                    is_openmw_mode,
                    *average_heights,
                    *average_normals,
                    *average_world_map,
                    *average_colors,
                    *average_textures,
                    st,
                    j,
                ) ==> landmass_mergeable(
                    st[j],
                    modded@[j],
                    strategies@[j],
                    is_openmw_mode,
                    *average_heights,
                    *average_normals,
                    *average_world_map,
                    *average_colors,
                    *average_textures,
                ),
            merge_chain(
                m0,
                modded@,
                strategies@,
                is_openmw_mode,
                *average_heights,
                *average_normals,
                *average_world_map,
                *average_colors,
                *average_textures,
                states,
                i as int,
            ),
            states[i as int] == *merged,
            merged.wf(),
        decreases n - i,
    {
        proof {
            assert(landmass_mergeable(
                states[i as int],
                modded@[i as int],
                strategies@[i as int],
                is_openmw_mode,
                *average_heights,
                *average_normals,
                *average_world_map,
                *average_colors,
                *average_textures,
            ));
        }
        let ghost before = *merged;
        merge_landmass_into(
            merged,
            &modded[i],
            &strategies[i],
            is_openmw_mode,
            average_heights,
            average_normals,
            average_world_map,
            average_colors,
            average_textures,
        );
        proof {
            let next = states.push(*merged);
            assert(landmass_merged(
                before,
                modded@[i as int],
                strategies@[i as int],
                is_openmw_mode,
                *average_heights,
                *average_normals,
                *average_world_map,
                *average_colors,
                *average_textures,
                *merged,
            ));
            assert forall|j: int| 0 <= j < i + 1 implies #[trigger] chain_step(
                modded@,
                strategies@,
                is_openmw_mode,
                *average_heights,
                *average_normals,
                *average_world_map,
                *average_colors,
                *average_textures,
                next,
                j,
            ) by {
                if j < i {
                    assert(chain_step(
                        modded@,
                        strategies@,
                        is_openmw_mode,
                        *average_heights,
                        *average_normals,
                        *average_world_map,
                        *average_colors,
                        *average_textures,
                        states,
                        j,
                    ));
                    assert(next[j] == states[j]);
                    assert(next[j + 1] == states[j + 1]);
                }
            }
            states = next;
        }
        i += 1;
    }
    proof {
        assert(merge_chain(
            m0,
            modded@,
            strategies@,
            is_openmw_mode,
            *average_heights,
            *average_normals,
            *average_world_map,
            *average_colors,
            *average_textures,
            states,
            n as int,
        ));
        assert(states[n as int] == *merged);
    }
    let count = repair_landmass_seams(merged);
    count
}

} // verus!
