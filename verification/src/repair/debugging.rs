use crate::land::grid::{Vec2, Vec3};
use crate::land::landscape_diff::{LandmassDiff, LandscapeDiff};
use crate::merge::conflict::ConflictType;
use crate::merge::relative_terrain_map::RelativeTerrainMap;
use crate::merge::relative_to::RelativeTo;
use vstd::prelude::*;

verus! {

/// The color painted where a change is a major conflict.
pub open spec fn major_color() -> Vec3<u8> {
    Vec3 { x: 255, y: 0, z: 0 }
}

/// The color painted where a change is a minor conflict.
pub open spec fn minor_color() -> Vec3<u8> {
    Vec3 { x: 255, y: 255, z: 0 }
}

/// The vertex color after painting a position whose change has the conflict outcome `c`:
/// a major conflict always paints the major color, a minor conflict paints the minor color
/// unless the position already shows a major conflict, and no conflict paints nothing.
pub open spec fn painted<U>(current: Vec3<u8>, c: Option<ConflictType<U>>) -> Vec3<u8> {
    match c {
        Some(ConflictType::Major(_)) => major_color(),
        Some(ConflictType::Minor(_)) => if current == major_color() {
            current
        } else {
            minor_color()
        },
        None => current,
    }
}

/// `after` is `before` painted with one possible outcome of `average` on `lhs` and `rhs`.
pub open spec fn painted_by<U, F: Fn(U, U) -> Option<ConflictType<U>>>(
    average: F,
    lhs: U,
    rhs: U,
    before: Vec3<u8>,
    after: Vec3<u8>,
) -> bool {
    exists|c: Option<ConflictType<U>>| #[trigger] average.ensures((lhs, rhs), c) && after == painted(before, c)
}

/// Adds any conflicts between the `lhs` map and the `rhs` map to the `vertex_colors`: every
/// position that `rhs` changed is painted according to how `average` classifies the conflict
/// between the value of `lhs` and the value of `rhs` there. Nothing happens when any of the
/// three maps is absent.
pub fn add_vertex_colors<U: RelativeTo, const T: usize, F: Fn(U, U) -> Option<ConflictType<U>>>(
    lhs: Option<&RelativeTerrainMap<U, T>>,
    rhs: Option<&RelativeTerrainMap<U, T>>,
    vertex_colors: &mut Option<RelativeTerrainMap<Vec3<u8>, T>>,
    average: &F,
)
    requires
        lhs matches Some(m) ==> m.wf(),
        rhs matches Some(m) ==> m.wf(),
        *old(vertex_colors) matches Some(m) ==> m.wf(),
        forall|a: U, b: U| average.requires((a, b)),
    ensures
        (lhs is None || rhs is None || (*old(vertex_colors)) is None) ==> *final(vertex_colors) == *old(vertex_colors),
        ((*old(vertex_colors)) is None) == ((*final(vertex_colors)) is None),
        lhs matches Some(l) ==> rhs matches Some(r) ==> *old(vertex_colors) matches Some(before) ==> *final(vertex_colors) matches Some(after) ==> {
            &&& after.wf()
            &&& after.reference_seq() == before.reference_seq()
            &&& forall|i: int| 0 <= i < RelativeTerrainMap::<U, T>::size() && !r.differs_at(i) ==> #[trigger] after.value_at(i) == before.value_at(i)
            &&& forall|i: int| 0 <= i < RelativeTerrainMap::<U, T>::size() && r.differs_at(i) ==> painted_by(*average, l.value_at(i), r.value_at(i), before.value_at(i), #[trigger] after.value_at(i))
        },
{
    let lhs = match lhs {
        Some(l) => l,
        None => return,
    };
    let rhs = match rhs {
        Some(r) => r,
        None => return,
    };
    if vertex_colors.is_none() {
        return;
    }
    let mut colors = vertex_colors.take().unwrap();
    let ghost before = colors;
    proof {
        lhs.lemma_wf();
    }
    let n = T * T;
    let mut i: usize = 0;
    while i < n
        invariant
            n == T * T,
            i <= n,
            lhs.wf(),
            rhs.wf(),
            before.wf(),
            colors.wf(),
            forall|a: U, b: U| average.requires((a, b)),
            colors.reference_seq() == before.reference_seq(),
            forall|j: int| 0 <= j < n ==> #[trigger] colors.reference_at(j) == before.reference_at(j),
            forall|j: int| i <= j < n ==> #[trigger] colors.value_at(j) == before.value_at(j),
            forall|j: int| 0 <= j < i && !rhs.differs_at(j) ==> #[trigger] colors.value_at(j) == before.value_at(j),
            forall|j: int| 0 <= j < i && rhs.differs_at(j) ==> painted_by(*average, lhs.value_at(j), rhs.value_at(j), before.value_at(j), #[trigger] colors.value_at(j)),
        decreases n - i,
    {
        let ghost prev = colors;
        if rhs.differs_at_offset(i) {
            let actual = lhs.value_at_offset(i);
            let expected = rhs.value_at_offset(i);
            let c = average(actual, expected);
            let current_color = colors.value_at_offset(i);
            let is_major_now = current_color.x == 255 && current_color.y == 0 && current_color.z == 0;
            match c {
                Some(ConflictType::Major(_)) => {
                    colors.set_value_at_offset(i, Vec3 { x: 255u8, y: 0u8, z: 0u8 });
                },
                Some(ConflictType::Minor(_)) => {
                    if !is_major_now {
                        colors.set_value_at_offset(i, Vec3 { x: 255u8, y: 255u8, z: 0u8 });
                    }
                },
                None => {},
            }
            proof {
                assert(colors.value_at(i as int) == painted(before.value_at(i as int), c));
                assert(average.ensures((lhs.value_at(i as int), rhs.value_at(i as int)), c));
            }
        }
        proof {
            assert forall|j: int| 0 <= j < i && rhs.differs_at(j) implies painted_by(*average, lhs.value_at(j), rhs.value_at(j), before.value_at(j), #[trigger] colors.value_at(j)) by {
                assert(colors.value_at(j) == prev.value_at(j));
            }
        }
        i += 1;
    }
    *vertex_colors = Some(colors);
}

/// `after` is the vertex colors `before` painted with the conflicts between the maps `lhs`
/// and `rhs` as [`add_vertex_colors`] paints them: nothing changes when a map is absent, and
/// otherwise every position that `rhs` changed is painted by one outcome of `average`.
pub open spec fn colors_painted<U: RelativeTo, const T: usize, F: Fn(U, U) -> Option<ConflictType<U>>>(
    lhs: Option<RelativeTerrainMap<U, T>>,
    rhs: Option<RelativeTerrainMap<U, T>>,
    before: Option<RelativeTerrainMap<Vec3<u8>, T>>,
    after: Option<RelativeTerrainMap<Vec3<u8>, T>>,
    average: F,
) -> bool {
    &&& (lhs is None || rhs is None || before is None) ==> after == before
    &&& (before is None) == (after is None)
    &&& lhs matches Some(l) ==> rhs matches Some(r) ==> before matches Some(b) ==> after matches Some(a) ==> {
        &&& a.wf()
        &&& a.reference_seq() == b.reference_seq()
        &&& forall|i: int| 0 <= i < RelativeTerrainMap::<U, T>::size() && !r.differs_at(i) ==> #[trigger] a.value_at(i) == b.value_at(i)
        &&& forall|i: int| 0 <= i < RelativeTerrainMap::<U, T>::size() && r.differs_at(i) ==> painted_by(average, l.value_at(i), r.value_at(i), b.value_at(i), #[trigger] a.value_at(i))
    }
}

/// Adds vertex colors to the record `reference` for any conflict of its heights with the
/// heights of the record `plugin`.
fn add_debug_vertex_colors_to_landscape<F: Fn(i32, i32) -> Option<ConflictType<i32>>>(
    reference: &mut LandscapeDiff,
    plugin: &LandscapeDiff,
    average: &F,
)
    requires
        old(reference).wf(),
        plugin.wf(),
        forall|a: i32, b: i32| average.requires((a, b)),
    ensures
        final(reference).wf(),
        LandmassDiff::same_but_colors(*final(reference), *old(reference)),
        colors_painted(old(reference).height_map, plugin.height_map, old(reference).vertex_colors, final(reference).vertex_colors, *average),
{
    let mut colors: Option<RelativeTerrainMap<Vec3<u8>, 65>> = None;
    std::mem::swap(&mut colors, &mut reference.vertex_colors);
    add_vertex_colors(reference.height_map.as_ref(), plugin.height_map.as_ref(), &mut colors, average);
    reference.vertex_colors = colors;
}

/// Adds vertex colors to `reference` for any conflict found with `plugin`: the record of each
/// cell that `plugin` has is painted with the conflicts of its heights with the plugin's
/// heights of that cell. Every cell of `plugin` must have a record in `reference`.
pub fn add_debug_vertex_colors_to_landmass<F: Fn(i32, i32) -> Option<ConflictType<i32>>>(
    reference: &mut LandmassDiff,
    plugin: &LandmassDiff,
    average: &F,
)
    requires
        old(reference).wf(),
        plugin.wf(),
        forall|j: int| 0 <= j < plugin.cells().len() ==> old(reference).index_of(#[trigger] plugin.cells()[j].coords) is Some,
        forall|a: i32, b: i32| average.requires((a, b)),
    ensures
        final(reference).wf(),
        final(reference).plugin_name() == old(reference).plugin_name(),
        final(reference).cells().len() == old(reference).cells().len(),
        forall|k: int| 0 <= k < old(reference).cells().len() ==> LandmassDiff::same_but_colors(#[trigger] final(reference).cells()[k], old(reference).cells()[k]),
        forall|k: int| 0 <= k < old(reference).cells().len() && plugin.index_of(old(reference).cells()[k].coords) is None ==> #[trigger] final(reference).cells()[k] == old(reference).cells()[k],
        forall|k: int| 0 <= k < old(reference).cells().len() && plugin.index_of(old(reference).cells()[k].coords) is Some ==> colors_painted(
            old(reference).cells()[k].height_map,
            plugin.cells()[plugin.index_of(old(reference).cells()[k].coords)->0].height_map,
            old(reference).cells()[k].vertex_colors,
            (#[trigger] final(reference).cells()[k]).vertex_colors,
            *average,
        ),
{
    let ghost start = reference.cells();
    let cells = plugin.sorted();
    let n = cells.len();
    let mut j: usize = 0;
    while j < n
        invariant
            n == plugin.cells().len(),
            cells@ == plugin.cells(),
            j <= n,
            plugin.wf(),
            reference.wf(),
            reference.plugin_name() == old(reference).plugin_name(),
            start == old(reference).cells(),
            reference.cells().len() == start.len(),
            forall|i: int| 0 <= i < plugin.cells().len() ==> old(reference).index_of(#[trigger] plugin.cells()[i].coords) is Some,
            forall|a: i32, b: i32| average.requires((a, b)),
            forall|k: int| 0 <= k < start.len() ==> LandmassDiff::same_but_colors(#[trigger] reference.cells()[k], start[k]),
            forall|k: int| 0 <= k < start.len() && !(plugin.index_of(start[k].coords) matches Some(p) && p < j) ==> #[trigger] reference.cells()[k] == start[k],
            forall|k: int| 0 <= k < start.len() && (plugin.index_of(start[k].coords) matches Some(p) && p < j) ==> colors_painted(
                start[k].height_map,
                plugin.cells()[plugin.index_of(start[k].coords)->0].height_map,
                start[k].vertex_colors,
                (#[trigger] reference.cells()[k]).vertex_colors,
                *average,
            ),
        decreases n - j,
    {
        let p = &cells[j];
        proof {
            assert(plugin.cells()[j as int].wf());
            assert(old(reference).index_of(plugin.cells()[j as int].coords) is Some);
        }
        let found = reference.find(p.coords);
        let k = match found {
            Some(k) => k,
            None => {
                proof {
                    let k0 = old(reference).index_of(plugin.cells()[j as int].coords)->0;
                    assert(0 <= k0 < start.len() && start[k0].coords == plugin.cells()[j as int].coords);
                    assert(reference.cells()[k0].coords == start[k0].coords);
                    assert(false);
                }
                return;
            },
        };
        let ghost before = reference.cells();
        proof {
            assert(before[k as int].coords == start[k as int].coords);
            assert(plugin.cells()[j as int].coords == start[k as int].coords);
            let q = choose|q: int| 0 <= q < plugin.cells().len() && (#[trigger] plugin.cells()[q]).coords == start[k as int].coords;
            plugin.lemma_unique(q, j as int);
            assert(plugin.index_of(start[k as int].coords) == Some(j as int));
            assert(before[k as int] == start[k as int]);
            assert(before[k as int].wf());
        }
        let placeholder = LandscapeDiff {
            coords: p.coords,
            flags: 0,
            height_map: None,
            vertex_normals: None,
            world_map_data: None,
            vertex_colors: None,
            texture_indices: None,
            plugins: Vec::new(),
        };
        let mut cell = reference.replace_cell(k, placeholder);
        add_debug_vertex_colors_to_landscape(&mut cell, p, average);
        let _ = reference.replace_cell(k, cell);
        proof {
            assert forall|m: int| 0 <= m < start.len() && m != k implies #[trigger] reference.cells()[m] == before[m] by {}
        }
        j += 1;
    }
}

} // verus!
