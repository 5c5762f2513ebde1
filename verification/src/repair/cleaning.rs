use crate::land::grid::{IndexVTEX, Vec2, Vec3};
use crate::land::landscape_diff::{kept_cells, LandmassDiff, LandscapeDiff};
use crate::merge::relative_terrain_map::{IsModified, RelativeTerrainMap};
use crate::merge::relative_to::RelativeTo;
use crate::repair::seam_detection::{
    coords_in_range, lemma_seamless_repairable, repair_landmass_seams, seam_repair_outcome, seamless,
};
use vstd::prelude::*;

verus! {

/// The map that `o` refers to, if any.
pub open spec fn deref_map<U: RelativeTo, const T: usize>(o: Option<&RelativeTerrainMap<U, T>>) -> Option<RelativeTerrainMap<U, T>> {
    match o {
        Some(m) => Some(*m),
        None => None,
    }
}

/// The elements of the vector, if any.
pub open spec fn vec_view<U>(o: Option<Vec<U>>) -> Option<Seq<U>> {
    match o {
        Some(v) => Some(v@),
        None => None,
    }
}

/// The elements of the vector that `o` refers to, if any.
pub open spec fn ref_vec_view<U>(o: Option<&Vec<U>>) -> Option<Seq<U>> {
    match o {
        Some(v) => Some(v@),
        None => None,
    }
}

/// The loaded record that `o` refers to, if any.
pub open spec fn deref_land(o: Option<&LoadedLand>) -> Option<LoadedLand> {
    match o {
        Some(l) => Some(*l),
        None => None,
    }
}

/// Position `i` holds different values in `l` and `r`.
pub open spec fn differ_at<U: RelativeTo, const T: usize>(l: RelativeTerrainMap<U, T>, r: RelativeTerrainMap<U, T>, i: int) -> bool {
    l.value_at(i) != r.value_at(i)
}

/// Some position holds different values in `l` and `r`.
pub open spec fn values_differ<U: RelativeTo, const T: usize>(l: RelativeTerrainMap<U, T>, r: RelativeTerrainMap<U, T>) -> bool {
    exists|i: int| 0 <= i < T * T && #[trigger] differ_at(l, r, i)
}

/// Some position holds different values in the map `m` and the terrain `l`.
pub open spec fn values_differ_from<U: RelativeTo, const T: usize>(m: RelativeTerrainMap<U, T>, l: Seq<U>) -> bool {
    exists|i: int| 0 <= i < T * T && #[trigger] m.value_at(i) != l[i]
}

/// Both maps are present and some position holds different values in them.
pub open spec fn maps_differ<U: RelativeTo, const T: usize>(
    lhs: Option<RelativeTerrainMap<U, T>>,
    rhs: Option<RelativeTerrainMap<U, T>>,
) -> bool {
    match lhs {
        Some(l) => match rhs {
            Some(r) => values_differ(l, r),
            None => false,
        },
        None => false,
    }
}

/// Returns `true` if both maps are present and hold different values somewhere.
pub fn has_difference<U: RelativeTo, const T: usize>(
    lhs: Option<&RelativeTerrainMap<U, T>>,
    rhs: Option<&RelativeTerrainMap<U, T>>,
) -> (b: bool)
    requires
        lhs matches Some(l) ==> l.wf(),
        rhs matches Some(r) ==> r.wf(),
    ensures
        b == maps_differ(deref_map(lhs), deref_map(rhs)),
{
    let (l, r) = match (lhs, rhs) {
        (Some(l), Some(r)) => (l, r),
        _ => return false,
    };
    proof {
        l.lemma_wf();
    }
    let n = T * T;
    let mut i: usize = 0;
    while i < n
        invariant
            n == T * T,
            lhs == Some(l),
            rhs == Some(r),
            l.wf(),
            r.wf(),
            0 <= i <= n,
            forall|j: int| 0 <= j < i ==> #[trigger] l.value_at(j) == r.value_at(j),
        decreases n - i,
    {
        let a = l.value_at_offset(i);
        let b = r.value_at_offset(i);
        if !U::same(&a, &b) {
            proof {
                assert(differ_at(*l, *r, i as int));
            }
            return true;
        }
        i += 1;
    }
    false
}

/// The merged map differs from the terrain of a loaded landscape: the loaded landscape lacks
/// the field, or some position holds another value.
pub open spec fn differs_from_loaded<U: RelativeTo, const T: usize>(
    merged: Option<RelativeTerrainMap<U, T>>,
    loaded: Option<Seq<U>>,
) -> bool {
    match merged {
        None => false,
        Some(m) => match loaded {
            None => true,
            Some(l) => values_differ_from(m, l),
        },
    }
}

/// Returns `true` if the merged map is present and the loaded terrain lacks it or differs
/// from it somewhere.
pub fn differs_from_landscape<U: RelativeTo, const T: usize>(
    merged: Option<&RelativeTerrainMap<U, T>>,
    loaded: Option<&Vec<U>>,
) -> (b: bool)
    requires
        merged matches Some(m) ==> m.wf(),
        loaded matches Some(l) ==> l@.len() == T * T,
    ensures
        b == differs_from_loaded(deref_map(merged), ref_vec_view(loaded)),
{
    let m = match merged {
        Some(m) => m,
        None => return false,
    };
    let l = match loaded {
        Some(l) => l,
        None => return true,
    };
    proof {
        m.lemma_wf();
    }
    let n = T * T;
    let mut i: usize = 0;
    while i < n
        invariant
            n == T * T,
            merged == Some(m),
            loaded == Some(l),
            m.wf(),
            l@.len() == n,
            0 <= i <= n,
            forall|j: int| 0 <= j < i ==> #[trigger] m.value_at(j) == l@[j],
        decreases n - i,
    {
        let a = m.value_at_offset(i);
        if !U::same(&a, &l[i]) {
            proof {
                assert(m.value_at(i as int) != l@[i as int]);
            }
            return true;
        }
        i += 1;
    }
    false
}

/// The terrain of a LAND record as the game loads it, field by field.
pub struct LoadedLand {
    /// The cell coordinates.
    pub coords: Vec2,
    /// Vertex heights, if the record has them.
    pub height_map: Option<Vec<i32>>,
    /// Vertex normals, if the record has them.
    pub vertex_normals: Option<Vec<Vec3<i8>>>,
    /// World map colors, if the record has them.
    pub world_map_data: Option<Vec<u8>>,
    /// Vertex colors, if the record has them.
    pub vertex_colors: Option<Vec<Vec3<u8>>>,
    /// Texture indices, if the record has them.
    pub texture_indices: Option<Vec<IndexVTEX>>,
}

impl LoadedLand {
    /// Every present field has the size of its grid.
    pub open spec fn wf(&self) -> bool {
        &&& (self.height_map matches Some(v) ==> v@.len() == 65 * 65)
        &&& (self.vertex_normals matches Some(v) ==> v@.len() == 65 * 65)
        &&& (self.world_map_data matches Some(v) ==> v@.len() == 9 * 9)
        &&& (self.vertex_colors matches Some(v) ==> v@.len() == 65 * 65)
        &&& (self.texture_indices matches Some(v) ==> v@.len() == 16 * 16)
    }
}

/// Some field of the merged record differs from the loaded record `loaded` (or from nothing,
/// when there is no loaded record).
pub open spec fn record_differs(merged: LandscapeDiff, loaded: Option<LoadedLand>) -> bool {
    match loaded {
        None => {
            ||| merged.height_map is Some
            ||| merged.vertex_normals is Some
            ||| merged.world_map_data is Some
            ||| merged.vertex_colors is Some
            ||| merged.texture_indices is Some
        },
        Some(l) => {
            ||| differs_from_loaded(merged.height_map, vec_view(l.height_map))
            ||| differs_from_loaded(merged.vertex_normals, vec_view(l.vertex_normals))
            ||| differs_from_loaded(merged.world_map_data, vec_view(l.world_map_data))
            ||| differs_from_loaded(merged.vertex_colors, vec_view(l.vertex_colors))
            ||| differs_from_loaded(merged.texture_indices, vec_view(l.texture_indices))
        },
    }
}

/// The merged map `m` would change the loaded terrain `v`: the loaded record lacks the field,
/// or holds another value at some position.
pub open spec fn field_changes<U: RelativeTo, const T: usize>(m: RelativeTerrainMap<U, T>, v: Option<Vec<U>>) -> bool {
    match v {
        None => true,
        Some(l) => exists|i: int| 0 <= i < T * T && #[trigger] m.value_at(i) != l@[i],
    }
}

/// The merged map `m` holds what the loaded terrain `v` holds, everywhere.
pub open spec fn field_same<U: RelativeTo, const T: usize>(m: RelativeTerrainMap<U, T>, v: Option<Vec<U>>) -> bool {
    match v {
        None => false,
        Some(l) => forall|i: int| 0 <= i < T * T ==> #[trigger] m.value_at(i) == l@[i],
    }
}

/// A merged record differs from its loaded record as soon as any one of its five fields would
/// change what the game loads, the texture indices as much as the heights; with no loaded
/// record, as soon as it has any field.
pub proof fn law_any_changed_field_differs(merged: LandscapeDiff, loaded: Option<LoadedLand>)
    requires
        match loaded {
            None => merged.height_map is Some || merged.vertex_normals is Some || merged.world_map_data is Some
                || merged.vertex_colors is Some || merged.texture_indices is Some,
            Some(l) => {
                ||| (merged.height_map matches Some(m) && field_changes(m, l.height_map))
                ||| (merged.vertex_normals matches Some(m) && field_changes(m, l.vertex_normals))
                ||| (merged.world_map_data matches Some(m) && field_changes(m, l.world_map_data))
                ||| (merged.vertex_colors matches Some(m) && field_changes(m, l.vertex_colors))
                ||| (merged.texture_indices matches Some(m) && field_changes(m, l.texture_indices))
            },
        },
    ensures
        record_differs(merged, loaded),
{
}

/// A merged record whose every present field holds exactly what the loaded record holds does
/// not differ from it.
pub proof fn law_same_fields_do_not_differ(merged: LandscapeDiff, l: LoadedLand)
    requires
        merged.height_map matches Some(m) ==> field_same(m, l.height_map),
        merged.vertex_normals matches Some(m) ==> field_same(m, l.vertex_normals),
        merged.world_map_data matches Some(m) ==> field_same(m, l.world_map_data),
        merged.vertex_colors matches Some(m) ==> field_same(m, l.vertex_colors),
        merged.texture_indices matches Some(m) ==> field_same(m, l.texture_indices),
    ensures
        !record_differs(merged, Some(l)),
{
}

/// Cleaning keeps a record that differs from its reference when any one of its fields, the
/// texture indices included, would change the record the game loads for its cell.
pub proof fn law_changed_texture_is_kept(land: LandscapeDiff, loaded: Seq<LoadedLand>, l: LoadedLand, m: RelativeTerrainMap<IndexVTEX, 16>)
    requires
        land.modified(),
        loaded_at(loaded, land.coords) == Some(l),
        land.texture_indices == Some(m),
        field_changes(m, l.texture_indices),
    ensures
        worth_keeping(land, loaded),
{
    law_any_changed_field_differs(land, Some(l));
}

/// Returns `true` if some field of `merged` would change the loaded record `loaded`.
pub fn has_any_difference_from_loaded_landscape(merged: &LandscapeDiff, loaded: Option<&LoadedLand>) -> (b: bool)
    requires
        merged.wf(),
        loaded matches Some(l) ==> l.wf(),
    ensures
        b == record_differs(*merged, deref_land(loaded)),
{
    match loaded {
        None => {
            merged.height_map.is_some() || merged.vertex_normals.is_some() || merged.world_map_data.is_some()
                || merged.vertex_colors.is_some() || merged.texture_indices.is_some()
        },
        Some(l) => {
            differs_from_landscape(merged.height_map.as_ref(), l.height_map.as_ref())
                || differs_from_landscape(merged.vertex_normals.as_ref(), l.vertex_normals.as_ref())
                || differs_from_landscape(merged.world_map_data.as_ref(), l.world_map_data.as_ref())
                || differs_from_landscape(merged.vertex_colors.as_ref(), l.vertex_colors.as_ref())
                || differs_from_landscape(merged.texture_indices.as_ref(), l.texture_indices.as_ref())
        },
    }
}

/// The first loaded record of cell `c`, if there is one.
pub open spec fn loaded_at(loaded: Seq<LoadedLand>, c: Vec2) -> Option<LoadedLand>
    decreases loaded.len(),
{
    if loaded.len() == 0 {
        None
    } else if loaded[0].coords == c {
        Some(loaded[0])
    } else {
        loaded_at(loaded.drop_first(), c)
    }
}

fn find_loaded(loaded: &Vec<LoadedLand>, c: Vec2) -> (r: Option<&LoadedLand>)
    ensures
        deref_land(r) == loaded_at(loaded@, c),
        r matches Some(l) ==> exists|k: int| 0 <= k < loaded@.len() && loaded@[k] == *l,
{
    let mut i: usize = 0;
    proof {
        assert(loaded@.subrange(0, loaded@.len() as int) =~= loaded@);
    }
    while i < loaded.len()
        invariant
            0 <= i <= loaded@.len(),
            loaded_at(loaded@.subrange(i as int, loaded@.len() as int), c) == loaded_at(loaded@, c),
        decreases loaded@.len() - i,
    {
        let ghost rest = loaded@.subrange(i as int, loaded@.len() as int);
        proof {
            assert(rest.drop_first() =~= loaded@.subrange(i + 1, loaded@.len() as int));
            assert(rest[0] == loaded@[i as int]);
        }
        if loaded[i].coords.x == c.x && loaded[i].coords.y == c.y {
            return Some(&loaded[i]);
        }
        i += 1;
    }
    None
}

/// The merged record is worth keeping: it differs from its reference, and it would change
/// the record that the game loads for its cell.
pub open spec fn worth_keeping(land: LandscapeDiff, loaded: Seq<LoadedLand>) -> bool {
    land.modified() && record_differs(land, loaded_at(loaded, land.coords))
}

/// Whether each record of `cells` is worth keeping.
pub open spec fn keep_flags(cells: Seq<LandscapeDiff>, loaded: Seq<LoadedLand>) -> Seq<bool> {
    Seq::new(cells.len(), |k: int| worth_keeping(cells[k], loaded))
}

/// A record equal to its reference is never worth keeping, whatever the game loads.
pub proof fn law_unmodified_record_is_dropped(land: LandscapeDiff, loaded: Seq<LoadedLand>)
    requires
        !land.modified(),
    ensures
        !worth_keeping(land, loaded),
{
}

/// Cleaning keeps exactly the flagged records, in their order: a record is among the kept
/// ones exactly when some flagged position holds it, and the kept records are as many as the
/// flags set.
pub proof fn law_kept_cells_are_the_flagged_ones(cells: Seq<LandscapeDiff>, keep: Seq<bool>)
    requires
        keep.len() == cells.len(),
    ensures
        forall|x: LandscapeDiff| #[trigger] kept_cells(cells, keep).contains(x) <==> exists|i: int| 0 <= i < cells.len() && keep[i] && cells[i] == x,
        kept_cells(cells, keep).len() == keep.filter(|b: bool| b).len(),
        (forall|i: int| 0 <= i < keep.len() ==> keep[i]) ==> kept_cells(cells, keep) == cells,
        (forall|i: int| 0 <= i < keep.len() ==> !keep[i]) ==> kept_cells(cells, keep).len() == 0,
    decreases cells.len(),
{
    if cells.len() > 0 {
        let c = cells.drop_last();
        let k = keep.drop_last();
        law_kept_cells_are_the_flagged_ones(c, k);
        assert(keep =~= k.push(keep.last()));
        reveal(Seq::filter);
        assert(k.push(keep.last()).drop_last() =~= k);
        lemma_kept_prefix_flags(c, keep, k);
        let r = kept_cells(cells, keep);
        assert forall|x: LandscapeDiff| #[trigger] r.contains(x) <==> exists|i: int| 0 <= i < cells.len() && keep[i] && cells[i] == x by {
            if r.contains(x) {
                if keep[cells.len() - 1] && x == cells.last() {
                    assert(keep[cells.len() - 1] && cells[cells.len() - 1] == x);
                } else {
                    let j = choose|j: int| 0 <= j < r.len() && r[j] == x;
                    if keep[cells.len() - 1] && j == r.len() - 1 {
                    } else {
                        assert(kept_cells(c, k).contains(x));
                        let i = choose|i: int| 0 <= i < c.len() && k[i] && c[i] == x;
                        assert(keep[i] && cells[i] == x);
                    }
                }
            }
            if exists|i: int| 0 <= i < cells.len() && keep[i] && cells[i] == x {
                let i = choose|i: int| 0 <= i < cells.len() && keep[i] && cells[i] == x;
                if i == cells.len() - 1 {
                    assert(r[r.len() - 1] == x);
                } else {
                    assert(k[i] && c[i] == x);
                    assert(kept_cells(c, k).contains(x));
                    let j = choose|j: int| 0 <= j < kept_cells(c, k).len() && kept_cells(c, k)[j] == x;
                    assert(r[j] == x);
                }
            }
        }
        if forall|i: int| 0 <= i < keep.len() ==> keep[i] {
            assert(forall|i: int| 0 <= i < k.len() ==> k[i]);
            assert(cells =~= c.push(cells.last()));
        }
        if forall|i: int| 0 <= i < keep.len() ==> !keep[i] {
            assert(forall|i: int| 0 <= i < k.len() ==> !k[i]);
        }
    } else {
        reveal(Seq::filter);
    }
}

/// The kept records of a prefix depend only on the flags of that prefix.
proof fn lemma_kept_prefix_flags(c: Seq<LandscapeDiff>, a: Seq<bool>, b: Seq<bool>)
    requires
        a.len() >= c.len(),
        b.len() >= c.len(),
        forall|i: int| 0 <= i < c.len() ==> a[i] == b[i],
    ensures
        kept_cells(c, a) == kept_cells(c, b),
    decreases c.len(),
{
    if c.len() > 0 {
        lemma_kept_prefix_flags(c.drop_last(), a, b);
    }
}

/// A texture index counts as used exactly when the texture grid of some record holds it at
/// some position.
pub proof fn law_texture_used_iff_some_grid_holds_it(cells: Seq<LandscapeDiff>, id: int)
    ensures
        texture_used(cells, id) <==> exists|k: int, j: int|
            0 <= k < cells.len() && 0 <= j < 256 && cells[k].texture_indices is Some && #[trigger] cells[k].texture_indices->0.value_at(j).value == id,
{
    if texture_used(cells, id) {
        let k = choose|k: int| 0 <= k < cells.len() && land_uses_texture(#[trigger] cells[k], id);
        let m = cells[k].texture_indices->0;
        let j = choose|j: int| 0 <= j < 256 && #[trigger] m.value_at(j).value == id;
        assert(0 <= k < cells.len() && 0 <= j < 256 && cells[k].texture_indices is Some && cells[k].texture_indices->0.value_at(j).value == id);
    }
    if exists|k: int, j: int|
        0 <= k < cells.len() && 0 <= j < 256 && cells[k].texture_indices is Some && #[trigger] cells[k].texture_indices->0.value_at(j).value == id {
        let (k, j) = choose|k: int, j: int|
            0 <= k < cells.len() && 0 <= j < 256 && cells[k].texture_indices is Some && #[trigger] cells[k].texture_indices->0.value_at(j).value == id;
        assert(land_uses_texture(cells[k], id));
    }
}

/// Removes every record of a seamless landmass that would not change the final loaded LAND
/// state: records equal to their reference, and records equal to what the game loads for
/// their cell. Seam repair runs first and finds nothing to repair; it still masks the vertex
/// normals of every record by its height differences.
pub fn clean_landmass_diff(landmass: &mut LandmassDiff, loaded_landmass: &Vec<LoadedLand>)
    requires
        old(landmass).wf(),
        coords_in_range(*old(landmass)),
        old(landmass).cells().len() * 160 <= usize::MAX,
        seamless(*old(landmass)),
        forall|k: int| 0 <= k < loaded_landmass@.len() ==> (#[trigger] loaded_landmass@[k]).wf(),
    ensures
        final(landmass).wf(),
        final(landmass).plugin_name() == old(landmass).plugin_name(),
        exists|repaired: LandmassDiff| #![trigger repaired.cells()]
            seam_repair_outcome(*old(landmass), repaired, 0)
            && final(landmass).cells() == kept_cells(repaired.cells(), keep_flags(repaired.cells(), loaded_landmass@)),
{
    proof {
        lemma_seamless_repairable(*landmass);
    }
    let count = repair_landmass_seams(landmass);
    let ghost repaired = *landmass;
    proof {
        assert(count == 0);
    }
    let n = landmass.len();
    let mut keep: Vec<bool> = Vec::new();
    let mut k: usize = 0;
    while k < n
        invariant
            n == repaired.cells().len(),
            repaired.wf(),
            *landmass == repaired,
            forall|j: int| 0 <= j < loaded_landmass@.len() ==> (#[trigger] loaded_landmass@[j]).wf(),
            0 <= k <= n,
            keep@.len() == k,
            forall|j: int| 0 <= j < k ==> #[trigger] keep@[j] == keep_flags(repaired.cells(), loaded_landmass@)[j],
        decreases n - k,
    {
        let land = &landmass.sorted()[k];
        proof {
            assert(repaired.cells()[k as int].wf());
        }
        let modified = land.is_modified();
        let b = if !modified {
            false
        } else {
            let loaded = find_loaded(loaded_landmass, land.coords);
            has_any_difference_from_loaded_landscape(land, loaded)
        };
        keep.push(b);
        k += 1;
    }
    proof {
        assert(keep@ =~= keep_flags(repaired.cells(), loaded_landmass@));
    }
    landmass.retain_cells(&keep);
}

/// The texture index `id` appears in the texture grid of the record `land`.
pub open spec fn land_uses_texture(land: LandscapeDiff, id: int) -> bool {
    land.texture_indices matches Some(m) && exists|j: int| 0 <= j < 256 && #[trigger] m.value_at(j).value == id
}

/// The texture index `id` appears in the texture grid of some record of `cells`.
pub open spec fn texture_used(cells: Seq<LandscapeDiff>, id: int) -> bool {
    exists|k: int| 0 <= k < cells.len() && land_uses_texture(#[trigger] cells[k], id)
}

/// The number of positions among the first `n` of the texture grid `m` whose index is not
/// below `limit`.
pub open spec fn invalid_count(m: RelativeTerrainMap<IndexVTEX, 16>, limit: int, n: int) -> nat
    decreases n,
{
    if n <= 0 {
        0
    } else {
        invalid_count(m, limit, n - 1) + if m.value_at(n - 1).value >= limit { 1nat } else { 0nat }
    }
}

fn mark_used(used: &mut Vec<bool>, m: &RelativeTerrainMap<IndexVTEX, 16>) -> (invalid: (usize, Option<u16>))
    requires
        m.wf(),
    ensures
        final(used)@.len() == old(used)@.len(),
        forall|i: int| 0 <= i < final(used)@.len() ==> #[trigger] final(used)@[i] == (old(used)@[i]
            || exists|j: int| 0 <= j < 256 && #[trigger] m.value_at(j).value == i),
        invalid.0 == invalid_count(*m, old(used)@.len() as int, 256),
        invalid.1 matches Some(v) ==> v >= old(used)@.len() && exists|j: int| 0 <= j < 256 && m.value_at(j).value == v,
        invalid.1 is None <==> invalid.0 == 0,
{
    let ghost start = used@;
    let n = used.len();
    let mut count: usize = 0;
    let mut first: Option<u16> = None;
    let mut j: usize = 0;
    while j < 256
        invariant
            m.wf(),
            0 <= j <= 256,
            used@.len() == n == start.len(),
            forall|i: int| 0 <= i < n ==> #[trigger] used@[i] == (start[i]
                || exists|t: int| 0 <= t < j && #[trigger] m.value_at(t).value == i),
            count == invalid_count(*m, n as int, j as int),
            count <= j,
            first matches Some(v) ==> v >= n && exists|t: int| 0 <= t < j && m.value_at(t).value == v,
            first is None <==> count == 0,
        decreases 256 - j,
    {
        let key = m.value_at_offset(j);
        let idx = key.as_u16() as usize;
        if idx < n {
            used.set(idx, true);
        } else {
            count += 1;
            if first.is_none() {
                first = Some(key.as_u16());
            }
        }
        proof {
            assert forall|i: int| 0 <= i < n implies #[trigger] used@[i] == (start[i]
                || exists|t: int| 0 <= t < j + 1 && #[trigger] m.value_at(t).value == i) by {
                if i == idx && idx < n {
                    assert(m.value_at(j as int).value == i);
                }
                if exists|t: int| 0 <= t < j + 1 && #[trigger] m.value_at(t).value == i {
                    let t = choose|t: int| 0 <= t < j + 1 && #[trigger] m.value_at(t).value == i;
                    if t < j {
                        assert(exists|t2: int| 0 <= t2 < j && #[trigger] m.value_at(t2).value == i);
                    }
                }
            }
        }
        j += 1;
    }
    (count, first)
}

/// For the `known` texture records and the default texture (index 0), which indices the texture
/// grids of `landmass` use: entry `i` is `true` for `i == 0` and for every index that some
/// grid holds. For each record with a texture grid, `invalid` gets the record's coordinates,
/// the number of positions whose index is beyond the known textures, and the first of those
/// indices; these positions are later replaced by a fallback texture.
pub fn used_texture_ids(landmass: &LandmassDiff, known: usize, invalid: &mut Vec<(Vec2, usize, u16)>) -> (r: Vec<bool>)
    requires
        landmass.wf(),
        known < u16::MAX,
    ensures
        r@.len() == known + 1,
        r@[0],
        forall|i: int| 1 <= i < r@.len() ==> #[trigger] r@[i] == texture_used(landmass.cells(), i),
        forall|t: int| 0 <= t < old(invalid)@.len() ==> #[trigger] final(invalid)@[t] == old(invalid)@[t],
        forall|t: int| old(invalid)@.len() <= t < final(invalid)@.len() ==> (#[trigger] final(invalid)@[t]).1 > 0,
{
    let mut used: Vec<bool> = Vec::new();
    let mut i: usize = 0;
    while i <= known
        invariant
            known < u16::MAX,
            0 <= i <= known + 1,
            used@.len() == i,
            forall|t: int| 0 <= t < i ==> #[trigger] used@[t] == (t == 0),
        decreases known + 1 - i,
    {
        used.push(i == 0);
        i += 1;
    }
    let cells = landmass.sorted();
    let ghost start = invalid@;
    let mut k: usize = 0;
    while k < cells.len()
        invariant
            landmass.wf(),
            cells@ == landmass.cells(),
            0 <= k <= cells@.len(),
            used@.len() == known + 1,
            forall|t: int| 0 <= t < used@.len() ==> #[trigger] used@[t] == (t == 0
                || exists|c: int| 0 <= c < k && land_uses_texture(#[trigger] cells@[c], t)),
            invalid@.len() >= start.len(),
            forall|t: int| 0 <= t < start.len() ==> #[trigger] invalid@[t] == start[t],
            forall|t: int| start.len() <= t < invalid@.len() ==> (#[trigger] invalid@[t]).1 > 0,
        decreases cells@.len() - k,
    {
        let land = &cells[k];
        proof {
            assert(land.wf());
        }
        if let Some(m) = &land.texture_indices {
            let ghost before = used@;
            let (count, first) = mark_used(&mut used, m);
            if let Some(v) = first {
                invalid.push((land.coords, count, v));
            }
            proof {
                assert forall|t: int| 0 <= t < used@.len() implies #[trigger] used@[t] == (t == 0
                    || exists|c: int| 0 <= c < k + 1 && land_uses_texture(#[trigger] cells@[c], t)) by {
                    if exists|j: int| 0 <= j < 256 && #[trigger] m.value_at(j).value == t {
                        assert(land_uses_texture(cells@[k as int], t));
                    }
                    if exists|c: int| 0 <= c < k + 1 && land_uses_texture(#[trigger] cells@[c], t) {
                        let c = choose|c: int| 0 <= c < k + 1 && land_uses_texture(#[trigger] cells@[c], t);
                        if c < k {
                            assert(exists|c2: int| 0 <= c2 < k && land_uses_texture(#[trigger] cells@[c2], t));
                        }
                    }
                }
            }
        } else {
            proof {
                assert forall|t: int| 0 <= t < used@.len() implies #[trigger] used@[t] == (t == 0
                    || exists|c: int| 0 <= c < k + 1 && land_uses_texture(#[trigger] cells@[c], t)) by {
                    if exists|c: int| 0 <= c < k + 1 && land_uses_texture(#[trigger] cells@[c], t) {
                        let c = choose|c: int| 0 <= c < k + 1 && land_uses_texture(#[trigger] cells@[c], t);
                        if c < k {
                            assert(exists|c2: int| 0 <= c2 < k && land_uses_texture(#[trigger] cells@[c2], t));
                        }
                    }
                }
            }
        }
        k += 1;
    }
    used
}

} // verus!
