use crate::land::grid::{flat_index, in_grid, Index2D, IndexVTEX, Vec2, Vec3};
use crate::merge::relative_terrain_map::{IsModified, RelativeTerrainMap};
use crate::merge::relative_to::RelativeTo;
use vstd::prelude::*;

verus! {

/// The side of a height map or vertex grid of a LAND record.
pub const GRID_SIDE: usize = 65;

/// The differences of one LAND record from its reference, field by field.
pub struct LandscapeDiff {
    /// The cell coordinates of the LAND record.
    pub coords: Vec2,
    /// The record flags of the LAND record.
    pub flags: u32,
    /// Vertex heights.
    pub height_map: Option<RelativeTerrainMap<i32, 65>>,
    /// Vertex normals.
    pub vertex_normals: Option<RelativeTerrainMap<Vec3<i8>, 65>>,
    /// The world map colors.
    pub world_map_data: Option<RelativeTerrainMap<u8, 9>>,
    /// Vertex colors.
    pub vertex_colors: Option<RelativeTerrainMap<Vec3<u8>, 65>>,
    /// Texture indices.
    pub texture_indices: Option<RelativeTerrainMap<IndexVTEX, 16>>,
    /// The plugins that contributed to this record, with the fields each of them modified.
    pub plugins: Vec<(String, u8)>,
}

/// Every map that is present in the optional map is well formed.
pub open spec fn optional_wf<U: RelativeTo, const T: usize>(m: Option<RelativeTerrainMap<U, T>>) -> bool {
    match m {
        Some(map) => map.wf(),
        None => true,
    }
}

/// The optional map is present and differs from its reference.
pub open spec fn optional_modified<U: RelativeTo, const T: usize>(m: Option<RelativeTerrainMap<U, T>>) -> bool {
    match m {
        Some(map) => map.modified(),
        None => false,
    }
}

impl LandscapeDiff {
    /// Every present map is well formed.
    pub open spec fn wf(&self) -> bool {
        &&& optional_wf(self.height_map)
        &&& optional_wf(self.vertex_normals)
        &&& optional_wf(self.world_map_data)
        &&& optional_wf(self.vertex_colors)
        &&& optional_wf(self.texture_indices)
    }

    /// Some field of the record differs from its reference.
    pub open spec fn modified(&self) -> bool {
        ||| optional_modified(self.height_map)
        ||| optional_modified(self.vertex_normals)
        ||| optional_modified(self.world_map_data)
        ||| optional_modified(self.vertex_colors)
        ||| optional_modified(self.texture_indices)
    }

    /// Returns `true` if any field of the record differs from its reference.
    pub fn is_modified(&self) -> (b: bool)
        requires
            self.wf(),
        ensures
            b == self.modified(),
    {
        self.height_map.is_modified() || self.vertex_normals.is_modified()
            || self.world_map_data.is_modified() || self.vertex_colors.is_modified()
            || self.texture_indices.is_modified()
    }

    /// Which fields of the record differ from their reference, as flags: 1 for the heights, 2
    /// for the vertex normals, 4 for the vertex colors, 8 for the texture indices and 16 for
    /// the world map colors.
    pub open spec fn modified_flags(&self) -> u8 {
        ((if optional_modified(self.height_map) { 1int } else { 0int })
            + (if optional_modified(self.vertex_normals) { 2int } else { 0int })
            + (if optional_modified(self.vertex_colors) { 4int } else { 0int })
            + (if optional_modified(self.texture_indices) { 8int } else { 0int })
            + (if optional_modified(self.world_map_data) { 16int } else { 0int })) as u8
    }

    /// Which fields of the record differ from their reference, as flags (see
    /// [`LandscapeDiff::modified_flags`]).
    pub fn modified_data(&self) -> (r: u8)
        requires
            self.wf(),
        ensures
            r == self.modified_flags(),
    {
        let mut r: u8 = 0;
        if self.height_map.is_modified() {
            r = r + 1;
        }
        if self.vertex_normals.is_modified() {
            r = r + 2;
        }
        if self.vertex_colors.is_modified() {
            r = r + 4;
        }
        if self.texture_indices.is_modified() {
            r = r + 8;
        }
        if self.world_map_data.is_modified() {
            r = r + 16;
        }
        r
    }

    /// Returns a copy of `terrain` that keeps its differences only where `mask` is `true`.
    /// Without a mask, no difference is kept.
    pub fn apply_mask<U: RelativeTo, const T: usize>(
        terrain: &RelativeTerrainMap<U, T>,
        mask: Option<&Vec<bool>>,
    ) -> (r: RelativeTerrainMap<U, T>)
        requires
            terrain.wf(),
            mask matches Some(m) ==> m@.len() == T * T,
        ensures
            r.wf(),
            r.reference_seq() == terrain.reference_seq(),
            forall|i: int|
                0 <= i < RelativeTerrainMap::<U, T>::size() ==> #[trigger] r.value_at(i) == (if (mask matches Some(m) && m@[i]) {
                    terrain.value_at(i)
                } else {
                    terrain.reference_at(i)
                }),
    {
        let mut new = terrain.clone();
        proof {
            new.lemma_same_as(*terrain);
            terrain.lemma_wf();
        }
        match mask {
            None => {
                new.clean_all();
                proof {
                    assert forall|i: int| 0 <= i < RelativeTerrainMap::<U, T>::size() implies #[trigger] new.value_at(i) == terrain.reference_at(i) by {
                        assert(new.values()[i] == terrain.reference_seq()[i]);
                    }
                }
            },
            Some(m) => {
                let n = T * T;
                let mut i: usize = 0;
                while i < n
                    invariant
                        n == T * T,
                        i <= n,
                        m@.len() == n,
                        terrain.wf(),
                        new.wf(),
                        new.reference_seq() == terrain.reference_seq(),
                        forall|j: int| 0 <= j < n ==> #[trigger] new.reference_at(j) == terrain.reference_at(j),
                        forall|j: int| i <= j < n ==> #[trigger] new.value_at(j) == terrain.value_at(j),
                        forall|j: int| 0 <= j < i ==> #[trigger] new.value_at(j) == (if m@[j] {
                            terrain.value_at(j)
                        } else {
                            terrain.reference_at(j)
                        }),
                    decreases n - i,
                {
                    if !m[i] {
                        let r = new.reference_at_offset(i);
                        proof {
                            U::lemma_zero(r);
                        }
                        new.set_value_at_offset(i, r);
                    }
                    i += 1;
                }
            },
        }
        new
    }
}

/// `a` comes before `b` when ordered by `x` and then by `y`.
pub open spec fn coords_before(a: Vec2, b: Vec2) -> bool {
    a.x < b.x || (a.x == b.x && a.y < b.y)
}

/// Returns `true` when `a` comes before `b` when ordered by `x` and then by `y`.
pub fn coords_less(a: Vec2, b: Vec2) -> (r: bool)
    ensures
        r == coords_before(a, b),
{
    a.x < b.x || (a.x == b.x && a.y < b.y)
}

/// The records are ordered by coordinates without repetition.
pub open spec fn strictly_sorted(land: Seq<LandscapeDiff>) -> bool {
    forall|i: int, j: int| 0 <= i < j < land.len() ==> coords_before(#[trigger] land[i].coords, #[trigger] land[j].coords)
}

/// The records of `s` whose entry in `keep` is `true`, in order.
pub open spec fn kept_cells(s: Seq<LandscapeDiff>, keep: Seq<bool>) -> Seq<LandscapeDiff>
    decreases s.len(),
{
    if s.len() == 0 {
        Seq::empty()
    } else {
        let rest = kept_cells(s.drop_last(), keep);
        if keep[s.len() - 1] {
            rest.push(s.last())
        } else {
            rest
        }
    }
}

/// A [`LandmassDiff`] is a collection of [`LandscapeDiff`] records, at most one per cell,
/// together with the name of the plugin they belong to.
pub struct LandmassDiff {
    plugin: String,
    land: Vec<LandscapeDiff>,
}

impl LandmassDiff {
    /// The name of the plugin.
    pub closed spec fn plugin_name(&self) -> Seq<char> {
        self.plugin@
    }

    /// The name of the plugin.
    pub fn plugin(&self) -> (r: &String)
        ensures
            r@ == self.plugin_name(),
    {
        &self.plugin
    }

    /// The records, ordered by coordinates.
    pub closed spec fn cells(&self) -> Seq<LandscapeDiff> {
        self.land@
    }

    /// The records are ordered by coordinates without repetition and each is well formed.
    pub open spec fn wf(&self) -> bool {
        &&& strictly_sorted(self.cells())
        &&& forall|k: int| 0 <= k < self.cells().len() ==> (#[trigger] self.cells()[k]).wf()
    }

    /// The position of the record of cell `c`, if there is one.
    pub open spec fn index_of(&self, c: Vec2) -> Option<int> {
        if exists|k: int| 0 <= k < self.cells().len() && (#[trigger] self.cells()[k]).coords == c {
            Some(choose|k: int| 0 <= k < self.cells().len() && (#[trigger] self.cells()[k]).coords == c)
        } else {
            None
        }
    }

    /// Two sorted positions with the same coordinates are the same position.
    pub proof fn lemma_unique(&self, a: int, b: int)
        requires
            self.wf(),
            0 <= a < self.cells().len(),
            0 <= b < self.cells().len(),
            self.cells()[a].coords == self.cells()[b].coords,
        ensures
            a == b,
    {
        if a < b {
            assert(coords_before(self.cells()[a].coords, self.cells()[b].coords));
        } else if b < a {
            assert(coords_before(self.cells()[b].coords, self.cells()[a].coords));
        }
    }

    /// Records at the same positions with the same coordinates are found at the same
    /// positions.
    pub proof fn lemma_same_coords_index(a: LandmassDiff, b: LandmassDiff, c: Vec2)
        requires
            a.wf(),
            b.wf(),
            a.cells().len() == b.cells().len(),
            forall|i: int| 0 <= i < a.cells().len() ==> #[trigger] a.cells()[i].coords == b.cells()[i].coords,
        ensures
            a.index_of(c) == b.index_of(c),
    {
        if exists|k: int| 0 <= k < a.cells().len() && (#[trigger] a.cells()[k]).coords == c {
            let ka = choose|k: int| 0 <= k < a.cells().len() && (#[trigger] a.cells()[k]).coords == c;
            assert(b.cells()[ka].coords == c);
            let kb = choose|k: int| 0 <= k < b.cells().len() && (#[trigger] b.cells()[k]).coords == c;
            b.lemma_unique(ka, kb);
        } else {
            assert forall|k: int| 0 <= k < b.cells().len() implies (#[trigger] b.cells()[k]).coords != c by {
                assert(a.cells()[k].coords == b.cells()[k].coords);
            }
        }
    }

    /// Creates an empty [`LandmassDiff`] for `plugin`.
    pub fn new(plugin: String) -> (r: LandmassDiff)
        ensures
            r.wf(),
            r.plugin_name() == plugin@,
            r.cells().len() == 0,
    {
        LandmassDiff { plugin, land: Vec::new() }
    }

    /// The number of records.
    pub fn len(&self) -> (n: usize)
        ensures
            n == self.cells().len(),
    {
        self.land.len()
    }

    /// The records ordered by `x` and `y` coordinates.
    pub fn sorted(&self) -> (r: &Vec<LandscapeDiff>)
        ensures
            r@ == self.cells(),
    {
        &self.land
    }

    /// The record at position `k` has a height map.
    pub open spec fn has_heights(&self, k: int) -> bool {
        self.cells()[k].height_map is Some
    }

    /// The height at flat position `i` of the height map of the record at position `k`.
    pub open spec fn height_at(&self, k: int, i: int) -> i32 {
        self.cells()[k].height_map->0.value_at(i)
    }

    /// The reference height at flat position `i` of the height map of the record at position `k`.
    pub open spec fn reference_height_at(&self, k: int, i: int) -> i32 {
        self.cells()[k].height_map->0.reference_at(i)
    }

    /// Both records agree on everything but the values of their height maps.
    pub open spec fn same_but_heights(a: LandscapeDiff, b: LandscapeDiff) -> bool {
        &&& a.coords == b.coords
        &&& a.flags == b.flags
        &&& a.vertex_normals == b.vertex_normals
        &&& a.world_map_data == b.world_map_data
        &&& a.vertex_colors == b.vertex_colors
        &&& a.texture_indices == b.texture_indices
        &&& a.plugins == b.plugins
        &&& (a.height_map is Some) == (b.height_map is Some)
        &&& (a.height_map is Some ==> a.height_map->0.reference_seq() == b.height_map->0.reference_seq())
    }

    /// Returns `true` if the record at position `k` has a height map.
    pub fn has_height_map(&self, k: usize) -> (b: bool)
        requires
            k < self.cells().len(),
        ensures
            b == self.has_heights(k as int),
    {
        self.land[k].height_map.is_some()
    }

    /// The coordinates of the record at position `k`.
    pub fn coords_at(&self, k: usize) -> (c: Vec2)
        requires
            k < self.cells().len(),
        ensures
            c == self.cells()[k as int].coords,
    {
        self.land[k].coords
    }

    /// The height at `local` of the height map of the record at position `k`.
    pub fn height_value(&self, k: usize, local: Index2D) -> (v: i32)
        requires
            self.wf(),
            k < self.cells().len(),
            self.has_heights(k as int),
            in_grid(local, 65),
        ensures
            v == self.height_at(k as int, flat_index(local, 65)),
    {
        assert(self.cells()[k as int].wf());
        match &self.land[k].height_map {
            Some(h) => h.get_value(local),
            None => 0,
        }
    }

    /// Writes the height `v` at `local` of the height map of the record at position `k`.
    pub fn set_height(&mut self, k: usize, local: Index2D, v: i32)
        requires
            old(self).wf(),
            k < old(self).cells().len(),
            old(self).has_heights(k as int),
            in_grid(local, 65),
            i32::MIN <= v - old(self).reference_height_at(k as int, flat_index(local, 65)) <= i32::MAX,
        ensures
            final(self).wf(),
            final(self).plugin_name() == old(self).plugin_name(),
            final(self).cells().len() == old(self).cells().len(),
            forall|j: int| 0 <= j < old(self).cells().len() && j != k ==> #[trigger] final(self).cells()[j] == old(self).cells()[j],
            Self::same_but_heights(final(self).cells()[k as int], old(self).cells()[k as int]),
            final(self).height_at(k as int, flat_index(local, 65)) == v,
            forall|i: int| 0 <= i < 65 * 65 && i != flat_index(local, 65) ==> #[trigger] final(self).height_at(k as int, i) == old(self).height_at(k as int, i),
    {
        let ghost before = self.cells();
        assert(before[k as int].wf());
        let cell = &mut self.land[k];
        match &mut cell.height_map {
            Some(h) => {
                h.set_value(local, v);
            },
            None => {},
        }
        proof {
            assert(self.cells()[k as int].coords == before[k as int].coords);
            assert forall|i: int, j: int| 0 <= i < j < self.cells().len() implies coords_before(#[trigger] self.cells()[i].coords, #[trigger] self.cells()[j].coords) by {
                assert(self.cells()[i].coords == before[i].coords);
                assert(self.cells()[j].coords == before[j].coords);
            }
            assert forall|j: int| 0 <= j < self.cells().len() implies (#[trigger] self.cells()[j]).wf() by {
                if j != k {
                    assert(self.cells()[j] == before[j]);
                }
            }
        }
    }

    /// Both records agree on everything but their vertex colors.
    pub open spec fn same_but_colors(a: LandscapeDiff, b: LandscapeDiff) -> bool {
        &&& a.coords == b.coords
        &&& a.flags == b.flags
        &&& a.height_map == b.height_map
        &&& a.vertex_normals == b.vertex_normals
        &&& a.world_map_data == b.world_map_data
        &&& a.texture_indices == b.texture_indices
        &&& a.plugins == b.plugins
    }

    /// Puts `land`, a record of the same cell, in place of the record at position `k` and
    /// returns the record that was there.
    pub fn replace_cell(&mut self, k: usize, land: LandscapeDiff) -> (r: LandscapeDiff)
        requires
            old(self).wf(),
            k < old(self).cells().len(),
            land.wf(),
            land.coords == old(self).cells()[k as int].coords,
        ensures
            r == old(self).cells()[k as int],
            final(self).wf(),
            final(self).plugin_name() == old(self).plugin_name(),
            final(self).cells() == old(self).cells().update(k as int, land),
    {
        let ghost before = self.cells();
        let mut r = land;
        std::mem::swap(&mut self.land[k], &mut r);
        proof {
            assert(self.cells() =~= before.update(k as int, land));
            assert forall|i: int, j: int| 0 <= i < j < self.cells().len() implies coords_before(#[trigger] self.cells()[i].coords, #[trigger] self.cells()[j].coords) by {
                assert(self.cells()[i].coords == before[i].coords);
                assert(self.cells()[j].coords == before[j].coords);
            }
        }
        r
    }

    /// `b` is `a` with its vertex normal differences kept only where the heights of `a` differ
    /// from their reference; a record without a height map keeps none.
    pub open spec fn normals_masked(a: LandscapeDiff, b: LandscapeDiff) -> bool {
        &&& b.coords == a.coords
        &&& b.flags == a.flags
        &&& b.height_map == a.height_map
        &&& b.world_map_data == a.world_map_data
        &&& b.vertex_colors == a.vertex_colors
        &&& b.texture_indices == a.texture_indices
        &&& b.plugins == a.plugins
        &&& (b.vertex_normals is Some) == (a.vertex_normals is Some)
        &&& (a.vertex_normals matches Some(n) ==> {
            &&& b.vertex_normals->0.wf()
            &&& b.vertex_normals->0.reference_seq() == n.reference_seq()
            &&& forall|i: int| 0 <= i < 65 * 65 ==> #[trigger] b.vertex_normals->0.value_at(i) == (if (a.height_map matches Some(h) && h.difference_seq()[i]) {
                n.value_at(i)
            } else {
                n.reference_at(i)
            })
        })
    }

    /// Keeps the vertex normal differences of the record at position `k` only where its heights
    /// differ from their reference.
    pub fn mask_normals(&mut self, k: usize)
        requires
            old(self).wf(),
            k < old(self).cells().len(),
        ensures
            final(self).wf(),
            final(self).plugin_name() == old(self).plugin_name(),
            final(self).cells().len() == old(self).cells().len(),
            forall|j: int| 0 <= j < old(self).cells().len() && j != k ==> #[trigger] final(self).cells()[j] == old(self).cells()[j],
            Self::normals_masked(old(self).cells()[k as int], final(self).cells()[k as int]),
    {
        let ghost before = self.cells();
        assert(before[k as int].wf());
        let cell = &mut self.land[k];
        let masked = match &cell.vertex_normals {
            Some(vn) => {
                match &cell.height_map {
                    Some(h) => Some(LandscapeDiff::apply_mask(vn, Some(h.differences()))),
                    None => Some(LandscapeDiff::apply_mask(vn, None)),
                }
            },
            None => None,
        };
        cell.vertex_normals = masked;
        proof {
            assert(self.cells()[k as int].coords == before[k as int].coords);
            assert forall|i: int, j: int| 0 <= i < j < self.cells().len() implies coords_before(#[trigger] self.cells()[i].coords, #[trigger] self.cells()[j].coords) by {
                assert(self.cells()[i].coords == before[i].coords);
                assert(self.cells()[j].coords == before[j].coords);
            }
            assert forall|j: int| 0 <= j < self.cells().len() implies (#[trigger] self.cells()[j]).wf() by {
                if j != k {
                    assert(self.cells()[j] == before[j]);
                }
            }
        }
    }

    /// Keeps the record at position `k` exactly when `keep[k]`, in order.
    pub fn retain_cells(&mut self, keep: &Vec<bool>)
        requires
            old(self).wf(),
            keep@.len() == old(self).cells().len(),
        ensures
            final(self).wf(),
            final(self).plugin_name() == old(self).plugin_name(),
            final(self).cells() == kept_cells(old(self).cells(), keep@),
    {
        let mut all: Vec<LandscapeDiff> = Vec::new();
        std::mem::swap(&mut all, &mut self.land);
        let ghost s = all@;
        let n = all.len();
        let mut kept: Vec<LandscapeDiff> = Vec::new();
        let mut idx: usize = 0;
        proof {
            assert(kept_cells(s.take(0), keep@) =~= Seq::<LandscapeDiff>::empty());
        }
        for x in it: all.into_iter()
            invariant
                it.seq() == s,
                idx == it.index(),
                n == s.len(),
                keep@.len() == n,
                strictly_sorted(s),
                forall|k: int| 0 <= k < s.len() ==> (#[trigger] s[k]).wf(),
                kept@ == kept_cells(s.take(it.index() as int), keep@),
                strictly_sorted(kept@),
                forall|k: int| 0 <= k < kept@.len() ==> (#[trigger] kept@[k]).wf(),
                forall|k: int, j: int| 0 <= k < kept@.len() && it.index() <= j < n ==> coords_before(#[trigger] kept@[k].coords, #[trigger] s[j].coords),
        {
            let ghost i = it.index();
            proof {
                assert(s.take(i + 1).drop_last() =~= s.take(i as int));
                assert(s.take(i + 1).last() == x);
                assert(x == s[i as int]);
            }
            if keep[idx] {
                let ghost before = kept@;
                kept.push(x);
                proof {
                    assert forall|a: int, b: int| 0 <= a < b < kept@.len() implies coords_before(#[trigger] kept@[a].coords, #[trigger] kept@[b].coords) by {
                        if b == kept@.len() - 1 {
                            assert(coords_before(before[a].coords, s[i as int].coords));
                        }
                    }
                    assert forall|k: int, j: int| 0 <= k < kept@.len() && i + 1 <= j < n implies coords_before(#[trigger] kept@[k].coords, #[trigger] s[j].coords) by {
                        if k == kept@.len() - 1 {
                            assert(coords_before(s[i as int].coords, s[j].coords));
                        } else {
                            assert(coords_before(before[k].coords, s[j].coords));
                        }
                    }
                }
            }
            idx += 1;
        }
        proof {
            assert(s.take(n as int) =~= s);
        }
        self.land = kept;
    }

    /// Finds the position of the record of cell `c`.
    pub fn find(&self, c: Vec2) -> (r: Option<usize>)
        requires
            self.wf(),
        ensures
            r matches Some(k) ==> k < self.cells().len() && self.cells()[k as int].coords == c,
            r is None ==> forall|k: int| 0 <= k < self.cells().len() ==> (#[trigger] self.cells()[k]).coords != c,
            r matches Some(k) ==> self.index_of(c) == Some(k as int),
            r is None ==> self.index_of(c) is None,
    {
        let mut lo: usize = 0;
        let mut hi: usize = self.land.len();
        while lo < hi
            invariant
                0 <= lo <= hi <= self.land@.len(),
                self.wf(),
                forall|k: int| 0 <= k < lo ==> coords_before((#[trigger] self.cells()[k]).coords, c),
                forall|k: int| hi <= k < self.cells().len() ==> coords_before(c, (#[trigger] self.cells()[k]).coords),
            decreases hi - lo,
        {
            let mid = lo + (hi - lo) / 2;
            let mc = self.land[mid].coords;
            if mc.x == c.x && mc.y == c.y {
                proof {
                    assert(self.cells()[mid as int].coords == c);
                    let k = choose|k: int| 0 <= k < self.cells().len() && (#[trigger] self.cells()[k]).coords == c;
                    self.lemma_unique(k, mid as int);
                }
                return Some(mid);
            } else if coords_less(mc, c) {
                proof {
                    assert forall|k: int| 0 <= k < mid + 1 implies coords_before((#[trigger] self.cells()[k]).coords, c) by {
                        if k < mid {
                            assert(coords_before(self.cells()[k].coords, self.cells()[mid as int].coords));
                        }
                    }
                }
                lo = mid + 1;
            } else {
                proof {
                    assert forall|k: int| mid <= k < self.cells().len() implies coords_before(c, (#[trigger] self.cells()[k]).coords) by {
                        if k > mid {
                            assert(coords_before(self.cells()[mid as int].coords, self.cells()[k].coords));
                        }
                    }
                }
                hi = mid;
            }
        }
        None
    }

    /// Returns the record of cell `c`, if there is one.
    pub fn get(&self, c: Vec2) -> (r: Option<&LandscapeDiff>)
        requires
            self.wf(),
        ensures
            r matches Some(l) ==> self.index_of(c) matches Some(k) && *l == self.cells()[k],
            r is None ==> self.index_of(c) is None,
    {
        match self.find(c) {
            Some(k) => Some(&self.land[k]),
            None => None,
        }
    }

    /// Inserts `land` as the record of its cell, replacing any previous record of that cell.
    pub fn insert(&mut self, land: LandscapeDiff)
        requires
            old(self).wf(),
            land.wf(),
        ensures
            final(self).wf(),
            final(self).plugin_name() == old(self).plugin_name(),
            final(self).index_of(land.coords) matches Some(k) && final(self).cells()[k] == land,
            forall|c: Vec2| c != land.coords ==> #[trigger] final(self).index_of(c) is Some == old(self).index_of(c) is Some,
            forall|c: Vec2|
                c != land.coords && old(self).index_of(c) is Some ==> #[trigger] final(self).cells()[final(self).index_of(c)->0] == old(self).cells()[old(self).index_of(c)->0],
    {
        let c = land.coords;
        let mut pos: usize = 0;
        while pos < self.land.len() && coords_less(self.land[pos].coords, c)
            invariant
                0 <= pos <= self.land@.len(),
                self.wf(),
                forall|k: int| 0 <= k < pos ==> coords_before((#[trigger] self.cells()[k]).coords, c),
            decreases self.land@.len() - pos,
        {
            pos += 1;
        }
        let ghost before = self.cells();
        if pos < self.land.len() && self.land[pos].coords.x == c.x && self.land[pos].coords.y == c.y {
            self.land.set(pos, land);
            proof {
                assert(self.cells() == before.update(pos as int, land));
                assert(strictly_sorted(self.cells()));
                self.lemma_cells_after_set(before, pos as int, land);
            }
        } else {
            self.land.insert(pos, land);
            proof {
                assert(self.cells() == before.insert(pos as int, land));
                assert forall|i: int, j: int| 0 <= i < j < self.cells().len() implies coords_before(#[trigger] self.cells()[i].coords, #[trigger] self.cells()[j].coords) by {
                    if pos < before.len() {
                        assert(coords_before(c, before[pos as int].coords));
                    }
                    if i < pos && j > pos {
                        assert(coords_before(before[i].coords, c));
                        if pos < before.len() && j - 1 > pos {
                            assert(coords_before(before[pos as int].coords, before[j - 1].coords));
                        }
                    }
                    if i == pos && j > pos + 1 {
                        assert(coords_before(before[pos as int].coords, before[j - 1].coords));
                    }
                }
                self.lemma_cells_after_insert(before, pos as int, land);
            }
        }
    }

    proof fn lemma_cells_after_set(&self, before: Seq<LandscapeDiff>, pos: int, land: LandscapeDiff)
        requires
            0 <= pos < before.len(),
            strictly_sorted(before),
            before[pos].coords == land.coords,
            self.cells() == before.update(pos, land),
            self.wf(),
        ensures
            self.index_of(land.coords) matches Some(k) && self.cells()[k] == land,
            forall|c: Vec2| c != land.coords ==> #[trigger] self.index_of(c) is Some == (exists|k: int| 0 <= k < before.len() && (#[trigger] before[k]).coords == c),
            forall|c: Vec2| c != land.coords && (exists|k: int| 0 <= k < before.len() && (#[trigger] before[k]).coords == c) ==>
                #[trigger] self.cells()[self.index_of(c)->0] == before[choose|k: int| 0 <= k < before.len() && (#[trigger] before[k]).coords == c],
    {
        assert(self.cells()[pos].coords == land.coords);
        let k0 = choose|k: int| 0 <= k < self.cells().len() && (#[trigger] self.cells()[k]).coords == land.coords;
        self.lemma_unique(k0, pos);
        assert forall|c: Vec2| c != land.coords && (exists|k: int| 0 <= k < before.len() && (#[trigger] before[k]).coords == c) implies
            #[trigger] self.cells()[self.index_of(c)->0] == before[choose|k: int| 0 <= k < before.len() && (#[trigger] before[k]).coords == c] by {
            let kb = choose|k: int| 0 <= k < before.len() && (#[trigger] before[k]).coords == c;
            assert(self.cells()[kb].coords == c);
            let ks = choose|k: int| 0 <= k < self.cells().len() && (#[trigger] self.cells()[k]).coords == c;
            self.lemma_unique(ks, kb);
        }
        assert forall|c: Vec2| c != land.coords implies #[trigger] self.index_of(c) is Some == (exists|k: int| 0 <= k < before.len() && (#[trigger] before[k]).coords == c) by {
            if exists|k: int| 0 <= k < before.len() && (#[trigger] before[k]).coords == c {
                let kb = choose|k: int| 0 <= k < before.len() && (#[trigger] before[k]).coords == c;
                assert(self.cells()[kb].coords == c);
            }
            if exists|k: int| 0 <= k < self.cells().len() && (#[trigger] self.cells()[k]).coords == c {
                let ks = choose|k: int| 0 <= k < self.cells().len() && (#[trigger] self.cells()[k]).coords == c;
                assert(before[ks].coords == c);
            }
        }
    }

    proof fn lemma_cells_after_insert(&self, before: Seq<LandscapeDiff>, pos: int, land: LandscapeDiff)
        requires
            0 <= pos <= before.len(),
            strictly_sorted(before),
            self.cells() == before.insert(pos, land),
            self.wf(),
        ensures
            self.index_of(land.coords) matches Some(k) && self.cells()[k] == land,
            forall|c: Vec2| c != land.coords ==> #[trigger] self.index_of(c) is Some == (exists|k: int| 0 <= k < before.len() && (#[trigger] before[k]).coords == c),
            forall|c: Vec2| c != land.coords && (exists|k: int| 0 <= k < before.len() && (#[trigger] before[k]).coords == c) ==>
                #[trigger] self.cells()[self.index_of(c)->0] == before[choose|k: int| 0 <= k < before.len() && (#[trigger] before[k]).coords == c],
    {
        assert(self.cells()[pos].coords == land.coords);
        let k0 = choose|k: int| 0 <= k < self.cells().len() && (#[trigger] self.cells()[k]).coords == land.coords;
        self.lemma_unique(k0, pos);
        assert forall|c: Vec2| c != land.coords && (exists|k: int| 0 <= k < before.len() && (#[trigger] before[k]).coords == c) implies
            #[trigger] self.cells()[self.index_of(c)->0] == before[choose|k: int| 0 <= k < before.len() && (#[trigger] before[k]).coords == c] by {
            let kb = choose|k: int| 0 <= k < before.len() && (#[trigger] before[k]).coords == c;
            let ks_expected = if kb < pos { kb } else { kb + 1 };
            assert(self.cells()[ks_expected].coords == c);
            let ks = choose|k: int| 0 <= k < self.cells().len() && (#[trigger] self.cells()[k]).coords == c;
            self.lemma_unique(ks, ks_expected);
        }
        assert forall|c: Vec2| c != land.coords implies #[trigger] self.index_of(c) is Some == (exists|k: int| 0 <= k < before.len() && (#[trigger] before[k]).coords == c) by {
            if exists|k: int| 0 <= k < before.len() && (#[trigger] before[k]).coords == c {
                let kb = choose|k: int| 0 <= k < before.len() && (#[trigger] before[k]).coords == c;
                let ks_expected = if kb < pos { kb } else { kb + 1 };
                assert(self.cells()[ks_expected].coords == c);
            }
            if exists|k: int| 0 <= k < self.cells().len() && (#[trigger] self.cells()[k]).coords == c {
                let ks = choose|k: int| 0 <= k < self.cells().len() && (#[trigger] self.cells()[k]).coords == c;
                assert(ks != pos);
                let kb = if ks < pos { ks } else { ks - 1 };
                assert(before[kb].coords == c);
            }
        }
    }
}

} // verus!
