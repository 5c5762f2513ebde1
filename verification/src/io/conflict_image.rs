//! What the images of conflicts between a merged map and a plugin's map show, and whether an
//! image is worth saving. Drawing and writing the image files is left to the application.
use crate::land::grid::Vec3;
use crate::land::landscape_diff::{LandmassDiff, LandscapeDiff};
use crate::merge::conflict::ConflictType;
use crate::merge::relative_terrain_map::RelativeTerrainMap;
use crate::merge::relative_to::RelativeTo;
use crate::text::same_text;
use vstd::prelude::*;

verus! {

/// The color of a position that the plugin left as its reference has it.
pub open spec fn untouched_color() -> Vec3<u8> {
    Vec3 { x: 0, y: 0, z: 0 }
}

/// The color of a position that the plugin changed to the merged value.
pub open spec fn agreeing_color() -> Vec3<u8> {
    Vec3 { x: 0, y: 255, z: 0 }
}

/// The color of a position that the plugin changed with a minor conflict.
pub open spec fn minor_conflict_color() -> Vec3<u8> {
    Vec3 { x: 255, y: 255, z: 0 }
}

/// The color of a position that the plugin changed with a major conflict.
pub open spec fn major_conflict_color() -> Vec3<u8> {
    Vec3 { x: 255, y: 0, z: 0 }
}

/// The color of a position where the conflict between the merged value and the plugin's value
/// has the outcome `c`: untouched when the plugin did not change the position, otherwise by
/// the kind of conflict.
pub open spec fn diff_color<U>(c: Option<ConflictType<U>>, changed: bool) -> Vec3<u8> {
    if !changed {
        untouched_color()
    } else {
        match c {
            None => agreeing_color(),
            Some(ConflictType::Minor(_)) => minor_conflict_color(),
            Some(ConflictType::Major(_)) => major_conflict_color(),
        }
    }
}

/// `p` is the color of a position for one possible outcome of `average` on `merged` and
/// `plugin`.
pub open spec fn pixel_for<U, F: Fn(U, U) -> Option<ConflictType<U>>>(
    average: F,
    merged: U,
    plugin: U,
    changed: bool,
    p: Vec3<u8>,
) -> bool {
    exists|c: Option<ConflictType<U>>| #[trigger] average.ensures((merged, plugin), c) && p == diff_color(c, changed)
}

/// The number of positions of `pixels` that show `color`.
pub open spec fn count_color(pixels: Seq<Vec3<u8>>, color: Vec3<u8>) -> nat
    decreases pixels.len(),
{
    if pixels.len() == 0 {
        0
    } else {
        count_color(pixels.drop_last(), color) + if pixels.last() == color {
            1nat
        } else {
            0nat
        }
    }
}

/// The image of the conflicts between a merged map and a plugin's map, position by position
/// in the order of the maps, with the numbers of conflicts of each kind.
pub struct ConflictImage {
    /// The color of each position.
    pub pixels: Vec<Vec3<u8>>,
    /// The number of positions that the plugin changed with a major conflict.
    pub num_major_conflicts: usize,
    /// The number of positions that the plugin changed with a minor conflict.
    pub num_minor_conflicts: usize,
}

/// Draws the conflicts between the merged map `lhs` and the plugin's map `rhs`, as `average`
/// classifies them.
pub fn conflict_image<U: RelativeTo, const T: usize, F: Fn(U, U) -> Option<ConflictType<U>>>(
    lhs: &RelativeTerrainMap<U, T>,
    rhs: &RelativeTerrainMap<U, T>,
    average: &F,
) -> (r: ConflictImage)
    requires
        lhs.wf(),
        rhs.wf(),
        forall|a: U, b: U| average.requires((a, b)),
    ensures
        r.pixels@.len() == RelativeTerrainMap::<U, T>::size(),
        forall|i: int|
            0 <= i < r.pixels@.len() ==> pixel_for(*average, lhs.value_at(i), rhs.value_at(i), rhs.differs_at(i), #[trigger] r.pixels@[i]),
        r.num_major_conflicts == count_color(r.pixels@, major_conflict_color()),
        r.num_minor_conflicts == count_color(r.pixels@, minor_conflict_color()),
{
    proof {
        lhs.lemma_wf();
    }
    let n = T * T;
    let mut pixels: Vec<Vec3<u8>> = Vec::new();
    let mut num_major: usize = 0;
    let mut num_minor: usize = 0;
    let mut i: usize = 0;
    while i < n
        invariant
            n == T * T,
            n == RelativeTerrainMap::<U, T>::size(),
            i <= n,
            lhs.wf(),
            rhs.wf(),
            forall|a: U, b: U| average.requires((a, b)),
            pixels@.len() == i,
            forall|j: int| 0 <= j < i ==> pixel_for(*average, lhs.value_at(j), rhs.value_at(j), rhs.differs_at(j), #[trigger] pixels@[j]),
            num_major == count_color(pixels@, major_conflict_color()),
            num_minor == count_color(pixels@, minor_conflict_color()),
            num_major <= i,
            num_minor <= i,
        decreases n - i,
    {
        let actual = lhs.value_at_offset(i);
        let expected = rhs.value_at_offset(i);
        let changed = rhs.differs_at_offset(i);
        let c = average(actual, expected);
        let color = if !changed {
            Vec3 { x: 0u8, y: 0u8, z: 0u8 }
        } else {
            match c {
                None => Vec3 { x: 0u8, y: 255u8, z: 0u8 },
                Some(ConflictType::Minor(_)) => {
                    num_minor += 1;
                    Vec3 { x: 255u8, y: 255u8, z: 0u8 }
                },
                Some(ConflictType::Major(_)) => {
                    num_major += 1;
                    Vec3 { x: 255u8, y: 0u8, z: 0u8 }
                },
            }
        };
        let ghost prev = pixels@;
        pixels.push(color);
        proof {
            assert(color == diff_color(c, changed));
            assert(pixels@.drop_last() =~= prev);
            assert(average.ensures((lhs.value_at(i as int), rhs.value_at(i as int)), c));
        }
        i += 1;
    }
    ConflictImage { pixels, num_major_conflicts: num_major, num_minor_conflicts: num_minor }
}

/// The number of minor conflicts from which an image of `cells` positions is worth saving:
/// a fiftieth of the positions, and at least one.
pub open spec fn minor_threshold(cells: nat) -> nat {
    if cells / 50 >= 1 {
        cells / 50
    } else {
        1
    }
}

/// The number of major conflicts from which an image of `cells` positions is worth saving:
/// a thousandth of the positions, and at least one.
pub open spec fn major_threshold(cells: nat) -> nat {
    if cells / 1000 >= 1 {
        cells / 1000
    } else {
        1
    }
}

/// A conflict image of `cells` positions for the layer named `value` is worth saving: the
/// layer is neither the vertex colors nor the vertex normals, and it has enough minor or
/// enough major conflicts.
pub open spec fn worth_saving(num_major: nat, num_minor: nat, cells: nat, value: Seq<char>) -> bool {
    &&& value != "vertex_colors"@
    &&& value != "vertex_normals"@
    &&& (num_minor >= minor_threshold(cells) || num_major >= major_threshold(cells))
}

/// Whether a conflict image of `cells` positions, with these numbers of conflicts, for the
/// layer named `value` is worth saving.
pub fn should_save_conflict_image(num_major: usize, num_minor: usize, cells: usize, value: &str) -> (b: bool)
    ensures
        b == worth_saving(num_major as nat, num_minor as nat, cells as nat, value@),
{
    if num_minor == 0 && num_major == 0 {
        return false;
    }
    let minor_threshold = if cells / 50 >= 1 {
        cells / 50
    } else {
        1
    };
    let major_threshold = if cells / 1000 >= 1 {
        cells / 1000
    } else {
        1
    };
    let mut should_skip = num_minor < minor_threshold && num_major < major_threshold;
    if same_text(value, "vertex_colors") || same_text(value, "vertex_normals") {
        should_skip = true;
    }
    !should_skip
}

/// The pairs of positions of the records of `plugin` whose cell `reference` also has, with the
/// position of that cell's record in `reference`, in the order of the records of `plugin`.
pub open spec fn image_cells(reference: LandmassDiff, plugin: Seq<LandscapeDiff>) -> Seq<(int, int)>
    decreases plugin.len(),
{
    if plugin.len() == 0 {
        Seq::empty()
    } else {
        let rest = image_cells(reference, plugin.drop_last());
        match reference.index_of(plugin.last().coords) {
            Some(k) => rest.push((plugin.len() - 1, k)),
            None => rest,
        }
    }
}

/// The cells of `plugin` that conflict images are made for, each as the position of the
/// plugin's record and the position of the merged record of that cell in `reference`; the
/// cells that `reference` has no record of are skipped.
pub fn conflict_image_cells(reference: &LandmassDiff, plugin: &LandmassDiff) -> (r: Vec<(usize, usize)>)
    requires
        reference.wf(),
    ensures
        r@.len() == image_cells(*reference, plugin.cells()).len(),
        forall|i: int|
            0 <= i < r@.len() ==> (#[trigger] r@[i]).0 as int == image_cells(*reference, plugin.cells())[i].0
                && r@[i].1 as int == image_cells(*reference, plugin.cells())[i].1,
{
    let cells = plugin.sorted();
    let n = cells.len();
    let mut r: Vec<(usize, usize)> = Vec::new();
    let mut j: usize = 0;
    while j < n
        invariant
            cells@ == plugin.cells(),
            n == cells@.len(),
            j <= n,
            reference.wf(),
            r@.len() == image_cells(*reference, cells@.take(j as int)).len(),
            forall|i: int|
                0 <= i < r@.len() ==> (#[trigger] r@[i]).0 as int == image_cells(*reference, cells@.take(j as int))[i].0
                    && r@[i].1 as int == image_cells(*reference, cells@.take(j as int))[i].1,
        decreases n - j,
    {
        proof {
            assert(cells@.take(j + 1).drop_last() =~= cells@.take(j as int));
            assert(cells@.take(j + 1).last() == cells@[j as int]);
        }
        match reference.find(cells[j].coords) {
            Some(k) => {
                r.push((j, k));
            },
            None => {},
        }
        j += 1;
    }
    proof {
        assert(cells@.take(n as int) =~= cells@);
    }
    r
}

} // verus!
