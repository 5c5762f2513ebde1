use crate::land::grid::{flat_index, in_grid, Index2D, Vec2};
use crate::land::landscape_diff::{LandmassDiff, LandscapeDiff};
use vstd::prelude::*;

verus! {

/// The position, inside a height map, of corner `kind`: 0 is the bottom-left vertex, 1 the
/// bottom-right, 2 the top-left and 3 the top-right.
pub open spec fn corner_local(kind: int) -> Index2D {
    if kind == 0 {
        Index2D { x: 0, y: 0 }
    } else if kind == 1 {
        Index2D { x: 64, y: 0 }
    } else if kind == 2 {
        Index2D { x: 0, y: 64 }
    } else {
        Index2D { x: 64, y: 64 }
    }
}

/// The horizontal offset from a cell to the lattice point at its corner `kind`.
pub open spec fn corner_dx(kind: int) -> int {
    if kind == 1 || kind == 3 {
        1
    } else {
        0
    }
}

/// The vertical offset from a cell to the lattice point at its corner `kind`.
pub open spec fn corner_dy(kind: int) -> int {
    if kind >= 2 {
        1
    } else {
        0
    }
}

/// The flat position, inside a height map, of corner `kind`.
pub open spec fn corner_flat(kind: int) -> int {
    flat_index(corner_local(kind), 65)
}

/// The vertex at corner `kind` of the record at position `k` meets the lattice point
/// (`px`, `py`), and the record has a height map.
pub open spec fn in_corner_group(m: LandmassDiff, k: int, kind: int, px: int, py: int) -> bool {
    &&& 0 <= k < m.cells().len()
    &&& 0 <= kind < 4
    &&& m.has_heights(k)
    &&& m.cells()[k].coords.x + corner_dx(kind) == px
    &&& m.cells()[k].coords.y + corner_dy(kind) == py
}

/// All height map vertices meeting at the lattice point (`px`, `py`) have the same height.
pub open spec fn corner_uniform(m: LandmassDiff, px: int, py: int) -> bool {
    forall|k1: int, kind1: int, k2: int, kind2: int|
        #[trigger] in_corner_group(m, k1, kind1, px, py) && #[trigger] in_corner_group(m, k2, kind2, px, py)
            ==> m.height_at(k1, corner_flat(kind1)) == m.height_at(k2, corner_flat(kind2))
}

/// The four lattice points at the corners of the record at position `k` are uniform.
pub open spec fn cell_corners_uniform(m: LandmassDiff, k: int) -> bool {
    let c = m.cells()[k].coords;
    &&& corner_uniform(m, c.x as int, c.y as int)
    &&& corner_uniform(m, c.x + 1, c.y as int)
    &&& corner_uniform(m, c.x as int, c.y + 1)
    &&& corner_uniform(m, c.x + 1, c.y + 1)
}

/// Every lattice point at a corner of some record is uniform.
pub open spec fn all_corners_uniform(m: LandmassDiff) -> bool {
    forall|k: int| 0 <= k < m.cells().len() ==> #[trigger] cell_corners_uniform(m, k)
}

/// The record at position `b` lies directly above the record at position `a`, both have
/// height maps, and their shared side has the same heights.
pub open spec fn top_seam_closed(m: LandmassDiff, a: int, b: int) -> bool {
    forall|x: int| 0 <= x < 65 ==> #[trigger] m.height_at(a, 64 * 65 + x) == m.height_at(b, x)
}

/// The record at position `b` lies directly to the right of the record at position `a`, both
/// have height maps, and their shared side has the same heights.
pub open spec fn right_seam_closed(m: LandmassDiff, a: int, b: int) -> bool {
    forall|y: int| 0 <= y < 65 ==> #[trigger] m.height_at(a, y * 65 + 64) == m.height_at(b, y * 65)
}

/// The record at position `b` lies directly above the record at position `a` and both have
/// height maps.
pub open spec fn top_neighbors(m: LandmassDiff, a: int, b: int) -> bool {
    &&& 0 <= a < m.cells().len()
    &&& 0 <= b < m.cells().len()
    &&& m.has_heights(a)
    &&& m.has_heights(b)
    &&& m.cells()[b].coords.x == m.cells()[a].coords.x
    &&& m.cells()[b].coords.y == m.cells()[a].coords.y + 1
}

/// The record at position `b` lies directly to the right of the record at position `a` and
/// both have height maps.
pub open spec fn right_neighbors(m: LandmassDiff, a: int, b: int) -> bool {
    &&& 0 <= a < m.cells().len()
    &&& 0 <= b < m.cells().len()
    &&& m.has_heights(a)
    &&& m.has_heights(b)
    &&& m.cells()[b].coords.x == m.cells()[a].coords.x + 1
    &&& m.cells()[b].coords.y == m.cells()[a].coords.y
}

/// Every pair of neighboring records with height maps shares the same heights along their
/// common side, and every lattice point where records meet is uniform: the landmass has no
/// seams.
pub open spec fn seamless(m: LandmassDiff) -> bool {
    &&& all_corners_uniform(m)
    &&& forall|a: int, b: int| #[trigger] top_neighbors(m, a, b) ==> top_seam_closed(m, a, b)
    &&& forall|a: int, b: int| #[trigger] right_neighbors(m, a, b) ==> right_seam_closed(m, a, b)
}

/// `x` is a value of `i32`.
pub open spec fn fits_i32(x: int) -> bool {
    i32::MIN <= x <= i32::MAX
}

/// Every vertex meeting at the lattice point (`px`, `py`) can hold the average of their
/// heights: that average minus the vertex's reference height is a value of `i32`.
pub open spec fn corner_point_fits(m: LandmassDiff, px: int, py: int) -> bool {
    forall|k: int, kind: int|
        #[trigger] in_corner_group(m, k, kind, px, py) ==> fits_i32(corner_average(m, px, py) - m.reference_height_at(k, corner_flat(kind)))
}

/// The `t`-th vertex pair of the side shared by the records at positions `a` and `b` can be
/// set to its midpoint when its heights differ: the midpoint minus either reference height is
/// a value of `i32`, and so is the magnitude of its difference from either height.
pub open spec fn side_pair_fits(m: LandmassDiff, a: int, b: int, t: int, top: bool) -> bool {
    let x = m.height_at(a, side_a_flat(t, top)) as int;
    let y = m.height_at(b, side_b_flat(t, top)) as int;
    let mid = midpoint(x, y);
    x != y ==> {
        &&& fits_i32(mid - m.reference_height_at(a, side_a_flat(t, top)))
        &&& fits_i32(mid - m.reference_height_at(b, side_b_flat(t, top)))
        &&& -i32::MAX <= mid - x <= i32::MAX
        &&& -i32::MAX <= mid - y <= i32::MAX
    }
}

/// Every height that seam repair writes fits its height map: the average of every lattice
/// point fits each vertex meeting there, and the midpoint of every differing inner vertex pair
/// of a shared side fits both vertices. These are the values that the repair computes from the
/// heights of `m`.
pub open spec fn seams_repairable(m: LandmassDiff) -> bool {
    &&& forall|px: int, py: int| #[trigger] corner_point_fits(m, px, py)
    &&& forall|a: int, b: int, t: int| top_neighbors(m, a, b) && 1 <= t <= 63 ==> #[trigger] side_pair_fits(m, a, b, t, true)
    &&& forall|a: int, b: int, t: int| right_neighbors(m, a, b) && 1 <= t <= 63 ==> #[trigger] side_pair_fits(m, a, b, t, false)
}

/// Every record's coordinates leave room for its neighbors' coordinates inside `i32`.
pub open spec fn coords_in_range(m: LandmassDiff) -> bool {
    forall|k: int|
        0 <= k < m.cells().len() ==> i32::MIN < (#[trigger] m.cells()[k]).coords.x < i32::MAX
            && i32::MIN < m.cells()[k].coords.y < i32::MAX
}

/// `m1` has the same records as `m0` except for height values.
pub open spec fn same_shape(m0: LandmassDiff, m1: LandmassDiff) -> bool {
    &&& m1.wf()
    &&& m1.plugin_name() == m0.plugin_name()
    &&& m1.cells().len() == m0.cells().len()
    &&& forall|k: int|
        0 <= k < m0.cells().len() ==> LandmassDiff::same_but_heights(#[trigger] m1.cells()[k], m0.cells()[k])
}

/// Flat position `i` of the record at position `k` is the vertex that meets the lattice
/// point (`px`, `py`).
pub open spec fn is_group_vertex(m: LandmassDiff, k: int, i: int, px: int, py: int) -> bool {
    ||| (i == corner_flat(0) && in_corner_group(m, k, 0, px, py))
    ||| (i == corner_flat(1) && in_corner_group(m, k, 1, px, py))
    ||| (i == corner_flat(2) && in_corner_group(m, k, 2, px, py))
    ||| (i == corner_flat(3) && in_corner_group(m, k, 3, px, py))
}

/// `m1` differs from `m0` only in the heights of the vertices meeting at (`px`, `py`).
pub open spec fn corner_frame(m0: LandmassDiff, m1: LandmassDiff, px: int, py: int) -> bool {
    &&& same_shape(m0, m1)
    &&& forall|k: int, i: int|
        0 <= k < m0.cells().len() && m0.has_heights(k) && 0 <= i < 65 * 65 && !is_group_vertex(m0, k, i, px, py)
            ==> #[trigger] m1.height_at(k, i) == m0.height_at(k, i)
}

/// `m1` differs from `m0` only in heights that are not at a corner of their height map.
pub open spec fn corners_kept(m0: LandmassDiff, m1: LandmassDiff) -> bool {
    &&& same_shape(m0, m1)
    &&& forall|k: int, kind: int|
        0 <= k < m0.cells().len() && m0.has_heights(k) && 0 <= kind < 4 ==> #[trigger] m1.height_at(k, corner_flat(kind))
            == m0.height_at(k, corner_flat(kind))
}

proof fn lemma_corner_flats()
    ensures
        corner_flat(0) == 0,
        corner_flat(1) == 64,
        corner_flat(2) == 4160,
        corner_flat(3) == 4224,
{
}

/// Group membership depends only on coordinates and on which records have height maps.
proof fn lemma_same_shape_groups(m0: LandmassDiff, m1: LandmassDiff)
    requires
        same_shape(m0, m1),
    ensures
        forall|k: int, kind: int, px: int, py: int|
            #[trigger] in_corner_group(m1, k, kind, px, py) == in_corner_group(m0, k, kind, px, py),
        forall|k: int| 0 <= k < m0.cells().len() ==> #[trigger] m1.has_heights(k) == m0.has_heights(k),
        forall|k: int| 0 <= k < m0.cells().len() ==> #[trigger] m1.cells()[k].coords == m0.cells()[k].coords,
{
    assert forall|k: int, kind: int, px: int, py: int|
        #[trigger] in_corner_group(m1, k, kind, px, py) == in_corner_group(m0, k, kind, px, py) by {
        if 0 <= k < m0.cells().len() {
            assert(LandmassDiff::same_but_heights(m1.cells()[k], m0.cells()[k]));
        }
    }
    assert forall|k: int| 0 <= k < m0.cells().len() implies #[trigger] m1.has_heights(k) == m0.has_heights(k) by {
        assert(LandmassDiff::same_but_heights(m1.cells()[k], m0.cells()[k]));
    }
    assert forall|k: int| 0 <= k < m0.cells().len() implies #[trigger] m1.cells()[k].coords == m0.cells()[k].coords by {
        assert(LandmassDiff::same_but_heights(m1.cells()[k], m0.cells()[k]));
    }
}

/// A record has at most one vertex meeting any lattice point, and two different lattice
/// points never share a vertex.
proof fn lemma_group_vertex_unique(m: LandmassDiff, k: int, kind: int, px: int, py: int, qx: int, qy: int)
    requires
        in_corner_group(m, k, kind, qx, qy),
        is_group_vertex(m, k, corner_flat(kind), px, py),
    ensures
        px == qx && py == qy,
{
    lemma_corner_flats();
}

/// Repairing one lattice point keeps every other uniform lattice point uniform.
proof fn lemma_corner_frame_keeps_uniform(m0: LandmassDiff, m1: LandmassDiff, px: int, py: int, qx: int, qy: int)
    requires
        corner_frame(m0, m1, px, py),
        corner_uniform(m1, px, py),
        corner_uniform(m0, qx, qy),
    ensures
        corner_uniform(m1, qx, qy),
{
    lemma_same_shape_groups(m0, m1);
    if px != qx || py != qy {
        assert forall|k1: int, kind1: int, k2: int, kind2: int|
            #[trigger] in_corner_group(m1, k1, kind1, qx, qy) && #[trigger] in_corner_group(m1, k2, kind2, qx, qy)
                implies m1.height_at(k1, corner_flat(kind1)) == m1.height_at(k2, corner_flat(kind2)) by {
            assert(in_corner_group(m0, k1, kind1, qx, qy));
            assert(in_corner_group(m0, k2, kind2, qx, qy));
            lemma_corner_flats();
            if is_group_vertex(m0, k1, corner_flat(kind1), px, py) {
                lemma_group_vertex_unique(m0, k1, kind1, px, py, qx, qy);
            }
            if is_group_vertex(m0, k2, corner_flat(kind2), px, py) {
                lemma_group_vertex_unique(m0, k2, kind2, px, py, qx, qy);
            }
            assert(m1.height_at(k1, corner_flat(kind1)) == m0.height_at(k1, corner_flat(kind1)));
            assert(m1.height_at(k2, corner_flat(kind2)) == m0.height_at(k2, corner_flat(kind2)));
        }
    }
}

/// Changing only non-corner heights keeps every uniform lattice point uniform.
proof fn lemma_corners_kept_uniform(m0: LandmassDiff, m1: LandmassDiff, qx: int, qy: int)
    requires
        corners_kept(m0, m1),
        corner_uniform(m0, qx, qy),
    ensures
        corner_uniform(m1, qx, qy),
{
    lemma_same_shape_groups(m0, m1);
    assert forall|k1: int, kind1: int, k2: int, kind2: int|
        #[trigger] in_corner_group(m1, k1, kind1, qx, qy) && #[trigger] in_corner_group(m1, k2, kind2, qx, qy)
            implies m1.height_at(k1, corner_flat(kind1)) == m1.height_at(k2, corner_flat(kind2)) by {
        assert(in_corner_group(m0, k1, kind1, qx, qy));
        assert(in_corner_group(m0, k2, kind2, qx, qy));
    }
}


/// The integer quotient of `a` by `b`, rounded toward zero.
pub open spec fn quotient_toward_zero(a: int, b: int) -> int {
    if a >= 0 {
        a / b
    } else {
        -((-a) / b)
    }
}

/// Divides `a` by `b`, rounding toward zero.
fn div_toward_zero(a: i64, b: i64) -> (q: i64)
    requires
        1 <= b <= 4,
        4 * (i32::MIN as int) <= a <= 4 * (i32::MAX as int),
    ensures
        q == quotient_toward_zero(a as int, b as int),
{
    if a >= 0 {
        a / b
    } else {
        -((-a) / b)
    }
}

/// The record with a height map whose corner `kind` meets the lattice point (`px`, `py`), if
/// there is one.
#[verifier::opaque]
pub open spec fn corner_holder(m: LandmassDiff, px: int, py: int, kind: int) -> Option<int> {
    if exists|k: int| in_corner_group(m, k, kind, px, py) {
        Some(choose|k: int| in_corner_group(m, k, kind, px, py))
    } else {
        None
    }
}

/// The height that corner `kind` contributes to the lattice point (`px`, `py`): its height if
/// a record holds it, zero otherwise.
pub open spec fn corner_term(m: LandmassDiff, px: int, py: int, kind: int) -> int {
    match corner_holder(m, px, py, kind) {
        Some(k) => m.height_at(k, corner_flat(kind)) as int,
        None => 0,
    }
}

/// Whether a record holds corner `kind` at the lattice point (`px`, `py`), as a number.
pub open spec fn corner_present(m: LandmassDiff, px: int, py: int, kind: int) -> int {
    if corner_holder(m, px, py, kind) is Some { 1 } else { 0 }
}

/// The sum of the heights of the height map vertices meeting at (`px`, `py`).
pub open spec fn corner_sum(m: LandmassDiff, px: int, py: int) -> int {
    corner_term(m, px, py, 0) + corner_term(m, px, py, 1) + corner_term(m, px, py, 2) + corner_term(m, px, py, 3)
}

/// The number of height map vertices meeting at (`px`, `py`).
pub open spec fn corner_count(m: LandmassDiff, px: int, py: int) -> int {
    corner_present(m, px, py, 0) + corner_present(m, px, py, 1) + corner_present(m, px, py, 2) + corner_present(m, px, py, 3)
}

/// The average, rounded toward zero, of the heights of the height map vertices meeting at
/// (`px`, `py`).
pub open spec fn corner_average(m: LandmassDiff, px: int, py: int) -> int {
    quotient_toward_zero(corner_sum(m, px, py), corner_count(m, px, py))
}

/// Whether corner `kind` of the lattice point (`px`, `py`) is held by a record and differs from
/// the average of that lattice point, as a number.
pub open spec fn corner_off(m: LandmassDiff, px: int, py: int, kind: int) -> int {
    match corner_holder(m, px, py, kind) {
        Some(k) => if m.height_at(k, corner_flat(kind)) != corner_average(m, px, py) {
            1
        } else {
            0
        },
        None => 0,
    }
}

/// The number of height map vertices meeting at (`px`, `py`) whose height differs from their
/// average.
pub open spec fn corner_changes(m: LandmassDiff, px: int, py: int) -> int {
    corner_off(m, px, py, 0) + corner_off(m, px, py, 1) + corner_off(m, px, py, 2) + corner_off(m, px, py, 3)
}

/// The record found for corner `kind` is the one that holds it.
proof fn lemma_holder_found(m: LandmassDiff, px: int, py: int, kind: int, found: Option<usize>)
    requires
        m.wf(),
        found matches Some(k) ==> in_corner_group(m, k as int, kind, px, py),
        found is None ==> forall|k: int| !#[trigger] in_corner_group(m, k, kind, px, py),
    ensures
        found matches Some(k) ==> corner_holder(m, px, py, kind) == Some(k as int),
        found is None ==> corner_holder(m, px, py, kind) is None,
{
    reveal(corner_holder);
    if let Some(k) = found {
        assert(in_corner_group(m, k as int, kind, px, py));
        let c = choose|j: int| in_corner_group(m, j, kind, px, py);
        m.lemma_unique(c, k as int);
    }
}

/// Every vertex meeting at (`px`, `py`) still has its height in `m0`.
pub open spec fn corner_untouched(m0: LandmassDiff, m: LandmassDiff, px: int, py: int) -> bool {
    forall|k: int, kind: int|
        #[trigger] in_corner_group(m0, k, kind, px, py) ==> m.height_at(k, corner_flat(kind)) == m0.height_at(k, corner_flat(kind))
}

/// Every vertex meeting at (`px`, `py`) has the average of their heights in `m0`.
pub open spec fn corner_settled(m0: LandmassDiff, m: LandmassDiff, px: int, py: int) -> bool {
    forall|k: int, kind: int|
        #[trigger] in_corner_group(m0, k, kind, px, py) ==> m.height_at(k, corner_flat(kind)) == corner_average(m0, px, py)
}

/// Every lattice point is either untouched or settled.
pub open spec fn corner_states_ok(m0: LandmassDiff, m: LandmassDiff) -> bool {
    forall|px: int, py: int| #[trigger] corner_untouched(m0, m, px, py) || corner_settled(m0, m, px, py)
}

/// The four lattice points at the corners of the record at position `k` are settled.
pub open spec fn cell_corners_settled(m0: LandmassDiff, m: LandmassDiff, k: int) -> bool {
    let c = m0.cells()[k].coords;
    &&& corner_settled(m0, m, c.x as int, c.y as int)
    &&& corner_settled(m0, m, c.x + 1, c.y as int)
    &&& corner_settled(m0, m, c.x as int, c.y + 1)
    &&& corner_settled(m0, m, c.x + 1, c.y + 1)
}

/// The holders of a lattice point's corners do not depend on heights.
proof fn lemma_holder_same_shape(m0: LandmassDiff, m: LandmassDiff, px: int, py: int, kind: int)
    requires
        m0.wf(),
        same_shape(m0, m),
    ensures
        corner_holder(m, px, py, kind) == corner_holder(m0, px, py, kind),
{
    reveal(corner_holder);
    lemma_same_shape_groups(m0, m);
    if exists|k: int| in_corner_group(m0, k, kind, px, py) {
        let c0 = choose|k: int| in_corner_group(m0, k, kind, px, py);
        assert(in_corner_group(m, c0, kind, px, py));
        let c1 = choose|k: int| in_corner_group(m, k, kind, px, py);
        assert(in_corner_group(m0, c1, kind, px, py));
        m0.lemma_unique(c0, c1);
    } else {
        assert forall|k: int| !in_corner_group(m, k, kind, px, py) by {
            if in_corner_group(m, k, kind, px, py) {
                assert(in_corner_group(m0, k, kind, px, py));
            }
        }
    }
}

/// A held corner belongs to the group of its lattice point.
proof fn lemma_holder_in_group(m: LandmassDiff, px: int, py: int, kind: int)
    ensures
        corner_holder(m, px, py, kind) matches Some(k) ==> in_corner_group(m, k, kind, px, py),
{
    reveal(corner_holder);
}

/// An untouched or settled lattice point has the average it had in `m0`.
proof fn lemma_average_kept(m0: LandmassDiff, m: LandmassDiff, px: int, py: int)
    requires
        m0.wf(),
        same_shape(m0, m),
        corner_untouched(m0, m, px, py) || corner_settled(m0, m, px, py),
    ensures
        corner_average(m, px, py) == corner_average(m0, px, py),
{
    lemma_holder_same_shape(m0, m, px, py, 0);
    lemma_holder_same_shape(m0, m, px, py, 1);
    lemma_holder_same_shape(m0, m, px, py, 2);
    lemma_holder_same_shape(m0, m, px, py, 3);
    lemma_holder_in_group(m0, px, py, 0);
    lemma_holder_in_group(m0, px, py, 1);
    lemma_holder_in_group(m0, px, py, 2);
    lemma_holder_in_group(m0, px, py, 3);
    if corner_untouched(m0, m, px, py) {
        assert(corner_sum(m, px, py) == corner_sum(m0, px, py));
    } else {
        let a = corner_average(m0, px, py);
        let n = corner_count(m0, px, py);
        assert(corner_count(m, px, py) == n);
        assert(corner_term(m, px, py, 0) == corner_present(m, px, py, 0) * a);
        assert(corner_term(m, px, py, 1) == corner_present(m, px, py, 1) * a);
        assert(corner_term(m, px, py, 2) == corner_present(m, px, py, 2) * a);
        assert(corner_term(m, px, py, 3) == corner_present(m, px, py, 3) * a);
        if n > 0 {
            assert(corner_sum(m, px, py) == n * a) by (nonlinear_arith)
                requires
                    corner_sum(m, px, py) == corner_term(m, px, py, 0) + corner_term(m, px, py, 1) + corner_term(m, px, py, 2) + corner_term(m, px, py, 3),
                    corner_term(m, px, py, 0) == corner_present(m, px, py, 0) * a,
                    corner_term(m, px, py, 1) == corner_present(m, px, py, 1) * a,
                    corner_term(m, px, py, 2) == corner_present(m, px, py, 2) * a,
                    corner_term(m, px, py, 3) == corner_present(m, px, py, 3) * a,
                    n == corner_present(m, px, py, 0) + corner_present(m, px, py, 1) + corner_present(m, px, py, 2) + corner_present(m, px, py, 3),
            ;
            lemma_uniform_average(corner_sum(m, px, py), n, a);
        } else {
            assert(corner_sum(m, px, py) == 0);
            assert(corner_sum(m0, px, py) == 0);
        }
    }
}

/// Repairing one lattice point keeps the state of every other lattice point.
proof fn lemma_corner_frame_keeps_state(m0: LandmassDiff, m1: LandmassDiff, m2: LandmassDiff, px: int, py: int, qx: int, qy: int)
    requires
        same_shape(m0, m1),
        corner_frame(m1, m2, px, py),
        px != qx || py != qy,
    ensures
        corner_untouched(m0, m1, qx, qy) ==> corner_untouched(m0, m2, qx, qy),
        corner_settled(m0, m1, qx, qy) ==> corner_settled(m0, m2, qx, qy),
{
    lemma_same_shape_groups(m0, m1);
    lemma_same_shape_groups(m1, m2);
    lemma_corner_flats();
    assert forall|k: int, kind: int| #[trigger] in_corner_group(m0, k, kind, qx, qy)
        implies m2.height_at(k, corner_flat(kind)) == m1.height_at(k, corner_flat(kind)) by {
        assert(in_corner_group(m1, k, kind, qx, qy));
        if is_group_vertex(m1, k, corner_flat(kind), px, py) {
            lemma_group_vertex_unique(m1, k, kind, px, py, qx, qy);
        }
    }
}

/// A settled lattice point has no vertex left to change.
proof fn lemma_settled_no_changes(start: LandmassDiff, m: LandmassDiff, px: int, py: int)
    requires
        start.wf(),
        same_shape(start, m),
        corner_settled(start, m, px, py),
    ensures
        corner_changes(m, px, py) == 0,
{
    lemma_average_kept(start, m, px, py);
    lemma_same_shape_groups(start, m);
    lemma_holder_same_shape(start, m, px, py, 0);
    lemma_holder_same_shape(start, m, px, py, 1);
    lemma_holder_same_shape(start, m, px, py, 2);
    lemma_holder_same_shape(start, m, px, py, 3);
    lemma_holder_in_group(start, px, py, 0);
    lemma_holder_in_group(start, px, py, 1);
    lemma_holder_in_group(start, px, py, 2);
    lemma_holder_in_group(start, px, py, 3);
}

/// An untouched lattice point has the vertices to change that it had at the start.
proof fn lemma_untouched_same_changes(start: LandmassDiff, m: LandmassDiff, px: int, py: int)
    requires
        start.wf(),
        same_shape(start, m),
        corner_untouched(start, m, px, py),
    ensures
        corner_changes(m, px, py) == corner_changes(start, px, py),
{
    lemma_average_kept(start, m, px, py);
    lemma_same_shape_groups(start, m);
    lemma_holder_same_shape(start, m, px, py, 0);
    lemma_holder_same_shape(start, m, px, py, 1);
    lemma_holder_same_shape(start, m, px, py, 2);
    lemma_holder_same_shape(start, m, px, py, 3);
    lemma_holder_in_group(start, px, py, 0);
    lemma_holder_in_group(start, px, py, 1);
    lemma_holder_in_group(start, px, py, 2);
    lemma_holder_in_group(start, px, py, 3);
}

/// Repairing an untouched or settled lattice point settles it and keeps the state of every
/// other lattice point.
proof fn lemma_repair_settles(m0: LandmassDiff, m1: LandmassDiff, m2: LandmassDiff, px: int, py: int)
    requires
        m0.wf(),
        same_shape(m0, m1),
        corner_states_ok(m0, m1),
        corner_frame(m1, m2, px, py),
        forall|k1: int, kind1: int| #[trigger] in_corner_group(m1, k1, kind1, px, py)
            ==> m2.height_at(k1, corner_flat(kind1)) == corner_average(m1, px, py),
    ensures
        same_shape(m0, m2),
        corner_states_ok(m0, m2),
        corner_settled(m0, m2, px, py),
        forall|qx: int, qy: int| #[trigger] corner_settled(m0, m1, qx, qy) ==> corner_settled(m0, m2, qx, qy),
{
    lemma_same_shape_groups(m0, m1);
    lemma_same_shape_trans(m0, m1, m2);
    assert(corner_untouched(m0, m1, px, py) || corner_settled(m0, m1, px, py));
    lemma_average_kept(m0, m1, px, py);
    assert forall|k: int, kind: int| #[trigger] in_corner_group(m0, k, kind, px, py)
        implies m2.height_at(k, corner_flat(kind)) == corner_average(m0, px, py) by {
        assert(in_corner_group(m1, k, kind, px, py));
    }
    assert forall|qx: int, qy: int| #[trigger] corner_untouched(m0, m2, qx, qy) || corner_settled(m0, m2, qx, qy) by {
        if qx != px || qy != py {
            assert(corner_untouched(m0, m1, qx, qy) || corner_settled(m0, m1, qx, qy));
            lemma_corner_frame_keeps_state(m0, m1, m2, px, py, qx, qy);
        }
    }
    assert forall|qx: int, qy: int| #[trigger] corner_settled(m0, m1, qx, qy) implies corner_settled(m0, m2, qx, qy) by {
        if qx != px || qy != py {
            lemma_corner_frame_keeps_state(m0, m1, m2, px, py, qx, qy);
        }
    }
}

/// The quotient of a sum of `n` terms, each between `lo` and `hi`, by `n` lies between `lo`
/// and `hi`.
proof fn lemma_average_within(sum: int, n: int, lo: int, hi: int)
    requires
        1 <= n,
        lo <= 0 <= hi,
        n * lo <= sum <= n * hi,
    ensures
        lo <= quotient_toward_zero(sum, n) <= hi,
{
    if sum >= 0 {
        assert(sum / n <= hi) by (nonlinear_arith)
            requires
                1 <= n,
                0 <= sum <= n * hi,
        ;
        assert(0 <= sum / n) by (nonlinear_arith)
            requires
                1 <= n,
                0 <= sum,
        ;
    } else {
        assert(-sum <= n * (-lo)) by (nonlinear_arith)
            requires
                n * lo <= sum,
        ;
        assert((-sum) / n <= -lo) by (nonlinear_arith)
            requires
                1 <= n,
                0 <= -sum <= n * (-lo),
        ;
        assert(0 <= (-sum) / n) by (nonlinear_arith)
            requires
                1 <= n,
                0 <= -sum,
        ;
    }
}

/// Finds the record whose corner `kind` meets the lattice point (`px`, `py`), if it exists
/// and has a height map.
fn corner_member(merged: &LandmassDiff, px: i32, py: i32, kind: usize) -> (r: Option<usize>)
    requires
        merged.wf(),
        kind < 4,
        i32::MIN < px,
        i32::MIN < py,
    ensures
        r matches Some(k) ==> in_corner_group(*merged, k as int, kind as int, px as int, py as int),
        r is None ==> forall|k: int| !#[trigger] in_corner_group(*merged, k, kind as int, px as int, py as int),
{
    let dx: i32 = if kind == 1 || kind == 3 {
        1
    } else {
        0
    };
    let dy: i32 = if kind >= 2 {
        1
    } else {
        0
    };
    let c = Vec2::new(px - dx, py - dy);
    match merged.find(c) {
        Some(k) => {
            if merged.has_height_map(k) {
                Some(k)
            } else {
                proof {
                    assert forall|j: int| !#[trigger] in_corner_group(*merged, j, kind as int, px as int, py as int) by {
                        if in_corner_group(*merged, j, kind as int, px as int, py as int) {
                            assert(merged.cells()[j].coords == c);
                            merged.lemma_unique(j, k as int);
                        }
                    }
                }
                None
            }
        },
        None => {
            proof {
                assert forall|j: int| !#[trigger] in_corner_group(*merged, j, kind as int, px as int, py as int) by {
                    if in_corner_group(*merged, j, kind as int, px as int, py as int) {
                        assert(merged.cells()[j].coords == c);
                    }
                }
            }
            None
        },
    }
}

/// The position, inside a height map, of corner `kind`.
fn corner_index(kind: usize) -> (c: Index2D)
    requires
        kind < 4,
    ensures
        c == corner_local(kind as int),
        in_grid(c, 65),
{
    if kind == 0 {
        Index2D::new(0, 0)
    } else if kind == 1 {
        Index2D::new(64, 0)
    } else if kind == 2 {
        Index2D::new(0, 64)
    } else {
        Index2D::new(64, 64)
    }
}

/// Adds the height of the vertex at corner `kind` of `member` to the running sum.
fn add_member_height(merged: &LandmassDiff, member: Option<usize>, kind: usize, sum: &mut i64, n: &mut i64)
    requires
        merged.wf(),
        kind < 4,
        member matches Some(k) ==> k < merged.cells().len() && merged.has_heights(k as int),
        0 <= *old(n) < 4,
        (*old(n) as int) * (i32::MIN as int) <= *old(sum) <= (*old(n) as int) * (i32::MAX as int),
    ensures
        member is None ==> *final(sum) == *old(sum) && *final(n) == *old(n),
        member matches Some(k) ==> *final(sum) == *old(sum) + merged.height_at(k as int, corner_flat(kind as int)) && *final(n) == *old(n) + 1,
        (*final(n) as int) * (i32::MIN as int) <= *final(sum) <= (*final(n) as int) * (i32::MAX as int),
{
    if let Some(k) = member {
        let local = corner_index(kind);
        let v = merged.height_value(k, local);
        *sum = *sum + v as i64;
        *n = *n + 1;
    }
}

proof fn lemma_flat_in_range(c: Index2D)
    requires
        in_grid(c, 65),
    ensures
        0 <= flat_index(c, 65) < 65 * 65,
{
    crate::land::grid::lemma_flat_index_bounds(c, 65);
}

/// Sets the vertex at corner `kind` of `member` to `avg`, counting a repair when it changes.
fn set_member_height(merged: &mut LandmassDiff, member: Option<usize>, kind: usize, avg: i32, count: &mut usize)
    requires
        old(merged).wf(),
        kind < 4,
        member matches Some(k) ==> k < old(merged).cells().len() && old(merged).has_heights(k as int),
        member matches Some(k) ==> fits_i32(avg - old(merged).reference_height_at(k as int, corner_flat(kind as int))),
        *old(count) < usize::MAX,
    ensures
        same_shape(*old(merged), *final(merged)),
        member matches Some(k) ==> final(merged).height_at(k as int, corner_flat(kind as int)) == avg,
        forall|j: int, i: int|
            0 <= j < old(merged).cells().len() && old(merged).has_heights(j) && 0 <= i < 65 * 65 && !(member matches Some(k) && k == j && i == corner_flat(kind as int))
                ==> #[trigger] final(merged).height_at(j, i) == old(merged).height_at(j, i),
        *old(count) <= *final(count) <= *old(count) + 1,
        *final(count) == *old(count) ==> *final(merged) == *old(merged),
        (member matches Some(k) ==> old(merged).height_at(k as int, corner_flat(kind as int)) == avg) ==> *final(count) == *old(count),
        *final(count) == *old(count) + (if (member matches Some(k) && old(merged).height_at(k as int, corner_flat(kind as int)) != avg) {
            1int
        } else {
            0int
        }),
{
    if let Some(k) = member {
        let local = corner_index(kind);
        proof {
            lemma_flat_in_range(local);
        }
        let current = merged.height_value(k, local);
        if current != avg {
            merged.set_height(k, local, avg);
            *count = *count + 1;
        }
    }
    proof {
        let m0 = *old(merged);
        let m1 = *merged;
        assert forall|j: int| 0 <= j < m0.cells().len() implies LandmassDiff::same_but_heights(#[trigger] m1.cells()[j], m0.cells()[j]) by {
            if !(member matches Some(k) && k == j) {
                assert(m1.cells()[j] == m0.cells()[j]);
                assert(m0.cells()[j].height_map is Some ==> m0.cells()[j].height_map->0.reference_seq() == m0.cells()[j].height_map->0.reference_seq());
            }
        }
        assert(same_shape(m0, m1));
    }
}

/// The quotient, rounded toward zero, of `n` equal terms `v` by their number is `v`.
proof fn lemma_uniform_average(sum: int, n: int, v: int)
    requires
        1 <= n <= 4,
        n == 1 ==> sum == v,
        n == 2 ==> sum == 2 * v,
        n == 3 ==> sum == 3 * v,
        n == 4 ==> sum == 4 * v,
    ensures
        quotient_toward_zero(sum, n) == v,
{
    if n == 2 {
        if v >= 0 {
            assert((2 * v) / 2 == v);
        } else {
            assert((-(2 * v)) / 2 == -v);
        }
    } else if n == 3 {
        if v >= 0 {
            assert((3 * v) / 3 == v);
        } else {
            assert((-(3 * v)) / 3 == -v);
        }
    } else if n == 4 {
        if v >= 0 {
            assert((4 * v) / 4 == v);
        } else {
            assert((-(4 * v)) / 4 == -v);
        }
    }
}

/// Repairs the lattice point (`px`, `py`) by setting every height map vertex that meets there
/// to the average of their heights (rounded toward zero), counting every vertex that changed.
#[verifier::rlimit(40)]
fn repair_corner_point(merged: &mut LandmassDiff, px: i32, py: i32, count: &mut usize)
    requires
        old(merged).wf(),
        corner_point_fits(*old(merged), px as int, py as int),
        i32::MIN < px,
        i32::MIN < py,
        *old(count) + 4 <= usize::MAX,
    ensures
        corner_frame(*old(merged), *final(merged), px as int, py as int),
        corner_uniform(*final(merged), px as int, py as int),
        forall|k1: int, kind1: int| #[trigger] in_corner_group(*old(merged), k1, kind1, px as int, py as int)
            ==> final(merged).height_at(k1, corner_flat(kind1)) == corner_average(*old(merged), px as int, py as int),
        *old(count) <= *final(count) <= *old(count) + 4,
        *final(count) == *old(count) ==> *final(merged) == *old(merged),
        corner_uniform(*old(merged), px as int, py as int) ==> *final(count) == *old(count),
        *final(count) == *old(count) + corner_changes(*old(merged), px as int, py as int),
        forall|qx: int, qy: int| #[trigger] corner_uniform(*old(merged), qx, qy) ==> corner_uniform(*final(merged), qx, qy),
{
    let ghost m0 = *merged;
    let ghost c0 = *count;
    let m_0 = corner_member(merged, px, py, 0);
    let m_1 = corner_member(merged, px, py, 1);
    let m_2 = corner_member(merged, px, py, 2);
    let m_3 = corner_member(merged, px, py, 3);
    let mut sum: i64 = 0;
    let mut n: i64 = 0;
    add_member_height(merged, m_0, 0, &mut sum, &mut n);
    add_member_height(merged, m_1, 1, &mut sum, &mut n);
    add_member_height(merged, m_2, 2, &mut sum, &mut n);
    add_member_height(merged, m_3, 3, &mut sum, &mut n);
    if n == 0 {
        proof {
            lemma_holder_found(m0, px as int, py as int, 0, m_0);
            lemma_holder_found(m0, px as int, py as int, 1, m_1);
            lemma_holder_found(m0, px as int, py as int, 2, m_2);
            lemma_holder_found(m0, px as int, py as int, 3, m_3);
            assert forall|k1: int, kind1: int, k2: int, kind2: int|
                #[trigger] in_corner_group(m0, k1, kind1, px as int, py as int) && #[trigger] in_corner_group(m0, k2, kind2, px as int, py as int)
                    implies m0.height_at(k1, corner_flat(kind1)) == m0.height_at(k2, corner_flat(kind2)) by {
                if kind1 == 0 { assert(m_0 is Some); } else if kind1 == 1 { assert(m_1 is Some); } else if kind1 == 2 { assert(m_2 is Some); } else { assert(m_3 is Some); }
            }
            assert forall|j: int| 0 <= j < m0.cells().len() implies LandmassDiff::same_but_heights(#[trigger] m0.cells()[j], m0.cells()[j]) by {}
        }
        return;
    }
    let avg64 = div_toward_zero(sum, n);
    proof {
        assert(avg64 == corner_average(m0, px as int, py as int)) by {
            lemma_holder_found(m0, px as int, py as int, 0, m_0);
            lemma_holder_found(m0, px as int, py as int, 1, m_1);
            lemma_holder_found(m0, px as int, py as int, 2, m_2);
            lemma_holder_found(m0, px as int, py as int, 3, m_3);
        }
        lemma_average_within(sum as int, n as int, i32::MIN as int, i32::MAX as int);
        if corner_uniform(m0, px as int, py as int) {
            let v: int = if let Some(k) = m_0 {
                m0.height_at(k as int, corner_flat(0)) as int
            } else if let Some(k) = m_1 {
                m0.height_at(k as int, corner_flat(1)) as int
            } else if let Some(k) = m_2 {
                m0.height_at(k as int, corner_flat(2)) as int
            } else {
                m0.height_at(m_3->0 as int, corner_flat(3)) as int
            };
            if let Some(k) = m_0 { assert(m0.height_at(k as int, corner_flat(0)) == v); }
            if let Some(k) = m_1 { assert(m0.height_at(k as int, corner_flat(1)) == v); }
            if let Some(k) = m_2 { assert(m0.height_at(k as int, corner_flat(2)) == v); }
            if let Some(k) = m_3 { assert(m0.height_at(k as int, corner_flat(3)) == v); }
            lemma_uniform_average(sum as int, n as int, v);
        }
    }
    let avg = avg64 as i32;
    let ghost s0 = *merged;
    proof {
        lemma_corner_flats();
        if let Some(k) = m_0 {
            assert(in_corner_group(m0, k as int, 0, px as int, py as int));
        }
    }
    set_member_height(merged, m_0, 0, avg, count);
    let ghost s1 = *merged;
    let ghost c1 = *count;
    proof {
        lemma_same_shape_refs(s0, s1);
        if let Some(k) = m_1 {
            assert(in_corner_group(m0, k as int, 1, px as int, py as int));
            assert(s1.reference_height_at(k as int, corner_flat(1)) == m0.reference_height_at(k as int, corner_flat(1)));
        }
    }
    set_member_height(merged, m_1, 1, avg, count);
    let ghost s2 = *merged;
    let ghost c2 = *count;
    proof {
        lemma_same_shape_groups(s0, s1);
        lemma_same_shape_refs(s1, s2);
        if let Some(k) = m_2 {
            assert(in_corner_group(m0, k as int, 2, px as int, py as int));
            assert(s1.reference_height_at(k as int, corner_flat(2)) == m0.reference_height_at(k as int, corner_flat(2)));
            assert(s2.reference_height_at(k as int, corner_flat(2)) == m0.reference_height_at(k as int, corner_flat(2)));
        }
    }
    set_member_height(merged, m_2, 2, avg, count);
    let ghost s3 = *merged;
    let ghost c3 = *count;
    proof {
        lemma_same_shape_groups(s1, s2);
        lemma_same_shape_refs(s2, s3);
        if let Some(k) = m_3 {
            assert(in_corner_group(m0, k as int, 3, px as int, py as int));
            assert(s1.reference_height_at(k as int, corner_flat(3)) == m0.reference_height_at(k as int, corner_flat(3)));
            assert(s2.reference_height_at(k as int, corner_flat(3)) == m0.reference_height_at(k as int, corner_flat(3)));
            assert(s3.reference_height_at(k as int, corner_flat(3)) == m0.reference_height_at(k as int, corner_flat(3)));
        }
    }
    set_member_height(merged, m_3, 3, avg, count);
    let ghost s4 = *merged;
    proof {
        lemma_corner_flats();
        lemma_same_shape_groups(s0, s1);
        lemma_same_shape_groups(s1, s2);
        lemma_same_shape_groups(s2, s3);
        lemma_same_shape_groups(s3, s4);
        assert(same_shape(s0, s4)) by {
            assert forall|j: int| 0 <= j < s0.cells().len() implies LandmassDiff::same_but_heights(#[trigger] s4.cells()[j], s0.cells()[j]) by {
                assert(LandmassDiff::same_but_heights(s1.cells()[j], s0.cells()[j]));
                assert(LandmassDiff::same_but_heights(s2.cells()[j], s1.cells()[j]));
                assert(LandmassDiff::same_but_heights(s3.cells()[j], s2.cells()[j]));
                assert(LandmassDiff::same_but_heights(s4.cells()[j], s3.cells()[j]));
            }
        }
        assert forall|k: int, i: int|
            0 <= k < s0.cells().len() && s0.has_heights(k) && 0 <= i < 65 * 65 && !is_group_vertex(s0, k, i, px as int, py as int)
                implies #[trigger] s4.height_at(k, i) == s0.height_at(k, i) by {
            if let Some(k0) = m_0 { if k0 == k && i == corner_flat(0) { assert(in_corner_group(s0, k, 0, px as int, py as int)); } }
            if let Some(k1) = m_1 { if k1 == k && i == corner_flat(1) { assert(in_corner_group(s0, k, 1, px as int, py as int)); } }
            if let Some(k2) = m_2 { if k2 == k && i == corner_flat(2) { assert(in_corner_group(s0, k, 2, px as int, py as int)); } }
            if let Some(k3) = m_3 { if k3 == k && i == corner_flat(3) { assert(in_corner_group(s0, k, 3, px as int, py as int)); } }
            assert(s1.height_at(k, i) == s0.height_at(k, i));
            assert(s2.height_at(k, i) == s1.height_at(k, i));
            assert(s3.height_at(k, i) == s2.height_at(k, i));
            assert(s4.height_at(k, i) == s3.height_at(k, i));
        }
        assert(corner_frame(m0, s4, px as int, py as int));
        assert forall|k1: int, kind1: int|
            #[trigger] in_corner_group(s4, k1, kind1, px as int, py as int) implies s4.height_at(k1, corner_flat(kind1)) == avg by {
            assert(in_corner_group(s0, k1, kind1, px as int, py as int));
            if kind1 == 0 {
                let k = m_0->0;
                s0.lemma_unique(k1, k as int);
                assert(s2.height_at(k1, corner_flat(0)) == s1.height_at(k1, corner_flat(0)));
                assert(s3.height_at(k1, corner_flat(0)) == s2.height_at(k1, corner_flat(0)));
                assert(s4.height_at(k1, corner_flat(0)) == s3.height_at(k1, corner_flat(0)));
            } else if kind1 == 1 {
                let k = m_1->0;
                s0.lemma_unique(k1, k as int);
                assert(s3.height_at(k1, corner_flat(1)) == s2.height_at(k1, corner_flat(1)));
                assert(s4.height_at(k1, corner_flat(1)) == s3.height_at(k1, corner_flat(1)));
            } else if kind1 == 2 {
                let k = m_2->0;
                s0.lemma_unique(k1, k as int);
                assert(s4.height_at(k1, corner_flat(2)) == s3.height_at(k1, corner_flat(2)));
            } else {
                let k = m_3->0;
                s0.lemma_unique(k1, k as int);
            }
        }
        assert(corner_uniform(s4, px as int, py as int));
        assert forall|qx: int, qy: int| #[trigger] corner_uniform(m0, qx, qy) implies corner_uniform(s4, qx, qy) by {
            lemma_corner_frame_keeps_uniform(m0, s4, px as int, py as int, qx, qy);
        }
        if *count == c0 {
            assert(c1 == c0 && c2 == c0 && c3 == c0);
            assert(s4 == s0);
        }
        assert(*count == c0 + corner_changes(m0, px as int, py as int)) by {
            lemma_holder_found(m0, px as int, py as int, 0, m_0);
            lemma_holder_found(m0, px as int, py as int, 1, m_1);
            lemma_holder_found(m0, px as int, py as int, 2, m_2);
            lemma_holder_found(m0, px as int, py as int, 3, m_3);
            if let Some(k) = m_1 {
                assert(s1.height_at(k as int, corner_flat(1)) == s0.height_at(k as int, corner_flat(1)));
            }
            if let Some(k) = m_2 {
                assert(s1.height_at(k as int, corner_flat(2)) == s0.height_at(k as int, corner_flat(2)));
                assert(s2.height_at(k as int, corner_flat(2)) == s1.height_at(k as int, corner_flat(2)));
            }
            if let Some(k) = m_3 {
                assert(s1.height_at(k as int, corner_flat(3)) == s0.height_at(k as int, corner_flat(3)));
                assert(s2.height_at(k as int, corner_flat(3)) == s1.height_at(k as int, corner_flat(3)));
                assert(s3.height_at(k as int, corner_flat(3)) == s2.height_at(k as int, corner_flat(3)));
            }
        }
    }
}


/// The flat position `i` lies strictly inside the top side (when `top`) or the right side of
/// a height map.
pub open spec fn side_a_vertex(i: int, top: bool) -> bool {
    if top {
        4161 <= i <= 4223
    } else {
        129 <= i <= 4159 && i % 65 == 64
    }
}

/// The flat position `i` lies strictly inside the bottom side (when `top`) or the left side
/// of a height map.
pub open spec fn side_b_vertex(i: int, top: bool) -> bool {
    if top {
        1 <= i <= 63
    } else {
        65 <= i <= 4095 && i % 65 == 0
    }
}

/// The flat position of the `t`-th vertex of the shared side, seen from the lower (`top`) or
/// left record.
pub open spec fn side_a_flat(t: int, top: bool) -> int {
    if top {
        64 * 65 + t
    } else {
        t * 65 + 64
    }
}

/// The flat position of the `t`-th vertex of the shared side, seen from the upper (`top`) or
/// right record.
pub open spec fn side_b_flat(t: int, top: bool) -> int {
    if top {
        t
    } else {
        t * 65
    }
}

/// The inner vertices of a shared side lie strictly inside that side.
proof fn lemma_side_flats(t: int, top: bool)
    requires
        1 <= t <= 63,
    ensures
        side_a_vertex(side_a_flat(t, top), top),
        side_b_vertex(side_b_flat(t, top), top),
{
    if !top {
        assert((t * 65 + 64) % 65 == 64) by (nonlinear_arith)
            requires
                1 <= t <= 63,
        ;
        assert((t * 65) % 65 == 0) by (nonlinear_arith)
            requires
                1 <= t <= 63,
        ;
    }
}

/// The midpoint of two heights, rounded toward zero.
pub open spec fn midpoint(a: int, b: int) -> int {
    quotient_toward_zero(a + b, 2)
}

/// In `m1`, both vertices of the `t`-th pair of the side shared by the records at positions
/// `a` and `b` hold the midpoint of their heights in `m0`.
pub open spec fn side_mid(m0: LandmassDiff, m1: LandmassDiff, a: int, b: int, t: int, top: bool) -> bool {
    let mid = midpoint(m0.height_at(a, side_a_flat(t, top)) as int, m0.height_at(b, side_b_flat(t, top)) as int);
    &&& m1.height_at(a, side_a_flat(t, top)) == mid
    &&& m1.height_at(b, side_b_flat(t, top)) == mid
}

/// In `m1`, both vertices of the `t`-th pair of the side shared by the records at positions
/// `a` and `b` keep their heights in `m0`.
pub open spec fn side_kept(m0: LandmassDiff, m1: LandmassDiff, a: int, b: int, t: int, top: bool) -> bool {
    &&& m1.height_at(a, side_a_flat(t, top)) == m0.height_at(a, side_a_flat(t, top))
    &&& m1.height_at(b, side_b_flat(t, top)) == m0.height_at(b, side_b_flat(t, top))
}

/// `m1` differs from `m0` only inside the side shared by the records at positions `ka`
/// and `kb`.
pub open spec fn side_frame(m0: LandmassDiff, m1: LandmassDiff, ka: int, kb: int, top: bool) -> bool {
    &&& same_shape(m0, m1)
    &&& forall|k: int, i: int|
        0 <= k < m0.cells().len() && m0.has_heights(k) && 0 <= i < 65 * 65
            && !(k == ka && side_a_vertex(i, top)) && !(k == kb && side_b_vertex(i, top))
            ==> #[trigger] m1.height_at(k, i) == m0.height_at(k, i)
}

/// Repairs one vertex pair of the side shared by two records by setting both to the midpoint
/// of their heights (rounded toward zero). Returns the larger of the two height changes.
fn try_repair_seam(merged: &mut LandmassDiff, ka: usize, kb: usize, t: usize, top: bool) -> (delta: usize)
    requires
        old(merged).wf(),
        side_pair_fits(*old(merged), ka as int, kb as int, t as int, top),
        ka < old(merged).cells().len(),
        kb < old(merged).cells().len(),
        ka != kb,
        old(merged).has_heights(ka as int),
        old(merged).has_heights(kb as int),
        t < 65,
        (t == 0 || t == 64) ==> old(merged).height_at(ka as int, side_a_flat(t as int, top)) == old(merged).height_at(kb as int, side_b_flat(t as int, top)),
    ensures
        side_frame(*old(merged), *final(merged), ka as int, kb as int, top),
        final(merged).height_at(ka as int, side_a_flat(t as int, top)) == final(merged).height_at(kb as int, side_b_flat(t as int, top)),
        side_mid(*old(merged), *final(merged), ka as int, kb as int, t as int, top),
        forall|k: int, i: int|
            0 <= k < old(merged).cells().len() && old(merged).has_heights(k) && 0 <= i < 65 * 65
                && !(k == ka && i == side_a_flat(t as int, top)) && !(k == kb && i == side_b_flat(t as int, top))
                ==> #[trigger] final(merged).height_at(k, i) == old(merged).height_at(k, i),
        (delta > 0) == (old(merged).height_at(ka as int, side_a_flat(t as int, top)) != old(merged).height_at(kb as int, side_b_flat(t as int, top))),
        delta == 0 ==> *final(merged) == *old(merged),
{
    let lhs_coord = if top {
        Index2D::new(t, 64)
    } else {
        Index2D::new(64, t)
    };
    let rhs_coord = if top {
        Index2D::new(t, 0)
    } else {
        Index2D::new(0, t)
    };
    proof {
        assert(flat_index(lhs_coord, 65) == side_a_flat(t as int, top));
        assert(flat_index(rhs_coord, 65) == side_b_flat(t as int, top));
        lemma_flat_in_range(lhs_coord);
        lemma_flat_in_range(rhs_coord);
    }
    let ghost m0 = *merged;
    let lhs_value = merged.height_value(ka, lhs_coord);
    let rhs_value = merged.height_value(kb, rhs_coord);
    if lhs_value == rhs_value {
        proof {
            assert forall|j: int| 0 <= j < m0.cells().len() implies LandmassDiff::same_but_heights(#[trigger] m0.cells()[j], m0.cells()[j]) by {}
            lemma_uniform_average(lhs_value + rhs_value, 2, lhs_value as int);
        }
        return 0;
    }
    proof {
        assert(1 <= t <= 63);
    }
    let sum = lhs_value as i64 + rhs_value as i64;
    proof {
        lemma_average_within(sum as int, 2, i32::MIN as int, i32::MAX as int);
    }
    let average = if sum >= 0 {
        (sum / 2) as i32
    } else {
        (-((-sum) / 2)) as i32
    };
    proof {
        assert(average == midpoint(lhs_value as int, rhs_value as int));
    }
    let lhs_diff = if average >= lhs_value {
        average - lhs_value
    } else {
        lhs_value - average
    };
    let rhs_diff = if average >= rhs_value {
        average - rhs_value
    } else {
        rhs_value - average
    };
    merged.set_height(ka, lhs_coord, average);
    let ghost m1 = *merged;
    proof {
        assert(m1.reference_height_at(kb as int, flat_index(rhs_coord, 65)) == m0.reference_height_at(kb as int, flat_index(rhs_coord, 65))) by {
            assert(m1.cells()[kb as int] == m0.cells()[kb as int]);
        }
    }
    merged.set_height(kb, rhs_coord, average);
    let ghost m2 = *merged;
    proof {
        assert forall|j: int| 0 <= j < m0.cells().len() implies LandmassDiff::same_but_heights(#[trigger] m2.cells()[j], m0.cells()[j]) by {
            if j != ka && j != kb {
                assert(m2.cells()[j] == m0.cells()[j]);
            } else if j == ka {
                assert(m2.cells()[j] == m1.cells()[j]);
                assert(LandmassDiff::same_but_heights(m1.cells()[j], m0.cells()[j]));
            } else {
                assert(m1.cells()[j] == m0.cells()[j]);
                assert(LandmassDiff::same_but_heights(m2.cells()[j], m1.cells()[j]));
            }
        }
        assert(same_shape(m0, m2));
        assert forall|k: int, i: int|
            0 <= k < m0.cells().len() && m0.has_heights(k) && 0 <= i < 65 * 65
                && !(k == ka && i == side_a_flat(t as int, top)) && !(k == kb && i == side_b_flat(t as int, top))
                implies #[trigger] m2.height_at(k, i) == m0.height_at(k, i) by {
            if k == ka {
                assert(m2.cells()[k] == m1.cells()[k]);
                assert(i != flat_index(lhs_coord, 65));
                assert(m1.height_at(ka as int, i) == m0.height_at(ka as int, i));
            } else if k == kb {
                assert(m1.cells()[k] == m0.cells()[k]);
                assert(i != flat_index(rhs_coord, 65));
                assert(m2.height_at(kb as int, i) == m1.height_at(kb as int, i));
            } else {
                assert(m2.cells()[k] == m0.cells()[k]);
            }
        }
        assert forall|k: int, i: int|
            0 <= k < m0.cells().len() && m0.has_heights(k) && 0 <= i < 65 * 65
                && !(k == ka && side_a_vertex(i, top)) && !(k == kb && side_b_vertex(i, top))
                implies #[trigger] m2.height_at(k, i) == m0.height_at(k, i) by {
            lemma_side_flats(t as int, top);
            assert(!(k == ka && i == side_a_flat(t as int, top)));
            assert(!(k == kb && i == side_b_flat(t as int, top)));
            if k == ka {
                assert(m2.cells()[k] == m1.cells()[k]);
            } else if k == kb {
                assert(m1.cells()[k] == m0.cells()[k]);
            } else {
                assert(m2.cells()[k] == m0.cells()[k]);
            }
        }
    }
    let delta = if lhs_diff >= rhs_diff {
        lhs_diff
    } else {
        rhs_diff
    };
    delta as usize
}


/// The `t`-th vertex pair of the side shared by the records at positions `ka` and `kb` has
/// the same height on both records.
pub open spec fn side_pair_closed(m: LandmassDiff, ka: int, kb: int, t: int, top: bool) -> bool {
    m.height_at(ka, side_a_flat(t, top)) == m.height_at(kb, side_b_flat(t, top))
}

/// The number of vertex pairs, from the second up to the `t`-th (excluded), of the side
/// shared by the records at positions `ka` and `kb` whose heights differ.
pub open spec fn inner_diffs(m: LandmassDiff, ka: int, kb: int, top: bool, t: int) -> int
    decreases t,
{
    if t <= 1 {
        0
    } else {
        inner_diffs(m, ka, kb, top, t - 1) + if side_pair_closed(m, ka, kb, t - 1, top) {
            0int
        } else {
            1int
        }
    }
}

/// Two landmasses with the same differing vertex pairs along a side count the same.
proof fn lemma_inner_diffs_same(m0: LandmassDiff, m1: LandmassDiff, ka: int, kb: int, top: bool, t: int)
    requires
        forall|u: int| 1 <= u < t ==> #[trigger] side_pair_closed(m0, ka, kb, u, top) == side_pair_closed(m1, ka, kb, u, top),
    ensures
        inner_diffs(m0, ka, kb, top, t) == inner_diffs(m1, ka, kb, top, t),
    decreases t,
{
    if t > 1 {
        lemma_inner_diffs_same(m0, m1, ka, kb, top, t - 1);
        assert(side_pair_closed(m0, ka, kb, t - 1, top) == side_pair_closed(m1, ka, kb, t - 1, top));
    }
}

/// Repairs the side shared by the records at positions `ka` and `kb`: the top side of `ka`
/// when `top`, its right side otherwise. Counts every vertex pair that had to change.
fn repair_side(merged: &mut LandmassDiff, ka: usize, kb: usize, top: bool, count: &mut usize)
    requires
        old(merged).wf(),
        forall|t: int| 1 <= t <= 63 ==> #[trigger] side_pair_fits(*old(merged), ka as int, kb as int, t, top),
        ka < old(merged).cells().len(),
        kb < old(merged).cells().len(),
        ka != kb,
        old(merged).has_heights(ka as int),
        old(merged).has_heights(kb as int),
        side_pair_closed(*old(merged), ka as int, kb as int, 0, top),
        side_pair_closed(*old(merged), ka as int, kb as int, 64, top),
        *old(count) + 65 <= usize::MAX,
    ensures
        side_frame(*old(merged), *final(merged), ka as int, kb as int, top),
        forall|t: int| 0 <= t < 65 ==> #[trigger] side_pair_closed(*final(merged), ka as int, kb as int, t, top),
        forall|t: int| 1 <= t <= 63 ==> #[trigger] side_mid(*old(merged), *final(merged), ka as int, kb as int, t, top),
        *old(count) <= *final(count) <= *old(count) + 65,
        *final(count) == *old(count) ==> *final(merged) == *old(merged),
        (forall|t: int| 0 <= t < 65 ==> #[trigger] side_pair_closed(*old(merged), ka as int, kb as int, t, top))
            ==> *final(count) == *old(count),
        *final(count) == *old(count) + inner_diffs(*old(merged), ka as int, kb as int, top, 64),
{
    let ghost m0 = *merged;
    let ghost count0 = *count;
    proof {
        assert forall|j: int| 0 <= j < m0.cells().len() implies LandmassDiff::same_but_heights(#[trigger] m0.cells()[j], m0.cells()[j]) by {}
    }
    let mut t: usize = 0;
    while t < 65
        invariant
            0 <= t <= 65,
            m0.wf(),
            ka < m0.cells().len(),
            kb < m0.cells().len(),
            ka != kb,
            m0.has_heights(ka as int),
            m0.has_heights(kb as int),
            merged.wf(),
            forall|u: int| 1 <= u <= 63 ==> #[trigger] side_pair_fits(m0, ka as int, kb as int, u, top),
            side_frame(m0, *merged, ka as int, kb as int, top),
            side_pair_closed(*merged, ka as int, kb as int, 0, top),
            side_pair_closed(*merged, ka as int, kb as int, 64, top),
            forall|u: int| 0 <= u < t ==> #[trigger] side_pair_closed(*merged, ka as int, kb as int, u, top),
            forall|u: int| 1 <= u < t && u <= 63 ==> #[trigger] side_mid(m0, *merged, ka as int, kb as int, u, top),
            forall|u: int| t <= u < 65 ==> #[trigger] side_kept(m0, *merged, ka as int, kb as int, u, top),
            count0 <= *count <= count0 + t,
            count0 + 65 <= usize::MAX,
            *count == count0 ==> *merged == m0,
            (forall|u: int| 0 <= u < 65 ==> #[trigger] side_pair_closed(m0, ka as int, kb as int, u, top))
                ==> *count == count0,
            *count == count0 + inner_diffs(m0, ka as int, kb as int, top, if t <= 64 { t as int } else { 64 }),
        decreases 65 - t,
    {
        let ghost before = *merged;
        proof {
            lemma_same_shape_groups(m0, before);
        }
        proof {
            if (forall|u: int| 0 <= u < 65 ==> #[trigger] side_pair_closed(m0, ka as int, kb as int, u, top)) {
                assert(side_pair_closed(m0, ka as int, kb as int, t as int, top));
            }
            if 1 <= t <= 63 {
                assert(side_pair_fits(m0, ka as int, kb as int, t as int, top));
                assert(side_kept(m0, before, ka as int, kb as int, t as int, top));
                lemma_side_fits_kept(m0, before, ka as int, kb as int, t as int, top);
            } else if t == 0 {
                assert(side_pair_closed(before, ka as int, kb as int, 0, top));
            } else {
                assert(side_pair_closed(before, ka as int, kb as int, 64, top));
            }
        }
        let delta = try_repair_seam(merged, ka, kb, t, top);
        if delta > 0 {
            *count = *count + 1;
        }
        proof {
            let after = *merged;
            assert(side_kept(m0, before, ka as int, kb as int, t as int, top));
            if t == 0 {
                assert(side_pair_closed(m0, ka as int, kb as int, 0, top));
            } else if t == 64 {
                assert(side_pair_closed(m0, ka as int, kb as int, 64, top));
            }
            lemma_same_shape_groups(before, after);
            assert forall|j: int| 0 <= j < m0.cells().len() implies LandmassDiff::same_but_heights(#[trigger] after.cells()[j], m0.cells()[j]) by {
                assert(LandmassDiff::same_but_heights(after.cells()[j], before.cells()[j]));
                assert(LandmassDiff::same_but_heights(before.cells()[j], m0.cells()[j]));
            }
            assert(same_shape(m0, after));
            assert forall|k: int, i: int|
                0 <= k < m0.cells().len() && m0.has_heights(k) && 0 <= i < 65 * 65
                    && !(k == ka && side_a_vertex(i, top)) && !(k == kb && side_b_vertex(i, top))
                    implies #[trigger] after.height_at(k, i) == m0.height_at(k, i) by {
                assert(after.height_at(k, i) == before.height_at(k, i));
            }
            assert(side_kept(m0, before, ka as int, kb as int, t as int, top));
            assert forall|u: int| 1 <= u < t + 1 && u <= 63 implies #[trigger] side_mid(m0, after, ka as int, kb as int, u, top) by {
                if u < t {
                    assert(side_mid(m0, before, ka as int, kb as int, u, top));
                    assert(after.height_at(ka as int, side_a_flat(u, top)) == before.height_at(ka as int, side_a_flat(u, top)));
                    assert(after.height_at(kb as int, side_b_flat(u, top)) == before.height_at(kb as int, side_b_flat(u, top)));
                }
            }
            assert forall|u: int| t + 1 <= u < 65 implies #[trigger] side_kept(m0, after, ka as int, kb as int, u, top) by {
                assert(side_kept(m0, before, ka as int, kb as int, u, top));
                assert(after.height_at(ka as int, side_a_flat(u, top)) == before.height_at(ka as int, side_a_flat(u, top)));
                assert(after.height_at(kb as int, side_b_flat(u, top)) == before.height_at(kb as int, side_b_flat(u, top)));
            }
            assert forall|u: int| 0 <= u < t + 1 implies #[trigger] side_pair_closed(after, ka as int, kb as int, u, top) by {
                if u < t {
                    assert(side_pair_closed(before, ka as int, kb as int, u, top));
                    assert(after.height_at(ka as int, side_a_flat(u, top)) == before.height_at(ka as int, side_a_flat(u, top)));
                    assert(after.height_at(kb as int, side_b_flat(u, top)) == before.height_at(kb as int, side_b_flat(u, top)));
                }
            }
            assert(after.height_at(ka as int, side_a_flat(0, top)) == before.height_at(ka as int, side_a_flat(0, top)) || t == 0);
            assert(after.height_at(ka as int, side_a_flat(64, top)) == before.height_at(ka as int, side_a_flat(64, top)) || t == 64);
            assert(after.height_at(kb as int, side_b_flat(0, top)) == before.height_at(kb as int, side_b_flat(0, top)) || t == 0);
            assert(after.height_at(kb as int, side_b_flat(64, top)) == before.height_at(kb as int, side_b_flat(64, top)) || t == 64);
        }
        t += 1;
    }
}


/// Flat position `i` is a corner of a height map.
pub open spec fn is_corner_flat(i: int) -> bool {
    i == 0 || i == 64 || i == 4160 || i == 4224
}

/// Flat position `i` lies on the border of a height map.
pub open spec fn on_border(i: int) -> bool {
    i < 65 || i >= 4160 || i % 65 == 0 || i % 65 == 64
}

/// `m1` differs from `m0` only in heights at the corners of height maps.
pub open spec fn only_corners_changed(m0: LandmassDiff, m1: LandmassDiff) -> bool {
    &&& same_shape(m0, m1)
    &&& forall|k: int, i: int|
        0 <= k < m0.cells().len() && m0.has_heights(k) && 0 <= i < 65 * 65 && !is_corner_flat(i)
            ==> #[trigger] m1.height_at(k, i) == m0.height_at(k, i)
}

/// `m1` differs from `m0` only in heights on the sides of height maps, away from their corners.
pub open spec fn only_sides_changed(m0: LandmassDiff, m1: LandmassDiff) -> bool {
    &&& same_shape(m0, m1)
    &&& forall|k: int, i: int|
        0 <= k < m0.cells().len() && m0.has_heights(k) && 0 <= i < 65 * 65 && (is_corner_flat(i) || !on_border(i))
            ==> #[trigger] m1.height_at(k, i) == m0.height_at(k, i)
}

proof fn lemma_same_shape_refl(m: LandmassDiff)
    requires
        m.wf(),
    ensures
        same_shape(m, m),
{
    assert forall|j: int| 0 <= j < m.cells().len() implies LandmassDiff::same_but_heights(#[trigger] m.cells()[j], m.cells()[j]) by {}
}

/// Landmasses of the same shape have the same reference heights.
proof fn lemma_same_shape_refs(m0: LandmassDiff, m1: LandmassDiff)
    requires
        same_shape(m0, m1),
    ensures
        forall|k: int, i: int|
            0 <= k < m0.cells().len() && m0.has_heights(k) && 0 <= i < 65 * 65
                ==> #[trigger] m1.reference_height_at(k, i) == m0.reference_height_at(k, i),
{
    assert forall|k: int, i: int|
        0 <= k < m0.cells().len() && m0.has_heights(k) && 0 <= i < 65 * 65
            implies #[trigger] m1.reference_height_at(k, i) == m0.reference_height_at(k, i) by {
        assert(LandmassDiff::same_but_heights(m1.cells()[k], m0.cells()[k]));
        assert(m1.cells()[k].height_map->0.reference_seq()[i] == m0.cells()[k].height_map->0.reference_seq()[i]);
        assert(m1.cells()[k].height_map->0.reference_seq()[i] == m1.reference_height_at(k, i));
        assert(m0.cells()[k].height_map->0.reference_seq()[i] == m0.reference_height_at(k, i));
    }
}

/// A height minus its reference height is a value of `i32`: the height map holds exactly that
/// difference.
proof fn lemma_height_fits(m: LandmassDiff, k: int, i: int)
    requires
        m.wf(),
        0 <= k < m.cells().len(),
        m.has_heights(k),
        0 <= i < 65 * 65,
    ensures
        fits_i32(m.height_at(k, i) - m.reference_height_at(k, i)),
{
    assert(m.cells()[k].wf());
    let h = m.cells()[k].height_map->0;
    assert(h.wf());
    h.lemma_wf();
    assert(h.reference_at(i) == m.reference_height_at(k, i));
}

/// A uniform lattice point can hold its average, which is the common height of its vertices.
proof fn lemma_uniform_point_fits(m: LandmassDiff, px: int, py: int)
    requires
        m.wf(),
        corner_uniform(m, px, py),
    ensures
        corner_point_fits(m, px, py),
{
    assert forall|k: int, kind: int| #[trigger] in_corner_group(m, k, kind, px, py)
        implies fits_i32(corner_average(m, px, py) - m.reference_height_at(k, corner_flat(kind))) by {
        let v = m.height_at(k, corner_flat(kind)) as int;
        lemma_corner_flats();
        lemma_holder_in_group(m, px, py, 0);
        lemma_holder_in_group(m, px, py, 1);
        lemma_holder_in_group(m, px, py, 2);
        lemma_holder_in_group(m, px, py, 3);
        assert(corner_holder(m, px, py, kind) is Some) by {
            reveal(corner_holder);
        }
        if let Some(j) = corner_holder(m, px, py, 0) {
            assert(m.height_at(j, corner_flat(0)) == v);
        }
        if let Some(j) = corner_holder(m, px, py, 1) {
            assert(m.height_at(j, corner_flat(1)) == v);
        }
        if let Some(j) = corner_holder(m, px, py, 2) {
            assert(m.height_at(j, corner_flat(2)) == v);
        }
        if let Some(j) = corner_holder(m, px, py, 3) {
            assert(m.height_at(j, corner_flat(3)) == v);
        }
        assert(corner_count(m, px, py) >= 1);
        lemma_uniform_average(corner_sum(m, px, py), corner_count(m, px, py), v);
        lemma_height_fits(m, k, corner_flat(kind));
    }
}

/// A seamless landmass is repairable: every lattice point is uniform and every shared side
/// has equal heights on both records, so the repair writes back the heights it finds.
pub proof fn lemma_seamless_repairable(m: LandmassDiff)
    requires
        m.wf(),
        seamless(m),
    ensures
        seams_repairable(m),
{
    assert forall|px: int, py: int| #[trigger] corner_point_fits(m, px, py) by {
        assert forall|k: int, kind: int| #[trigger] in_corner_group(m, k, kind, px, py)
            implies fits_i32(corner_average(m, px, py) - m.reference_height_at(k, corner_flat(kind))) by {
            assert(cell_corners_uniform(m, k));
            assert(corner_uniform(m, px, py));
            lemma_uniform_point_fits(m, px, py);
        }
    }
    assert forall|a: int, b: int, t: int| top_neighbors(m, a, b) && 1 <= t <= 63
        implies #[trigger] side_pair_fits(m, a, b, t, true) by {
        assert(top_seam_closed(m, a, b));
        assert(m.height_at(a, 64 * 65 + t) == m.height_at(b, t));
    }
    assert forall|a: int, b: int, t: int| right_neighbors(m, a, b) && 1 <= t <= 63
        implies #[trigger] side_pair_fits(m, a, b, t, false) by {
        assert(right_seam_closed(m, a, b));
        assert(m.height_at(a, t * 65 + 64) == m.height_at(b, t * 65));
    }
}

/// A lattice point that is untouched or settled since `m0` can hold its average as it could
/// in `m0`.
proof fn lemma_point_fits_kept(m0: LandmassDiff, m: LandmassDiff, px: int, py: int)
    requires
        m0.wf(),
        same_shape(m0, m),
        corner_untouched(m0, m, px, py) || corner_settled(m0, m, px, py),
        corner_point_fits(m0, px, py),
    ensures
        corner_point_fits(m, px, py),
{
    lemma_average_kept(m0, m, px, py);
    lemma_same_shape_groups(m0, m);
    lemma_same_shape_refs(m0, m);
    lemma_corner_flats();
    assert forall|k: int, kind: int| #[trigger] in_corner_group(m, k, kind, px, py)
        implies fits_i32(corner_average(m, px, py) - m.reference_height_at(k, corner_flat(kind))) by {
        assert(in_corner_group(m0, k, kind, px, py));
        assert(m.reference_height_at(k, corner_flat(kind)) == m0.reference_height_at(k, corner_flat(kind)));
    }
}

/// A vertex pair whose heights are kept since `m0` fits as it did in `m0`.
proof fn lemma_side_fits_kept(m0: LandmassDiff, m1: LandmassDiff, a: int, b: int, t: int, top: bool)
    requires
        same_shape(m0, m1),
        0 <= a < m0.cells().len(),
        0 <= b < m0.cells().len(),
        m0.has_heights(a),
        m0.has_heights(b),
        0 <= t < 65,
        side_kept(m0, m1, a, b, t, top),
        side_pair_fits(m0, a, b, t, top),
    ensures
        side_pair_fits(m1, a, b, t, top),
{
    lemma_same_shape_refs(m0, m1);
    assert(m1.reference_height_at(a, side_a_flat(t, top)) == m0.reference_height_at(a, side_a_flat(t, top)));
    assert(m1.reference_height_at(b, side_b_flat(t, top)) == m0.reference_height_at(b, side_b_flat(t, top)));
}

proof fn lemma_same_shape_trans(m0: LandmassDiff, m1: LandmassDiff, m2: LandmassDiff)
    requires
        same_shape(m0, m1),
        same_shape(m1, m2),
    ensures
        same_shape(m0, m2),
{
    assert forall|j: int| 0 <= j < m0.cells().len() implies LandmassDiff::same_but_heights(#[trigger] m2.cells()[j], m0.cells()[j]) by {
        assert(LandmassDiff::same_but_heights(m1.cells()[j], m0.cells()[j]));
        assert(LandmassDiff::same_but_heights(m2.cells()[j], m1.cells()[j]));
    }
}

proof fn lemma_corner_frame_only_corners(m0: LandmassDiff, m1: LandmassDiff, px: int, py: int)
    requires
        corner_frame(m0, m1, px, py),
    ensures
        only_corners_changed(m0, m1),
{
    lemma_corner_flats();
    assert forall|k: int, i: int|
        0 <= k < m0.cells().len() && m0.has_heights(k) && 0 <= i < 65 * 65 && !is_corner_flat(i)
            implies #[trigger] m1.height_at(k, i) == m0.height_at(k, i) by {
        assert(!is_group_vertex(m0, k, i, px, py));
    }
}

proof fn lemma_only_corners_trans(m0: LandmassDiff, m1: LandmassDiff, m2: LandmassDiff)
    requires
        only_corners_changed(m0, m1),
        only_corners_changed(m1, m2),
    ensures
        only_corners_changed(m0, m2),
{
    lemma_same_shape_trans(m0, m1, m2);
    lemma_same_shape_groups(m0, m1);
    assert forall|k: int, i: int|
        0 <= k < m0.cells().len() && m0.has_heights(k) && 0 <= i < 65 * 65 && !is_corner_flat(i)
            implies #[trigger] m2.height_at(k, i) == m0.height_at(k, i) by {
        assert(m1.height_at(k, i) == m0.height_at(k, i));
        assert(m2.height_at(k, i) == m1.height_at(k, i));
    }
}

proof fn lemma_side_frame_only_sides(m0: LandmassDiff, m1: LandmassDiff, ka: int, kb: int, top: bool)
    requires
        side_frame(m0, m1, ka, kb, top),
    ensures
        only_sides_changed(m0, m1),
{
}

proof fn lemma_only_sides_trans(m0: LandmassDiff, m1: LandmassDiff, m2: LandmassDiff)
    requires
        only_sides_changed(m0, m1),
        only_sides_changed(m1, m2),
    ensures
        only_sides_changed(m0, m2),
{
    lemma_same_shape_trans(m0, m1, m2);
    lemma_same_shape_groups(m0, m1);
    assert forall|k: int, i: int|
        0 <= k < m0.cells().len() && m0.has_heights(k) && 0 <= i < 65 * 65 && (is_corner_flat(i) || !on_border(i))
            implies #[trigger] m2.height_at(k, i) == m0.height_at(k, i) by {
        assert(m1.height_at(k, i) == m0.height_at(k, i));
        assert(m2.height_at(k, i) == m1.height_at(k, i));
    }
}

/// Changing only side heights keeps every lattice point where corners meet uniform.
proof fn lemma_sides_keep_corners_uniform(m0: LandmassDiff, m1: LandmassDiff)
    requires
        all_corners_uniform(m0),
        only_sides_changed(m0, m1),
    ensures
        all_corners_uniform(m1),
{
    lemma_corner_flats();
    lemma_same_shape_groups(m0, m1);
    assert(corners_kept(m0, m1));
    assert forall|k: int| 0 <= k < m1.cells().len() implies #[trigger] cell_corners_uniform(m1, k) by {
        assert(cell_corners_uniform(m0, k));
        let c = m0.cells()[k].coords;
        lemma_corners_kept_uniform(m0, m1, c.x as int, c.y as int);
        lemma_corners_kept_uniform(m0, m1, c.x + 1, c.y as int);
        lemma_corners_kept_uniform(m0, m1, c.x as int, c.y + 1);
        lemma_corners_kept_uniform(m0, m1, c.x + 1, c.y + 1);
    }
}

proof fn lemma_mod65(y: int)
    requires
        0 <= y < 65,
    ensures
        (y * 65) % 65 == 0,
        (y * 65 + 64) % 65 == 64,
        y * 65 + 64 < 4160 || y == 64,
        y * 65 < 4161 || y == 64,
{
    assert((y * 65) % 65 == 0) by (nonlinear_arith)
        requires
            0 <= y < 65,
    ;
    assert((y * 65 + 64) % 65 == 64) by (nonlinear_arith)
        requires
            0 <= y < 65,
    ;
}

/// Repairing the side shared by the records at positions `ka` and `kb` keeps every other
/// closed seam closed.
proof fn lemma_side_frame_keeps_seams(m0: LandmassDiff, m1: LandmassDiff, ka: int, kb: int, top: bool)
    requires
        m0.wf(),
        side_frame(m0, m1, ka, kb, top),
        top ==> top_neighbors(m0, ka, kb),
        !top ==> right_neighbors(m0, ka, kb),
    ensures
        forall|a: int, b: int|
            #[trigger] top_neighbors(m0, a, b) && top_seam_closed(m0, a, b) && !(top && a == ka) ==> top_seam_closed(m1, a, b),
        forall|a: int, b: int|
            #[trigger] right_neighbors(m0, a, b) && right_seam_closed(m0, a, b) && !(!top && a == ka) ==> right_seam_closed(m1, a, b),
{
    assert forall|a: int, b: int|
        #[trigger] top_neighbors(m0, a, b) && top_seam_closed(m0, a, b) && !(top && a == ka) implies top_seam_closed(m1, a, b) by {
        assert forall|x: int| 0 <= x < 65 implies #[trigger] m1.height_at(a, 64 * 65 + x) == m1.height_at(b, x) by {
            assert(m0.height_at(a, 64 * 65 + x) == m0.height_at(b, x));
            if top && b == kb && 1 <= x <= 63 {
                m0.lemma_unique(a, ka);
            }
            assert(m1.height_at(a, 64 * 65 + x) == m0.height_at(a, 64 * 65 + x));
            assert(m1.height_at(b, x) == m0.height_at(b, x));
        }
    }
    assert forall|a: int, b: int|
        #[trigger] right_neighbors(m0, a, b) && right_seam_closed(m0, a, b) && !(!top && a == ka) implies right_seam_closed(m1, a, b) by {
        assert forall|y: int| 0 <= y < 65 implies #[trigger] m1.height_at(a, y * 65 + 64) == m1.height_at(b, y * 65) by {
            lemma_mod65(y);
            assert(m0.height_at(a, y * 65 + 64) == m0.height_at(b, y * 65));
            if !top && b == kb && 1 <= y <= 63 {
                m0.lemma_unique(a, ka);
            }
            assert(m1.height_at(a, y * 65 + 64) == m0.height_at(a, y * 65 + 64));
            assert(m1.height_at(b, y * 65) == m0.height_at(b, y * 65));
        }
    }
}

/// Flat position `i` of the record at position `k` lies strictly inside a side that the
/// record shares with a neighbor that has a height map.
pub open spec fn on_shared_side(m: LandmassDiff, k: int, i: int) -> bool {
    ||| (side_a_vertex(i, true) && exists|b: int| #[trigger] top_neighbors(m, k, b))
    ||| (side_b_vertex(i, true) && exists|a: int| #[trigger] top_neighbors(m, a, k))
    ||| (side_a_vertex(i, false) && exists|b: int| #[trigger] right_neighbors(m, k, b))
    ||| (side_b_vertex(i, false) && exists|a: int| #[trigger] right_neighbors(m, a, k))
}

/// Which sides are shared does not depend on heights.
proof fn lemma_shared_side_same_shape(m0: LandmassDiff, m1: LandmassDiff)
    requires
        same_shape(m0, m1),
    ensures
        forall|j: int, i: int| #[trigger] on_shared_side(m1, j, i) == on_shared_side(m0, j, i),
{
    lemma_same_shape_groups(m0, m1);
    assert forall|a: int, b: int| #[trigger] top_neighbors(m1, a, b) == top_neighbors(m0, a, b) by {}
    assert forall|a: int, b: int| #[trigger] right_neighbors(m1, a, b) == right_neighbors(m0, a, b) by {}
    assert forall|j: int, i: int| #[trigger] on_shared_side(m1, j, i) == on_shared_side(m0, j, i) by {
        assert((exists|b: int| #[trigger] top_neighbors(m1, j, b)) == (exists|b: int| #[trigger] top_neighbors(m0, j, b))) by {
            if exists|b: int| #[trigger] top_neighbors(m1, j, b) {
                let b = choose|b: int| #[trigger] top_neighbors(m1, j, b);
                assert(top_neighbors(m0, j, b));
            }
            if exists|b: int| #[trigger] top_neighbors(m0, j, b) {
                let b = choose|b: int| #[trigger] top_neighbors(m0, j, b);
                assert(top_neighbors(m1, j, b));
            }
        }
        assert((exists|a: int| #[trigger] top_neighbors(m1, a, j)) == (exists|a: int| #[trigger] top_neighbors(m0, a, j))) by {
            if exists|a: int| #[trigger] top_neighbors(m1, a, j) {
                let a = choose|a: int| #[trigger] top_neighbors(m1, a, j);
                assert(top_neighbors(m0, a, j));
            }
            if exists|a: int| #[trigger] top_neighbors(m0, a, j) {
                let a = choose|a: int| #[trigger] top_neighbors(m0, a, j);
                assert(top_neighbors(m1, a, j));
            }
        }
        assert((exists|b: int| #[trigger] right_neighbors(m1, j, b)) == (exists|b: int| #[trigger] right_neighbors(m0, j, b))) by {
            if exists|b: int| #[trigger] right_neighbors(m1, j, b) {
                let b = choose|b: int| #[trigger] right_neighbors(m1, j, b);
                assert(right_neighbors(m0, j, b));
            }
            if exists|b: int| #[trigger] right_neighbors(m0, j, b) {
                let b = choose|b: int| #[trigger] right_neighbors(m0, j, b);
                assert(right_neighbors(m1, j, b));
            }
        }
        assert((exists|a: int| #[trigger] right_neighbors(m1, a, j)) == (exists|a: int| #[trigger] right_neighbors(m0, a, j))) by {
            if exists|a: int| #[trigger] right_neighbors(m1, a, j) {
                let a = choose|a: int| #[trigger] right_neighbors(m1, a, j);
                assert(right_neighbors(m0, a, j));
            }
            if exists|a: int| #[trigger] right_neighbors(m0, a, j) {
                let a = choose|a: int| #[trigger] right_neighbors(m0, a, j);
                assert(right_neighbors(m1, a, j));
            }
        }
    }
}

/// Repairing the side shared by the records at positions `ka` and `kb` keeps the inner vertex
/// pairs of every other shared side.
proof fn lemma_pair_kept(m0: LandmassDiff, m1: LandmassDiff, ka: int, kb: int, top: bool, a: int, b: int, top2: bool, t: int)
    requires
        m0.wf(),
        side_frame(m0, m1, ka, kb, top),
        top ==> top_neighbors(m0, ka, kb),
        !top ==> right_neighbors(m0, ka, kb),
        top2 ==> top_neighbors(m0, a, b),
        !top2 ==> right_neighbors(m0, a, b),
        !(a == ka && top2 == top),
        1 <= t <= 63,
    ensures
        side_kept(m0, m1, a, b, t, top2),
{
    lemma_mod65(t);
    if top2 == top && b == kb {
        m0.lemma_unique(a, ka);
    }
    assert(!(a == ka && side_a_vertex(side_a_flat(t, top2), top)));
    assert(!(a == kb && side_b_vertex(side_a_flat(t, top2), top)));
    assert(!(b == ka && side_a_vertex(side_b_flat(t, top2), top)));
    assert(!(b == kb && side_b_vertex(side_b_flat(t, top2), top)));
}

/// The lattice point (`px`, `py`) is at corner `kind` of the record at position `j`.
pub open spec fn is_cell_corner(m: LandmassDiff, j: int, kind: int, px: int, py: int) -> bool {
    &&& 0 <= kind < 4
    &&& m.cells()[j].coords.x + corner_dx(kind) == px
    &&& m.cells()[j].coords.y + corner_dy(kind) == py
}

/// The lattice point (`px`, `py`) is at a corner of some record before position `k`.
pub open spec fn lattice_seen(m: LandmassDiff, k: int, px: int, py: int) -> bool {
    exists|j: int, kind: int| 0 <= j < k && #[trigger] is_cell_corner(m, j, kind, px, py)
}

/// The vertices to change at the lattice point at corner `kind` of the record at position
/// `k`, counted there only when no record before it has that lattice point at a corner.
pub open spec fn corner_first_changes(m: LandmassDiff, k: int, kind: int) -> int {
    let px = m.cells()[k].coords.x + corner_dx(kind);
    let py = m.cells()[k].coords.y + corner_dy(kind);
    if lattice_seen(m, k, px, py) {
        0
    } else {
        corner_changes(m, px, py)
    }
}

/// The vertices to change at the four corners of the record at position `k` that no record
/// before it has.
pub open spec fn cell_corner_changes(m: LandmassDiff, k: int) -> int {
    corner_first_changes(m, k, 0) + corner_first_changes(m, k, 1) + corner_first_changes(m, k, 2) + corner_first_changes(m, k, 3)
}

/// The corner vertices to change at the lattice points at the corners of the records before
/// position `k`, each lattice point counted once.
pub open spec fn corner_phase_changes(m: LandmassDiff, k: int) -> int
    decreases k,
{
    if k <= 0 {
        0
    } else {
        corner_phase_changes(m, k - 1) + cell_corner_changes(m, k - 1)
    }
}

/// A lattice point at a corner of a settled record is settled.
proof fn lemma_seen_settled(start: LandmassDiff, m: LandmassDiff, k: int, px: int, py: int)
    requires
        forall|j: int| 0 <= j < k ==> #[trigger] cell_corners_settled(start, m, j),
        lattice_seen(start, k, px, py),
    ensures
        corner_settled(start, m, px, py),
{
    let (j, kd) = choose|j: int, kind: int| 0 <= j < k && #[trigger] is_cell_corner(start, j, kind, px, py);
    assert(cell_corners_settled(start, m, j));
}

/// Repairing the lattice point at corner `kind` of the record at position `k` changes the
/// vertices counted for it there.
proof fn lemma_corner_step_count(start: LandmassDiff, before: LandmassDiff, k: int, kind: int, px: int, py: int)
    requires
        start.wf(),
        same_shape(start, before),
        0 <= k < start.cells().len(),
        0 <= kind < 4,
        px == start.cells()[k].coords.x + corner_dx(kind),
        py == start.cells()[k].coords.y + corner_dy(kind),
        lattice_seen(start, k, px, py) ==> corner_settled(start, before, px, py),
        !lattice_seen(start, k, px, py) ==> corner_untouched(start, before, px, py),
    ensures
        corner_changes(before, px, py) == corner_first_changes(start, k, kind),
{
    if lattice_seen(start, k, px, py) {
        lemma_settled_no_changes(start, before, px, py);
    } else {
        lemma_untouched_same_changes(start, before, px, py);
    }
}

/// Repairs the four lattice points at the corners of the record at position `k`.
fn repair_cell_corners(merged: &mut LandmassDiff, k: usize, count: &mut usize, Ghost(start): Ghost<LandmassDiff>)
    requires
        old(merged).wf(),
        forall|px: int, py: int| #[trigger] corner_point_fits(start, px, py),
        coords_in_range(*old(merged)),
        k < old(merged).cells().len(),
        *old(count) + 16 <= usize::MAX,
        start.wf(),
        same_shape(start, *old(merged)),
        corner_states_ok(start, *old(merged)),
        forall|j: int| 0 <= j < k ==> #[trigger] cell_corners_settled(start, *old(merged), j),
        forall|px: int, py: int| #[trigger] corner_untouched(start, *old(merged), px, py) || lattice_seen(start, k as int, px, py),
    ensures
        *final(count) == *old(count) + cell_corner_changes(start, k as int),
        forall|px: int, py: int| #[trigger] corner_untouched(start, *final(merged), px, py) || lattice_seen(start, k + 1, px, py),
        same_shape(start, *final(merged)),
        corner_states_ok(start, *final(merged)),
        cell_corners_settled(start, *final(merged), k as int),
        forall|j: int| #[trigger] cell_corners_settled(start, *old(merged), j) ==> cell_corners_settled(start, *final(merged), j),
        only_corners_changed(*old(merged), *final(merged)),
        cell_corners_uniform(*final(merged), k as int),
        forall|qx: int, qy: int| #[trigger] corner_uniform(*old(merged), qx, qy) ==> corner_uniform(*final(merged), qx, qy),
        *old(count) <= *final(count) <= *old(count) + 16,
        *final(count) == *old(count) ==> *final(merged) == *old(merged),
        cell_corners_uniform(*old(merged), k as int) ==> *final(count) == *old(count),
{
    let ghost m0 = *merged;
    let ghost c0 = *count;
    let c = merged.coords_at(k);
    proof {
        assert(i32::MIN < c.x < i32::MAX && i32::MIN < c.y < i32::MAX);
        lemma_same_shape_refl(m0);
    }
    proof {
        lemma_same_shape_groups(start, m0);
        assert(start.cells()[k as int].coords == c);
        lemma_point_fits_kept(start, m0, c.x as int, c.y as int);
    }
    repair_corner_point(merged, c.x, c.y, count);
    let ghost s1 = *merged;
    let ghost c1 = *count;
    proof {
        lemma_repair_settles(start, m0, s1, c.x as int, c.y as int);
        lemma_point_fits_kept(start, s1, c.x + 1, c.y as int);
    }
    repair_corner_point(merged, c.x + 1, c.y, count);
    let ghost s2 = *merged;
    let ghost c2 = *count;
    proof {
        lemma_repair_settles(start, s1, s2, c.x + 1, c.y as int);
        lemma_point_fits_kept(start, s2, c.x as int, c.y + 1);
    }
    repair_corner_point(merged, c.x, c.y + 1, count);
    let ghost s3 = *merged;
    let ghost c3 = *count;
    proof {
        lemma_repair_settles(start, s2, s3, c.x as int, c.y + 1);
        lemma_point_fits_kept(start, s3, c.x + 1, c.y + 1);
    }
    repair_corner_point(merged, c.x + 1, c.y + 1, count);
    let ghost s4 = *merged;
    proof {
        lemma_same_shape_groups(start, m0);
        assert(start.cells()[k as int].coords == c);
        lemma_repair_settles(start, s3, s4, c.x + 1, c.y + 1);
        assert forall|j: int| #[trigger] cell_corners_settled(start, m0, j) implies cell_corners_settled(start, s4, j) by {
            let cj = start.cells()[j].coords;
            assert(corner_settled(start, m0, cj.x as int, cj.y as int));
            assert(corner_settled(start, m0, cj.x + 1, cj.y as int));
            assert(corner_settled(start, m0, cj.x as int, cj.y + 1));
            assert(corner_settled(start, m0, cj.x + 1, cj.y + 1));
        }
        lemma_corner_frame_only_corners(m0, s1, c.x as int, c.y as int);
        lemma_corner_frame_only_corners(s1, s2, c.x + 1, c.y as int);
        lemma_corner_frame_only_corners(s2, s3, c.x as int, c.y + 1);
        lemma_corner_frame_only_corners(s3, s4, c.x + 1, c.y + 1);
        lemma_only_corners_trans(m0, s1, s2);
        lemma_only_corners_trans(m0, s2, s3);
        lemma_only_corners_trans(m0, s3, s4);
        lemma_same_shape_groups(m0, s4);
        assert(s4.cells()[k as int].coords == c);
        assert(corner_uniform(s4, c.x as int, c.y as int));
        assert(corner_uniform(s4, c.x + 1, c.y as int));
        assert(corner_uniform(s4, c.x as int, c.y + 1));
        assert(corner_uniform(s4, c.x + 1, c.y + 1));
        if *count == c0 {
            assert(c1 == c0 && c2 == c0 && c3 == c0);
        }
        if cell_corners_uniform(m0, k as int) {
            assert(corner_uniform(m0, c.x as int, c.y as int));
            assert(c1 == c0);
            assert(c2 == c1);
            assert(c3 == c2);
        }
        let kk = k as int;
        let (x0, y0) = (c.x as int, c.y as int);
        assert(corner_untouched(start, m0, x0, y0) || lattice_seen(start, kk, x0, y0));
        assert(corner_untouched(start, m0, x0 + 1, y0) || lattice_seen(start, kk, x0 + 1, y0));
        assert(corner_untouched(start, m0, x0, y0 + 1) || lattice_seen(start, kk, x0, y0 + 1));
        assert(corner_untouched(start, m0, x0 + 1, y0 + 1) || lattice_seen(start, kk, x0 + 1, y0 + 1));
        if lattice_seen(start, kk, x0, y0) {
            lemma_seen_settled(start, m0, kk, x0, y0);
        }
        lemma_corner_step_count(start, m0, kk, 0, x0, y0);
        if lattice_seen(start, kk, x0 + 1, y0) {
            lemma_seen_settled(start, m0, kk, x0 + 1, y0);
            assert(corner_settled(start, s1, x0 + 1, y0));
        } else {
            lemma_corner_frame_keeps_state(start, m0, s1, x0, y0, x0 + 1, y0);
        }
        lemma_corner_step_count(start, s1, kk, 1, x0 + 1, y0);
        if lattice_seen(start, kk, x0, y0 + 1) {
            lemma_seen_settled(start, m0, kk, x0, y0 + 1);
            assert(corner_settled(start, s1, x0, y0 + 1));
            assert(corner_settled(start, s2, x0, y0 + 1));
        } else {
            lemma_corner_frame_keeps_state(start, m0, s1, x0, y0, x0, y0 + 1);
            lemma_corner_frame_keeps_state(start, s1, s2, x0 + 1, y0, x0, y0 + 1);
        }
        lemma_corner_step_count(start, s2, kk, 2, x0, y0 + 1);
        if lattice_seen(start, kk, x0 + 1, y0 + 1) {
            lemma_seen_settled(start, m0, kk, x0 + 1, y0 + 1);
            assert(corner_settled(start, s1, x0 + 1, y0 + 1));
            assert(corner_settled(start, s2, x0 + 1, y0 + 1));
            assert(corner_settled(start, s3, x0 + 1, y0 + 1));
        } else {
            lemma_corner_frame_keeps_state(start, m0, s1, x0, y0, x0 + 1, y0 + 1);
            lemma_corner_frame_keeps_state(start, s1, s2, x0 + 1, y0, x0 + 1, y0 + 1);
            lemma_corner_frame_keeps_state(start, s2, s3, x0, y0 + 1, x0 + 1, y0 + 1);
        }
        lemma_corner_step_count(start, s3, kk, 3, x0 + 1, y0 + 1);
        assert(*count == c0 + cell_corner_changes(start, kk));
        assert forall|px: int, py: int| #[trigger] corner_untouched(start, s4, px, py) || lattice_seen(start, kk + 1, px, py) by {
            if px == x0 && py == y0 {
                assert(is_cell_corner(start, kk, 0, px, py));
            } else if px == x0 + 1 && py == y0 {
                assert(is_cell_corner(start, kk, 1, px, py));
            } else if px == x0 && py == y0 + 1 {
                assert(is_cell_corner(start, kk, 2, px, py));
            } else if px == x0 + 1 && py == y0 + 1 {
                assert(is_cell_corner(start, kk, 3, px, py));
            } else if lattice_seen(start, kk, px, py) {
                let (j, kd) = choose|j: int, kind: int| 0 <= j < kk && #[trigger] is_cell_corner(start, j, kind, px, py);
                assert(is_cell_corner(start, j, kd, px, py));
            } else {
                assert(corner_untouched(start, m0, px, py));
                lemma_corner_frame_keeps_state(start, m0, s1, x0, y0, px, py);
                lemma_corner_frame_keeps_state(start, s1, s2, x0 + 1, y0, px, py);
                lemma_corner_frame_keeps_state(start, s2, s3, x0, y0 + 1, px, py);
                lemma_corner_frame_keeps_state(start, s3, s4, x0 + 1, y0 + 1, px, py);
            }
        }
    }
}

/// The inner vertex pairs to change along the top side and the right side of the record at
/// position `k`, where a neighbor with a height map shares them.
pub open spec fn cell_side_changes(m: LandmassDiff, k: int) -> int {
    (if exists|b: int| #[trigger] top_neighbors(m, k, b) {
        inner_diffs(m, k, choose|b: int| #[trigger] top_neighbors(m, k, b), true, 64)
    } else {
        0
    }) + (if exists|b: int| #[trigger] right_neighbors(m, k, b) {
        inner_diffs(m, k, choose|b: int| #[trigger] right_neighbors(m, k, b), false, 64)
    } else {
        0
    })
}

/// The inner vertex pairs to change along the top and right sides of the records before
/// position `k`.
pub open spec fn side_phase_changes(m: LandmassDiff, k: int) -> int
    decreases k,
{
    if k <= 0 {
        0
    } else {
        side_phase_changes(m, k - 1) + cell_side_changes(m, k - 1)
    }
}

/// The sides of the record at position `k` count the same in a landmass that keeps their inner
/// vertex pairs.
proof fn lemma_cell_side_changes_kept(m0: LandmassDiff, m1: LandmassDiff, k: int)
    requires
        m0.wf(),
        same_shape(m0, m1),
        0 <= k < m0.cells().len(),
        forall|b: int, t: int| top_neighbors(m0, k, b) && 1 <= t <= 63 ==> #[trigger] side_kept(m0, m1, k, b, t, true),
        forall|b: int, t: int| right_neighbors(m0, k, b) && 1 <= t <= 63 ==> #[trigger] side_kept(m0, m1, k, b, t, false),
    ensures
        cell_side_changes(m1, k) == cell_side_changes(m0, k),
{
    lemma_same_shape_groups(m0, m1);
    if exists|b: int| #[trigger] top_neighbors(m0, k, b) {
        let b0 = choose|b: int| #[trigger] top_neighbors(m0, k, b);
        assert(top_neighbors(m1, k, b0));
        let b1 = choose|b: int| #[trigger] top_neighbors(m1, k, b);
        assert(top_neighbors(m0, k, b1));
        m0.lemma_unique(b0, b1);
        assert forall|u: int| 1 <= u < 64 implies #[trigger] side_pair_closed(m0, k, b0, u, true) == side_pair_closed(m1, k, b0, u, true) by {
            assert(side_kept(m0, m1, k, b0, u, true));
        }
        lemma_inner_diffs_same(m0, m1, k, b0, true, 64);
    } else {
        assert forall|b: int| !#[trigger] top_neighbors(m1, k, b) by {
            if top_neighbors(m1, k, b) {
                assert(top_neighbors(m0, k, b));
            }
        }
    }
    if exists|b: int| #[trigger] right_neighbors(m0, k, b) {
        let b0 = choose|b: int| #[trigger] right_neighbors(m0, k, b);
        assert(right_neighbors(m1, k, b0));
        let b1 = choose|b: int| #[trigger] right_neighbors(m1, k, b);
        assert(right_neighbors(m0, k, b1));
        m0.lemma_unique(b0, b1);
        assert forall|u: int| 1 <= u < 64 implies #[trigger] side_pair_closed(m0, k, b0, u, false) == side_pair_closed(m1, k, b0, u, false) by {
            assert(side_kept(m0, m1, k, b0, u, false));
        }
        lemma_inner_diffs_same(m0, m1, k, b0, false, 64);
    } else {
        assert forall|b: int| !#[trigger] right_neighbors(m1, k, b) by {
            if right_neighbors(m1, k, b) {
                assert(right_neighbors(m0, k, b));
            }
        }
    }
}

/// The sides of the records before position `k` count the same in a landmass that keeps the
/// inner vertex pairs of every shared side.
proof fn lemma_side_phase_kept(m0: LandmassDiff, m1: LandmassDiff, k: int)
    requires
        m0.wf(),
        same_shape(m0, m1),
        0 <= k <= m0.cells().len(),
        forall|a: int, b: int, t: int| top_neighbors(m0, a, b) && 1 <= t <= 63 ==> #[trigger] side_kept(m0, m1, a, b, t, true),
        forall|a: int, b: int, t: int| right_neighbors(m0, a, b) && 1 <= t <= 63 ==> #[trigger] side_kept(m0, m1, a, b, t, false),
    ensures
        side_phase_changes(m1, k) == side_phase_changes(m0, k),
    decreases k,
{
    if k > 0 {
        lemma_side_phase_kept(m0, m1, k - 1);
        lemma_cell_side_changes_kept(m0, m1, k - 1);
    }
}

/// Repairs the top side and the right side of the record at position `k`, where a neighbor
/// with a height map shares them.
fn repair_cell_sides(merged: &mut LandmassDiff, k: usize, count: &mut usize)
    requires
        old(merged).wf(),
        forall|b: int, t: int| top_neighbors(*old(merged), k as int, b) && 1 <= t <= 63
            ==> #[trigger] side_pair_fits(*old(merged), k as int, b, t, true),
        forall|b: int, t: int| right_neighbors(*old(merged), k as int, b) && 1 <= t <= 63
            ==> #[trigger] side_pair_fits(*old(merged), k as int, b, t, false),
        coords_in_range(*old(merged)),
        all_corners_uniform(*old(merged)),
        k < old(merged).cells().len(),
        *old(count) + 130 <= usize::MAX,
    ensures
        only_sides_changed(*old(merged), *final(merged)),
        all_corners_uniform(*final(merged)),
        forall|b: int| #[trigger] top_neighbors(*final(merged), k as int, b) ==> top_seam_closed(*final(merged), k as int, b),
        forall|b: int| #[trigger] right_neighbors(*final(merged), k as int, b) ==> right_seam_closed(*final(merged), k as int, b),
        forall|j: int, i: int|
            0 <= j < old(merged).cells().len() && old(merged).has_heights(j) && 0 <= i < 65 * 65 && !on_shared_side(*old(merged), j, i)
                ==> #[trigger] final(merged).height_at(j, i) == old(merged).height_at(j, i),
        forall|b: int, t: int| top_neighbors(*old(merged), k as int, b) && 1 <= t <= 63
            ==> #[trigger] side_mid(*old(merged), *final(merged), k as int, b, t, true),
        forall|b: int, t: int| right_neighbors(*old(merged), k as int, b) && 1 <= t <= 63
            ==> #[trigger] side_mid(*old(merged), *final(merged), k as int, b, t, false),
        forall|a: int, b: int, t: int| top_neighbors(*old(merged), a, b) && a != k && 1 <= t <= 63
            ==> #[trigger] side_kept(*old(merged), *final(merged), a, b, t, true),
        forall|a: int, b: int, t: int| right_neighbors(*old(merged), a, b) && a != k && 1 <= t <= 63
            ==> #[trigger] side_kept(*old(merged), *final(merged), a, b, t, false),
        forall|a: int, b: int|
            #[trigger] top_neighbors(*old(merged), a, b) && top_seam_closed(*old(merged), a, b) && a != k ==> top_seam_closed(*final(merged), a, b),
        forall|a: int, b: int|
            #[trigger] right_neighbors(*old(merged), a, b) && right_seam_closed(*old(merged), a, b) && a != k ==> right_seam_closed(*final(merged), a, b),
        *old(count) <= *final(count) <= *old(count) + 130,
        *final(count) == *old(count) ==> *final(merged) == *old(merged),
        seamless(*old(merged)) ==> *final(count) == *old(count),
        *final(count) == *old(count) + cell_side_changes(*old(merged), k as int),
{
    let ghost m0 = *merged;
    let ghost c0 = *count;
    proof {
        lemma_same_shape_refl(m0);
        lemma_corner_flats();
    }
    let c = merged.coords_at(k);
    proof {
        assert(i32::MIN < c.x < i32::MAX && i32::MIN < c.y < i32::MAX);
    }
    if !merged.has_height_map(k) {
        proof {
            assert(!exists|b: int| #[trigger] top_neighbors(m0, k as int, b));
            assert(!exists|b: int| #[trigger] right_neighbors(m0, k as int, b));
        }
        return;
    }
    let mut top_partner: Option<usize> = None;
    if let Some(kb) = merged.find(Vec2::new(c.x, c.y + 1)) {
        if merged.has_height_map(kb) {
            proof {
                assert(top_neighbors(m0, k as int, kb as int));
                assert(cell_corners_uniform(m0, k as int));
                assert(in_corner_group(m0, k as int, 2, c.x as int, c.y + 1));
                assert(in_corner_group(m0, kb as int, 0, c.x as int, c.y + 1));
                assert(in_corner_group(m0, k as int, 3, c.x + 1, c.y + 1));
                assert(in_corner_group(m0, kb as int, 1, c.x + 1, c.y + 1));
                if seamless(m0) {
                    assert(top_seam_closed(m0, k as int, kb as int));
                    assert forall|t: int| 0 <= t < 65 implies #[trigger] side_pair_closed(m0, k as int, kb as int, t, true) by {
                        assert(m0.height_at(k as int, 64 * 65 + t) == m0.height_at(kb as int, t));
                    }
                }
            }
            repair_side(merged, k, kb, true, count);
            top_partner = Some(kb);
        }
    }
    let ghost s1 = *merged;
    let ghost c1 = *count;
    proof {
        if let Some(kb) = top_partner {
            lemma_side_frame_only_sides(m0, s1, k as int, kb as int, true);
            lemma_side_frame_keeps_seams(m0, s1, k as int, kb as int, true);
            assert forall|x: int| 0 <= x < 65 implies #[trigger] s1.height_at(k as int, 64 * 65 + x) == s1.height_at(kb as int, x) by {
                assert(side_pair_closed(s1, k as int, kb as int, x, true));
            }
            assert(top_seam_closed(s1, k as int, kb as int));
        } else {
            lemma_same_shape_refl(m0);
            assert(s1 == m0);
        }
        lemma_sides_keep_corners_uniform(m0, s1);
        lemma_same_shape_groups(m0, s1);
    }
    let mut right_partner: Option<usize> = None;
    if let Some(kb) = merged.find(Vec2::new(c.x + 1, c.y)) {
        if merged.has_height_map(kb) {
            proof {
                assert(right_neighbors(s1, k as int, kb as int));
                assert(cell_corners_uniform(s1, k as int));
                assert(in_corner_group(s1, k as int, 1, c.x + 1, c.y as int));
                assert(in_corner_group(s1, kb as int, 0, c.x + 1, c.y as int));
                assert(in_corner_group(s1, k as int, 3, c.x + 1, c.y + 1));
                assert(in_corner_group(s1, kb as int, 2, c.x + 1, c.y + 1));
                if seamless(m0) && *count == c0 {
                    assert(s1 == m0);
                    assert(right_seam_closed(m0, k as int, kb as int));
                    assert forall|t: int| 0 <= t < 65 implies #[trigger] side_pair_closed(s1, k as int, kb as int, t, false) by {
                        assert(m0.height_at(k as int, t * 65 + 64) == m0.height_at(kb as int, t * 65));
                    }
                }
                assert(right_neighbors(m0, k as int, kb as int));
                assert forall|t: int| 1 <= t <= 63 implies #[trigger] side_pair_fits(s1, k as int, kb as int, t, false) by {
                    assert(side_pair_fits(m0, k as int, kb as int, t, false));
                    if let Some(kt) = top_partner {
                        assert(kt != kb);
                        lemma_mod65(t);
                        assert(s1.height_at(k as int, side_a_flat(t, false)) == m0.height_at(k as int, side_a_flat(t, false)));
                        assert(s1.height_at(kb as int, side_b_flat(t, false)) == m0.height_at(kb as int, side_b_flat(t, false)));
                    }
                    assert(side_kept(m0, s1, k as int, kb as int, t, false));
                    lemma_side_fits_kept(m0, s1, k as int, kb as int, t, false);
                }
            }
            repair_side(merged, k, kb, false, count);
            right_partner = Some(kb);
        }
    }
    let ghost s2 = *merged;
    proof {
        if let Some(kb) = right_partner {
            lemma_side_frame_only_sides(s1, s2, k as int, kb as int, false);
            lemma_side_frame_keeps_seams(s1, s2, k as int, kb as int, false);
            assert forall|y: int| 0 <= y < 65 implies #[trigger] s2.height_at(k as int, y * 65 + 64) == s2.height_at(kb as int, y * 65) by {
                assert(side_pair_closed(s2, k as int, kb as int, y, false));
            }
            assert(right_seam_closed(s2, k as int, kb as int));
        } else {
            lemma_same_shape_refl(s1);
            assert(s2 == s1);
        }
        lemma_only_sides_trans(m0, s1, s2);
        lemma_sides_keep_corners_uniform(s1, s2);
        lemma_same_shape_groups(s1, s2);
        lemma_same_shape_groups(m0, s2);
        assert forall|b: int| #[trigger] top_neighbors(s2, k as int, b) implies top_seam_closed(s2, k as int, b) by {
            assert(top_neighbors(m0, k as int, b));
            let kb = top_partner->0;
            assert(top_partner is Some);
            m0.lemma_unique(b, kb as int);
            assert(top_neighbors(s1, k as int, b));
            assert(top_seam_closed(s1, k as int, b));
        }
        assert forall|b: int| #[trigger] right_neighbors(s2, k as int, b) implies right_seam_closed(s2, k as int, b) by {
            assert(right_neighbors(s1, k as int, b));
            let kb = right_partner->0;
            assert(right_partner is Some);
            s1.lemma_unique(b, kb as int);
        }
        assert forall|a: int, b: int|
            #[trigger] top_neighbors(m0, a, b) && top_seam_closed(m0, a, b) && a != k implies top_seam_closed(s2, a, b) by {
            assert(top_seam_closed(s1, a, b));
            assert(top_neighbors(s1, a, b));
        }
        assert forall|a: int, b: int|
            #[trigger] right_neighbors(m0, a, b) && right_seam_closed(m0, a, b) && a != k implies right_seam_closed(s2, a, b) by {
            assert(right_seam_closed(s1, a, b));
            assert(right_neighbors(s1, a, b));
        }
        assert forall|j: int, i: int|
            0 <= j < m0.cells().len() && m0.has_heights(j) && 0 <= i < 65 * 65 && !on_shared_side(m0, j, i)
                implies #[trigger] s2.height_at(j, i) == m0.height_at(j, i) by {
            if let Some(kb) = top_partner {
                assert(top_neighbors(m0, k as int, kb as int));
                if j == k && side_a_vertex(i, true) {
                    assert(on_shared_side(m0, j, i));
                }
                if j == kb && side_b_vertex(i, true) {
                    assert(on_shared_side(m0, j, i));
                }
                assert(s1.height_at(j, i) == m0.height_at(j, i));
            }
            if let Some(kr) = right_partner {
                assert(right_neighbors(s1, k as int, kr as int));
                assert(right_neighbors(m0, k as int, kr as int));
                if j == k && side_a_vertex(i, false) {
                    assert(on_shared_side(m0, j, i));
                }
                if j == kr && side_b_vertex(i, false) {
                    assert(on_shared_side(m0, j, i));
                }
                assert(s2.height_at(j, i) == s1.height_at(j, i));
            }
        }
        assert forall|b: int, t: int| top_neighbors(m0, k as int, b) && 1 <= t <= 63
            implies #[trigger] side_mid(m0, s2, k as int, b, t, true) by {
            let kb = top_partner->0;
            m0.lemma_unique(b, kb as int);
            assert(side_mid(m0, s1, k as int, b, t, true));
            if let Some(kr) = right_partner {
                assert(right_neighbors(s1, k as int, kr as int));
                lemma_pair_kept(s1, s2, k as int, kr as int, false, k as int, b, true, t);
            }
        }
        assert forall|b: int, t: int| right_neighbors(m0, k as int, b) && 1 <= t <= 63
            implies #[trigger] side_mid(m0, s2, k as int, b, t, false) by {
            assert(right_neighbors(s1, k as int, b));
            let kr = right_partner->0;
            s1.lemma_unique(b, kr as int);
            if let Some(kb) = top_partner {
                lemma_pair_kept(m0, s1, k as int, kb as int, true, k as int, b, false, t);
            } else {
                assert(s1 == m0);
            }
            assert(side_mid(s1, s2, k as int, b, t, false));
        }
        assert forall|a: int, b: int, t: int| top_neighbors(m0, a, b) && a != k && 1 <= t <= 63
            implies #[trigger] side_kept(m0, s2, a, b, t, true) by {
            if let Some(kb) = top_partner {
                lemma_pair_kept(m0, s1, k as int, kb as int, true, a, b, true, t);
            } else {
                assert(s1 == m0);
            }
            assert(top_neighbors(s1, a, b));
            if let Some(kr) = right_partner {
                assert(right_neighbors(s1, k as int, kr as int));
                lemma_pair_kept(s1, s2, k as int, kr as int, false, a, b, true, t);
            }
        }
        assert forall|a: int, b: int, t: int| right_neighbors(m0, a, b) && a != k && 1 <= t <= 63
            implies #[trigger] side_kept(m0, s2, a, b, t, false) by {
            if let Some(kb) = top_partner {
                lemma_pair_kept(m0, s1, k as int, kb as int, true, a, b, false, t);
            } else {
                assert(s1 == m0);
            }
            assert(right_neighbors(s1, a, b));
            if let Some(kr) = right_partner {
                assert(right_neighbors(s1, k as int, kr as int));
                lemma_pair_kept(s1, s2, k as int, kr as int, false, a, b, false, t);
            }
        }
        if *count == c0 {
            assert(c1 == c0);
            assert(s1 == m0);
        }
        let kk = k as int;
        if let Some(kb) = top_partner {
            assert(top_neighbors(m0, kk, kb as int));
            let b = choose|b: int| #[trigger] top_neighbors(m0, kk, b);
            m0.lemma_unique(b, kb as int);
            assert(c1 == c0 + inner_diffs(m0, kk, kb as int, true, 64));
        } else {
            assert forall|b: int| !#[trigger] top_neighbors(m0, kk, b) by {
                if top_neighbors(m0, kk, b) {
                    assert(m0.cells()[b].coords == Vec2 { x: c.x, y: (c.y + 1) as i32 });
                }
            }
            assert(c1 == c0);
        }
        if let Some(kr) = right_partner {
            assert(right_neighbors(s1, kk, kr as int));
            assert(right_neighbors(m0, kk, kr as int));
            let b = choose|b: int| #[trigger] right_neighbors(m0, kk, b);
            m0.lemma_unique(b, kr as int);
            assert forall|u: int| 1 <= u < 64 implies #[trigger] side_pair_closed(s1, kk, kr as int, u, false) == side_pair_closed(m0, kk, kr as int, u, false) by {
                if let Some(kb) = top_partner {
                    lemma_pair_kept(m0, s1, kk, kb as int, true, kk, kr as int, false, u);
                }
            }
            lemma_inner_diffs_same(s1, m0, kk, kr as int, false, 64);
        } else {
            assert forall|b: int| !#[trigger] right_neighbors(m0, kk, b) by {
                if right_neighbors(m0, kk, b) {
                    assert(right_neighbors(s1, kk, b));
                    assert(s1.cells()[b].coords == Vec2 { x: (c.x + 1) as i32, y: c.y });
                }
            }
        }
    }
}

/// `m1` has the records of `m0` with the same coordinates and the same height maps.
pub open spec fn heights_agree(m0: LandmassDiff, m1: LandmassDiff) -> bool {
    &&& m1.cells().len() == m0.cells().len()
    &&& forall|k: int|
        0 <= k < m0.cells().len() ==> (#[trigger] m1.cells()[k]).coords == m0.cells()[k].coords
            && m1.cells()[k].height_map == m0.cells()[k].height_map
}

/// Whether a landmass is seamless depends only on the coordinates and height maps of its
/// records.
proof fn lemma_seamless_agree(m0: LandmassDiff, m1: LandmassDiff)
    requires
        heights_agree(m0, m1),
        seamless(m0),
    ensures
        seamless(m1),
{
    assert forall|k: int, kind: int, px: int, py: int|
        #[trigger] in_corner_group(m1, k, kind, px, py) == in_corner_group(m0, k, kind, px, py) by {
        if 0 <= k < m0.cells().len() {
            assert(m1.cells()[k].coords == m0.cells()[k].coords);
        }
    }
    assert forall|k: int, i: int| 0 <= k < m0.cells().len() implies #[trigger] m1.height_at(k, i) == m0.height_at(k, i) by {
        assert(m1.cells()[k].height_map == m0.cells()[k].height_map);
    }
    assert forall|k: int| 0 <= k < m1.cells().len() implies #[trigger] cell_corners_uniform(m1, k) by {
        assert(cell_corners_uniform(m0, k));
        assert(m1.cells()[k].coords == m0.cells()[k].coords);
        assert forall|px: int, py: int| #[trigger] corner_uniform(m0, px, py) implies corner_uniform(m1, px, py) by {
            assert forall|k1: int, kind1: int, k2: int, kind2: int|
                #[trigger] in_corner_group(m1, k1, kind1, px, py) && #[trigger] in_corner_group(m1, k2, kind2, px, py)
                    implies m1.height_at(k1, corner_flat(kind1)) == m1.height_at(k2, corner_flat(kind2)) by {
                assert(in_corner_group(m0, k1, kind1, px, py));
                assert(in_corner_group(m0, k2, kind2, px, py));
            }
        }
    }
    assert forall|a: int, b: int| #[trigger] top_neighbors(m1, a, b) implies top_seam_closed(m1, a, b) by {
        assert(m1.cells()[a].coords == m0.cells()[a].coords);
        assert(m1.cells()[b].coords == m0.cells()[b].coords);
        assert(m1.cells()[a].height_map == m0.cells()[a].height_map);
        assert(m1.cells()[b].height_map == m0.cells()[b].height_map);
        assert(top_neighbors(m0, a, b));
        assert forall|x: int| 0 <= x < 65 implies #[trigger] m1.height_at(a, 64 * 65 + x) == m1.height_at(b, x) by {
            assert(m0.height_at(a, 64 * 65 + x) == m0.height_at(b, x));
        }
    }
    assert forall|a: int, b: int| #[trigger] right_neighbors(m1, a, b) implies right_seam_closed(m1, a, b) by {
        assert(m1.cells()[a].coords == m0.cells()[a].coords);
        assert(m1.cells()[b].coords == m0.cells()[b].coords);
        assert(m1.cells()[a].height_map == m0.cells()[a].height_map);
        assert(m1.cells()[b].height_map == m0.cells()[b].height_map);
        assert(right_neighbors(m0, a, b));
        assert forall|y: int| 0 <= y < 65 implies #[trigger] m1.height_at(a, y * 65 + 64) == m1.height_at(b, y * 65) by {
            assert(m0.height_at(a, y * 65 + 64) == m0.height_at(b, y * 65));
        }
    }
}

/// What seam repair keeps of a record and what it does to its vertex normals: `b` is `a`
/// with new heights over the same reference, and with its vertex normal differences kept only
/// where those new heights differ from their reference.
pub open spec fn seams_repaired_record(a: LandscapeDiff, b: LandscapeDiff) -> bool {
    &&& b.coords == a.coords
    &&& b.flags == a.flags
    &&& b.world_map_data == a.world_map_data
    &&& b.vertex_colors == a.vertex_colors
    &&& b.texture_indices == a.texture_indices
    &&& b.plugins == a.plugins
    &&& (b.height_map is Some) == (a.height_map is Some)
    &&& (a.height_map is Some ==> b.height_map->0.wf() && b.height_map->0.reference_seq() == a.height_map->0.reference_seq())
    &&& (b.vertex_normals is Some) == (a.vertex_normals is Some)
    &&& (a.vertex_normals matches Some(n) ==> {
        &&& b.vertex_normals->0.wf()
        &&& b.vertex_normals->0.reference_seq() == n.reference_seq()
        &&& forall|i: int| 0 <= i < 65 * 65 ==> #[trigger] b.vertex_normals->0.value_at(i) == (if (b.height_map matches Some(h) && h.difference_seq()[i]) {
            n.value_at(i)
        } else {
            n.reference_at(i)
        })
    })
}

/// The number of changes that seam repair makes to `m`: the corner vertices whose height
/// differs from the average of their lattice point (each lattice point counted once), and the
/// inner vertex pairs of shared sides whose heights differ.
pub open spec fn seam_changes(m: LandmassDiff) -> int {
    corner_phase_changes(m, m.cells().len() as int) + side_phase_changes(m, m.cells().len() as int)
}

/// What [`repair_landmass_seams`] promises of a landmass `m0`, the landmass `m1` it leaves and
/// the count it returns.
pub open spec fn seam_repair_outcome(m0: LandmassDiff, m1: LandmassDiff, count: int) -> bool {
    &&& m1.wf()
    &&& m1.plugin_name() == m0.plugin_name()
    &&& m1.cells().len() == m0.cells().len()
    &&& forall|k: int| 0 <= k < m0.cells().len() ==> #[trigger] seams_repaired_record(m0.cells()[k], m1.cells()[k])
    &&& seams_repairable(m1)
    &&& coords_in_range(m1)
    &&& seamless(m1)
    &&& forall|k: int, i: int|
        0 <= k < m0.cells().len() && m0.has_heights(k) && 0 <= i < 65 * 65 && !on_border(i)
            ==> #[trigger] m1.height_at(k, i) == m0.height_at(k, i)
    &&& forall|k: int, kind: int|
        0 <= k < m0.cells().len() && m0.has_heights(k) && 0 <= kind < 4 ==> #[trigger] m1.height_at(k, corner_flat(kind))
            == corner_average(m0, m0.cells()[k].coords.x + corner_dx(kind), m0.cells()[k].coords.y + corner_dy(kind))
    &&& forall|k: int, i: int|
        0 <= k < m0.cells().len() && m0.has_heights(k) && 0 <= i < 65 * 65 && !is_corner_flat(i) && !on_shared_side(m0, k, i)
            ==> #[trigger] m1.height_at(k, i) == m0.height_at(k, i)
    &&& forall|a: int, b: int, t: int| top_neighbors(m0, a, b) && 1 <= t <= 63 ==> #[trigger] side_mid(m0, m1, a, b, t, true)
    &&& forall|a: int, b: int, t: int| right_neighbors(m0, a, b) && 1 <= t <= 63 ==> #[trigger] side_mid(m0, m1, a, b, t, false)
    &&& count == seam_changes(m0)
    &&& (count == 0) == seamless(m0)
    &&& count == 0 ==> forall|k: int, i: int|
        0 <= k < m0.cells().len() && m0.has_heights(k) && 0 <= i < 65 * 65 ==> #[trigger] m1.height_at(k, i) == m0.height_at(k, i)
}

/// Repairs the seams of a landmass in two steps. First, every lattice point where corners of
/// height maps meet is set to the average of those corners (rounded toward zero). Then, along
/// every side shared by two neighboring height maps, each pair of vertices is set to its
/// midpoint (rounded toward zero). Finally, the vertex normal differences of every record are
/// kept only where its heights differ from their reference.
///
/// Returns the number of corner vertices that had to change (those whose height differed from
/// the average of their lattice point) and of inner side vertex pairs that had to change (those
/// whose heights differed): zero exactly when the landmass had no seams, and then no height
/// changed. Afterwards the landmass has no seams, and heights away from the border of their
/// height map are unchanged. Every height that the repair writes must fit its height map; a
/// seamless landmass always qualifies, so a second repair is always possible.
pub fn repair_landmass_seams(merged: &mut LandmassDiff) -> (count: usize)
    requires
        old(merged).wf(),
        seams_repairable(*old(merged)),
        coords_in_range(*old(merged)),
        old(merged).cells().len() * 160 <= usize::MAX,
    ensures
        seam_repair_outcome(*old(merged), *final(merged), count as int),
{
    let ghost m0 = *merged;
    let n = merged.len();
    let mut count: usize = 0;
    proof {
        lemma_same_shape_refl(m0);
    }
    proof {
        assert forall|px: int, py: int| #[trigger] corner_untouched(m0, m0, px, py) || corner_settled(m0, m0, px, py) by {}
        assert forall|px: int, py: int| #[trigger] corner_untouched(m0, m0, px, py) || lattice_seen(m0, 0, px, py) by {}
    }
    let mut k: usize = 0;
    while k < n
        invariant
            n == m0.cells().len(),
            n * 160 <= usize::MAX,
            0 <= k <= n,
            m0.wf(),
            coords_in_range(m0),
            merged.wf(),
            seams_repairable(m0),
            only_corners_changed(m0, *merged),
            forall|j: int| 0 <= j < k ==> #[trigger] cell_corners_uniform(*merged, j),
            corner_states_ok(m0, *merged),
            forall|j: int| 0 <= j < k ==> #[trigger] cell_corners_settled(m0, *merged, j),
            count <= 16 * k,
            count == 0 ==> *merged == m0,
            seamless(m0) ==> count == 0,
            forall|px: int, py: int| #[trigger] corner_untouched(m0, *merged, px, py) || lattice_seen(m0, k as int, px, py),
            count == corner_phase_changes(m0, k as int),
        decreases n - k,
    {
        let ghost before = *merged;
        proof {
            lemma_same_shape_groups(m0, before);
            assert(coords_in_range(before));
        }
        repair_cell_corners(merged, k, &mut count, Ghost(m0));
        proof {
            let after = *merged;
            lemma_only_corners_trans(m0, before, after);
            lemma_same_shape_groups(before, after);
            assert forall|j: int| 0 <= j < k + 1 implies #[trigger] cell_corners_settled(m0, after, j) by {
                if j < k {
                    assert(cell_corners_settled(m0, before, j));
                }
            }
            assert forall|j: int| 0 <= j < k + 1 implies #[trigger] cell_corners_uniform(after, j) by {
                if j < k {
                    assert(cell_corners_uniform(before, j));
                    let c = before.cells()[j].coords;
                    assert(corner_uniform(before, c.x as int, c.y as int));
                    assert(corner_uniform(before, c.x + 1, c.y as int));
                    assert(corner_uniform(before, c.x as int, c.y + 1));
                    assert(corner_uniform(before, c.x + 1, c.y + 1));
                }
            }
            if seamless(m0) {
                assert(cell_corners_uniform(m0, k as int));
            }
        }
        k += 1;
    }
    let ghost ms = *merged;
    let ghost count_ms = count;
    proof {
        lemma_same_shape_groups(m0, ms);
        lemma_same_shape_refl(ms);
        assert(all_corners_uniform(ms));
        assert forall|a: int, b: int, t: int| top_neighbors(ms, a, b) && 1 <= t <= 63
            implies #[trigger] side_pair_fits(ms, a, b, t, true) by {
            lemma_mod65(t);
            assert(top_neighbors(m0, a, b));
            assert(side_pair_fits(m0, a, b, t, true));
            assert(!is_corner_flat(side_a_flat(t, true)));
            assert(!is_corner_flat(side_b_flat(t, true)));
            assert(side_kept(m0, ms, a, b, t, true));
            lemma_side_fits_kept(m0, ms, a, b, t, true);
        }
        assert forall|a: int, b: int, t: int| right_neighbors(ms, a, b) && 1 <= t <= 63
            implies #[trigger] side_pair_fits(ms, a, b, t, false) by {
            lemma_mod65(t);
            assert(right_neighbors(m0, a, b));
            assert(side_pair_fits(m0, a, b, t, false));
            assert(!is_corner_flat(side_a_flat(t, false)));
            assert(!is_corner_flat(side_b_flat(t, false)));
            assert(side_kept(m0, ms, a, b, t, false));
            lemma_side_fits_kept(m0, ms, a, b, t, false);
        }
    }
    k = 0;
    while k < n
        invariant
            n == m0.cells().len(),
            n * 160 <= usize::MAX,
            0 <= k <= n,
            ms.wf(),
            coords_in_range(ms),
            all_corners_uniform(ms),
            ms.cells().len() == n,
            merged.wf(),
            forall|a: int, b: int, t: int| top_neighbors(ms, a, b) && 1 <= t <= 63 ==> #[trigger] side_pair_fits(ms, a, b, t, true),
            forall|a: int, b: int, t: int| right_neighbors(ms, a, b) && 1 <= t <= 63 ==> #[trigger] side_pair_fits(ms, a, b, t, false),
            only_sides_changed(ms, *merged),
            forall|a: int, b: int| #[trigger] top_neighbors(*merged, a, b) && a < k ==> top_seam_closed(*merged, a, b),
            forall|a: int, b: int| #[trigger] right_neighbors(*merged, a, b) && a < k ==> right_seam_closed(*merged, a, b),
            forall|j: int, i: int|
                0 <= j < n && ms.has_heights(j) && 0 <= i < 65 * 65 && !on_shared_side(ms, j, i)
                    ==> #[trigger] merged.height_at(j, i) == ms.height_at(j, i),
            forall|a: int, b: int, t: int| top_neighbors(ms, a, b) && a < k && 1 <= t <= 63 ==> #[trigger] side_mid(ms, *merged, a, b, t, true),
            forall|a: int, b: int, t: int| top_neighbors(ms, a, b) && a >= k && 1 <= t <= 63 ==> #[trigger] side_kept(ms, *merged, a, b, t, true),
            forall|a: int, b: int, t: int| right_neighbors(ms, a, b) && a < k && 1 <= t <= 63 ==> #[trigger] side_mid(ms, *merged, a, b, t, false),
            forall|a: int, b: int, t: int| right_neighbors(ms, a, b) && a >= k && 1 <= t <= 63 ==> #[trigger] side_kept(ms, *merged, a, b, t, false),
            count_ms <= 16 * n,
            count_ms <= count <= count_ms + 130 * k,
            count == count_ms ==> *merged == ms,
            seamless(ms) ==> count == count_ms,
            count == count_ms + side_phase_changes(ms, k as int),
        decreases n - k,
    {
        let ghost before = *merged;
        proof {
            lemma_same_shape_groups(ms, before);
            lemma_sides_keep_corners_uniform(ms, before);
            assert(coords_in_range(before));
            assert(same_shape(ms, before));
            assert forall|b: int, t: int| top_neighbors(before, k as int, b) && 1 <= t <= 63
                implies #[trigger] side_pair_fits(before, k as int, b, t, true) by {
                assert(top_neighbors(ms, k as int, b));
                assert(side_kept(ms, before, k as int, b, t, true));
                lemma_side_fits_kept(ms, before, k as int, b, t, true);
            }
            assert forall|b: int, t: int| right_neighbors(before, k as int, b) && 1 <= t <= 63
                implies #[trigger] side_pair_fits(before, k as int, b, t, false) by {
                assert(right_neighbors(ms, k as int, b));
                assert(side_kept(ms, before, k as int, b, t, false));
                lemma_side_fits_kept(ms, before, k as int, b, t, false);
            }
        }
        repair_cell_sides(merged, k, &mut count);
        proof {
            let after = *merged;
            assert(same_shape(ms, before));
            lemma_cell_side_changes_kept(ms, before, k as int);
            lemma_only_sides_trans(ms, before, after);
            lemma_same_shape_groups(before, after);
            assert forall|a: int, b: int| #[trigger] top_neighbors(after, a, b) && a < k + 1 implies top_seam_closed(after, a, b) by {
                assert(top_neighbors(before, a, b));
                if a < k {
                    assert(top_seam_closed(before, a, b));
                }
            }
            assert forall|a: int, b: int| #[trigger] right_neighbors(after, a, b) && a < k + 1 implies right_seam_closed(after, a, b) by {
                assert(right_neighbors(before, a, b));
                if a < k {
                    assert(right_seam_closed(before, a, b));
                }
            }
            lemma_same_shape_groups(ms, before);
            lemma_shared_side_same_shape(ms, before);
            assert forall|j: int, i: int|
                0 <= j < n && ms.has_heights(j) && 0 <= i < 65 * 65 && !on_shared_side(ms, j, i)
                    implies #[trigger] after.height_at(j, i) == ms.height_at(j, i) by {
                assert(before.has_heights(j));
                assert(!on_shared_side(before, j, i));
                assert(after.height_at(j, i) == before.height_at(j, i));
            }
            assert forall|a: int, b: int, t: int| top_neighbors(ms, a, b) && a < k + 1 && 1 <= t <= 63
                implies #[trigger] side_mid(ms, after, a, b, t, true) by {
                assert(top_neighbors(before, a, b));
                if a < k {
                    assert(side_mid(ms, before, a, b, t, true));
                    assert(side_kept(before, after, a, b, t, true));
                } else {
                    assert(side_kept(ms, before, a, b, t, true));
                    assert(side_mid(before, after, a, b, t, true));
                }
            }
            assert forall|a: int, b: int, t: int| top_neighbors(ms, a, b) && a >= k + 1 && 1 <= t <= 63
                implies #[trigger] side_kept(ms, after, a, b, t, true) by {
                assert(top_neighbors(before, a, b));
                assert(side_kept(ms, before, a, b, t, true));
                assert(side_kept(before, after, a, b, t, true));
            }
            assert forall|a: int, b: int, t: int| right_neighbors(ms, a, b) && a < k + 1 && 1 <= t <= 63
                implies #[trigger] side_mid(ms, after, a, b, t, false) by {
                assert(right_neighbors(before, a, b));
                if a < k {
                    assert(side_mid(ms, before, a, b, t, false));
                    assert(side_kept(before, after, a, b, t, false));
                } else {
                    assert(side_kept(ms, before, a, b, t, false));
                    assert(side_mid(before, after, a, b, t, false));
                }
            }
            assert forall|a: int, b: int, t: int| right_neighbors(ms, a, b) && a >= k + 1 && 1 <= t <= 63
                implies #[trigger] side_kept(ms, after, a, b, t, false) by {
                assert(right_neighbors(before, a, b));
                assert(side_kept(ms, before, a, b, t, false));
                assert(side_kept(before, after, a, b, t, false));
            }
        }
        k += 1;
    }
    let ghost mc = *merged;
    proof {
        lemma_sides_keep_corners_uniform(ms, mc);
        assert(seamless(mc));
    }
    k = 0;
    while k < n
        invariant
            n == mc.cells().len(),
            0 <= k <= n,
            mc.wf(),
            merged.wf(),
            merged.plugin_name() == mc.plugin_name(),
            merged.cells().len() == n,
            forall|j: int| 0 <= j < k ==> LandmassDiff::normals_masked(mc.cells()[j], #[trigger] merged.cells()[j]),
            forall|j: int| k <= j < n ==> #[trigger] merged.cells()[j] == mc.cells()[j],
        decreases n - k,
    {
        merged.mask_normals(k);
        k += 1;
    }
    proof {
        let mf = *merged;
        lemma_same_shape_groups(m0, ms);
        lemma_same_shape_groups(ms, mc);
        assert(heights_agree(mc, mf)) by {
            assert forall|j: int| 0 <= j < n implies (#[trigger] mf.cells()[j]).coords == mc.cells()[j].coords
                && mf.cells()[j].height_map == mc.cells()[j].height_map by {
                assert(LandmassDiff::normals_masked(mc.cells()[j], mf.cells()[j]));
            }
        }
        lemma_seamless_agree(mc, mf);
        lemma_corner_flats();
        assert forall|j: int| 0 <= j < n implies #[trigger] seams_repaired_record(m0.cells()[j], mf.cells()[j]) by {
            assert(LandmassDiff::normals_masked(mc.cells()[j], mf.cells()[j]));
            assert(LandmassDiff::same_but_heights(ms.cells()[j], m0.cells()[j]));
            assert(LandmassDiff::same_but_heights(mc.cells()[j], ms.cells()[j]));
            assert(mc.cells()[j].wf());
        }
        assert forall|j: int, i: int|
            0 <= j < n && m0.has_heights(j) && 0 <= i < 65 * 65 && !on_border(i)
                implies #[trigger] mf.height_at(j, i) == m0.height_at(j, i) by {
            assert(mf.cells()[j].height_map == mc.cells()[j].height_map);
            assert(mc.height_at(j, i) == ms.height_at(j, i));
            assert(ms.height_at(j, i) == m0.height_at(j, i));
        }
        lemma_seamless_repairable(mf);
        assert(coords_in_range(mf)) by {
            assert forall|j: int| 0 <= j < mf.cells().len() implies i32::MIN < (#[trigger] mf.cells()[j]).coords.x < i32::MAX
                && i32::MIN < mf.cells()[j].coords.y < i32::MAX by {
                assert(mf.cells()[j].coords == m0.cells()[j].coords);
            }
        }
        assert forall|j: int, kind: int|
            0 <= j < n && m0.has_heights(j) && 0 <= kind < 4 implies #[trigger] mf.height_at(j, corner_flat(kind))
                == corner_average(m0, m0.cells()[j].coords.x + corner_dx(kind), m0.cells()[j].coords.y + corner_dy(kind)) by {
            let c = m0.cells()[j].coords;
            assert(cell_corners_settled(m0, ms, j));
            assert(in_corner_group(m0, j, kind, c.x + corner_dx(kind), c.y + corner_dy(kind)));
            if kind == 0 {
                assert(corner_settled(m0, ms, c.x as int, c.y as int));
            } else if kind == 1 {
                assert(corner_settled(m0, ms, c.x + 1, c.y as int));
            } else if kind == 2 {
                assert(corner_settled(m0, ms, c.x as int, c.y + 1));
            } else {
                assert(corner_settled(m0, ms, c.x + 1, c.y + 1));
            }
            assert(is_corner_flat(corner_flat(kind)));
            assert(mc.height_at(j, corner_flat(kind)) == ms.height_at(j, corner_flat(kind)));
            assert(mf.cells()[j].height_map == mc.cells()[j].height_map);
        }
        lemma_shared_side_same_shape(m0, ms);
        assert forall|j: int, i: int|
            0 <= j < n && m0.has_heights(j) && 0 <= i < 65 * 65 && !is_corner_flat(i) && !on_shared_side(m0, j, i)
                implies #[trigger] mf.height_at(j, i) == m0.height_at(j, i) by {
            assert(ms.has_heights(j));
            assert(!on_shared_side(ms, j, i));
            assert(mc.height_at(j, i) == ms.height_at(j, i));
            assert(ms.height_at(j, i) == m0.height_at(j, i));
            assert(mf.cells()[j].height_map == mc.cells()[j].height_map);
        }
        assert forall|a: int, b: int, t: int| top_neighbors(m0, a, b) && 1 <= t <= 63
            implies #[trigger] side_mid(m0, mf, a, b, t, true) by {
            lemma_mod65(t);
            assert(top_neighbors(ms, a, b));
            assert(side_mid(ms, mc, a, b, t, true));
            assert(ms.height_at(a, side_a_flat(t, true)) == m0.height_at(a, side_a_flat(t, true)));
            assert(ms.height_at(b, side_b_flat(t, true)) == m0.height_at(b, side_b_flat(t, true)));
            assert(mf.cells()[a].height_map == mc.cells()[a].height_map);
            assert(mf.cells()[b].height_map == mc.cells()[b].height_map);
        }
        assert forall|a: int, b: int, t: int| right_neighbors(m0, a, b) && 1 <= t <= 63
            implies #[trigger] side_mid(m0, mf, a, b, t, false) by {
            lemma_mod65(t);
            assert(right_neighbors(ms, a, b));
            assert(side_mid(ms, mc, a, b, t, false));
            assert(!is_corner_flat(side_a_flat(t, false)));
            assert(!is_corner_flat(side_b_flat(t, false)));
            assert(ms.height_at(a, side_a_flat(t, false)) == m0.height_at(a, side_a_flat(t, false)));
            assert(ms.height_at(b, side_b_flat(t, false)) == m0.height_at(b, side_b_flat(t, false)));
            assert(mf.cells()[a].height_map == mc.cells()[a].height_map);
            assert(mf.cells()[b].height_map == mc.cells()[b].height_map);
        }
        assert forall|a: int, b: int, t: int| top_neighbors(m0, a, b) && 1 <= t <= 63
            implies #[trigger] side_kept(m0, ms, a, b, t, true) by {
            lemma_mod65(t);
            assert(!is_corner_flat(side_a_flat(t, true)));
            assert(!is_corner_flat(side_b_flat(t, true)));
        }
        assert forall|a: int, b: int, t: int| right_neighbors(m0, a, b) && 1 <= t <= 63
            implies #[trigger] side_kept(m0, ms, a, b, t, false) by {
            lemma_mod65(t);
            assert(!is_corner_flat(side_a_flat(t, false)));
            assert(!is_corner_flat(side_b_flat(t, false)));
        }
        lemma_side_phase_kept(m0, ms, n as int);
        if count == 0 {
            assert(mc == m0);
            assert forall|j: int, i: int|
                0 <= j < n && m0.has_heights(j) && 0 <= i < 65 * 65 implies #[trigger] mf.height_at(j, i) == m0.height_at(j, i) by {
                assert(mf.cells()[j].height_map == mc.cells()[j].height_map);
            }
        }
    }
    count
}

/// Repairing seams a second time finds nothing left to repair: it returns zero and changes no
/// height.
pub proof fn law_seam_repair_idempotent(m0: LandmassDiff, m1: LandmassDiff, first: int, m2: LandmassDiff, second: int)
    requires
        seam_repair_outcome(m0, m1, first),
        seam_repair_outcome(m1, m2, second),
    ensures
        second == 0,
        forall|k: int, i: int|
            0 <= k < m1.cells().len() && m1.has_heights(k) && 0 <= i < 65 * 65 ==> #[trigger] m2.height_at(k, i) == m1.height_at(k, i),
{
}

} // verus!
