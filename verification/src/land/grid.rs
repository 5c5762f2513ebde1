use vstd::prelude::*;

verus! {

/// A position inside a square grid: `x` is the column and `y` is the row.
#[derive(Clone, Copy, Debug, PartialEq, Eq, Structural)]
pub struct Index2D {
    pub x: usize,
    pub y: usize,
}

impl Index2D {
    /// Creates an [`Index2D`] from a column and a row.
    pub fn new(x: usize, y: usize) -> (r: Index2D)
        ensures
            r.x == x,
            r.y == y,
    {
        Index2D { x, y }
    }
}

/// Two-dimensional cell coordinates of a landscape.
#[derive(Clone, Copy, Debug, PartialEq, Eq, Structural)]
pub struct Vec2 {
    pub x: i32,
    pub y: i32,
}

impl Vec2 {
    /// Creates a [`Vec2`] from its components.
    pub fn new(x: i32, y: i32) -> (r: Vec2)
        ensures
            r.x == x,
            r.y == y,
    {
        Vec2 { x, y }
    }
}

/// A three-component vector, used for vertex normals and vertex colors.
#[derive(Clone, Copy, Debug, PartialEq, Eq, Structural)]
pub struct Vec3<T> {
    pub x: T,
    pub y: T,
    pub z: T,
}

impl<T> Vec3<T> {
    /// Creates a [`Vec3`] from its components.
    pub fn new(x: T, y: T, z: T) -> (r: Vec3<T>)
        ensures
            r.x == x,
            r.y == y,
            r.z == z,
    {
        Vec3 { x, y, z }
    }
}

/// A texture index inside a LAND record (the VTEX value).
#[derive(Clone, Copy, Debug, PartialEq, Eq, Structural)]
pub struct IndexVTEX {
    pub value: u16,
}

impl IndexVTEX {
    /// Wraps a raw VTEX value.
    pub fn new(value: u16) -> (r: IndexVTEX)
        ensures
            r.value == value,
    {
        IndexVTEX { value }
    }

    /// The raw VTEX value.
    pub fn as_u16(&self) -> (r: u16)
        ensures
            r == self.value,
    {
        self.value
    }
}

/// The flat, row-major position of `coords` inside a grid of side `side`.
pub open spec fn flat_index(coords: Index2D, side: nat) -> int {
    coords.y * side + coords.x
}

/// `coords` lies inside a grid of side `side`.
pub open spec fn in_grid(coords: Index2D, side: nat) -> bool {
    coords.x < side && coords.y < side
}

/// A cell inside the grid has a flat position inside the grid's storage.
pub proof fn lemma_flat_index_bounds(coords: Index2D, side: nat)
    requires
        in_grid(coords, side),
    ensures
        0 <= flat_index(coords, side) < side * side,
{
    let x = coords.x as int;
    let y = coords.y as int;
    let s = side as int;
    assert(y * s + x < s * s) by (nonlinear_arith)
        requires
            0 <= x < s,
            0 <= y < s,
    ;
    assert(0 <= y * s) by (nonlinear_arith)
        requires
            0 <= y,
            0 <= s,
    ;
}

/// Computes the flat, row-major position of `coords` inside a grid of side `side`.
pub fn grid_offset(coords: Index2D, side: usize) -> (i: usize)
    requires
        in_grid(coords, side as nat),
        side * side <= usize::MAX,
    ensures
        i == flat_index(coords, side as nat),
        i < side * side,
{
    proof {
        lemma_flat_index_bounds(coords, side as nat);
    }
    coords.y * side + coords.x
}

} // verus!
