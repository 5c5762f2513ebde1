use crate::land::grid::{IndexVTEX, Vec3};
use vstd::prelude::*;

verus! {

/// Types implementing [`RelativeTo`] can be subtracted with [`RelativeTo::subtract`] to compute
/// a delta of type [`RelativeTo::Delta`]. The delta can be passed to [`RelativeTo::add`] to
/// recompute the original value.
pub trait RelativeTo: Sized + Copy {
    /// A signed version of the type implementing [`RelativeTo`].
    type Delta: Copy;

    /// The delta between `lhs` and `rhs`.
    spec fn delta_of(lhs: Self, rhs: Self) -> Self::Delta;

    /// The value reached from `lhs` by the delta `rhs`.
    spec fn offset_of(lhs: Self, rhs: Self::Delta) -> Self;

    /// `lhs - rhs` can be computed without overflow.
    spec fn subtract_ok(lhs: Self, rhs: Self) -> bool;

    /// `lhs + rhs` stays inside the value type.
    spec fn add_ok(lhs: Self, rhs: Self::Delta) -> bool;

    /// The delta that stands for "no difference".
    spec fn zero() -> Self::Delta;

    /// The default value of the type.
    spec fn default_value() -> Self;

    /// Subtract `rhs` from `lhs` and return the [`RelativeTo::Delta`].
    fn subtract(lhs: Self, rhs: Self) -> (d: Self::Delta)
        requires
            Self::subtract_ok(lhs, rhs),
        ensures
            d == Self::delta_of(lhs, rhs),
    ;

    /// Add the [`RelativeTo::Delta`] `rhs` to `lhs`.
    fn add(lhs: Self, rhs: Self::Delta) -> (r: Self)
        requires
            Self::add_ok(lhs, rhs),
        ensures
            r == Self::offset_of(lhs, rhs),
    ;

    /// The delta that stands for "no difference".
    fn zero_delta() -> (d: Self::Delta)
        ensures
            d == Self::zero(),
    ;

    /// The default value of the type.
    fn default_val() -> (v: Self)
        ensures
            v == Self::default_value(),
    ;

    /// `true` when `d` is the zero delta.
    fn is_zero(d: &Self::Delta) -> (b: bool)
        ensures
            b == (*d == Self::zero()),
    ;

    /// `true` when both values are the same.
    fn same(a: &Self, b: &Self) -> (r: bool)
        ensures
            r == (*a == *b),
    ;

    /// Adding the delta between `lhs` and `rhs` to `rhs` gives back `lhs`.
    proof fn lemma_roundtrip(lhs: Self, rhs: Self)
        requires
            Self::subtract_ok(lhs, rhs),
        ensures
            Self::add_ok(rhs, Self::delta_of(lhs, rhs)),
            Self::offset_of(rhs, Self::delta_of(lhs, rhs)) == lhs,
    ;

    /// Subtracting from a value the value reached by a delta gives back the delta.
    proof fn lemma_offset_then_delta(lhs: Self, d: Self::Delta)
        requires
            Self::add_ok(lhs, d),
        ensures
            Self::subtract_ok(Self::offset_of(lhs, d), lhs),
            Self::delta_of(Self::offset_of(lhs, d), lhs) == d,
    ;

    /// Adding the zero delta changes nothing.
    proof fn lemma_zero(v: Self)
        ensures
            Self::add_ok(v, Self::zero()),
            Self::offset_of(v, Self::zero()) == v,
            Self::subtract_ok(v, v),
            Self::delta_of(v, v) == Self::zero(),
    ;

    /// The delta is zero exactly when both values are equal.
    proof fn lemma_zero_iff_equal(lhs: Self, rhs: Self)
        requires
            Self::subtract_ok(lhs, rhs),
        ensures
            (Self::delta_of(lhs, rhs) == Self::zero()) == (lhs == rhs),
    ;
}

impl RelativeTo for i32 {
    type Delta = i32;

    open spec fn delta_of(lhs: i32, rhs: i32) -> i32 {
        (lhs - rhs) as i32
    }

    open spec fn offset_of(lhs: i32, rhs: i32) -> i32 {
        (lhs + rhs) as i32
    }

    open spec fn subtract_ok(lhs: i32, rhs: i32) -> bool {
        i32::MIN <= lhs - rhs <= i32::MAX
    }

    open spec fn add_ok(lhs: i32, rhs: i32) -> bool {
        i32::MIN <= lhs + rhs <= i32::MAX
    }

    open spec fn zero() -> i32 {
        0
    }

    open spec fn default_value() -> i32 {
        0
    }

    fn subtract(lhs: i32, rhs: i32) -> (d: i32) {
        lhs - rhs
    }

    fn add(lhs: i32, rhs: i32) -> (r: i32) {
        lhs + rhs
    }

    fn zero_delta() -> (d: i32) {
        0
    }

    fn default_val() -> (v: i32) {
        0
    }

    fn is_zero(d: &i32) -> (b: bool) {
        *d == 0
    }

    fn same(a: &i32, b: &i32) -> (r: bool) {
        *a == *b
    }

    proof fn lemma_roundtrip(lhs: i32, rhs: i32) {
    }

    proof fn lemma_offset_then_delta(lhs: i32, d: i32) {
    }

    proof fn lemma_zero(v: i32) {
    }

    proof fn lemma_zero_iff_equal(lhs: i32, rhs: i32) {
    }
}

impl RelativeTo for u8 {
    type Delta = i32;

    open spec fn delta_of(lhs: u8, rhs: u8) -> i32 {
        (lhs - rhs) as i32
    }

    open spec fn offset_of(lhs: u8, rhs: i32) -> u8 {
        (lhs + rhs) as u8
    }

    open spec fn subtract_ok(lhs: u8, rhs: u8) -> bool {
        true
    }

    open spec fn add_ok(lhs: u8, rhs: i32) -> bool {
        0 <= lhs + rhs <= u8::MAX
    }

    open spec fn zero() -> i32 {
        0
    }

    open spec fn default_value() -> u8 {
        0
    }

    fn subtract(lhs: u8, rhs: u8) -> (d: i32) {
        lhs as i32 - rhs as i32
    }

    fn add(lhs: u8, rhs: i32) -> (r: u8) {
        (lhs as i32 + rhs) as u8
    }

    fn zero_delta() -> (d: i32) {
        0
    }

    fn default_val() -> (v: u8) {
        0
    }

    fn is_zero(d: &i32) -> (b: bool) {
        *d == 0
    }

    fn same(a: &u8, b: &u8) -> (r: bool) {
        *a == *b
    }

    proof fn lemma_roundtrip(lhs: u8, rhs: u8) {
    }

    proof fn lemma_offset_then_delta(lhs: u8, d: i32) {
    }

    proof fn lemma_zero(v: u8) {
    }

    proof fn lemma_zero_iff_equal(lhs: u8, rhs: u8) {
    }
}

impl RelativeTo for i8 {
    type Delta = i32;

    open spec fn delta_of(lhs: i8, rhs: i8) -> i32 {
        (lhs - rhs) as i32
    }

    open spec fn offset_of(lhs: i8, rhs: i32) -> i8 {
        (lhs + rhs) as i8
    }

    open spec fn subtract_ok(lhs: i8, rhs: i8) -> bool {
        true
    }

    open spec fn add_ok(lhs: i8, rhs: i32) -> bool {
        i8::MIN <= lhs + rhs <= i8::MAX
    }

    open spec fn zero() -> i32 {
        0
    }

    open spec fn default_value() -> i8 {
        0
    }

    fn subtract(lhs: i8, rhs: i8) -> (d: i32) {
        lhs as i32 - rhs as i32
    }

    fn add(lhs: i8, rhs: i32) -> (r: i8) {
        (lhs as i32 + rhs) as i8
    }

    fn zero_delta() -> (d: i32) {
        0
    }

    fn default_val() -> (v: i8) {
        0
    }

    fn is_zero(d: &i32) -> (b: bool) {
        *d == 0
    }

    fn same(a: &i8, b: &i8) -> (r: bool) {
        *a == *b
    }

    proof fn lemma_roundtrip(lhs: i8, rhs: i8) {
    }

    proof fn lemma_offset_then_delta(lhs: i8, d: i32) {
    }

    proof fn lemma_zero(v: i8) {
    }

    proof fn lemma_zero_iff_equal(lhs: i8, rhs: i8) {
    }
}

impl RelativeTo for u16 {
    type Delta = i32;

    open spec fn delta_of(lhs: u16, rhs: u16) -> i32 {
        (lhs - rhs) as i32
    }

    open spec fn offset_of(lhs: u16, rhs: i32) -> u16 {
        (lhs + rhs) as u16
    }

    open spec fn subtract_ok(lhs: u16, rhs: u16) -> bool {
        true
    }

    open spec fn add_ok(lhs: u16, rhs: i32) -> bool {
        0 <= lhs + rhs <= u16::MAX
    }

    open spec fn zero() -> i32 {
        0
    }

    open spec fn default_value() -> u16 {
        0
    }

    fn subtract(lhs: u16, rhs: u16) -> (d: i32) {
        lhs as i32 - rhs as i32
    }

    fn add(lhs: u16, rhs: i32) -> (r: u16) {
        (lhs as i32 + rhs) as u16
    }

    fn zero_delta() -> (d: i32) {
        0
    }

    fn default_val() -> (v: u16) {
        0
    }

    fn is_zero(d: &i32) -> (b: bool) {
        *d == 0
    }

    fn same(a: &u16, b: &u16) -> (r: bool) {
        *a == *b
    }

    proof fn lemma_roundtrip(lhs: u16, rhs: u16) {
    }

    proof fn lemma_offset_then_delta(lhs: u16, d: i32) {
    }

    proof fn lemma_zero(v: u16) {
    }

    proof fn lemma_zero_iff_equal(lhs: u16, rhs: u16) {
    }
}

impl RelativeTo for IndexVTEX {
    type Delta = i32;

    open spec fn delta_of(lhs: IndexVTEX, rhs: IndexVTEX) -> i32 {
        (lhs.value - rhs.value) as i32
    }

    open spec fn offset_of(lhs: IndexVTEX, rhs: i32) -> IndexVTEX {
        IndexVTEX { value: (lhs.value + rhs) as u16 }
    }

    open spec fn subtract_ok(lhs: IndexVTEX, rhs: IndexVTEX) -> bool {
        true
    }

    open spec fn add_ok(lhs: IndexVTEX, rhs: i32) -> bool {
        0 <= lhs.value + rhs <= u16::MAX
    }

    open spec fn zero() -> i32 {
        0
    }

    open spec fn default_value() -> IndexVTEX {
        IndexVTEX { value: 0 }
    }

    fn subtract(lhs: IndexVTEX, rhs: IndexVTEX) -> (d: i32) {
        lhs.value as i32 - rhs.value as i32
    }

    fn add(lhs: IndexVTEX, rhs: i32) -> (r: IndexVTEX) {
        IndexVTEX { value: (lhs.value as i32 + rhs) as u16 }
    }

    fn zero_delta() -> (d: i32) {
        0
    }

    fn default_val() -> (v: IndexVTEX) {
        IndexVTEX { value: 0 }
    }

    fn is_zero(d: &i32) -> (b: bool) {
        *d == 0
    }

    fn same(a: &IndexVTEX, b: &IndexVTEX) -> (r: bool) {
        a.value == b.value
    }

    proof fn lemma_roundtrip(lhs: IndexVTEX, rhs: IndexVTEX) {
    }

    proof fn lemma_offset_then_delta(lhs: IndexVTEX, d: i32) {
    }

    proof fn lemma_zero(v: IndexVTEX) {
    }

    proof fn lemma_zero_iff_equal(lhs: IndexVTEX, rhs: IndexVTEX) {
    }
}

impl<T: RelativeTo> RelativeTo for Vec3<T> {
    type Delta = Vec3<<T as RelativeTo>::Delta>;

    open spec fn delta_of(lhs: Vec3<T>, rhs: Vec3<T>) -> Vec3<T::Delta> {
        Vec3 {
            x: T::delta_of(lhs.x, rhs.x),
            y: T::delta_of(lhs.y, rhs.y),
            z: T::delta_of(lhs.z, rhs.z),
        }
    }

    open spec fn offset_of(lhs: Vec3<T>, rhs: Vec3<T::Delta>) -> Vec3<T> {
        Vec3 {
            x: T::offset_of(lhs.x, rhs.x),
            y: T::offset_of(lhs.y, rhs.y),
            z: T::offset_of(lhs.z, rhs.z),
        }
    }

    open spec fn subtract_ok(lhs: Vec3<T>, rhs: Vec3<T>) -> bool {
        &&& T::subtract_ok(lhs.x, rhs.x)
        &&& T::subtract_ok(lhs.y, rhs.y)
        &&& T::subtract_ok(lhs.z, rhs.z)
    }

    open spec fn add_ok(lhs: Vec3<T>, rhs: Vec3<T::Delta>) -> bool {
        &&& T::add_ok(lhs.x, rhs.x)
        &&& T::add_ok(lhs.y, rhs.y)
        &&& T::add_ok(lhs.z, rhs.z)
    }

    open spec fn zero() -> Vec3<T::Delta> {
        Vec3 { x: T::zero(), y: T::zero(), z: T::zero() }
    }

    open spec fn default_value() -> Vec3<T> {
        Vec3 { x: T::default_value(), y: T::default_value(), z: T::default_value() }
    }

    fn subtract(lhs: Vec3<T>, rhs: Vec3<T>) -> (d: Vec3<T::Delta>) {
        Vec3 {
            x: T::subtract(lhs.x, rhs.x),
            y: T::subtract(lhs.y, rhs.y),
            z: T::subtract(lhs.z, rhs.z),
        }
    }

    fn add(lhs: Vec3<T>, rhs: Vec3<T::Delta>) -> (r: Vec3<T>) {
        Vec3 { x: T::add(lhs.x, rhs.x), y: T::add(lhs.y, rhs.y), z: T::add(lhs.z, rhs.z) }
    }

    fn zero_delta() -> (d: Vec3<T::Delta>) {
        Vec3 { x: T::zero_delta(), y: T::zero_delta(), z: T::zero_delta() }
    }

    fn default_val() -> (v: Vec3<T>) {
        Vec3 { x: T::default_val(), y: T::default_val(), z: T::default_val() }
    }

    fn is_zero(d: &Vec3<T::Delta>) -> (b: bool) {
        T::is_zero(&d.x) && T::is_zero(&d.y) && T::is_zero(&d.z)
    }

    fn same(a: &Vec3<T>, b: &Vec3<T>) -> (r: bool) {
        T::same(&a.x, &b.x) && T::same(&a.y, &b.y) && T::same(&a.z, &b.z)
    }

    proof fn lemma_roundtrip(lhs: Vec3<T>, rhs: Vec3<T>) {
        T::lemma_roundtrip(lhs.x, rhs.x);
        T::lemma_roundtrip(lhs.y, rhs.y);
        T::lemma_roundtrip(lhs.z, rhs.z);
    }

    proof fn lemma_offset_then_delta(lhs: Vec3<T>, d: Vec3<T::Delta>) {
        T::lemma_offset_then_delta(lhs.x, d.x);
        T::lemma_offset_then_delta(lhs.y, d.y);
        T::lemma_offset_then_delta(lhs.z, d.z);
    }

    proof fn lemma_zero(v: Vec3<T>) {
        T::lemma_zero(v.x);
        T::lemma_zero(v.y);
        T::lemma_zero(v.z);
    }

    proof fn lemma_zero_iff_equal(lhs: Vec3<T>, rhs: Vec3<T>) {
        T::lemma_zero_iff_equal(lhs.x, rhs.x);
        T::lemma_zero_iff_equal(lhs.y, rhs.y);
        T::lemma_zero_iff_equal(lhs.z, rhs.z);
    }
}

/// Law: for every pair of values whose difference can be computed, adding the difference
/// between `lhs` and `rhs` back onto `rhs` recomputes `lhs`.
pub proof fn law_add_subtract_roundtrip<U: RelativeTo>(lhs: U, rhs: U)
    requires
        U::subtract_ok(lhs, rhs),
    ensures
        U::add_ok(rhs, U::delta_of(lhs, rhs)),
        U::offset_of(rhs, U::delta_of(lhs, rhs)) == lhs,
{
    U::lemma_roundtrip(lhs, rhs);
}

} // verus!
