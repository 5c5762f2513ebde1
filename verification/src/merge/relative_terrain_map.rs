use crate::land::grid::{flat_index, grid_offset, in_grid, Index2D, Vec3};
use crate::merge::relative_to::RelativeTo;
use vstd::prelude::*;

verus! {

/// A [`RelativeTerrainMap`] is a square grid of side `T` stored as three row-major grids: the
/// original terrain (the reference), the differences from that reference as deltas, and a
/// boolean grid where `true` marks every position whose delta is not zero.
pub struct RelativeTerrainMap<U: RelativeTo, const T: usize> {
    reference: Vec<U>,
    relative: Vec<<U as RelativeTo>::Delta>,
    has_difference: Vec<bool>,
}

impl<U: RelativeTo, const T: usize> Clone for RelativeTerrainMap<U, T> {
    fn clone(&self) -> (r: Self)
        ensures
            r.same_as(*self),
    {
        let mut reference: Vec<U> = Vec::new();
        let mut relative: Vec<U::Delta> = Vec::new();
        let mut has_difference: Vec<bool> = Vec::new();
        let mut i: usize = 0;
        while i < self.reference.len()
            invariant
                i <= self.reference.len(),
                reference@ == self.reference@.take(i as int),
            decreases self.reference.len() - i,
        {
            reference.push(self.reference[i]);
            i += 1;
            proof {
                assert(reference@ == self.reference@.take(i as int));
            }
        }
        i = 0;
        while i < self.relative.len()
            invariant
                i <= self.relative.len(),
                relative@ == self.relative@.take(i as int),
            decreases self.relative.len() - i,
        {
            relative.push(self.relative[i]);
            i += 1;
            proof {
                assert(relative@ == self.relative@.take(i as int));
            }
        }
        i = 0;
        while i < self.has_difference.len()
            invariant
                i <= self.has_difference.len(),
                has_difference@ == self.has_difference@.take(i as int),
            decreases self.has_difference.len() - i,
        {
            has_difference.push(self.has_difference[i]);
            i += 1;
            proof {
                assert(has_difference@ == self.has_difference@.take(i as int));
            }
        }
        proof {
            assert(reference@ == self.reference@);
            assert(relative@ == self.relative@);
            assert(has_difference@ == self.has_difference@);
        }
        RelativeTerrainMap { reference, relative, has_difference }
    }
}

impl<U: RelativeTo, const T: usize> RelativeTerrainMap<U, T> {
    /// Both maps hold the same reference, deltas and difference marks.
    pub closed spec fn same_as(&self, other: Self) -> bool {
        &&& self.reference@ == other.reference@
        &&& self.relative@ == other.relative@
        &&& self.has_difference@ == other.has_difference@
    }

    /// Maps holding the same content agree on every observation.
    pub proof fn lemma_same_as(&self, other: Self)
        requires
            self.same_as(other),
        ensures
            self.wf() == other.wf(),
            self.reference_seq() == other.reference_seq(),
            self.values() == other.values(),
            self.difference_seq() == other.difference_seq(),
            self.modified() == other.modified(),
            forall|i: int| #[trigger] self.value_at(i) == other.value_at(i),
            forall|i: int| #[trigger] self.differs_at(i) == other.differs_at(i),
            forall|i: int| #[trigger] self.reference_at(i) == other.reference_at(i),
            forall|i: int| #[trigger] self.delta_at(i) == other.delta_at(i),
    {
        assert(self.reference_seq() == other.reference_seq());
        assert(self.values() == other.values());
        assert(self.difference_seq() == other.difference_seq());
        if self.modified() {
            let i = choose|i: int| 0 <= i < Self::size() && #[trigger] self.differs_at(i);
            assert(other.differs_at(i));
        }
        if other.modified() {
            let i = choose|i: int| 0 <= i < Self::size() && #[trigger] other.differs_at(i);
            assert(self.differs_at(i));
        }
    }

    /// The number of positions in the grid.
    pub open spec fn size() -> nat {
        (T * T) as nat
    }

    /// The grid's storage is consistent: every grid has `T * T` entries, a position is marked
    /// as different exactly when its delta is not zero, and every delta can be added to its
    /// reference value.
    pub closed spec fn wf(&self) -> bool {
        &&& T * T <= usize::MAX
        &&& self.reference@.len() == T * T
        &&& self.relative@.len() == T * T
        &&& self.has_difference@.len() == T * T
        &&& forall|i: int|
            0 <= i < T * T ==> (#[trigger] self.has_difference@[i] == (self.relative@[i]
                != U::zero()))
        &&& forall|i: int|
            0 <= i < T * T ==> U::add_ok(#[trigger] self.reference@[i], self.relative@[i])
    }

    /// The reference value at flat position `i`.
    pub closed spec fn reference_at(&self, i: int) -> U {
        self.reference@[i]
    }

    /// The delta at flat position `i`.
    pub closed spec fn delta_at(&self, i: int) -> U::Delta {
        self.relative@[i]
    }

    /// Whether flat position `i` is marked as different from the reference.
    pub closed spec fn differs_at(&self, i: int) -> bool {
        self.has_difference@[i]
    }

    /// The value at flat position `i`: the reference plus the delta.
    pub open spec fn value_at(&self, i: int) -> U {
        U::offset_of(self.reference_at(i), self.delta_at(i))
    }

    /// The reference values as a sequence.
    pub open spec fn reference_seq(&self) -> Seq<U> {
        Seq::new(Self::size(), |i: int| self.reference_at(i))
    }

    /// The values as a sequence.
    pub open spec fn values(&self) -> Seq<U> {
        Seq::new(Self::size(), |i: int| self.value_at(i))
    }

    /// The difference marks as a sequence.
    pub open spec fn difference_seq(&self) -> Seq<bool> {
        Seq::new(Self::size(), |i: int| self.differs_at(i))
    }

    /// At least one position differs from the reference.
    pub open spec fn modified(&self) -> bool {
        exists|i: int| 0 <= i < Self::size() && #[trigger] self.differs_at(i)
    }

    /// Facts that every well-formed map satisfies.
    pub proof fn lemma_wf(&self)
        requires
            self.wf(),
        ensures
            T * T <= usize::MAX,
            forall|i: int|
                0 <= i < Self::size() ==> (#[trigger] self.differs_at(i) == (self.delta_at(i)
                    != U::zero())),
            forall|i: int|
                0 <= i < Self::size() ==> U::add_ok(#[trigger] self.reference_at(i), self.delta_at(i)),
            forall|i: int|
                0 <= i < Self::size() ==> (#[trigger] self.differs_at(i) == (self.value_at(i)
                    != self.reference_at(i))),
    {
        assert forall|i: int| 0 <= i < Self::size() implies (#[trigger] self.differs_at(i) == (
        self.value_at(i) != self.reference_at(i))) by {
            let r = self.reference@[i];
            let d = self.relative@[i];
            assert(U::add_ok(r, d));
            U::lemma_offset_then_delta(r, d);
            U::lemma_zero(r);
            U::lemma_zero_iff_equal(U::offset_of(r, d), r);
        }
    }

    /// Creates a [`RelativeTerrainMap`] whose reference is the default value everywhere, without
    /// any differences.
    pub fn default() -> (r: Self)
        requires
            T * T <= usize::MAX,
        ensures
            r.wf(),
            forall|i: int| 0 <= i < Self::size() ==> #[trigger] r.reference_at(i) == U::default_value(),
            forall|i: int| 0 <= i < Self::size() ==> !#[trigger] r.differs_at(i),
            forall|i: int| 0 <= i < Self::size() ==> #[trigger] r.value_at(i) == U::default_value(),
    {
        let n = T * T;
        let mut reference: Vec<U> = Vec::new();
        let mut i: usize = 0;
        while i < n
            invariant
                n == T * T,
                i <= n,
                reference@.len() == i,
                forall|j: int| 0 <= j < i ==> #[trigger] reference@[j] == U::default_value(),
            decreases n - i,
        {
            reference.push(U::default_val());
            i += 1;
        }
        Self::empty(reference)
    }

    /// Creates a [`RelativeTerrainMap`] from an existing reference grid without any
    /// differences from the reference.
    pub fn empty(reference: Vec<U>) -> (r: Self)
        requires
            T * T <= usize::MAX,
            reference@.len() == T * T,
        ensures
            r.wf(),
            r.reference_seq() == reference@,
            r.values() == reference@,
            forall|i: int| 0 <= i < Self::size() ==> #[trigger] r.reference_at(i) == reference@[i],
            forall|i: int| 0 <= i < Self::size() ==> !#[trigger] r.differs_at(i),
            forall|i: int| 0 <= i < Self::size() ==> #[trigger] r.delta_at(i) == U::zero(),
            forall|i: int| 0 <= i < Self::size() ==> #[trigger] r.value_at(i) == reference@[i],
            !r.modified(),
    {
        let n = T * T;
        let mut relative: Vec<U::Delta> = Vec::new();
        let mut has_difference: Vec<bool> = Vec::new();
        let mut i: usize = 0;
        while i < n
            invariant
                n == T * T,
                i <= n,
                relative@.len() == i,
                has_difference@.len() == i,
                forall|j: int| 0 <= j < i ==> #[trigger] relative@[j] == U::zero(),
                forall|j: int| 0 <= j < i ==> !#[trigger] has_difference@[j],
            decreases n - i,
        {
            relative.push(U::zero_delta());
            has_difference.push(false);
            i += 1;
        }
        let r = RelativeTerrainMap { reference, relative, has_difference };
        proof {
            assert forall|j: int| 0 <= j < T * T implies U::add_ok(#[trigger] r.reference@[j], r.relative@[j]) by {
                U::lemma_zero(r.reference@[j]);
            }
            assert forall|j: int| 0 <= j < Self::size() implies #[trigger] r.value_at(j) == reference@[j] by {
                U::lemma_zero(r.reference@[j]);
            }
            assert(r.reference_seq() == reference@);
            assert(r.values() == reference@);
        }
        r
    }

    /// Given a reference grid and a plugin grid, calculates the [`RelativeTerrainMap`] of the
    /// plugin with respect to the reference.
    pub fn from_difference(reference: &Vec<U>, plugin: &Vec<U>) -> (r: Self)
        requires
            T * T <= usize::MAX,
            reference@.len() == T * T,
            plugin@.len() == T * T,
            forall|i: int| 0 <= i < T * T ==> U::subtract_ok(#[trigger] plugin@[i], reference@[i]),
        ensures
            r.wf(),
            r.reference_seq() == reference@,
            r.values() == plugin@,
            forall|i: int| 0 <= i < Self::size() ==> #[trigger] r.reference_at(i) == reference@[i],
            forall|i: int| 0 <= i < Self::size() ==> #[trigger] r.value_at(i) == plugin@[i],
            forall|i: int|
                0 <= i < Self::size() ==> (#[trigger] r.differs_at(i) == (plugin@[i]
                    != reference@[i])),
    {
        let n = T * T;
        let mut relative: Vec<U::Delta> = Vec::new();
        let mut has_difference: Vec<bool> = Vec::new();
        let mut copied: Vec<U> = Vec::new();
        let mut i: usize = 0;
        while i < n
            invariant
                n == T * T,
                i <= n,
                reference@.len() == n,
                plugin@.len() == n,
                forall|j: int| 0 <= j < n ==> U::subtract_ok(#[trigger] plugin@[j], reference@[j]),
                copied@.len() == i,
                relative@.len() == i,
                has_difference@.len() == i,
                forall|j: int| 0 <= j < i ==> #[trigger] copied@[j] == reference@[j],
                forall|j: int|
                    0 <= j < i ==> #[trigger] relative@[j] == U::delta_of(plugin@[j], reference@[j]),
                forall|j: int|
                    0 <= j < i ==> #[trigger] has_difference@[j] == (relative@[j] != U::zero()),
            decreases n - i,
        {
            let d = U::subtract(plugin[i], reference[i]);
            let z = U::is_zero(&d);
            copied.push(reference[i]);
            relative.push(d);
            has_difference.push(!z);
            i += 1;
        }
        let r = RelativeTerrainMap { reference: copied, relative, has_difference };
        proof {
            assert forall|j: int| 0 <= j < T * T implies U::add_ok(#[trigger] r.reference@[j], r.relative@[j]) by {
                U::lemma_roundtrip(plugin@[j], reference@[j]);
            }
            assert forall|j: int| 0 <= j < Self::size() implies #[trigger] r.value_at(j) == plugin@[j] by {
                U::lemma_roundtrip(plugin@[j], reference@[j]);
            }
            assert forall|j: int| 0 <= j < Self::size() implies (#[trigger] r.differs_at(j) == (plugin@[j]
                != reference@[j])) by {
                U::lemma_zero_iff_equal(plugin@[j], reference@[j]);
            }
            assert(r.reference_seq() == reference@);
            assert(r.values() == plugin@);
        }
        r
    }

    /// Read-only access to the `true` or `false` differences grid.
    pub fn differences(&self) -> (r: &Vec<bool>)
        requires
            self.wf(),
        ensures
            r@ == self.difference_seq(),
            r@.len() == Self::size(),
    {
        proof {
            assert(self.has_difference@ == self.difference_seq());
        }
        &self.has_difference
    }

    /// The value at flat position `i`.
    pub(crate) fn value_at_offset(&self, i: usize) -> (v: U)
        requires
            self.wf(),
            i < Self::size(),
        ensures
            v == self.value_at(i as int),
    {
        U::add(self.reference[i], self.relative[i])
    }

    /// Whether flat position `i` differs from the reference.
    pub(crate) fn differs_at_offset(&self, i: usize) -> (b: bool)
        requires
            self.wf(),
            i < Self::size(),
        ensures
            b == self.differs_at(i as int),
            b == (self.value_at(i as int) != self.reference_at(i as int)),
    {
        proof {
            self.lemma_wf();
            assert(self.differs_at(i as int) == (self.value_at(i as int) != self.reference_at(i as int)));
        }
        self.has_difference[i]
    }

    /// The reference value at flat position `i`.
    pub(crate) fn reference_at_offset(&self, i: usize) -> (v: U)
        requires
            self.wf(),
            i < Self::size(),
        ensures
            v == self.reference_at(i as int),
    {
        self.reference[i]
    }

    /// Writes `value` at flat position `i`.
    pub(crate) fn set_value_at_offset(&mut self, i: usize, value: U)
        requires
            old(self).wf(),
            i < Self::size(),
            U::subtract_ok(value, old(self).reference_at(i as int)),
        ensures
            final(self).wf(),
            final(self).value_at(i as int) == value,
            final(self).differs_at(i as int) == (value != old(self).reference_at(i as int)),
            final(self).reference_seq() == old(self).reference_seq(),
            forall|j: int| 0 <= j < Self::size() ==> #[trigger] final(self).reference_at(j) == old(self).reference_at(j),
            forall|j: int|
                0 <= j < Self::size() && j != i ==> {
                    &&& #[trigger] final(self).value_at(j) == old(self).value_at(j)
                    &&& final(self).delta_at(j) == old(self).delta_at(j)
                    &&& final(self).differs_at(j) == old(self).differs_at(j)
                },
    {
        let difference = U::subtract(value, self.reference[i]);
        let z = U::is_zero(&difference);
        self.relative.set(i, difference);
        self.has_difference.set(i, !z);
        proof {
            let r = old(self).reference@[i as int];
            U::lemma_roundtrip(value, r);
            U::lemma_zero_iff_equal(value, r);
            assert(self.reference_seq() == old(self).reference_seq());
        }
    }

    /// Get the value at `coords` by adding the difference to the reference.
    pub fn get_value(&self, coords: Index2D) -> (v: U)
        requires
            self.wf(),
            in_grid(coords, T as nat),
        ensures
            v == self.value_at(flat_index(coords, T as nat)),
    {
        let i = grid_offset(coords, T);
        U::add(self.reference[i], self.relative[i])
    }

    /// Set the value at `coords` by calculating a new difference from the reference.
    pub fn set_value(&mut self, coords: Index2D, value: U)
        requires
            old(self).wf(),
            in_grid(coords, T as nat),
            U::subtract_ok(value, old(self).reference_at(flat_index(coords, T as nat))),
        ensures
            final(self).wf(),
            final(self).value_at(flat_index(coords, T as nat)) == value,
            final(self).differs_at(flat_index(coords, T as nat)) == (value != old(self).reference_at(
                flat_index(coords, T as nat),
            )),
            final(self).reference_seq() == old(self).reference_seq(),
            forall|i: int|
                0 <= i < Self::size() && i != flat_index(coords, T as nat) ==> {
                    &&& #[trigger] final(self).value_at(i) == old(self).value_at(i)
                    &&& final(self).delta_at(i) == old(self).delta_at(i)
                    &&& final(self).differs_at(i) == old(self).differs_at(i)
                },
    {
        let i = grid_offset(coords, T);
        let difference = U::subtract(value, self.reference[i]);
        let z = U::is_zero(&difference);
        self.relative.set(i, difference);
        self.has_difference.set(i, !z);
        proof {
            let r = old(self).reference@[i as int];
            U::lemma_roundtrip(value, r);
            U::lemma_zero_iff_equal(value, r);
            assert(self.reference_seq() == old(self).reference_seq());
        }
    }

    /// Get the difference at `coords`.
    pub fn get_difference(&self, coords: Index2D) -> (d: U::Delta)
        requires
            self.wf(),
            in_grid(coords, T as nat),
        ensures
            d == self.delta_at(flat_index(coords, T as nat)),
    {
        let i = grid_offset(coords, T);
        self.relative[i]
    }

    /// Set the difference at `coords`.
    pub fn set_difference(&mut self, coords: Index2D, difference: U::Delta)
        requires
            old(self).wf(),
            in_grid(coords, T as nat),
            U::add_ok(old(self).reference_at(flat_index(coords, T as nat)), difference),
        ensures
            final(self).wf(),
            final(self).delta_at(flat_index(coords, T as nat)) == difference,
            final(self).differs_at(flat_index(coords, T as nat)) == (difference != U::zero()),
            final(self).reference_seq() == old(self).reference_seq(),
            forall|i: int|
                0 <= i < Self::size() && i != flat_index(coords, T as nat) ==> {
                    &&& #[trigger] final(self).value_at(i) == old(self).value_at(i)
                    &&& final(self).delta_at(i) == old(self).delta_at(i)
                    &&& final(self).differs_at(i) == old(self).differs_at(i)
                },
    {
        let i = grid_offset(coords, T);
        let z = U::is_zero(&difference);
        self.relative.set(i, difference);
        self.has_difference.set(i, !z);
        proof {
            assert(self.reference_seq() == old(self).reference_seq());
        }
    }

    /// Returns `true` if there is a difference at `coords` with respect to the reference.
    pub fn has_difference(&self, coords: Index2D) -> (b: bool)
        requires
            self.wf(),
            in_grid(coords, T as nat),
        ensures
            b == self.differs_at(flat_index(coords, T as nat)),
            b == (self.value_at(flat_index(coords, T as nat)) != self.reference_at(
                flat_index(coords, T as nat),
            )),
    {
        let i = grid_offset(coords, T);
        proof {
            self.lemma_wf();
            assert(self.differs_at(i as int) == (self.value_at(i as int) != self.reference_at(i as int)));
        }
        self.has_difference[i]
    }

    /// Remove all differences.
    pub fn clean_all(&mut self)
        requires
            old(self).wf(),
        ensures
            final(self).wf(),
            final(self).reference_seq() == old(self).reference_seq(),
            final(self).values() == old(self).reference_seq(),
            forall|i: int| 0 <= i < Self::size() ==> !#[trigger] final(self).differs_at(i),
            !final(self).modified(),
    {
        let n = T * T;
        let mut i: usize = 0;
        while i < n
            invariant
                n == T * T,
                i <= n,
                self.wf(),
                self.reference@ == old(self).reference@,
                forall|j: int| 0 <= j < i ==> #[trigger] self.relative@[j] == U::zero(),
            decreases n - i,
        {
            proof {
                U::lemma_zero(self.reference@[i as int]);
            }
            self.relative.set(i, U::zero_delta());
            self.has_difference.set(i, false);
            i += 1;
        }
        proof {
            assert forall|j: int| 0 <= j < Self::size() implies #[trigger] self.value_at(j)
                == self.reference_at(j) by {
                U::lemma_zero(self.reference@[j]);
            }
            assert(self.reference_seq() == old(self).reference_seq());
            assert(self.values() == old(self).reference_seq());
        }
    }

    /// Remove differences from all coordinates in `coords`.
    pub fn clean_some(&mut self, coords: &Vec<Index2D>)
        requires
            old(self).wf(),
            forall|k: int| 0 <= k < coords@.len() ==> in_grid(#[trigger] coords@[k], T as nat),
        ensures
            final(self).wf(),
            final(self).reference_seq() == old(self).reference_seq(),
            forall|i: int|
                #![trigger final(self).value_at(i)]
                #![trigger final(self).differs_at(i)]
                0 <= i < Self::size() && listed_in(coords@, i, T as nat) ==> !final(self).differs_at(i)
                    && final(self).value_at(i) == old(self).reference_at(i),
            forall|i: int|
                #![trigger final(self).value_at(i)]
                #![trigger final(self).differs_at(i)]
                0 <= i < Self::size() && !listed_in(coords@, i, T as nat) ==> final(self).value_at(i)
                    == old(self).value_at(i) && final(self).differs_at(i) == old(self).differs_at(i),
    {
        let mut k: usize = 0;
        while k < coords.len()
            invariant
                k <= coords@.len(),
                self.wf(),
                forall|m: int| 0 <= m < coords@.len() ==> in_grid(#[trigger] coords@[m], T as nat),
                self.reference@ == old(self).reference@,
                forall|i: int|
                    0 <= i < Self::size() && listed_in(coords@.take(k as int), i, T as nat) ==> #[trigger] self.relative@[i] == U::zero(),
                forall|i: int|
                    0 <= i < Self::size() && !listed_in(coords@.take(k as int), i, T as nat) ==> #[trigger] self.relative@[i] == old(self).relative@[i],
            decreases coords@.len() - k,
        {
            let c = coords[k];
            let i = grid_offset(c, T);
            proof {
                U::lemma_zero(self.reference@[i as int]);
            }
            self.relative.set(i, U::zero_delta());
            self.has_difference.set(i, false);
            proof {
                let before = coords@.take(k as int);
                let after = coords@.take(k + 1);
                assert forall|j: int| 0 <= j < Self::size() implies
                    (#[trigger] listed_in(after, j, T as nat) == (listed_in(before, j, T as nat) || j == i)) by {
                    if listed_in(after, j, T as nat) {
                        let m = choose|m: int| 0 <= m < after.len() && flat_index(#[trigger] after[m], T as nat) == j;
                        if m < k {
                            assert(before[m] == after[m]);
                        }
                    }
                    if listed_in(before, j, T as nat) {
                        let m = choose|m: int| 0 <= m < before.len() && flat_index(#[trigger] before[m], T as nat) == j;
                        assert(before[m] == after[m]);
                    }
                    if j == i {
                        assert(after[k as int] == c);
                    }
                }
            }
            k += 1;
        }
        proof {
            assert(coords@.take(coords@.len() as int) == coords@);
            assert forall|i: int| 0 <= i < Self::size() implies #[trigger] self.value_at(i) == (if listed_in(coords@, i, T as nat) { old(self).reference_at(i) } else { old(self).value_at(i) }) by {
                U::lemma_zero(self.reference@[i]);
            }
            assert(self.reference_seq() == old(self).reference_seq());
        }
    }

    /// Create a new grid by adding the differences to the reference.
    /// This is the same as calling [`RelativeTerrainMap::get_value`] for each coordinate.
    pub fn to_terrain(&self) -> (t: Vec<U>)
        requires
            self.wf(),
        ensures
            t@ == self.values(),
            t@.len() == Self::size(),
    {
        let n = T * T;
        let mut terrain: Vec<U> = Vec::new();
        let mut i: usize = 0;
        while i < n
            invariant
                n == T * T,
                i <= n,
                self.wf(),
                terrain@.len() == i,
                forall|j: int| 0 <= j < i ==> #[trigger] terrain@[j] == self.value_at(j),
            decreases n - i,
        {
            terrain.push(U::add(self.reference[i], self.relative[i]));
            i += 1;
        }
        proof {
            assert(terrain@ == self.values());
        }
        terrain
    }
}

/// Types implementing [`IsModified`] report whether they differ from the reference.
pub trait IsModified {
    /// The value is in a state in which it can be asked.
    spec fn modified_ready(&self) -> bool;

    /// The value differs from its reference.
    spec fn modified_spec(&self) -> bool;

    /// Returns `true` if there are differences from the reference.
    fn is_modified(&self) -> (b: bool)
        requires
            self.modified_ready(),
        ensures
            b == self.modified_spec(),
    ;
}

/// The blank [`RelativeTerrainMap`]s of a LAND record's grids.
pub struct DefaultRelativeTerrainMap {}

/// The zero vertex normal.
pub open spec fn zero_normal() -> Vec3<i8> {
    Vec3 { x: 0, y: 0, z: 0 }
}

impl DefaultRelativeTerrainMap {
    /// A blank [`RelativeTerrainMap`] representing an empty height map: every height is zero
    /// and nothing differs from the reference.
    pub fn height_map() -> (r: RelativeTerrainMap<i32, 65>)
        ensures
            r.wf(),
            forall|i: int| 0 <= i < 65 * 65 ==> #[trigger] r.reference_at(i) == 0,
            forall|i: int| 0 <= i < 65 * 65 ==> #[trigger] r.value_at(i) == 0,
            forall|i: int| 0 <= i < 65 * 65 ==> !#[trigger] r.differs_at(i),
    {
        RelativeTerrainMap::default()
    }

    /// A blank [`RelativeTerrainMap`] representing an empty vertex normals map: every normal is
    /// the zero vector and nothing differs from the reference.
    pub fn vertex_normals() -> (r: RelativeTerrainMap<Vec3<i8>, 65>)
        ensures
            r.wf(),
            forall|i: int| 0 <= i < 65 * 65 ==> #[trigger] r.reference_at(i) == zero_normal(),
            forall|i: int| 0 <= i < 65 * 65 ==> #[trigger] r.value_at(i) == zero_normal(),
            forall|i: int| 0 <= i < 65 * 65 ==> !#[trigger] r.differs_at(i),
    {
        RelativeTerrainMap::default()
    }
}

impl<U: RelativeTo, const T: usize> IsModified for RelativeTerrainMap<U, T> {
    open spec fn modified_ready(&self) -> bool {
        self.wf()
    }

    open spec fn modified_spec(&self) -> bool {
        self.modified()
    }

    fn is_modified(&self) -> (b: bool) {
        let n = T * T;
        let mut i: usize = 0;
        while i < n
            invariant
                n == T * T,
                i <= n,
                self.wf(),
                forall|j: int| 0 <= j < i ==> !#[trigger] self.differs_at(j),
            decreases n - i,
        {
            if self.has_difference[i] {
                proof {
                    assert(self.differs_at(i as int));
                }
                return true;
            }
            i += 1;
        }
        false
    }
}

impl<U: RelativeTo, const T: usize> IsModified for Option<RelativeTerrainMap<U, T>> {
    open spec fn modified_ready(&self) -> bool {
        match self {
            Some(map) => map.wf(),
            None => true,
        }
    }

    open spec fn modified_spec(&self) -> bool {
        match self {
            Some(map) => map.modified(),
            None => false,
        }
    }

    fn is_modified(&self) -> (b: bool) {
        match self {
            Some(map) => map.is_modified(),
            None => false,
        }
    }
}

/// Some entry of `coords` names flat position `i` of a grid of side `side`.
pub open spec fn listed_in(coords: Seq<Index2D>, i: int, side: nat) -> bool {
    exists|k: int| 0 <= k < coords.len() && flat_index(#[trigger] coords[k], side) == i
}

/// Law: reading a position right after writing a value there gives back that value, and the
/// position is marked as different exactly when the value differs from the reference.
pub proof fn law_set_then_get<U: RelativeTo, const T: usize>(
    before: RelativeTerrainMap<U, T>,
    after: RelativeTerrainMap<U, T>,
    i: int,
    value: U,
)
    requires
        before.wf(),
        after.wf(),
        0 <= i < RelativeTerrainMap::<U, T>::size(),
        after.reference_seq() == before.reference_seq(),
        after.value_at(i) == value,
    ensures
        after.differs_at(i) == (value != before.reference_at(i)),
{
    after.lemma_wf();
    assert(after.reference_seq()[i] == before.reference_seq()[i]);
    assert(after.reference_seq()[i] == after.reference_at(i));
    assert(before.reference_seq()[i] == before.reference_at(i));
    assert(after.reference_at(i) == before.reference_at(i));
    assert(after.differs_at(i) == (after.value_at(i) != after.reference_at(i)));
}

} // verus!
