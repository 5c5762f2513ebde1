use crate::land::grid::Vec2;
use crate::merge::conflict::{resolve_or, resolved_value, ConflictType};
use crate::merge::relative_terrain_map::RelativeTerrainMap;
use crate::merge::relative_to::RelativeTo;
use vstd::prelude::*;

verus! {

/// `value` is what `average` may resolve `lhs` and `rhs` to: the resolved value of one of
/// its possible outcomes, or `lhs` when that outcome reports no conflict.
pub open spec fn resolved_by<U, F: Fn(U, U) -> Option<ConflictType<U>>>(average: F, lhs: U, rhs: U, value: U) -> bool {
    exists|c: Option<ConflictType<U>>| #[trigger] average.ensures((lhs, rhs), c) && value == resolved_value(c, lhs)
}

/// Where both plugins changed a value and `average` settles their conflict on `v`, minor or
/// major, the merged value is `v`; where `average` reports no conflict, it is the left value.
pub proof fn law_resolution_takes_the_settled_value<U, F: Fn(U, U) -> Option<ConflictType<U>>>(average: F, lhs: U, rhs: U, v: U, value: U)
    requires
        resolved_by(average, lhs, rhs, value),
    ensures
        (forall|c: Option<ConflictType<U>>| #[trigger] average.ensures((lhs, rhs), c)
            ==> c == Some(ConflictType::Minor(v)) || c == Some(ConflictType::Major(v))) ==> value == v,
        (forall|c: Option<ConflictType<U>>| #[trigger] average.ensures((lhs, rhs), c) ==> c is None) ==> value == lhs,
{
}

/// Merges two terrain maps by resolving conflicts between their changes.
pub struct ResolveConflictStrategy {}

impl ResolveConflictStrategy {
    /// Returns a copy of `lhs` updated with the changes of `rhs`: where only `rhs` changed a
    /// position, the position takes the value of `rhs`; where both changed it, the position
    /// takes the value that `average` resolves the two values to (or the value of `lhs` when
    /// `average` reports no conflict); elsewhere the position keeps the value of `lhs`.
    /// The cell coordinates, plugin name and field name identify the merge and do not
    /// influence it.
    pub fn apply<U: RelativeTo, const T: usize, F: Fn(U, U) -> Option<ConflictType<U>>>(
        &self,
        coords: Vec2,
        plugin: &str,
        value: &str,
        lhs: &RelativeTerrainMap<U, T>,
        rhs: &RelativeTerrainMap<U, T>,
        average: &F,
    ) -> (new: RelativeTerrainMap<U, T>)
        requires
            lhs.wf(),
            rhs.wf(),
            forall|a: U, b: U| average.requires((a, b)),
            forall|i: int|
                0 <= i < RelativeTerrainMap::<U, T>::size() && #[trigger] rhs.differs_at(i)
                    ==> U::subtract_ok(rhs.value_at(i), lhs.reference_at(i)),
            forall|i: int, c: Option<ConflictType<U>>|
                0 <= i < RelativeTerrainMap::<U, T>::size() && #[trigger] lhs.differs_at(i)
                    && rhs.differs_at(i) && #[trigger] average.ensures((lhs.value_at(i), rhs.value_at(i)), c)
                    ==> U::subtract_ok(resolved_value(c, lhs.value_at(i)), lhs.reference_at(i)),
        ensures
            new.wf(),
            new.reference_seq() == lhs.reference_seq(),
            forall|i: int|
                0 <= i < RelativeTerrainMap::<U, T>::size() && !lhs.differs_at(i) ==> #[trigger] new.value_at(i) == (if rhs.differs_at(i) {
                    rhs.value_at(i)
                } else {
                    lhs.value_at(i)
                }),
            forall|i: int|
                0 <= i < RelativeTerrainMap::<U, T>::size() && lhs.differs_at(i) && !rhs.differs_at(i) ==> #[trigger] new.value_at(i) == lhs.value_at(i),
            forall|i: int|
                0 <= i < RelativeTerrainMap::<U, T>::size() && lhs.differs_at(i) && rhs.differs_at(i) ==> resolved_by(*average, lhs.value_at(i), rhs.value_at(i), #[trigger] new.value_at(i)),
    {
        let mut new = lhs.clone();
        proof {
            new.lemma_same_as(*lhs);
            lhs.lemma_wf();
        }
        let n = T * T;
        let mut i: usize = 0;
        while i < n
            invariant
                n == T * T,
                i <= n,
                lhs.wf(),
                rhs.wf(),
                new.wf(),
                forall|a: U, b: U| average.requires((a, b)),
                forall|j: int|
                    0 <= j < RelativeTerrainMap::<U, T>::size() && #[trigger] rhs.differs_at(j)
                        ==> U::subtract_ok(rhs.value_at(j), lhs.reference_at(j)),
                forall|j: int, c: Option<ConflictType<U>>|
                    0 <= j < RelativeTerrainMap::<U, T>::size() && #[trigger] lhs.differs_at(j)
                        && rhs.differs_at(j) && #[trigger] average.ensures((lhs.value_at(j), rhs.value_at(j)), c)
                        ==> U::subtract_ok(resolved_value(c, lhs.value_at(j)), lhs.reference_at(j)),
                new.reference_seq() == lhs.reference_seq(),
                forall|j: int| 0 <= j < n ==> #[trigger] new.reference_at(j) == lhs.reference_at(j),
                forall|j: int|
                    i <= j < n ==> #[trigger] new.value_at(j) == lhs.value_at(j),
                forall|j: int|
                    0 <= j < i && !lhs.differs_at(j) ==> #[trigger] new.value_at(j) == (if rhs.differs_at(j) {
                        rhs.value_at(j)
                    } else {
                        lhs.value_at(j)
                    }),
                forall|j: int|
                    0 <= j < i && lhs.differs_at(j) && !rhs.differs_at(j) ==> #[trigger] new.value_at(j) == lhs.value_at(j),
                forall|j: int|
                    0 <= j < i && lhs.differs_at(j) && rhs.differs_at(j) ==> resolved_by(*average, lhs.value_at(j), rhs.value_at(j), #[trigger] new.value_at(j)),
            decreases n - i,
        {
            let ghost prev = new;
            let ghost mut chosen: Option<ConflictType<U>> = None;
            let lhs_diff = lhs.differs_at_offset(i);
            let rhs_diff = rhs.differs_at_offset(i);
            if !lhs_diff && rhs_diff {
                let v = rhs.value_at_offset(i);
                new.set_value_at_offset(i, v);
            } else if lhs_diff && rhs_diff {
                let lhs_value = lhs.value_at_offset(i);
                let rhs_value = rhs.value_at_offset(i);
                let c = average(lhs_value, rhs_value);
                let v = resolve_or(c, lhs_value);
                new.set_value_at_offset(i, v);
                proof {
                    chosen = c;
                }
            }
            proof {
                assert forall|j: int|
                    0 <= j < i + 1 && lhs.differs_at(j) && rhs.differs_at(j) implies resolved_by(*average, lhs.value_at(j), rhs.value_at(j), #[trigger] new.value_at(j)) by {
                    if j < i {
                        assert(prev.value_at(j) == new.value_at(j));
                    } else {
                        assert(average.ensures((lhs.value_at(j), rhs.value_at(j)), chosen));
                    }
                }
            }
            i += 1;
        }
        new
    }
}

} // verus!
