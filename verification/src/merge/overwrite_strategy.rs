use crate::land::grid::Vec2;
use crate::merge::relative_terrain_map::RelativeTerrainMap;
use crate::merge::relative_to::RelativeTo;
use vstd::prelude::*;

verus! {

/// Merges two terrain maps by overwriting any conflict with the newest change.
pub struct OverwriteStrategy {}

impl OverwriteStrategy {
    /// Returns a copy of `lhs` in which every position that `rhs` changed takes the value of
    /// `rhs`. The cell coordinates, plugin name and field name identify the merge and do not
    /// influence it.
    pub fn apply<U: RelativeTo, const T: usize>(
        &self,
        coords: Vec2,
        plugin: &str,
        value: &str,
        lhs: &RelativeTerrainMap<U, T>,
        rhs: &RelativeTerrainMap<U, T>,
    ) -> (new: RelativeTerrainMap<U, T>)
        requires
            lhs.wf(),
            rhs.wf(),
            forall|i: int|
                0 <= i < RelativeTerrainMap::<U, T>::size() && #[trigger] rhs.differs_at(i)
                    ==> U::subtract_ok(rhs.value_at(i), lhs.reference_at(i)),
        ensures
            new.wf(),
            new.reference_seq() == lhs.reference_seq(),
            forall|i: int|
                0 <= i < RelativeTerrainMap::<U, T>::size() ==> #[trigger] new.value_at(i) == (if rhs.differs_at(i) {
                    rhs.value_at(i)
                } else {
                    lhs.value_at(i)
                }),
    {
        let mut new = lhs.clone();
        proof {
            new.lemma_same_as(*lhs);
            lhs.lemma_wf();
        }
        let n = T * T;
        let mut i: usize = 0;
        while i < n
            invariant
                n == T * T,
                i <= n,
                lhs.wf(),
                rhs.wf(),
                new.wf(),
                forall|j: int|
                    0 <= j < RelativeTerrainMap::<U, T>::size() && #[trigger] rhs.differs_at(j)
                        ==> U::subtract_ok(rhs.value_at(j), lhs.reference_at(j)),
                new.reference_seq() == lhs.reference_seq(),
                forall|j: int| 0 <= j < n ==> #[trigger] new.reference_at(j) == lhs.reference_at(j),
                forall|j: int|
                    0 <= j < n ==> #[trigger] new.value_at(j) == (if j < i && rhs.differs_at(j) {
                        rhs.value_at(j)
                    } else {
                        lhs.value_at(j)
                    }),
            decreases n - i,
        {
            if rhs.differs_at_offset(i) {
                let v = rhs.value_at_offset(i);
                new.set_value_at_offset(i, v);
            }
            i += 1;
        }
        new
    }
}

} // verus!
