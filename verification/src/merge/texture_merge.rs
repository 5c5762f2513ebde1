use crate::land::grid::IndexVTEX;
use crate::merge::relative_terrain_map::RelativeTerrainMap;
use crate::merge::relative_to::RelativeTo;
use vstd::prelude::*;

verus! {

/// A grid of texture indices of a LAND record.
pub type TextureMap = RelativeTerrainMap<IndexVTEX, 16>;

/// `copy` holds the same map as `original`, or both are absent.
pub open spec fn same_optional_map<U: RelativeTo, const T: usize>(
    copy: Option<RelativeTerrainMap<U, T>>,
    original: Option<&RelativeTerrainMap<U, T>>,
) -> bool {
    match (copy, original) {
        (None, None) => true,
        (Some(c), Some(o)) => c.same_as(*o),
        _ => false,
    }
}

/// The texture grid that the newest plugin builds on: the values of `old`, or the default
/// texture everywhere when there is no `old`.
pub open spec fn texture_base(old: Option<&TextureMap>) -> Seq<IndexVTEX> {
    match old {
        Some(m) => m.values(),
        None => Seq::new(256, |i: int| IndexVTEX { value: 0 }),
    }
}

/// The texture grid after the newest plugin's changes are applied over `base`.
pub open spec fn texture_winner(base: Seq<IndexVTEX>, new: TextureMap) -> Seq<IndexVTEX> {
    Seq::new(256, |i: int| if new.differs_at(i) { new.value_at(i) } else { base[i] })
}

/// Makes an independent copy of an optional map.
pub fn clone_optional<U: RelativeTo, const T: usize>(m: Option<&RelativeTerrainMap<U, T>>) -> (r: Option<RelativeTerrainMap<U, T>>)
    ensures
        same_optional_map(r, m),
{
    match m {
        Some(m) => Some(m.clone()),
        None => None,
    }
}

/// In `OpenMW` mode, LAND texture indices are treated as categorical winner data instead of
/// numeric deltas: the newest plugin wins for the positions it actually changed. Returns `old`
/// unchanged when `new` is absent or changes nothing; otherwise a map relative to the old
/// texture grid whose values are the old grid overwritten by every position `new` changed.
pub fn merge_openmw_texture_indices(
    old: Option<&TextureMap>,
    new: Option<&TextureMap>,
) -> (r: Option<TextureMap>)
    requires
        old matches Some(m) ==> m.wf(),
        new matches Some(m) ==> m.wf(),
    ensures
        new is None ==> same_optional_map(r, old),
        new matches Some(n) ==> {
            let base = texture_base(old);
            let merged = texture_winner(base, *n);
            if merged == base {
                same_optional_map(r, old)
            } else {
                &&& r matches Some(m)
                &&& m.wf()
                &&& m.reference_seq() == base
                &&& m.values() == merged
            }
        },
{
    let new_texture_indices = match new {
        None => {
            return clone_optional(old);
        },
        Some(n) => n,
    };
    let old_texture_indices: Vec<IndexVTEX> = match old {
        Some(m) => m.to_terrain(),
        None => {
            let mut v: Vec<IndexVTEX> = Vec::new();
            let mut k: usize = 0;
            while k < 256
                invariant
                    k <= 256,
                    v@.len() == k,
                    forall|j: int| 0 <= j < k ==> #[trigger] v@[j] == (IndexVTEX { value: 0 }),
                decreases 256 - k,
            {
                v.push(IndexVTEX::new(0));
                k += 1;
            }
            proof {
                assert(v@ == texture_base(old));
            }
            v
        },
    };
    let ghost base = texture_base(old);
    let ghost merged_spec = texture_winner(base, *new_texture_indices);
    proof {
        assert(old_texture_indices@ == base);
    }
    let mut merged_texture_indices: Vec<IndexVTEX> = Vec::new();
    let mut changed_anything = false;
    let mut i: usize = 0;
    while i < 256
        invariant
            i <= 256,
            new_texture_indices.wf(),
            old_texture_indices@ == base,
            base.len() == 256,
            merged_spec == texture_winner(base, *new_texture_indices),
            merged_texture_indices@ == merged_spec.take(i as int),
            changed_anything == (exists|k: int| 0 <= k < i && #[trigger] merged_spec[k] != base[k]),
        decreases 256 - i,
    {
        let old_value = old_texture_indices[i];
        let value = if new_texture_indices.differs_at_offset(i) {
            let new_value = new_texture_indices.value_at_offset(i);
            if new_value.value != old_value.value {
                changed_anything = true;
            }
            new_value
        } else {
            old_value
        };
        merged_texture_indices.push(value);
        proof {
            if merged_spec[i as int] != base[i as int] {
                assert(exists|k: int| 0 <= k < i + 1 && #[trigger] merged_spec[k] != base[k]);
            }
            assert(merged_spec.take(i + 1) =~= merged_spec.take(i as int).push(merged_spec[i as int]));
        }
        i += 1;
    }
    proof {
        assert(merged_spec.take(256) == merged_spec);
        if !changed_anything {
            assert(merged_spec =~= base);
        } else {
            let k = choose|k: int| 0 <= k < 256 && #[trigger] merged_spec[k] != base[k];
            assert(merged_spec[k] != base[k]);
        }
    }
    if !changed_anything {
        return clone_optional(old);
    }
    Some(RelativeTerrainMap::from_difference(&old_texture_indices, &merged_texture_indices))
}

} // verus!
