use crate::land::grid::Vec3;
use crate::merge::relative_to::RelativeTo;
use vstd::prelude::*;

verus! {

/// The [`ConflictType`] classifies the severity of a conflict between two values.
#[derive(Clone, Copy, Debug, PartialEq, Eq)]
pub enum ConflictType<T> {
    /// A minor [`ConflictType`].
    Minor(T),
    /// A major [`ConflictType`].
    Major(T),
}

/// The value a conflict was resolved to, or `fallback` when there was no conflict.
pub open spec fn resolved_value<T>(c: Option<ConflictType<T>>, fallback: T) -> T {
    match c {
        None => fallback,
        Some(ConflictType::Minor(v)) => v,
        Some(ConflictType::Major(v)) => v,
    }
}

/// The conflict is a major one.
pub open spec fn is_major<T>(c: Option<ConflictType<T>>) -> bool {
    c matches Some(ConflictType::Major(_))
}

/// The conflict of two vectors built from the conflicts of their components: each
/// component takes its resolved value (or the left component when it had no conflict), and
/// the whole conflict is major when any component conflict is major.
pub open spec fn combined_conflict<T>(
    lhs: Vec3<T>,
    cx: Option<ConflictType<T>>,
    cy: Option<ConflictType<T>>,
    cz: Option<ConflictType<T>>,
) -> ConflictType<Vec3<T>> {
    let v = Vec3 {
        x: resolved_value(cx, lhs.x),
        y: resolved_value(cy, lhs.y),
        z: resolved_value(cz, lhs.z),
    };
    if is_major(cx) || is_major(cy) || is_major(cz) {
        ConflictType::Major(v)
    } else {
        ConflictType::Minor(v)
    }
}

/// The vector a conflict carries, whatever its severity.
pub open spec fn carried<T>(c: ConflictType<Vec3<T>>) -> Vec3<T> {
    match c {
        ConflictType::Minor(v) => v,
        ConflictType::Major(v) => v,
    }
}

/// Each component of a combined vector conflict is the value its own conflict carries, minor
/// or major, and the left component where it had none; the combined conflict is major exactly
/// when some component conflict is major.
pub proof fn law_vec3_components_take_their_conflict_value<T>(
    lhs: Vec3<T>,
    cx: Option<ConflictType<T>>,
    cy: Option<ConflictType<T>>,
    cz: Option<ConflictType<T>>,
)
    ensures
        cx matches Some(ConflictType::Minor(a)) ==> carried(combined_conflict(lhs, cx, cy, cz)).x == a,
        cx matches Some(ConflictType::Major(a)) ==> carried(combined_conflict(lhs, cx, cy, cz)).x == a,
        cx is None ==> carried(combined_conflict(lhs, cx, cy, cz)).x == lhs.x,
        cy matches Some(ConflictType::Minor(a)) ==> carried(combined_conflict(lhs, cx, cy, cz)).y == a,
        cy matches Some(ConflictType::Major(a)) ==> carried(combined_conflict(lhs, cx, cy, cz)).y == a,
        cy is None ==> carried(combined_conflict(lhs, cx, cy, cz)).y == lhs.y,
        cz matches Some(ConflictType::Minor(a)) ==> carried(combined_conflict(lhs, cx, cy, cz)).z == a,
        cz matches Some(ConflictType::Major(a)) ==> carried(combined_conflict(lhs, cx, cy, cz)).z == a,
        cz is None ==> carried(combined_conflict(lhs, cx, cy, cz)).z == lhs.z,
        (combined_conflict(lhs, cx, cy, cz) is Major) <==> (cx matches Some(ConflictType::Major(_))
            || cy matches Some(ConflictType::Major(_)) || cz matches Some(ConflictType::Major(_))),
{
}

/// The value a conflict was resolved to, or `fallback` when there was no conflict.
pub fn resolve_or<T: Copy>(c: Option<ConflictType<T>>, fallback: T) -> (r: T)
    ensures
        r == resolved_value(c, fallback),
{
    match c {
        None => fallback,
        Some(ConflictType::Minor(v)) => v,
        Some(ConflictType::Major(v)) => v,
    }
}

/// Attempts to merge the vectors `lhs` and `rhs` component by component with the scalar
/// resolver `average`. Returns [`None`] when both vectors are equal. Otherwise each component
/// takes the value its conflict resolved to (or keeps the left component when the components
/// agree), and the result is [`ConflictType::Major`] when any component conflict is major.
pub fn average_vec3<T: RelativeTo, F: Fn(T, T) -> Option<ConflictType<T>>>(
    lhs: Vec3<T>,
    rhs: Vec3<T>,
    average: &F,
) -> (r: Option<ConflictType<Vec3<T>>>)
    requires
        forall|a: T, b: T| average.requires((a, b)),
    ensures
        lhs == rhs ==> r is None,
        lhs != rhs ==> exists|cx: Option<ConflictType<T>>, cy: Option<ConflictType<T>>, cz: Option<ConflictType<T>>|
            {
                &&& average.ensures((lhs.x, rhs.x), cx)
                &&& average.ensures((lhs.y, rhs.y), cy)
                &&& average.ensures((lhs.z, rhs.z), cz)
                &&& r == Some(combined_conflict(lhs, cx, cy, cz))
            },
{
    if T::same(&lhs.x, &rhs.x) && T::same(&lhs.y, &rhs.y) && T::same(&lhs.z, &rhs.z) {
        return None;
    }
    let cx = average(lhs.x, rhs.x);
    let cy = average(lhs.y, rhs.y);
    let cz = average(lhs.z, rhs.z);
    let mut num_major_conflicts: u8 = 0;
    let x = match cx {
        None => lhs.x,
        Some(ConflictType::Minor(x)) => x,
        Some(ConflictType::Major(x)) => {
            num_major_conflicts += 1;
            x
        },
    };
    let y = match cy {
        None => lhs.y,
        Some(ConflictType::Minor(y)) => y,
        Some(ConflictType::Major(y)) => {
            num_major_conflicts += 1;
            y
        },
    };
    let z = match cz {
        None => lhs.z,
        Some(ConflictType::Minor(z)) => z,
        Some(ConflictType::Major(z)) => {
            num_major_conflicts += 1;
            z
        },
    };
    let v = Vec3 { x, y, z };
    let r = if num_major_conflicts > 0 {
        Some(ConflictType::Major(v))
    } else {
        Some(ConflictType::Minor(v))
    };
    proof {
        assert(r == Some(combined_conflict(lhs, cx, cy, cz)));
    }
    r
}

} // verus!
