//! The decisions of the ray tracer that follow the intersection arithmetic:
//! which sphere a ray sees first, and whether anything blocks a light.
//!
//! Each sphere contributes the two roots `(t1, t2)` of its ray equation, as
//! double bits; a ray that misses a sphere gives two infinite roots.
use vstd::prelude::*;

use crate::ieee::{f64_le, f64_lt, less_or_equal, less_than, ordinal, INFINITY_BITS};

verus! {

/// A root that counts as a hit in `[t_min, t_max]`: inside the window and finite.
pub open spec fn hit(t: u64, t_min: u64, t_max: u64) -> bool {
    f64_le(t_min, t) && f64_le(t, t_max) && f64_lt(t, INFINITY_BITS)
}

/// A root that blocks a light: in the window `(t_min, t_max]` and finite.
pub open spec fn blocks(t: u64, t_min: u64, t_max: u64) -> bool {
    f64_lt(t_min, t) && f64_le(t, t_max) && f64_lt(t, INFINITY_BITS)
}

/// `(t, Some(i))`: `t` is the nearest hit over all roots, sphere `i` is the
/// first in list order with a root that near, and `t` is its first root
/// when that one is that near. `(infinity, None)`: no root is a hit.
pub open spec fn is_closest(roots: Seq<(u64, u64)>, t_min: u64, t_max: u64, t: u64, s: Option<usize>) -> bool {
    match s {
        None => {
            &&& t == INFINITY_BITS
            &&& forall|j: int|
                0 <= j < roots.len() ==> !hit(#[trigger] roots[j].0, t_min, t_max) && !hit(roots[j].1, t_min, t_max)
        },
        Some(i) => {
            &&& i < roots.len()
            &&& t == roots[i as int].0 || t == roots[i as int].1
            &&& hit(t, t_min, t_max)
            &&& hit(roots[i as int].0, t_min, t_max) && ordinal(roots[i as int].0) <= ordinal(t) ==> t
                == roots[i as int].0
            &&& forall|j: int|
                0 <= j < roots.len() ==> {
                    &&& hit(#[trigger] roots[j].0, t_min, t_max) ==> ordinal(t) <= ordinal(roots[j].0)
                    &&& hit(roots[j].1, t_min, t_max) ==> ordinal(t) <= ordinal(roots[j].1)
                }
            &&& forall|j: int|
                0 <= j < i ==> {
                    &&& hit(#[trigger] roots[j].0, t_min, t_max) ==> ordinal(t) < ordinal(roots[j].0)
                    &&& hit(roots[j].1, t_min, t_max) ==> ordinal(t) < ordinal(roots[j].1)
                }
        },
    }
}

/// The nearest hit of a ray among spheres whose roots are `roots`, and the
/// sphere it belongs to; ties go to the sphere listed first.
pub fn closest_intersection(roots: &Vec<(u64, u64)>, t_min: u64, t_max: u64) -> (r: (u64, Option<usize>))
    ensures
        is_closest(roots@, t_min, t_max, r.0, r.1),
{
    let mut closest_t: u64 = INFINITY_BITS;
    let mut closest: Option<usize> = None;
    let mut j: usize = 0;
    while j < roots.len()
        invariant
            0 <= j <= roots@.len(),
            is_closest(roots@.take(j as int), t_min, t_max, closest_t, closest),
            closest.is_none() ==> closest_t == INFINITY_BITS,
        decreases roots@.len() - j,
    {
        let ghost before = roots@.take(j as int);
        let (t1, t2) = roots[j];
        if less_or_equal(t_min, t1) && less_or_equal(t1, t_max) && less_than(t1, closest_t) {
            closest_t = t1;
            closest = Some(j);
        }
        if less_or_equal(t_min, t2) && less_or_equal(t2, t_max) && less_than(t2, closest_t) {
            closest_t = t2;
            closest = Some(j);
        }
        proof {
            let after = roots@.take(j + 1);
            assert(after =~= before.push((t1, t2)));
            assert(roots@[j as int] == (t1, t2));
        }
        j = j + 1;
    }
    assert(roots@.take(j as int) =~= roots@);
    (closest_t, closest)
}

/// Whether some sphere blocks the segment `(t_min, t_max]` of a ray: the
/// shadow test of a light.
pub fn any_intersection(roots: &Vec<(u64, u64)>, t_min: u64, t_max: u64) -> (r: bool)
    ensures
        r == exists|j: int|
            0 <= j < roots@.len() && (blocks(#[trigger] roots@[j].0, t_min, t_max) || blocks(
                roots@[j].1,
                t_min,
                t_max,
            )),
{
    let mut j: usize = 0;
    while j < roots.len()
        invariant
            0 <= j <= roots@.len(),
            forall|k: int|
                0 <= k < j ==> !blocks(#[trigger] roots@[k].0, t_min, t_max) && !blocks(roots@[k].1, t_min, t_max),
        decreases roots@.len() - j,
    {
        let (t1, t2) = roots[j];
        assert(roots@[j as int] == (t1, t2));
        if (less_than(t_min, t1) && less_or_equal(t1, t_max) && less_than(t1, INFINITY_BITS)) || (less_than(
            t_min,
            t2,
        ) && less_or_equal(t2, t_max) && less_than(t2, INFINITY_BITS)) {
            return true;
        }
        let ghost old_j = j as int;
        assert(!blocks(roots@[old_j].0, t_min, t_max) && !blocks(roots@[old_j].1, t_min, t_max));
        j = j + 1;
        assert forall|k: int| 0 <= k < j implies !blocks(#[trigger] roots@[k].0, t_min, t_max) && !blocks(roots@[k].1, t_min, t_max) by {
            if k < old_j {
            } else {
                assert(k == old_j);
            }
        }
    }
    false
}

} // verus!
