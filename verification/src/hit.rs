//! Where a ray crosses a primitive, which crossing counts as the hit, and the
//! exhaustive search for the nearest hit among a list of primitives.

use crate::aabb::{lower, spec_lower, spec_upper, upper};
use vstd::prelude::*;

verus! {

/// `t` lies strictly between `t_min` and `t_max`.
pub open spec fn inside(t: i64, t_min: i64, t_max: i64) -> bool {
    t_min < t && t < t_max
}

/// The ray parameters at which one ray crosses the surface of one primitive.
/// A sphere is missed or crossed twice (the two roots of its quadratic, in
/// either order); a rectangle is missed or crossed once.
#[derive(Clone, Copy, Debug, PartialEq, Eq, Structural)]
pub enum Crossing {
    Miss,
    Once(i64),
    Twice(i64, i64),
}

impl Crossing {
    /// The crossing that counts as the hit on the open interval between
    /// `t_min` and `t_max`: the smaller one if it lies inside, else the
    /// larger one if that lies inside, else none.
    pub open spec fn spec_select(self, t_min: i64, t_max: i64) -> Option<i64> {
        match self {
            Crossing::Miss => None,
            Crossing::Once(t) => if inside(t, t_min, t_max) { Some(t) } else { None },
            Crossing::Twice(a, b) => if inside(spec_lower(a, b), t_min, t_max) {
                Some(spec_lower(a, b))
            } else if inside(spec_upper(a, b), t_min, t_max) {
                Some(spec_upper(a, b))
            } else {
                None
            },
        }
    }

    /// `t` is one of the crossings.
    pub open spec fn has(self, t: i64) -> bool {
        match self {
            Crossing::Miss => false,
            Crossing::Once(a) => t == a,
            Crossing::Twice(a, b) => t == a || t == b,
        }
    }

    /// The crossing of an axis-aligned rectangle: the ray meets the plane of
    /// the rectangle at `t`, at the in-plane coordinates `a` and `b`, and
    /// crosses the rectangle exactly when both lie within its bounds.
    pub fn in_rectangle(t: i64, a: i64, b: i64, a_bounds: (i64, i64), b_bounds: (i64, i64)) -> (c:
        Crossing)
        ensures
            c == (if a_bounds.0 <= a <= a_bounds.1 && b_bounds.0 <= b <= b_bounds.1 {
                Crossing::Once(t)
            } else {
                Crossing::Miss
            }),
    {
        if a < a_bounds.0 || a > a_bounds.1 || b < b_bounds.0 || b > b_bounds.1 {
            Crossing::Miss
        } else {
            Crossing::Once(t)
        }
    }

    pub fn select(&self, t_min: i64, t_max: i64) -> (r: Option<i64>)
        ensures
            r == self.spec_select(t_min, t_max),
    {
        match *self {
            Crossing::Miss => None,
            Crossing::Once(t) => {
                if t_min < t && t < t_max {
                    Some(t)
                } else {
                    None
                }
            },
            Crossing::Twice(a, b) => {
                let near = lower(a, b);
                let far = upper(a, b);
                if t_min < near && near < t_max {
                    Some(near)
                } else if t_min < far && far < t_max {
                    Some(far)
                } else {
                    None
                }
            },
        }
    }
}

/// A hit: the ray parameter, and the index of the primitive that was hit.
#[derive(Clone, Copy, Debug, PartialEq, Eq, Structural)]
pub struct Hit {
    pub t: i64,
    pub item: usize,
}

/// The parameter of a hit, if there is one.
pub open spec fn hit_t(r: Option<Hit>) -> Option<i64> {
    match r {
        Some(h) => Some(h.t),
        None => None,
    }
}

/// `r` is the nearest hit among the primitives whose index is in `scope`:
/// `None` when none of them is hit on the interval; else a primitive of the
/// scope with its hit, which no other primitive of the scope undercuts.
pub open spec fn is_nearest(
    probes: Seq<Crossing>,
    scope: Set<usize>,
    t_min: i64,
    t_max: i64,
    r: Option<Hit>,
) -> bool {
    match r {
        None => forall|i: usize|
            scope.contains(i) && i < probes.len() ==> (#[trigger] probes[i as int]).spec_select(
                t_min,
                t_max,
            ) is None,
        Some(h) => {
            &&& inside(h.t, t_min, t_max)
            &&& scope.contains(h.item)
            &&& h.item < probes.len()
            &&& probes[h.item as int].spec_select(t_min, t_max) == Some(h.t)
            &&& forall|i: usize|
                scope.contains(i) && i < probes.len() ==> ((#[trigger] probes[i as int]).spec_select(
                    t_min,
                    t_max,
                ) matches Some(s) ==> h.t <= s)
        },
    }
}

/// No two primitives are hit at the same parameter on the interval.
pub open spec fn no_ties(probes: Seq<Crossing>, t_min: i64, t_max: i64) -> bool {
    forall|i: int, j: int|
        0 <= i < probes.len() && 0 <= j < probes.len() && i != j && (#[trigger] probes[i]).spec_select(
            t_min,
            t_max,
        ) is Some ==> probes[i].spec_select(t_min, t_max) != (#[trigger] probes[j]).spec_select(
            t_min,
            t_max,
        )
}

/// The indices below `n`.
pub open spec fn first_n(n: nat) -> Set<usize> {
    Set::new(|i: usize| i < n)
}

/// What is selected is the least crossing inside the interval, and nothing
/// is selected only where no crossing lies inside.
pub proof fn lemma_select_is_least(c: Crossing, t_min: i64, t_max: i64, t: i64)
    requires
        c.has(t),
        inside(t, t_min, t_max),
    ensures
        c.spec_select(t_min, t_max) matches Some(s) && s <= t && c.has(s) && inside(s, t_min, t_max),
{
}

/// On a narrower interval a crossing selects what it selected before, if
/// that still lies inside, and nothing otherwise.
pub proof fn lemma_select_narrowed(c: Crossing, t_min: i64, limit: i64, t_max: i64)
    requires
        limit <= t_max,
    ensures
        c.spec_select(t_min, limit) == (match c.spec_select(t_min, t_max) {
            Some(s) => if s < limit { Some(s) } else { None },
            None => None,
        }),
        c.spec_select(t_min, t_max) matches Some(s) ==> inside(s, t_min, t_max) && c.has(s),
{
}

/// The nearest hit among a flat list of primitives, found by testing each in
/// turn and lowering the upper bound of the search to each hit found. Among
/// primitives hit at the same parameter the first of the list is reported.
pub fn closest_hit(probes: &Vec<Crossing>, t_min: i64, t_max: i64) -> (r: Option<Hit>)
    ensures
        is_nearest(probes@, first_n(probes@.len()), t_min, t_max, r),
        r matches Some(h) ==> forall|i: int|
            0 <= i < h.item ==> ((#[trigger] probes@[i]).spec_select(t_min, t_max) matches Some(s)
                ==> h.t < s),
{
    let mut best: Option<Hit> = None;
    let mut limit: i64 = t_max;
    let mut k: usize = 0;
    while k < probes.len()
        invariant
            k <= probes.len(),
            is_nearest(probes@.take(k as int), first_n(k as nat), t_min, t_max, best),
            limit == (match best {
                Some(h) => h.t,
                None => t_max,
            }),
            limit <= t_max,
            best matches Some(h) ==> forall|i: int|
                0 <= i < h.item ==> ((#[trigger] probes@[i]).spec_select(t_min, t_max) matches Some(
                    s,
                ) ==> h.t < s),
        decreases probes.len() - k,
    {
        let found = probes[k].select(t_min, limit);
        proof {
            lemma_select_narrowed(probes@[k as int], t_min, limit, t_max);
            let before = probes@.take(k as int);
            let after = probes@.take(k + 1);
            assert forall|i: int| 0 <= i < k implies after[i] == before[i] by {}
            assert(after[k as int] == probes@[k as int]);
            assert forall|i: usize| first_n((k + 1) as nat).contains(i) implies i == k
                || first_n(k as nat).contains(i) by {}
            assert forall|i: int| 0 <= i < k implies (#[trigger] probes@[i]) == before[i as usize as int]
                && first_n(k as nat).contains(i as usize) by {}
        }
        match found {
            Some(t) => {
                best = Some(Hit { t, item: k });
                limit = t;
            },
            None => {},
        }
        k = k + 1;
    }
    proof {
        assert(probes@.take(k as int) =~= probes@);
    }
    best
}

} // verus!
