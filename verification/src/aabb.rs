//! Axis-aligned bounding boxes over ordered keys, and the slab test of a ray
//! against one.

use vstd::prelude::*;

verus! {

/// The smaller of two keys.
pub open spec fn spec_lower(a: i64, b: i64) -> i64 {
    if a <= b { a } else { b }
}

/// The larger of two keys.
pub open spec fn spec_upper(a: i64, b: i64) -> i64 {
    if a >= b { a } else { b }
}

pub fn lower(a: i64, b: i64) -> (m: i64)
    ensures
        m == spec_lower(a, b),
{
    if a <= b { a } else { b }
}

pub fn upper(a: i64, b: i64) -> (m: i64)
    ensures
        m == spec_upper(a, b),
{
    if a >= b { a } else { b }
}

/// A corner of a box: one key per axis.
#[derive(Clone, Copy, Debug, PartialEq, Eq, Structural)]
pub struct Corner {
    pub x: i64,
    pub y: i64,
    pub z: i64,
}

impl Corner {
    /// The key along `axis`: 0 is x, 1 is y, anything else is z.
    pub open spec fn spec_along(self, axis: usize) -> i64 {
        if axis == 0 {
            self.x
        } else if axis == 1 {
            self.y
        } else {
            self.z
        }
    }

    pub fn along(&self, axis: usize) -> (k: i64)
        requires
            axis < 3,
        ensures
            k == self.spec_along(axis),
    {
        if axis == 0 {
            self.x
        } else if axis == 1 {
            self.y
        } else {
            self.z
        }
    }
}

/// An axis-aligned box, given by its least and greatest corner.
#[derive(Clone, Copy, Debug, PartialEq, Eq, Structural)]
pub struct Aabb {
    pub min: Corner,
    pub max: Corner,
}

impl Aabb {
    /// On every axis the least corner does not exceed the greatest.
    pub open spec fn wf(self) -> bool {
        &&& self.min.x <= self.max.x
        &&& self.min.y <= self.max.y
        &&& self.min.z <= self.max.z
    }

    /// `self` lies inside `outer` on every axis.
    pub open spec fn within(self, outer: Aabb) -> bool {
        &&& outer.min.x <= self.min.x && self.max.x <= outer.max.x
        &&& outer.min.y <= self.min.y && self.max.y <= outer.max.y
        &&& outer.min.z <= self.min.z && self.max.z <= outer.max.z
    }

    /// The smallest box that encloses both: the component-wise least of the
    /// least corners and greatest of the greatest corners.
    pub open spec fn spec_union(self, other: Aabb) -> Aabb {
        Aabb {
            min: Corner {
                x: spec_lower(self.min.x, other.min.x),
                y: spec_lower(self.min.y, other.min.y),
                z: spec_lower(self.min.z, other.min.z),
            },
            max: Corner {
                x: spec_upper(self.max.x, other.max.x),
                y: spec_upper(self.max.y, other.max.y),
                z: spec_upper(self.max.z, other.max.z),
            },
        }
    }

    /// A box from two corners; `None` when some axis has its least key above
    /// its greatest.
    pub fn new(min: Corner, max: Corner) -> (b: Option<Aabb>)
        ensures
            b is Some <==> (Aabb { min, max }).wf(),
            b is Some ==> b->Some_0 == (Aabb { min, max }),
    {
        if min.x <= max.x && min.y <= max.y && min.z <= max.z {
            Some(Aabb { min, max })
        } else {
            None
        }
    }

    pub fn union(&self, other: &Aabb) -> (u: Aabb)
        ensures
            u == self.spec_union(*other),
    {
        Aabb {
            min: Corner {
                x: lower(self.min.x, other.min.x),
                y: lower(self.min.y, other.min.y),
                z: lower(self.min.z, other.min.z),
            },
            max: Corner {
                x: upper(self.max.x, other.max.x),
                y: upper(self.max.y, other.max.y),
                z: upper(self.max.z, other.max.z),
            },
        }
    }
}

/// The union of two boxes does not depend on their order.
pub proof fn lemma_union_commutative(a: Aabb, b: Aabb)
    ensures
        a.spec_union(b) == b.spec_union(a),
{
}

/// The union of three boxes does not depend on how they are grouped.
pub proof fn lemma_union_associative(a: Aabb, b: Aabb, c: Aabb)
    ensures
        a.spec_union(b).spec_union(c) == a.spec_union(b.spec_union(c)),
{
}

/// The union of two well-formed boxes is well formed and encloses both, and
/// it is the least such box: any box that encloses both encloses the union.
pub proof fn lemma_union_encloses(a: Aabb, b: Aabb, outer: Aabb)
    requires
        a.wf(),
        b.wf(),
    ensures
        a.spec_union(b).wf(),
        a.within(a.spec_union(b)),
        b.within(a.spec_union(b)),
        a.within(outer) && b.within(outer) ==> a.spec_union(b).within(outer),
{
}

/// Where a ray crosses the two planes that bound a box on one axis: the ray
/// parameter at the plane of the least corner and at the plane of the
/// greatest corner, and whether the ray runs against the axis.
#[derive(Clone, Copy, Debug, PartialEq, Eq, Structural)]
pub struct AxisCut {
    pub at_min: i64,
    pub at_max: i64,
    pub reversed: bool,
}

impl AxisCut {
    /// The parameter at which the ray enters the slab: the two bounds are
    /// swapped when the ray runs against the axis.
    pub open spec fn enter(self) -> i64 {
        if self.reversed { self.at_max } else { self.at_min }
    }

    /// The parameter at which the ray leaves the slab.
    pub open spec fn leave(self) -> i64 {
        if self.reversed { self.at_min } else { self.at_max }
    }
}

/// The three cuts of one ray against one box.
#[derive(Clone, Copy, Debug, PartialEq, Eq, Structural)]
pub struct Slabs {
    pub x: AxisCut,
    pub y: AxisCut,
    pub z: AxisCut,
}

impl Slabs {
    /// The latest entry into any of the three slabs, not before `t_min`.
    pub open spec fn entry(self, t_min: i64) -> i64 {
        spec_upper(spec_upper(spec_upper(t_min, self.x.enter()), self.y.enter()), self.z.enter())
    }

    /// The earliest exit from any of the three slabs, not after `t_max`.
    pub open spec fn exit(self, t_max: i64) -> i64 {
        spec_lower(spec_lower(spec_lower(t_max, self.x.leave()), self.y.leave()), self.z.leave())
    }

    /// The ray is inside all three slabs somewhere in the open interval
    /// between `t_min` and `t_max`.
    pub open spec fn spec_hit(self, t_min: i64, t_max: i64) -> bool {
        self.entry(t_min) < self.exit(t_max)
    }

    /// A ray parameter that the box admits: it lies in all three slabs, and
    /// the box is not crossed in a single instant.
    pub open spec fn admits(self, t: i64) -> bool {
        &&& self.x.enter() <= t <= self.x.leave()
        &&& self.y.enter() <= t <= self.y.leave()
        &&& self.z.enter() <= t <= self.z.leave()
        &&& spec_upper(spec_upper(self.x.enter(), self.y.enter()), self.z.enter())
            < spec_lower(spec_lower(self.x.leave(), self.y.leave()), self.z.leave())
    }

    /// On every axis the ray is inside the slab of `self` for as long as it
    /// is inside the slab of `inner`, as it is where the box of `self`
    /// encloses the box of `inner`.
    pub open spec fn covers(self, inner: Slabs) -> bool {
        &&& self.x.enter() <= inner.x.enter() && inner.x.leave() <= self.x.leave()
        &&& self.y.enter() <= inner.y.enter() && inner.y.leave() <= self.y.leave()
        &&& self.z.enter() <= inner.z.enter() && inner.z.leave() <= self.z.leave()
    }

    /// The slab test: the running interval starts as `t_min` to `t_max`, is
    /// cut by each axis in turn, and the ray misses as soon as it is empty.
    pub fn hit(&self, t_min: i64, t_max: i64) -> (h: bool)
        ensures
            h == self.spec_hit(t_min, t_max),
    {
        let cuts = [self.x, self.y, self.z];
        let mut lo: i64 = t_min;
        let mut hi: i64 = t_max;
        let mut axis: usize = 0;
        while axis < 3
            invariant
                axis <= 3,
                cuts[0] == self.x,
                cuts[1] == self.y,
                cuts[2] == self.z,
                lo < hi || axis == 0,
                axis == 0 ==> lo == t_min && hi == t_max,
                axis == 1 ==> lo == spec_upper(t_min, self.x.enter()) && hi == spec_lower(
                    t_max,
                    self.x.leave(),
                ),
                axis == 2 ==> lo == spec_upper(spec_upper(t_min, self.x.enter()), self.y.enter())
                    && hi == spec_lower(spec_lower(t_max, self.x.leave()), self.y.leave()),
                axis == 3 ==> lo == self.entry(t_min) && hi == self.exit(t_max),
            decreases 3 - axis,
        {
            let cut = cuts[axis];
            let (t0, t1) = if cut.reversed {
                (cut.at_max, cut.at_min)
            } else {
                (cut.at_min, cut.at_max)
            };
            lo = upper(lo, t0);
            hi = lower(hi, t1);
            if hi <= lo {
                return false;
            }
            axis = axis + 1;
        }
        true
    }
}

/// A box that admits a parameter is hit on every open interval that holds
/// it, so pruning on a failed slab test loses no crossing inside the box.
pub proof fn lemma_admitted_is_hit(s: Slabs, t: i64, t_min: i64, t_max: i64)
    requires
        s.admits(t),
        t_min < t < t_max,
    ensures
        s.spec_hit(t_min, t_max),
{
}

/// What the cuts of an enclosed box admit, the cuts of the enclosing box
/// admit too.
pub proof fn lemma_cover_admits(outer: Slabs, inner: Slabs, t: i64)
    requires
        outer.covers(inner),
        inner.admits(t),
    ensures
        outer.admits(t),
{
}

} // verus!
