//! The bounding-volume hierarchy: a binary tree over the primitives of a
//! scene, built once, that prunes the search for the nearest hit.

use crate::aabb::{lemma_cover_admits, Aabb, Slabs};
use crate::hit::{first_n, hit_t, is_nearest, lemma_select_narrowed, no_ties, Crossing, Hit};
use rand::Rng;
use vstd::prelude::*;

verus! {

/// A node of the hierarchy. A leaf stands for one primitive, named by its
/// index in the scene. An inner node has exactly two children and the box
/// that encloses both; `id` numbers the inner nodes, so that what a ray knows
/// of each box can be kept in a list beside the tree.
#[derive(Debug)]
pub enum Bvh {
    Leaf { item: usize, bounds: Aabb },
    Inner { id: usize, bounds: Aabb, left: Box<Bvh>, right: Box<Bvh> },
}

/// The key by which a primitive is ordered along `axis`: the least
/// coordinate of its box on that axis.
pub open spec fn spec_min_key(boxes: Seq<Aabb>, item: usize, axis: usize) -> i64 {
    boxes[item as int].min.spec_along(axis)
}

/// Every entry of `order` is the index of a box.
pub open spec fn all_below(order: Seq<usize>, n: nat) -> bool {
    forall|i: int| 0 <= i < order.len() ==> (#[trigger] order[i]) < n
}

/// The keys along `axis` do not decrease from one entry of `order` to the
/// next.
pub open spec fn ordered_along(boxes: Seq<Aabb>, order: Seq<usize>, axis: usize) -> bool {
    forall|i: int, j: int|
        0 <= i <= j < order.len() ==> spec_min_key(boxes, #[trigger] order[i], axis)
            <= spec_min_key(boxes, #[trigger] order[j], axis)
}

impl Bvh {
    /// The box of this node.
    pub open spec fn spec_bounds(self) -> Aabb {
        match self {
            Bvh::Leaf { bounds, .. } => bounds,
            Bvh::Inner { bounds, .. } => bounds,
        }
    }

    /// The primitives below this node.
    pub open spec fn scope(self) -> Set<usize>
        decreases self,
    {
        match self {
            Bvh::Leaf { item, .. } => set![item],
            Bvh::Inner { left, right, .. } => left.scope().union(right.scope()),
        }
    }

    /// The number of leaves below this node.
    pub open spec fn count(self) -> nat
        decreases self,
    {
        match self {
            Bvh::Leaf { .. } => 1,
            Bvh::Inner { left, right, .. } => left.count() + right.count(),
        }
    }

    /// The number of inner nodes on the longest way from this node down to
    /// a leaf.
    pub open spec fn height(self) -> nat
        decreases self,
    {
        match self {
            Bvh::Leaf { .. } => 0,
            Bvh::Inner { left, right, .. } => if left.height() >= right.height() {
                1 + left.height()
            } else {
                1 + right.height()
            },
        }
    }

    /// The number of nodes, leaves and inner nodes together.
    pub open spec fn size(self) -> nat
        decreases self,
    {
        match self {
            Bvh::Leaf { .. } => 1,
            Bvh::Inner { left, right, .. } => 1 + left.size() + right.size(),
        }
    }

    /// Every leaf names one of `items` primitives, and every inner node has
    /// an `id` from `first_id` up to, not including, `end_id`.
    pub open spec fn fits(self, items: nat, first_id: nat, end_id: nat) -> bool
        decreases self,
    {
        match self {
            Bvh::Leaf { item, .. } => item < items,
            Bvh::Inner { id, left, right, .. } => {
                &&& first_id <= id < end_id
                &&& left.fits(items, first_id, end_id)
                &&& right.fits(items, first_id, end_id)
            },
        }
    }

    /// The inner nodes are numbered in the order in which a walk from the
    /// root meets them, a node before its children and the left child before
    /// the right one, starting at `first`.
    pub open spec fn numbered_from(self, first: nat) -> bool
        decreases self,
    {
        match self {
            Bvh::Leaf { .. } => true,
            Bvh::Inner { id, left, right, .. } => {
                &&& id == first
                &&& left.numbered_from(first + 1)
                &&& right.numbered_from(first + left.count())
            },
        }
    }

    /// The first primitives of `order` stand at the leaves as the
    /// construction places them without sorting: one primitive is a leaf,
    /// two are the left and the right child of one node.
    pub open spec fn placed_in_order(self, boxes: Seq<Aabb>, order: Seq<usize>) -> bool {
        &&& order.len() == 1 ==> self == (Bvh::Leaf {
            item: order[0],
            bounds: boxes[order[0] as int],
        })
        &&& order.len() == 2 ==> (self matches Bvh::Inner { left, right, .. } && *left == (Bvh::Leaf {
            item: order[0],
            bounds: boxes[order[0] as int],
        }) && *right == (Bvh::Leaf { item: order[1], bounds: boxes[order[1] as int] }))
    }

    /// The boxes are those of the scene: a leaf has the box of its
    /// primitive, an inner node the union of the boxes of its two children.
    pub open spec fn bounded_by(self, boxes: Seq<Aabb>) -> bool
        decreases self,
    {
        match self {
            Bvh::Leaf { item, bounds } => item < boxes.len() && bounds == boxes[item as int],
            Bvh::Inner { bounds, left, right, .. } => {
                &&& left.bounded_by(boxes)
                &&& right.bounded_by(boxes)
                &&& bounds == left.spec_bounds().spec_union(right.spec_bounds())
            },
        }
    }

    /// The tree is split as the construction splits: the left child of every
    /// inner node holds half of the node's primitives, rounded down, and
    /// below a node of more than two primitives there is an axis along which
    /// no primitive on the left has a greater key than one on the right.
    pub open spec fn split_evenly(self, boxes: Seq<Aabb>) -> bool
        decreases self,
    {
        match self {
            Bvh::Leaf { .. } => true,
            Bvh::Inner { left, right, .. } => {
                &&& left.split_evenly(boxes)
                &&& right.split_evenly(boxes)
                &&& left.count() == self.count() / 2
                &&& self.count() > 2 ==> exists|axis: usize|
                    axis < 3 && #[trigger] separates(boxes, left.scope(), right.scope(), axis)
            },
        }
    }

    /// For one ray, each box admits every crossing of every primitive below
    /// it: `slabs` holds the cuts of the ray against the box of each inner
    /// node, by `id`, and `probes` the crossings of each primitive, by index.
    pub open spec fn sound(self, probes: Seq<Crossing>, slabs: Seq<Slabs>) -> bool
        decreases self,
    {
        match self {
            Bvh::Leaf { .. } => true,
            Bvh::Inner { id, left, right, .. } => {
                &&& left.sound(probes, slabs)
                &&& right.sound(probes, slabs)
                &&& forall|i: usize, t: i64|
                    self.scope().contains(i) && i < probes.len() && (#[trigger] probes[i as int].has(
                        t,
                    )) ==> slabs[id as int].admits(t)
            },
        }
    }

    /// The cuts of one ray against the box of this node: for an inner node
    /// those listed under its `id`, for a leaf those of its primitive.
    pub open spec fn spec_cuts(self, slabs: Seq<Slabs>, own: Seq<Slabs>) -> Slabs {
        match self {
            Bvh::Leaf { item, .. } => own[item as int],
            Bvh::Inner { id, .. } => slabs[id as int],
        }
    }

    /// The cuts against the box of every inner node cover the cuts against
    /// the boxes of its two children.
    pub open spec fn nested(self, slabs: Seq<Slabs>, own: Seq<Slabs>) -> bool
        decreases self,
    {
        match self {
            Bvh::Leaf { .. } => true,
            Bvh::Inner { left, right, .. } => {
                &&& left.nested(slabs, own)
                &&& right.nested(slabs, own)
                &&& self.spec_cuts(slabs, own).covers(left.spec_cuts(slabs, own))
                &&& self.spec_cuts(slabs, own).covers(right.spec_cuts(slabs, own))
            },
        }
    }

    /// What the traversal returns: nothing where the ray misses the box of
    /// the node on the interval; else the hit of the right child searched up
    /// to the hit of the left one, or failing that the hit of the left child.
    pub open spec fn spec_hit(
        self,
        probes: Seq<Crossing>,
        slabs: Seq<Slabs>,
        t_min: i64,
        t_max: i64,
    ) -> Option<Hit>
        decreases self,
    {
        match self {
            Bvh::Leaf { item, .. } => match probes[item as int].spec_select(t_min, t_max) {
                Some(t) => Some(Hit { t, item }),
                None => None,
            },
            Bvh::Inner { id, left, right, .. } => {
                if !slabs[id as int].spec_hit(t_min, t_max) {
                    None
                } else {
                    let near = left.spec_hit(probes, slabs, t_min, t_max);
                    let limit = match near {
                        Some(h) => h.t,
                        None => t_max,
                    };
                    match right.spec_hit(probes, slabs, t_min, limit) {
                        Some(h) => Some(h),
                        None => near,
                    }
                }
            },
        }
    }

    pub fn bounds(&self) -> (b: Aabb)
        ensures
            b == self.spec_bounds(),
    {
        match self {
            Bvh::Leaf { bounds, .. } => *bounds,
            Bvh::Inner { bounds, .. } => *bounds,
        }
    }

    /// The nearest hit of one ray below this node. `probes` holds the
    /// crossings of the ray with each primitive and `slabs` its cuts against
    /// the box of each inner node.
    pub fn hit(&self, probes: &Vec<Crossing>, slabs: &Vec<Slabs>, t_min: i64, t_max: i64) -> (r:
        Option<Hit>)
        requires
            self.fits(probes@.len(), 0, slabs@.len()),
        ensures
            r == self.spec_hit(probes@, slabs@, t_min, t_max),
        decreases self,
    {
        match self {
            Bvh::Leaf { item, .. } => match probes[*item].select(t_min, t_max) {
                Some(t) => Some(Hit { t, item: *item }),
                None => None,
            },
            Bvh::Inner { id, left, right, .. } => {
                if !slabs[*id].hit(t_min, t_max) {
                    return None;
                }
                let near = left.hit(probes, slabs, t_min, t_max);
                let limit: i64 = match near {
                    Some(h) => h.t,
                    None => t_max,
                };
                match right.hit(probes, slabs, t_min, limit) {
                    Some(h) => Some(h),
                    None => near,
                }
            },
        }
    }
}

/// Along `axis`, no primitive of `left` has a greater key than one of
/// `right`.
pub open spec fn separates(boxes: Seq<Aabb>, left: Set<usize>, right: Set<usize>, axis: usize) -> bool {
    forall|i: usize, j: usize|
        #![trigger left.contains(i), right.contains(j)]
        left.contains(i) && right.contains(j) ==> spec_min_key(boxes, i, axis) <= spec_min_key(
            boxes,
            j,
            axis,
        )
}

/// The least coordinate along `axis` of the box of primitive `item`.
pub fn min_key(boxes: &Vec<Aabb>, item: usize, axis: usize) -> (k: i64)
    requires
        item < boxes@.len(),
        axis < 3,
    ensures
        k == spec_min_key(boxes@, item, axis),
{
    boxes[item].min.along(axis)
}

/// Draws the axis of a split with `rand::Rng::gen_range` on the thread's
/// generator, over the range from 0 up to, not including, 3. The draw is
/// random; the contract claims only that it lies in the range asked for.
#[verifier::external_body]
fn random_axis() -> (axis: usize)
    ensures
        axis < 3,
{
    rand::thread_rng().gen_range(0..3)
}

/// Sorts `order` with the slice method `sort_by_key` of the standard
/// library, by the key of each primitive along `axis`. The contract claims
/// what that method documents: the entries are rearranged, none is added or
/// lost, and afterwards their keys do not decrease.
#[verifier::external_body]
fn sort_along(order: &mut Vec<usize>, boxes: &Vec<Aabb>, axis: usize)
    requires
        axis < 3,
        all_below(old(order)@, boxes@.len()),
    ensures
        final(order)@.to_multiset() == old(order)@.to_multiset(),
        final(order)@.len() == old(order)@.len(),
        ordered_along(boxes@, final(order)@, axis),
{
    order.sort_by_key(|item| min_key(boxes, *item, axis));
}

/// Two lists with the same entries, counted, have the same members.
proof fn lemma_same_members(a: Seq<usize>, b: Seq<usize>)
    requires
        a.to_multiset() == b.to_multiset(),
    ensures
        a.to_set() == b.to_set(),
{
    assert forall|x: usize| a.contains(x) <==> b.contains(x) by {
        vstd::seq_lib::to_multiset_contains(a, x);
        vstd::seq_lib::to_multiset_contains(b, x);
    }
    assert(a.to_set() =~= b.to_set());
}

/// The entries of `order` from `from` up to, not including, `to`.
fn copy_range(order: &Vec<usize>, from: usize, to: usize) -> (part: Vec<usize>)
    requires
        from <= to <= order@.len(),
    ensures
        part@ == order@.subrange(from as int, to as int),
{
    let mut part: Vec<usize> = Vec::new();
    let mut k: usize = from;
    while k < to
        invariant
            from <= k <= to <= order@.len(),
            part@ == order@.subrange(from as int, k as int),
        decreases to - k,
    {
        part.push(order[k]);
        proof {
            assert(part@ =~= order@.subrange(from as int, k + 1));
        }
        k = k + 1;
    }
    part
}

/// Sorts the primitives of `order` by their keys along `axis` and splits
/// them at the midpoint: the first half, rounded down, goes left.
pub fn split_along(boxes: &Vec<Aabb>, order: Vec<usize>, axis: usize) -> (halves: (
    Vec<usize>,
    Vec<usize>,
))
    requires
        axis < 3,
        all_below(order@, boxes@.len()),
    ensures
        halves.0@.len() == order@.len() / 2,
        (halves.0@ + halves.1@).to_multiset() == order@.to_multiset(),
        ordered_along(boxes@, halves.0@ + halves.1@, axis),
{
    let mut sorted = order;
    sort_along(&mut sorted, boxes, axis);
    let mid: usize = sorted.len() / 2;
    let left = copy_range(&sorted, 0, mid);
    let right = copy_range(&sorted, mid, sorted.len());
    proof {
        assert(left@ + right@ =~= sorted@);
    }
    (left, right)
}

/// Builds the hierarchy over the primitives listed in `order`, numbering its
/// inner nodes from `first_id`.
fn build_range(boxes: &Vec<Aabb>, order: Vec<usize>, first_id: usize) -> (tree: Bvh)
    requires
        order@.len() >= 1,
        all_below(order@, boxes@.len()),
        first_id + order@.len() <= usize::MAX,
    ensures
        tree.scope() == order@.to_set(),
        tree.count() == order@.len(),
        tree.fits(boxes@.len(), first_id as nat, (first_id + order@.len() - 1) as nat),
        tree.bounded_by(boxes@),
        tree.split_evenly(boxes@),
        tree.numbered_from(first_id as nat),
        tree.placed_in_order(boxes@, order@),
    decreases order@.len(),
{
    let n: usize = order.len();
    if n == 1 {
        let item: usize = order[0];
        proof {
            assert(order@.to_set() =~= set![item]) by {
                assert(order@[0] == item);
                assert forall|x: usize| order@.contains(x) implies x == item by {
                    let i = choose|i: int| 0 <= i < order@.len() && order@[i] == x;
                }
            }
        }
        return Bvh::Leaf { item, bounds: boxes[item] };
    }
    let parts = if n == 2 {
        let halves = (copy_range(&order, 0, 1), copy_range(&order, 1, 2), Ghost(0usize));
        proof {
            assert(halves.0@ + halves.1@ =~= order@);
        }
        halves
    } else {
        let axis: usize = random_axis();
        let halves = split_along(boxes, order, axis);
        (halves.0, halves.1, Ghost(axis))
    };
    let left_order = parts.0;
    let right_order = parts.1;
    let ghost split_axis = parts.2@;
    let ghost joined = left_order@ + right_order@;
    proof {
        lemma_same_members(joined, order@);
        vstd::seq_lib::to_multiset_len(joined);
        vstd::seq_lib::to_multiset_len(order@);
        assert(joined.len() == n);
        assert forall|i: int| 0 <= i < left_order@.len() implies (#[trigger] left_order@[i])
            < boxes@.len() by {
            assert(joined[i] == left_order@[i]);
            assert(joined.contains(left_order@[i]));
            assert(order@.to_set().contains(left_order@[i]));
        }
        assert forall|i: int| 0 <= i < right_order@.len() implies (#[trigger] right_order@[i])
            < boxes@.len() by {
            assert(joined[left_order@.len() + i] == right_order@[i]);
            assert(joined.contains(right_order@[i]));
            assert(order@.to_set().contains(right_order@[i]));
        }
    }
    let left_len: usize = left_order.len();
    let left = build_range(boxes, left_order, first_id + 1);
    let right = build_range(boxes, right_order, first_id + left_len);
    let bounds = left.bounds().union(&right.bounds());
    let tree = Bvh::Inner { id: first_id, bounds, left: Box::new(left), right: Box::new(right) };
    proof {
        assert(tree.scope() =~= order@.to_set()) by {
            assert forall|x: usize| joined.contains(x) <==> (left_order@.contains(x)
                || right_order@.contains(x)) by {
                if joined.contains(x) {
                    let i = choose|i: int| 0 <= i < joined.len() && joined[i] == x;
                    if i < left_order@.len() {
                        assert(left_order@[i] == x);
                    } else {
                        assert(right_order@[i - left_order@.len()] == x);
                    }
                }
                if left_order@.contains(x) {
                    let i = choose|i: int| 0 <= i < left_order@.len() && left_order@[i] == x;
                    assert(joined[i] == x);
                }
                if right_order@.contains(x) {
                    let i = choose|i: int| 0 <= i < right_order@.len() && right_order@[i] == x;
                    assert(joined[left_order@.len() + i] == x);
                }
            }
        }
        if n > 2 {
            assert(separates(boxes@, left.scope(), right.scope(), split_axis)) by {
                assert forall|i: usize, j: usize|
                    left.scope().contains(i) && right.scope().contains(j) implies spec_min_key(
                    boxes@,
                    i,
                    split_axis,
                ) <= spec_min_key(boxes@, j, split_axis) by {
                    let a = choose|a: int| 0 <= a < left_order@.len() && left_order@[a] == i;
                    let b = choose|b: int| 0 <= b < right_order@.len() && right_order@[b] == j;
                    assert(joined[a] == i);
                    assert(joined[left_order@.len() + b] == j);
                }
            }
        }
        lemma_fits_wider(left, boxes@.len(), (first_id + 1) as nat, (first_id + left_len) as nat,
            first_id as nat, (first_id + n - 1) as nat);
        lemma_fits_wider(right, boxes@.len(), (first_id + left_len) as nat, (first_id + n - 1) as nat,
            first_id as nat, (first_id + n - 1) as nat);
    }
    tree
}

/// The indices below `n`, in order.
pub open spec fn identity_order(n: nat) -> Seq<usize> {
    Seq::new(n, |i: int| i as usize)
}

/// Builds the hierarchy over a scene of at least one primitive, given the
/// box of each. One primitive gives a leaf; two give a node over two leaves,
/// in the order given; more are sorted along an axis drawn at random, split
/// at the midpoint, and each half built in turn. Whatever axes are drawn,
/// every primitive stands under exactly one leaf, the boxes are the unions
/// of the boxes below, and the inner nodes are numbered from zero.
pub fn build(boxes: &Vec<Aabb>) -> (tree: Bvh)
    requires
        boxes@.len() >= 1,
    ensures
        tree.scope() == first_n(boxes@.len()),
        tree.count() == boxes@.len(),
        tree.fits(boxes@.len(), 0, (boxes@.len() - 1) as nat),
        tree.bounded_by(boxes@),
        tree.split_evenly(boxes@),
        tree.numbered_from(0),
        tree.placed_in_order(boxes@, identity_order(boxes@.len())),
{
    let mut order: Vec<usize> = Vec::new();
    let mut k: usize = 0;
    while k < boxes.len()
        invariant
            k <= boxes@.len(),
            order@.len() == k,
            forall|i: int| 0 <= i < k ==> (#[trigger] order@[i]) == i,
        decreases boxes@.len() - k,
    {
        order.push(k);
        k = k + 1;
    }
    proof {
        assert(order@.to_set() =~= first_n(boxes@.len())) by {
            assert forall|x: usize| x < boxes@.len() implies order@.contains(x) by {
                assert(order@[x as int] == x);
            }
        }
    }
    proof {
        assert(order@ =~= identity_order(boxes@.len()));
    }
    build_range(boxes, order, 0)
}

/// Two to the power `h`.
pub open spec fn two_to(h: nat) -> nat
    decreases h,
{
    if h == 0 {
        1
    } else {
        2 * two_to((h - 1) as nat)
    }
}

proof fn lemma_two_to_monotone(a: nat, b: nat)
    requires
        a <= b,
    ensures
        two_to(a) <= two_to(b),
    decreases b,
{
    if a < b {
        lemma_two_to_monotone(a, (b - 1) as nat);
    }
}

/// A tree split at the midpoint is as shallow as a binary tree over its
/// primitives can be: its height is the logarithm of their number to the
/// base two, rounded up.
pub proof fn lemma_height_is_logarithmic(tree: Bvh, boxes: Seq<Aabb>)
    requires
        tree.split_evenly(boxes),
    ensures
        tree.count() >= 1,
        tree.count() <= two_to(tree.height()),
        tree.height() > 0 ==> two_to((tree.height() - 1) as nat) < tree.count(),
    decreases tree,
{
    match tree {
        Bvh::Leaf { .. } => {},
        Bvh::Inner { left, right, .. } => {
            lemma_height_is_logarithmic(*left, boxes);
            lemma_height_is_logarithmic(*right, boxes);
            let below = (tree.height() - 1) as nat;
            lemma_two_to_monotone(left.height(), below);
            lemma_two_to_monotone(right.height(), below);
        },
    }
}

/// The box of a node encloses the box of every primitive below it.
pub proof fn lemma_bounds_enclose(tree: Bvh, boxes: Seq<Aabb>, item: usize)
    requires
        tree.bounded_by(boxes),
        tree.scope().contains(item),
    ensures
        item < boxes.len(),
        boxes[item as int].within(tree.spec_bounds()),
    decreases tree,
{
    match tree {
        Bvh::Leaf { .. } => {},
        Bvh::Inner { left, right, .. } => {
            if left.scope().contains(item) {
                lemma_bounds_enclose(*left, boxes, item);
            } else {
                lemma_bounds_enclose(*right, boxes, item);
            }
        },
    }
}

/// Over well-formed boxes every box of the tree is well formed.
pub proof fn lemma_bounds_wf(tree: Bvh, boxes: Seq<Aabb>)
    requires
        tree.bounded_by(boxes),
        forall|i: int| 0 <= i < boxes.len() ==> (#[trigger] boxes[i]).wf(),
    ensures
        tree.spec_bounds().wf(),
    decreases tree,
{
    match tree {
        Bvh::Leaf { .. } => {},
        Bvh::Inner { left, right, .. } => {
            lemma_bounds_wf(*left, boxes);
            lemma_bounds_wf(*right, boxes);
        },
    }
}

/// A tree whose numbers lie in one range has them in every wider range.
proof fn lemma_fits_wider(tree: Bvh, items: nat, lo: nat, hi: nat, wider_lo: nat, wider_hi: nat)
    requires
        tree.fits(items, lo, hi),
        wider_lo <= lo,
        hi <= wider_hi,
    ensures
        tree.fits(items, wider_lo, wider_hi),
    decreases tree,
{
    match tree {
        Bvh::Leaf { .. } => {},
        Bvh::Inner { left, right, .. } => {
            lemma_fits_wider(*left, items, lo, hi, wider_lo, wider_hi);
            lemma_fits_wider(*right, items, lo, hi, wider_lo, wider_hi);
        },
    }
}

/// Pruning is sound as soon as it is sound at the leaves: where the box of
/// each primitive admits the crossings of that primitive, and the cuts
/// against each box cover those against the boxes of its children, every
/// box admits every crossing below it. `own` holds the cuts of the ray
/// against the box of each primitive.
pub proof fn lemma_nested_is_sound(
    tree: Bvh,
    probes: Seq<Crossing>,
    slabs: Seq<Slabs>,
    own: Seq<Slabs>,
)
    requires
        tree.fits(probes.len(), 0, slabs.len()),
        own.len() == probes.len(),
        tree.nested(slabs, own),
        forall|i: int, t: i64|
            0 <= i < probes.len() && (#[trigger] probes[i].has(t)) ==> own[i].admits(t),
    ensures
        tree.sound(probes, slabs),
        forall|i: usize, t: i64|
            tree.scope().contains(i) && (#[trigger] probes[i as int].has(t)) ==> tree.spec_cuts(
                slabs,
                own,
            ).admits(t),
    decreases tree,
{
    match tree {
        Bvh::Leaf { .. } => {},
        Bvh::Inner { left, right, .. } => {
            lemma_nested_is_sound(*left, probes, slabs, own);
            lemma_nested_is_sound(*right, probes, slabs, own);
            let outer = tree.spec_cuts(slabs, own);
            assert forall|i: usize, t: i64|
                tree.scope().contains(i) && (#[trigger] probes[i as int].has(t)) implies outer.admits(
                t,
            ) by {
                if left.scope().contains(i) {
                    lemma_cover_admits(outer, left.spec_cuts(slabs, own), t);
                } else {
                    lemma_cover_admits(outer, right.spec_cuts(slabs, own), t);
                }
            }
        },
    }
}

/// Where every box admits the crossings below it, the traversal returns the
/// nearest hit among the primitives of the tree.
pub proof fn lemma_traversal_is_nearest(
    tree: Bvh,
    probes: Seq<Crossing>,
    slabs: Seq<Slabs>,
    t_min: i64,
    t_max: i64,
)
    requires
        tree.fits(probes.len(), 0, slabs.len()),
        tree.sound(probes, slabs),
    ensures
        is_nearest(probes, tree.scope(), t_min, t_max, tree.spec_hit(probes, slabs, t_min, t_max)),
    decreases tree,
{
    match tree {
        Bvh::Leaf { .. } => {},
        Bvh::Inner { id, left, right, .. } => {
            if !slabs[id as int].spec_hit(t_min, t_max) {
                assert forall|i: usize| tree.scope().contains(i) && i < probes.len() implies (
                #[trigger] probes[i as int]).spec_select(t_min, t_max) is None by {
                    lemma_select_narrowed(probes[i as int], t_min, t_max, t_max);
                    if let Some(s) = probes[i as int].spec_select(t_min, t_max) {
                        assert(probes[i as int].has(s));
                        assert(slabs[id as int].admits(s));
                    }
                }
            } else {
                let near = left.spec_hit(probes, slabs, t_min, t_max);
                let limit = match near {
                    Some(h) => h.t,
                    None => t_max,
                };
                lemma_traversal_is_nearest(*left, probes, slabs, t_min, t_max);
                lemma_traversal_is_nearest(*right, probes, slabs, t_min, limit);
                assert forall|i: usize| right.scope().contains(i) && i < probes.len() implies (
                #[trigger] probes[i as int]).spec_select(t_min, limit) == (match probes[i as int].spec_select(
                    t_min,
                    t_max,
                ) {
                    Some(s) => if s < limit { Some(s) } else { None },
                    None => None,
                }) by {
                    lemma_select_narrowed(probes[i as int], t_min, limit, t_max);
                }
            }
        },
    }
}

/// Two nearest hits over the same primitives lie at the same parameter.
pub proof fn lemma_nearest_is_unique(
    probes: Seq<Crossing>,
    scope: Set<usize>,
    t_min: i64,
    t_max: i64,
    a: Option<Hit>,
    b: Option<Hit>,
)
    requires
        is_nearest(probes, scope, t_min, t_max, a),
        is_nearest(probes, scope, t_min, t_max, b),
    ensures
        hit_t(a) == hit_t(b),
{
}

/// The traversal of a hierarchy over all the primitives of a scene finds a
/// hit exactly when the exhaustive search of the list finds one, and at the
/// same ray parameter.
pub proof fn lemma_traversal_matches_scan(
    tree: Bvh,
    probes: Seq<Crossing>,
    slabs: Seq<Slabs>,
    t_min: i64,
    t_max: i64,
    scan: Option<Hit>,
)
    requires
        tree.fits(probes.len(), 0, slabs.len()),
        tree.scope() == first_n(probes.len()),
        tree.sound(probes, slabs),
        is_nearest(probes, first_n(probes.len()), t_min, t_max, scan),
    ensures
        hit_t(tree.spec_hit(probes, slabs, t_min, t_max)) == hit_t(scan),
        no_ties(probes, t_min, t_max) ==> tree.spec_hit(probes, slabs, t_min, t_max) == scan,
{
    lemma_traversal_is_nearest(tree, probes, slabs, t_min, t_max);
    let found = tree.spec_hit(probes, slabs, t_min, t_max);
    lemma_nearest_is_unique(probes, tree.scope(), t_min, t_max, found, scan);
    if no_ties(probes, t_min, t_max) {
        if let Some(h) = found {
            let other = scan->Some_0;
            assert(probes[h.item as int].spec_select(t_min, t_max) == Some(h.t));
            assert(probes[other.item as int].spec_select(t_min, t_max) == Some(other.t));
            assert(h.item == other.item);
        }
    }
}

} // verus!
