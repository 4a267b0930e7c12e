//! The traversal of the hierarchy as a sequence of questions, for a caller
//! that can answer each only when it is asked: what are the cuts of the ray
//! against the box of this node, where does the ray cross this primitive.
//! Boxes that the ray misses are never opened, so the primitives below them
//! are never asked about.

use crate::aabb::Slabs;
use crate::bvh::Bvh;
use crate::hit::{Crossing, Hit};
use vstd::prelude::*;

verus! {

/// What the walk needs to know next.
#[derive(Clone, Copy, Debug, PartialEq, Eq, Structural)]
pub enum Query {
    /// The cuts of the ray against the box of the inner node `id`.
    Cut { id: usize },
    /// The crossings of the ray with the primitive `item`.
    Probe { item: usize },
    /// Nothing: the walk is over, and this is the nearest hit.
    Done(Option<Hit>),
}

/// The upper bound of the search once `best` has been found.
pub open spec fn limit_of(best: Option<Hit>, t_max: i64) -> i64 {
    match best {
        Some(h) => h.t,
        None => t_max,
    }
}

/// The later of two results of the same search: a hit found replaces what
/// was known before.
pub open spec fn or_before(found: Option<Hit>, before: Option<Hit>) -> Option<Hit> {
    match found {
        Some(h) => Some(h),
        None => before,
    }
}

/// What a walk returns in the end if every question is answered from
/// `probes` and `slabs`: the nodes still pending are searched from the last
/// to the first, each up to the best hit known when its turn comes.
pub open spec fn spec_finish(
    pending: Seq<&Bvh>,
    best: Option<Hit>,
    probes: Seq<Crossing>,
    slabs: Seq<Slabs>,
    t_min: i64,
    t_max: i64,
) -> Option<Hit>
    decreases pending.len(),
{
    if pending.len() == 0 {
        best
    } else {
        let found = pending.last().spec_hit(probes, slabs, t_min, limit_of(best, t_max));
        spec_finish(pending.drop_last(), or_before(found, best), probes, slabs, t_min, t_max)
    }
}

/// The number of questions that the pending nodes can still give rise to.
pub open spec fn spec_remaining(pending: Seq<&Bvh>) -> nat
    decreases pending.len(),
{
    if pending.len() == 0 {
        0
    } else {
        pending.last().size() + spec_remaining(pending.drop_last())
    }
}

/// Every tree has at least one node.
pub proof fn lemma_size_positive(tree: Bvh)
    ensures
        tree.size() >= 1,
{
}

/// A traversal under way.
pub struct Walk<'a> {
    pending: Vec<&'a Bvh>,
    best: Option<Hit>,
    t_min: i64,
    t_max: i64,
}

impl<'a> Walk<'a> {
    /// The nodes still to be searched; the last is searched next.
    pub closed spec fn pending(&self) -> Seq<&Bvh> {
        self.pending@
    }

    /// The nearest hit found so far.
    pub closed spec fn best(&self) -> Option<Hit> {
        self.best
    }

    /// The lower bound of the search.
    pub closed spec fn t_min(&self) -> i64 {
        self.t_min
    }

    /// The upper bound that the search started with.
    pub closed spec fn t_max(&self) -> i64 {
        self.t_max
    }

    /// What the walk returns in the end if every question is answered from
    /// `probes` and `slabs`.
    pub open spec fn finish(&self, probes: Seq<Crossing>, slabs: Seq<Slabs>) -> Option<Hit> {
        spec_finish(self.pending(), self.best(), probes, slabs, self.t_min(), self.t_max())
    }

    /// An upper bound on the number of questions still to come.
    pub open spec fn remaining(&self) -> nat {
        spec_remaining(self.pending())
    }

    /// The question that stands next.
    pub open spec fn spec_query(&self) -> Query {
        if self.pending().len() == 0 {
            Query::Done(self.best())
        } else {
            match *self.pending().last() {
                Bvh::Leaf { item, .. } => Query::Probe { item },
                Bvh::Inner { id, .. } => Query::Cut { id },
            }
        }
    }

    /// A walk of `tree` for a ray searched between `t_min` and `t_max`.
    /// Answered truthfully, it ends with what the traversal of the tree
    /// returns.
    pub fn start(tree: &'a Bvh, t_min: i64, t_max: i64) -> (w: Walk<'a>)
        ensures
            w.pending() == seq![tree],
            w.best() is None,
            w.t_min() == t_min,
            w.t_max() == t_max,
            w.remaining() == tree.size(),
            forall|probes: Seq<Crossing>, slabs: Seq<Slabs>| #[trigger]
                w.finish(probes, slabs) == tree.spec_hit(probes, slabs, t_min, t_max),
    {
        let mut pending: Vec<&'a Bvh> = Vec::new();
        pending.push(tree);
        let w = Walk { pending, best: None, t_min, t_max };
        proof {
            assert(w.pending@ =~= seq![tree]);
            assert(w.pending@.drop_last().len() == 0);
            assert(spec_remaining(w.pending@) == tree.size() + spec_remaining(
                w.pending@.drop_last(),
            ));
            assert forall|probes: Seq<Crossing>, slabs: Seq<Slabs>| #[trigger]
                w.finish(probes, slabs) == tree.spec_hit(probes, slabs, t_min, t_max) by {
                let rest = w.pending@.drop_last();
                let found = tree.spec_hit(probes, slabs, t_min, t_max);
                assert(rest.len() == 0);
                assert(spec_finish(rest, or_before(found, None), probes, slabs, t_min, t_max)
                    == or_before(found, None));
            }
        }
        w
    }

    /// The question that stands next; `Done` exactly when nothing is left
    /// to search.
    pub fn query(&self) -> (q: Query)
        ensures
            q == self.spec_query(),
            q is Done <==> self.remaining() == 0,
    {
        proof {
            if self.pending@.len() > 0 {
                lemma_size_positive(*self.pending@.last());
            }
        }
        let n: usize = self.pending.len();
        if n == 0 {
            return Query::Done(self.best);
        }
        match self.pending[n - 1] {
            Bvh::Leaf { item, .. } => Query::Probe { item: *item },
            Bvh::Inner { id, .. } => Query::Cut { id: *id },
        }
    }

    /// Takes the crossings of the ray with the primitive that was asked
    /// about. The hit they give inside what is left of the interval becomes
    /// the nearest so far. The end of the walk is what it was for every
    /// scene in which the primitive has these crossings.
    pub fn answer_probe(&mut self, crossing: Crossing)
        requires
            old(self).spec_query() is Probe,
        ensures
            final(self).pending() == old(self).pending().drop_last(),
            final(self).remaining() == old(self).remaining() - 1,
            final(self).t_min() == old(self).t_min(),
            final(self).t_max() == old(self).t_max(),
            final(self).best() == (match crossing.spec_select(
                old(self).t_min(),
                limit_of(old(self).best(), old(self).t_max()),
            ) {
                Some(t) => Some(Hit { t, item: old(self).spec_query()->item }),
                None => old(self).best(),
            }),
            forall|probes: Seq<Crossing>, slabs: Seq<Slabs>|
                old(self).spec_query()->item < probes.len() && probes[old(self).spec_query()->item as int]
                    == crossing ==> #[trigger] final(self).finish(probes, slabs) == old(self).finish(
                    probes,
                    slabs,
                ),
    {
        let limit: i64 = match self.best {
            Some(h) => h.t,
            None => self.t_max,
        };
        let node = self.pending.pop().unwrap();
        match node {
            Bvh::Leaf { item, .. } => {
                match crossing.select(self.t_min, limit) {
                    Some(t) => {
                        self.best = Some(Hit { t, item: *item });
                    },
                    None => {},
                }
            },
            Bvh::Inner { .. } => {},
        }
    }

    /// Takes the cuts of the ray against the box that was asked about. Where
    /// the ray misses the box on what is left of the interval the node is
    /// dropped with all that is below it; else its two children are searched
    /// next, the left one first. The end of the walk is what it was for
    /// every ray with these cuts against the box.
    pub fn answer_cut(&mut self, cuts: Slabs)
        requires
            old(self).spec_query() is Cut,
        ensures
            final(self).best() == old(self).best(),
            final(self).remaining() < old(self).remaining(),
            final(self).t_min() == old(self).t_min(),
            final(self).t_max() == old(self).t_max(),
            final(self).pending() == (if cuts.spec_hit(
                old(self).t_min(),
                limit_of(old(self).best(), old(self).t_max()),
            ) {
                old(self).pending().drop_last().push(&*old(self).pending().last()->right).push(
                    &*old(self).pending().last()->left,
                )
            } else {
                old(self).pending().drop_last()
            }),
            forall|probes: Seq<Crossing>, slabs: Seq<Slabs>|
                old(self).spec_query()->id < slabs.len() && slabs[old(self).spec_query()->id as int]
                    == cuts ==> #[trigger] final(self).finish(
                    probes,
                    slabs,
                ) == old(self).finish(probes, slabs),
    {
        let limit: i64 = match self.best {
            Some(h) => h.t,
            None => self.t_max,
        };
        let ghost before = self.pending@;
        let ghost rest = self.pending@.drop_last();
        let node = self.pending.pop().unwrap();
        match node {
            Bvh::Leaf { .. } => {},
            Bvh::Inner { id, left, right, .. } => {
                let open = cuts.hit(self.t_min, limit);
                if open {
                    self.pending.push(&**right);
                    self.pending.push(&**left);
                }
                proof {
                    let after = self.pending@;
                    let best = self.best;
                    let t_min = self.t_min;
                    let t_max = self.t_max;
                    assert(before.last() == node);
                    assert(spec_remaining(before) == node.size() + spec_remaining(rest));
                    if open {
                        assert(after.drop_last() =~= rest.push(&**right));
                        assert(after.drop_last().drop_last() =~= rest);
                        assert(spec_remaining(after) == left.size() + spec_remaining(
                            after.drop_last(),
                        ));
                        assert(spec_remaining(after.drop_last()) == right.size() + spec_remaining(
                            rest,
                        ));
                    } else {
                        assert(after =~= rest);
                    }
                    assert forall|probes: Seq<Crossing>, slabs: Seq<Slabs>|
                        *id < slabs.len() && slabs[*id as int] == cuts implies #[trigger] spec_finish(
                        after,
                        best,
                        probes,
                        slabs,
                        t_min,
                        t_max,
                    ) == spec_finish(before, best, probes, slabs, t_min, t_max) by {
                        let found = node.spec_hit(probes, slabs, t_min, limit);
                        assert(spec_finish(before, best, probes, slabs, t_min, t_max)
                            == spec_finish(rest, or_before(found, best), probes, slabs, t_min, t_max));
                        if open {
                            assert(after.drop_last() =~= rest.push(&**right));
                            assert(after.drop_last().drop_last() =~= rest);
                            assert(after.last() == &**left);
                            assert(after.drop_last().last() == &**right);
                            let near = left.spec_hit(probes, slabs, t_min, limit);
                            let best1 = or_before(near, best);
                            let far = right.spec_hit(probes, slabs, t_min, limit_of(best1, t_max));
                            assert(spec_finish(after, best, probes, slabs, t_min, t_max)
                                == spec_finish(after.drop_last(), best1, probes, slabs, t_min, t_max));
                            assert(spec_finish(after.drop_last(), best1, probes, slabs, t_min, t_max)
                                == spec_finish(rest, or_before(far, best1), probes, slabs, t_min, t_max));
                            assert(or_before(far, best1) == or_before(found, best));
                        } else {
                            assert(after =~= rest);
                            assert(found is None);
                        }
                    }
                }
            },
        }
    }
}

} // verus!
