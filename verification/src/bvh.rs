//! The shape of the bounding-volume hierarchy.
//!
//! A hierarchy node is built over a span of primitive indices: a random axis
//! is drawn, the span is ordered by each primitive's bounding-box minimum
//! along that axis, and the two halves become the children.  Comparing two
//! box minima is a plain integer comparison once every minimum has been
//! mapped to an order-preserving key, so the ordering, the partitioning and
//! the resulting tree are all verified here; the mapping from box
//! coordinates to keys is the front end's conversion work.
//!
//! The contract pins down the property the traversal depends on: the leaves
//! of the finished tree are exactly the indices of the span it was built
//! over — the hierarchy neither loses a primitive nor invents one.

use vstd::prelude::*;
use vstd::seq_lib::seq_to_set_distributes_over_add;
use crate::rng::random_below;

verus! {

broadcast use {vstd::seq_lib::group_to_multiset_ensures, vstd::set::group_set_axioms};

/// The bounding-box minima of one primitive along the three axes, as
/// order-preserving integer keys.
#[derive(Clone, Copy, Debug, PartialEq, Eq)]
pub struct BoxKey {
    pub x: u64,
    pub y: u64,
    pub z: u64,
}

impl BoxKey {
    /// The key along axis `n`, counting the axes as the box does: axis 1 is
    /// y, axis 2 is z, anything else is x.
    pub open spec fn spec_axis(&self, n: int) -> u64 {
        if n == 1 {
            self.y
        } else if n == 2 {
            self.z
        } else {
            self.x
        }
    }

    pub fn axis(&self, n: usize) -> (r: u64)
        ensures
            r == self.spec_axis(n as int),
    {
        if n == 1 {
            self.y
        } else if n == 2 {
            self.z
        } else {
            self.x
        }
    }
}

/// The shape of a hierarchy: an interior node with two children, or a leaf
/// holding the index of one primitive.
#[derive(Debug, PartialEq, Eq)]
pub enum BvhTree {
    Leaf(usize),
    Node { left: Box<BvhTree>, right: Box<BvhTree> },
}

impl BvhTree {
    /// The set of primitive indices at the leaves.
    pub open spec fn leaves(self) -> Set<usize>
        decreases self,
    {
        match self {
            BvhTree::Leaf(i) => set![i],
            BvhTree::Node { left, right } => (*left).leaves().union((*right).leaves()),
        }
    }

    /// The tree has the shape the builder gives a span of `span`
    /// primitives: a single primitive stands as both children of its node,
    /// a pair as the node's two leaves, and a longer span is split at its
    /// midpoint, each half built the same way.
    pub open spec fn covers(self, span: nat) -> bool
        decreases self,
    {
        match self {
            BvhTree::Leaf(_) => false,
            BvhTree::Node { left, right } => {
                if span == 1 {
                    (*left) matches BvhTree::Leaf(_) && *left == *right
                } else if span == 2 {
                    (*left) matches BvhTree::Leaf(_) && (*right) matches BvhTree::Leaf(_)
                } else if span >= 3 {
                    (*left).covers(span / 2) && (*right).covers((span - span / 2) as nat)
                } else {
                    false
                }
            },
        }
    }
}

proof fn lemma_singleton_to_set(s: Seq<usize>, o: usize)
    requires
        s.len() == 1,
        s[0] == o,
    ensures
        s.to_set() == set![o],
{
    assert(s.contains(o));
    assert forall|v: usize| s.contains(v) implies v == o by {
        let i = choose|i: int| 0 <= i < s.len() && s[i] == v;
    }
    assert(s.to_set() =~= set![o]);
}

proof fn lemma_pair_to_set(s: Seq<usize>, a: usize, b: usize)
    requires
        s.len() == 2,
        s[0] == a,
        s[1] == b,
    ensures
        s.to_set() == set![a].union(set![b]),
        s.to_set() == set![b].union(set![a]),
{
    assert(s.contains(a));
    assert(s.contains(b));
    assert forall|v: usize| s.contains(v) implies (v == a || v == b) by {
        let i = choose|i: int| 0 <= i < s.len() && s[i] == v;
    }
    assert(s.to_set() =~= set![a].union(set![b]));
    assert(s.to_set() =~= set![b].union(set![a]));
}

/// Two sequences with the same multiset hold the same elements.
proof fn lemma_equal_multiset_equal_set(a: Seq<usize>, b: Seq<usize>)
    requires
        a.to_multiset() == b.to_multiset(),
    ensures
        a.to_set() == b.to_set(),
{
    assert forall|v: usize| a.contains(v) <==> b.contains(v) by {
        assert(a.contains(v) <==> a.to_multiset().count(v) > 0);
        assert(b.contains(v) <==> b.to_multiset().count(v) > 0);
    }
    assert(a.to_set() =~= b.to_set());
}

/// Order the index span `[start, end)` of `objects` by each index's key
/// along `axis`, in place, moving nothing else.
pub fn sort_span_by_axis(
    objects: &mut Vec<usize>,
    start: usize,
    end: usize,
    keys: &Vec<BoxKey>,
    axis: usize,
)
    requires
        start <= end <= old(objects)@.len(),
        forall|i: int| 0 <= i < old(objects)@.len() ==> (#[trigger] old(objects)@[i])
            < keys@.len(),
    ensures
        final(objects)@.len() == old(objects)@.len(),
        forall|i: int| 0 <= i < final(objects)@.len() ==> (#[trigger] final(objects)@[i])
            < keys@.len(),
        final(objects)@.subrange(start as int, end as int).to_multiset()
            == old(objects)@.subrange(start as int, end as int).to_multiset(),
        forall|i: int| 0 <= i < final(objects)@.len() && !(start <= i < end)
            ==> final(objects)@[i] == old(objects)@[i],
        forall|a: int, b: int| start <= a <= b < end
            ==> keys@[final(objects)@[a] as int].spec_axis(axis as int)
                <= keys@[final(objects)@[b] as int].spec_axis(axis as int),
{
    if start == end {
        return;
    }
    let ghost orig = objects@;
    let mut i: usize = start + 1;
    while i < end
        invariant
            start < i <= end <= objects@.len(),
            objects@.len() == orig.len(),
            forall|p: int| 0 <= p < objects@.len() ==> (#[trigger] objects@[p]) < keys@.len(),
            objects@.subrange(start as int, end as int).to_multiset()
                == orig.subrange(start as int, end as int).to_multiset(),
            forall|p: int| 0 <= p < objects@.len() && !(start <= p < end)
                ==> objects@[p] == orig[p],
            forall|a: int, b: int| start <= a <= b < i
                ==> keys@[objects@[a] as int].spec_axis(axis as int)
                    <= keys@[objects@[b] as int].spec_axis(axis as int),
        decreases end - i,
    {
        let mut j: usize = i;
        while j > start && keys[objects[j - 1]].axis(axis) > keys[objects[j]].axis(axis)
            invariant
                start <= j <= i < end <= objects@.len(),
                objects@.len() == orig.len(),
                forall|p: int| 0 <= p < objects@.len() ==> (#[trigger] objects@[p])
                    < keys@.len(),
                objects@.subrange(start as int, end as int).to_multiset()
                    == orig.subrange(start as int, end as int).to_multiset(),
                forall|p: int| 0 <= p < objects@.len() && !(start <= p < end)
                    ==> objects@[p] == orig[p],
                forall|a: int, b: int| start <= a < b <= i && b != j
                    ==> keys@[objects@[a] as int].spec_axis(axis as int)
                        <= keys@[objects@[b] as int].spec_axis(axis as int),
            decreases j,
        {
            let ghost prev = objects@;
            let tmp = objects[j - 1];
            let at_j = objects[j];
            objects[j - 1] = at_j;
            objects[j] = tmp;
            proof {
                crate::perm::lemma_swap_preserves_multiset(
                    prev.subrange(start as int, end as int),
                    j - 1 - start,
                    j - start,
                );
                assert(objects@.subrange(start as int, end as int) =~= prev.subrange(
                    start as int,
                    end as int,
                ).update(j - 1 - start, prev[j as int]).update(j - start, prev[j - 1]));
            }
            j = j - 1;
        }
        i = i + 1;
    }
}

/// Build the hierarchy over the index span `[start, end)` of `objects`:
/// draw a random axis; a single index becomes both children; a pair is
/// ordered by its keys along the axis; a longer span is sorted by that key
/// and split in the middle, and the halves are built the same way.
///
/// The leaves of the result are exactly the indices of the span.
pub fn build(objects: &Vec<usize>, keys: &Vec<BoxKey>, start: usize, end: usize)
    -> (t: BvhTree)
    requires
        start < end <= objects@.len(),
        forall|i: int| 0 <= i < objects@.len() ==> (#[trigger] objects@[i]) < keys@.len(),
    ensures
        t.leaves() == objects@.subrange(start as int, end as int).to_set(),
        forall|v: usize| t.leaves().contains(v) ==> v < keys@.len(),
        t.covers((end - start) as nat),
    decreases end - start,
{
    let mut local: Vec<usize> = objects.clone();
    proof {
        reveal_with_fuel(BvhTree::leaves, 3);
        assert(local@ =~= objects@);
    }
    let axis = random_below(3);
    let span = end - start;
    let t = if span == 1 {
        let o = local[start];
        proof {
            lemma_singleton_to_set(local@.subrange(start as int, end as int), o);
            assert(set![o].union(set![o]) =~= set![o]);
        }
        BvhTree::Node {
            left: Box::new(BvhTree::Leaf(o)),
            right: Box::new(BvhTree::Leaf(o)),
        }
    } else if span == 2 {
        let a = local[start];
        let b = local[start + 1];
        proof {
            lemma_pair_to_set(local@.subrange(start as int, end as int), a, b);
        }
        if keys[a].axis(axis) < keys[b].axis(axis) {
            BvhTree::Node {
                left: Box::new(BvhTree::Leaf(a)),
                right: Box::new(BvhTree::Leaf(b)),
            }
        } else {
            BvhTree::Node {
                left: Box::new(BvhTree::Leaf(b)),
                right: Box::new(BvhTree::Leaf(a)),
            }
        }
    } else {
        sort_span_by_axis(&mut local, start, end, keys, axis);
        proof {
            lemma_equal_multiset_equal_set(
                local@.subrange(start as int, end as int),
                objects@.subrange(start as int, end as int),
            );
        }
        let mid = start + span / 2;
        let left = build(&local, keys, start, mid);
        let right = build(&local, keys, mid, end);
        proof {
            assert(local@.subrange(start as int, end as int) =~= local@.subrange(
                start as int,
                mid as int,
            ) + local@.subrange(mid as int, end as int));
            seq_to_set_distributes_over_add(
                local@.subrange(start as int, mid as int),
                local@.subrange(mid as int, end as int),
            );
        }
        BvhTree::Node { left: Box::new(left), right: Box::new(right) }
    };
    proof {
        lemma_leaves_in_range(t, objects@.subrange(start as int, end as int), keys@.len());
    }
    t
}

/// Every leaf of a tree whose leaves come from `s` is an element of `s`,
/// hence below `bound` when all of `s` is.
proof fn lemma_leaves_in_range(t: BvhTree, s: Seq<usize>, bound: nat)
    requires
        t.leaves() == s.to_set(),
        forall|i: int| 0 <= i < s.len() ==> (#[trigger] s[i]) < bound,
    ensures
        forall|v: usize| t.leaves().contains(v) ==> v < bound,
{
    assert forall|v: usize| t.leaves().contains(v) implies v < bound by {
        assert(s.contains(v));
    }
}

} // verus!
