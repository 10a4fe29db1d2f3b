//! The bounding volume hierarchy: a binary tree of boxes over the primitives
//! of a scene, laid out in one array in the order of a depth-first walk, so
//! that a ray finds what it meets without looking at every primitive.

use vstd::prelude::*;
use crate::bounds::{Bounds3f, RaySlopes};
use crate::float::Float;
use crate::geometry::{Point3f, Ray};
use crate::pbrt::ONE_BITS;

verus! {

/// A shape in the scene, as the hierarchy sees it: something with a box
/// around it that a ray may meet.
pub trait Primitive {
    /// What meeting the primitive tells: the surface point, or whatever else
    /// the caller keeps of it.
    type Found;

    /// The box around the primitive.
    open spec fn bound(&self) -> Bounds3f {
        arbitrary()
    }

    /// What `ray` meets of the primitive before it ends, and the parameter
    /// of the ray at which it does.
    open spec fn struck(&self, ray: Ray) -> Option<(Self::Found, Float)> {
        arbitrary()
    }

    fn world_bound(&self) -> (r: Bounds3f)
        ensures
            r == self.bound(),
    ;

    fn intersect(&self, ray: &Ray) -> (r: Option<(Self::Found, Float)>)
        ensures
            r == self.struck(*ray),
    ;

    fn intersect_p(&self, ray: &Ray) -> (r: bool)
        ensures
            r == (self.struck(*ray) is Some),
    ;
}

/// How a set of primitives is split in two.
#[derive(Debug, Clone, Copy, PartialEq, Eq, Structural)]
pub enum SplitMethod {
    /// At the middle of the span of the centroids.
    Middle,
    /// Into two halves of equal size.
    EqualCounts,
    /// Where the estimated cost of finding what a ray meets is smallest.
    SurfaceAreaHeuristic,
}

/// A node of the flattened tree.
#[derive(Debug, Clone, Copy)]
pub enum BvhNode {
    /// `count` primitives, from place `first` of the hierarchy's order.
    Leaf { bounds: Bounds3f, first: usize, count: usize },
    /// Two children: the first follows the node in the array, the second
    /// stands at `second_child`. `axis` is the axis along which the
    /// primitives were split.
    Interior { bounds: Bounds3f, axis: u8, second_child: usize },
}

impl BvhNode {
    pub open spec fn box_of(self) -> Bounds3f {
        match self {
            BvhNode::Leaf { bounds, .. } => bounds,
            BvhNode::Interior { bounds, .. } => bounds,
        }
    }

    pub fn bounds(&self) -> (r: Bounds3f)
        ensures
            r == self.box_of(),
    {
        match self {
            BvhNode::Leaf { bounds, .. } => *bounds,
            BvhNode::Interior { bounds, .. } => *bounds,
        }
    }
}

/// What a subtree takes up: the nodes from its root up to `node_end`, and
/// the places from `first` up to `last` of the hierarchy's order; `split` is
/// the place at which the root's children part the places, and `first` for a
/// leaf.
pub struct Span {
    pub node_end: int,
    pub first: int,
    pub last: int,
    pub split: int,
}

/// The box around the primitives at the places `first` up to `last` of an
/// order: the union of their boxes, taken in order from the box that holds
/// nothing.
pub open spec fn range_bound<P: Primitive>(
    primitives: Seq<P>,
    order: Seq<usize>,
    first: int,
    last: int,
) -> Bounds3f
    decreases last - first,
{
    if last <= first {
        Bounds3f::nothing()
    } else {
        range_bound(primitives, order, first, last - 1).joined(
            primitives[order[last - 1] as int].bound(),
        )
    }
}

/// Whether `order` names each of `n` primitives once.
pub open spec fn is_permutation(order: Seq<usize>, n: int) -> bool {
    &&& order.len() == n
    &&& forall|i: int| 0 <= i < n ==> (#[trigger] order[i]) < n
    &&& forall|i: int, j: int| 0 <= i < j < n ==> order[i] != order[j]
}

/// Whether the node `i` is built as its span says: a leaf holds the places
/// of its span and the box around the primitives there; the children of an
/// interior node split its span between them, the first child following the
/// node, and its box is the union of theirs.
pub open spec fn node_ok<P: Primitive>(
    primitives: Seq<P>,
    order: Seq<usize>,
    nodes: Seq<BvhNode>,
    spans: Seq<Span>,
    i: int,
) -> bool {
    let span = spans[i];
    &&& 0 <= span.first < span.last <= order.len()
    &&& i < span.node_end <= nodes.len()
    &&& match nodes[i] {
        BvhNode::Leaf { bounds, first, count } => {
            &&& span.node_end == i + 1
            &&& first == span.first
            &&& first + count == span.last
            &&& bounds == range_bound(primitives, order, span.first, span.last)
        },
        BvhNode::Interior { bounds, axis, second_child } => {
            &&& axis <= 2
            &&& i + 1 < second_child < span.node_end
            &&& spans[i + 1].node_end == second_child
            &&& spans[i + 1].first == span.first
            &&& spans[i + 1].last == span.split
            &&& spans[second_child as int].first == spans[i + 1].last
            &&& spans[second_child as int].last == span.last
            &&& spans[second_child as int].node_end == span.node_end
            &&& bounds == nodes[i + 1].box_of().joined(nodes[second_child as int].box_of())
        },
    }
}

/// Exchanges two places of an order.
pub fn swap_places(order: &mut Vec<usize>, i: usize, j: usize)
    requires
        i < old(order)@.len(),
        j < old(order)@.len(),
    ensures
        final(order)@ == old(order)@.update(i as int, old(order)@[j as int]).update(
            j as int,
            old(order)@[i as int],
        ),
{
    let a: usize = order[i];
    let b: usize = order[j];
    order[i] = b;
    order[j] = a;
}

/// Exchanging two places keeps a permutation, and what lies elsewhere.
pub proof fn lemma_swap_keeps_permutation(order: Seq<usize>, n: int, i: int, j: int)
    requires
        is_permutation(order, n),
        0 <= i < n,
        0 <= j < n,
    ensures
        is_permutation(order.update(i, order[j]).update(j, order[i]), n),
{
    let swapped = order.update(i, order[j]).update(j, order[i]);
    assert forall|a: int, b: int| 0 <= a < b < n implies swapped[a] != swapped[b] by {
        let from_a = if a == i {
            j
        } else if a == j {
            i
        } else {
            a
        };
        let from_b = if b == i {
            j
        } else if b == j {
            i
        } else {
            b
        };
        assert(swapped[a] == order[from_a]);
        assert(swapped[b] == order[from_b]);
        assert(from_a != from_b);
        if from_a < from_b {
            assert(order[from_a] != order[from_b]);
        } else {
            assert(order[from_b] != order[from_a]);
        }
    }
}

/// Whether the nodes from `root` up to `root_end` are a subtree over the
/// places `first` up to `last`: the root's span says so, every node is built
/// as its span says, and the span of every node lies within the root's.
#[verifier::opaque]
pub open spec fn subtree_ok<P: Primitive>(
    primitives: Seq<P>,
    order: Seq<usize>,
    nodes: Seq<BvhNode>,
    spans: Seq<Span>,
    root: int,
    root_end: int,
    first: int,
    last: int,
) -> bool {
    &&& 0 <= root < root_end <= nodes.len()
    &&& spans.len() == nodes.len()
    &&& spans[root].node_end == root_end
    &&& spans[root].first == first
    &&& spans[root].last == last
    &&& forall|i: int|
        root <= i < root_end ==> {
            &&& #[trigger] node_ok(primitives, order, nodes, spans, i)
            &&& first <= spans[i].first
            &&& spans[i].last <= last
            &&& spans[i].node_end <= root_end
        }
}

/// The box around the primitives of some places depends on those places
/// only.
pub proof fn lemma_range_bound_frame<P: Primitive>(
    primitives: Seq<P>,
    before: Seq<usize>,
    after: Seq<usize>,
    first: int,
    last: int,
)
    requires
        0 <= first <= last <= before.len(),
        before.len() == after.len(),
        forall|k: int| first <= k < last ==> #[trigger] before[k] == after[k],
    ensures
        range_bound(primitives, before, first, last) == range_bound(primitives, after, first, last),
    decreases last - first,
{
    if first < last {
        lemma_range_bound_frame(primitives, before, after, first, last - 1);
    }
}

/// A subtree stays one when nodes are added behind it and the order is
/// changed outside its places.
pub proof fn lemma_subtree_frame<P: Primitive>(
    primitives: Seq<P>,
    order: Seq<usize>,
    nodes: Seq<BvhNode>,
    spans: Seq<Span>,
    later_order: Seq<usize>,
    later_nodes: Seq<BvhNode>,
    later_spans: Seq<Span>,
    root: int,
    root_end: int,
    first: int,
    last: int,
)
    requires
        subtree_ok(primitives, order, nodes, spans, root, root_end, first, last),
        later_order.len() == order.len(),
        later_nodes.len() >= nodes.len(),
        later_spans.len() == later_nodes.len(),
        forall|k: int| first <= k < last ==> #[trigger] order[k] == later_order[k],
        forall|i: int| root <= i < root_end ==> #[trigger] nodes[i] == later_nodes[i],
        forall|i: int| root <= i < root_end ==> #[trigger] spans[i] == later_spans[i],
    ensures
        subtree_ok(primitives, later_order, later_nodes, later_spans, root, root_end, first, last),
{
    reveal(subtree_ok);
    assert forall|i: int| root <= i < root_end implies {
        &&& #[trigger] node_ok(primitives, later_order, later_nodes, later_spans, i)
        &&& first <= later_spans[i].first
        &&& later_spans[i].last <= last
        &&& later_spans[i].node_end <= root_end
    } by {
        assert(node_ok(primitives, order, nodes, spans, i));
        let span = spans[i];
        match nodes[i] {
            BvhNode::Leaf { .. } => {
                assert forall|k: int| span.first <= k < span.last implies order[k]
                    == later_order[k] by {}
                lemma_range_bound_frame(primitives, order, later_order, span.first, span.last);
            },
            BvhNode::Interior { second_child, .. } => {
                assert(nodes[i + 1] == later_nodes[i + 1]);
                assert(nodes[second_child as int] == later_nodes[second_child as int]);
            },
        }
    }
}

/// What the building of a hierarchy keeps of a primitive: its box, and the
/// middle of the box.
#[derive(Debug, Clone, Copy)]
pub struct PrimitiveInfo {
    pub bounds: Bounds3f,
    pub centroid: Point3f,
}

/// Brings the places `start` up to `end` into an order in which the flagged
/// primitives come first, and says where the others begin.
pub fn partition_flagged(
    order: &mut Vec<usize>,
    flags: &Vec<bool>,
    start: usize,
    end: usize,
) -> (mid: usize)
    requires
        is_permutation(old(order)@, flags@.len() as int),
        start <= end <= flags@.len(),
    ensures
        is_permutation(final(order)@, flags@.len() as int),
        start <= mid <= end,
        forall|k: int|
            0 <= k < start || end <= k < flags@.len() ==> #[trigger] final(order)@[k] == old(order)@[k],
        forall|k: int| start <= k < mid ==> flags@[#[trigger] final(order)@[k] as int],
        forall|k: int| mid <= k < end ==> !flags@[#[trigger] final(order)@[k] as int],
{

    let ghost n = flags@.len() as int;
    let mut mid: usize = start;
    let mut j: usize = start;
    while j < end
        invariant
            start <= mid <= j <= end <= n,
            n == flags@.len(),
            is_permutation(order@, n),
            forall|k: int| 0 <= k < start || end <= k < n ==> #[trigger] order@[k] == old(order)@[k],
            forall|k: int| start <= k < mid ==> flags@[#[trigger] order@[k] as int],
            forall|k: int| mid <= k < j ==> !flags@[#[trigger] order@[k] as int],
        decreases end - j,
    {
        if flags[order[j]] {
            proof {
                lemma_swap_keeps_permutation(order@, n, mid as int, j as int);
            }
            swap_places(order, mid, j);
            mid = mid + 1;
        }
        j = j + 1;
    }
    mid
}

/// The centroid's coordinate along `axis` of the primitive at the place `k`.
pub open spec fn key_at(info: Seq<PrimitiveInfo>, order: Seq<usize>, axis: u8, k: int)
    -> crate::float::FloatValue {
    info[order[k] as int].centroid.along(axis)@
}

/// Whether the place `target` splits the places `start` up to `end` as a
/// sorting by the centroids along `axis` would: no primitive before it has a
/// larger centroid than the one at `target`, and none behind it a smaller
/// one.
pub open spec fn splits_at(
    info: Seq<PrimitiveInfo>,
    order: Seq<usize>,
    axis: u8,
    start: int,
    end: int,
    target: int,
) -> bool {
    &&& forall|k: int|
        start <= k < target ==> !key_at(info, order, axis, target).lt(
            #[trigger] key_at(info, order, axis, k),
        )
    &&& forall|k: int|
        target < k < end ==> !(#[trigger] key_at(info, order, axis, k)).lt(
            key_at(info, order, axis, target),
        )
}

/// Whether nothing in the places `lo` up to `hi` has a smaller centroid than
/// anything before them, from `start` on, or a larger one than anything
/// behind them, up to `end`.
pub open spec fn window_fits(
    info: Seq<PrimitiveInfo>,
    order: Seq<usize>,
    axis: u8,
    start: int,
    lo: int,
    hi: int,
    end: int,
) -> bool {
    &&& forall|k: int, m: int|
        start <= k < lo && lo <= m < hi ==> !(#[trigger] key_at(info, order, axis, m)).lt(
            #[trigger] key_at(info, order, axis, k),
        )
    &&& forall|k: int, m: int|
        hi <= k < end && lo <= m < hi ==> !(#[trigger] key_at(info, order, axis, k)).lt(
            #[trigger] key_at(info, order, axis, m),
        )
}

/// Brings the places `lo` up to `hi` into an order in which the primitive
/// that stood last stands at the place that is given back, with the
/// primitives of smaller centroid before it and the others behind it.
fn split_around_last(
    order: &mut Vec<usize>,
    info: &Vec<PrimitiveInfo>,
    axis: u8,
    lo: usize,
    hi: usize,
) -> (place: usize)
    requires
        is_permutation(old(order)@, info@.len() as int),
        lo < hi <= info@.len(),
    ensures
        is_permutation(final(order)@, info@.len() as int),
        lo <= place < hi,
        forall|k: int| 0 <= k < lo || hi <= k < info@.len() ==> #[trigger] final(order)@[k] == old(
            order,
        )@[k],
        forall|k: int|
            lo <= k < place ==> (#[trigger] key_at(info@, final(order)@, axis, k)).lt(
                key_at(info@, final(order)@, axis, place as int),
            ),
        forall|k: int|
            place < k < hi ==> !(#[trigger] key_at(info@, final(order)@, axis, k)).lt(
                key_at(info@, final(order)@, axis, place as int),
            ),
        forall|k: int|
            lo <= k < hi ==> exists|j: int|
                lo <= j < hi && #[trigger] final(order)@[k] == old(order)@[j],
{
    let ghost n = info@.len() as int;
    let last: usize = hi - 1;
    let pivot: Float = info[order[last]].centroid.component(axis);
    let mut place: usize = lo;
    let mut j: usize = lo;
    while j < last
        invariant
            lo <= place <= j <= last == hi - 1,
            hi <= n == info@.len(),
            is_permutation(order@, n),
            order@[last as int] == old(order)@[last as int],
            pivot == info@[order@[last as int] as int].centroid.along(axis),
            forall|k: int| 0 <= k < lo || hi <= k < n ==> #[trigger] order@[k] == old(order)@[k],
            forall|k: int| lo <= k < place ==> (#[trigger] key_at(info@, order@, axis, k)).lt(pivot@),
            forall|k: int| place <= k < j ==> !(#[trigger] key_at(info@, order@, axis, k)).lt(pivot@),
            forall|k: int|
                lo <= k < hi ==> exists|m: int| lo <= m < hi && #[trigger] order@[k] == old(order)@[m],
        decreases last - j,
    {
        if info[order[j]].centroid.component(axis).lt(pivot) {
            let ghost before = order@;
            proof {
                lemma_swap_keeps_permutation(order@, n, place as int, j as int);
            }
            swap_places(order, place, j);
            proof {
                assert forall|k: int| lo <= k < hi implies exists|m: int|
                    lo <= m < hi && #[trigger] order@[k] == old(order)@[m] by {
                    let from = if k == place {
                        j as int
                    } else if k == j {
                        place as int
                    } else {
                        k
                    };
                    assert(order@[k] == before[from]);
                    let m = choose|m: int| lo <= m < hi && before[from] == old(order)@[m];
                    assert(order@[k] == old(order)@[m]);
                }
                assert forall|k: int| lo <= k < place + 1 implies (#[trigger] key_at(
                    info@,
                    order@,
                    axis,
                    k,
                )).lt(pivot@) by {
                    if k < place {
                        assert(key_at(info@, before, axis, k).lt(pivot@));
                    }
                }
                assert forall|k: int| place + 1 <= k < j + 1 implies !(#[trigger] key_at(
                    info@,
                    order@,
                    axis,
                    k,
                )).lt(pivot@) by {
                    if k < j {
                        assert(!key_at(info@, before, axis, k).lt(pivot@));
                    } else {
                        assert(order@[k] == before[place as int]);
                        if place < j {
                            assert(!key_at(info@, before, axis, place as int).lt(pivot@));
                        }
                    }
                }
            }
            place = place + 1;
        }
        j = j + 1;
    }
    let ghost before = order@;
    proof {
        lemma_swap_keeps_permutation(order@, n, place as int, last as int);
    }
    swap_places(order, place, last);
    proof {
        assert forall|k: int| lo <= k < hi implies exists|m: int|
            lo <= m < hi && #[trigger] order@[k] == old(order)@[m] by {
            let from = if k == place {
                last as int
            } else if k == last {
                place as int
            } else {
                k
            };
            assert(order@[k] == before[from]);
            let m = choose|m: int| lo <= m < hi && before[from] == old(order)@[m];
            assert(order@[k] == old(order)@[m]);
        }
        assert(key_at(info@, order@, axis, place as int) == pivot@);
        assert forall|k: int| lo <= k < place implies (#[trigger] key_at(info@, order@, axis, k)).lt(
            key_at(info@, order@, axis, place as int),
        ) by {
            assert(key_at(info@, before, axis, k).lt(pivot@));
        }
        assert forall|k: int| place < k < hi implies !(#[trigger] key_at(info@, order@, axis, k)).lt(
            key_at(info@, order@, axis, place as int),
        ) by {
            if k < last {
                assert(!key_at(info@, before, axis, k).lt(pivot@));
            } else {
                assert(order@[k] == before[place as int]);
                if place < last {
                    assert(!key_at(info@, before, axis, place as int).lt(pivot@));
                }
            }
        }
    }
    place
}

/// Brings the places `start` up to `end` into an order in which the place
/// `target` splits them as a sorting by the centroids along `axis` would.
pub fn select_place(
    order: &mut Vec<usize>,
    info: &Vec<PrimitiveInfo>,
    axis: u8,
    start: usize,
    end: usize,
    target: usize,
)
    requires
        is_permutation(old(order)@, info@.len() as int),
        start <= target < end <= info@.len(),
    ensures
        is_permutation(final(order)@, info@.len() as int),
        forall|k: int|
            0 <= k < start || end <= k < info@.len() ==> #[trigger] final(order)@[k] == old(order)@[k],
        splits_at(info@, final(order)@, axis, start as int, end as int, target as int),
{
    let ghost n = info@.len() as int;
    let mut lo: usize = start;
    let mut hi: usize = end;
    while hi - lo > 1
        invariant
            start <= lo <= target < hi <= end <= n,
            n == info@.len(),
            is_permutation(order@, n),
            forall|k: int| 0 <= k < start || end <= k < n ==> #[trigger] order@[k] == old(order)@[k],
            window_fits(info@, order@, axis, start as int, lo as int, hi as int, end as int),
        decreases hi - lo,
    {
        let ghost before = order@;
        let place: usize = split_around_last(order, info, axis, lo, hi);
        proof {
            // what lay around the window still does
            assert forall|k: int, m: int| start <= k < lo && lo <= m < hi implies !(
            #[trigger] key_at(info@, order@, axis, m)).lt(
                #[trigger] key_at(info@, order@, axis, k),
            ) by {
                let j = choose|j: int| lo <= j < hi && order@[m] == before[j];
                assert(!key_at(info@, before, axis, j).lt(key_at(info@, before, axis, k)));
            }
            assert forall|k: int, m: int| hi <= k < end && lo <= m < hi implies !(
            #[trigger] key_at(info@, order@, axis, k)).lt(
                #[trigger] key_at(info@, order@, axis, m),
            ) by {
                let j = choose|j: int| lo <= j < hi && order@[m] == before[j];
                assert(!key_at(info@, before, axis, k).lt(key_at(info@, before, axis, j)));
            }
        }
        if target == place {
            proof {
                assert(splits_at(info@, order@, axis, start as int, end as int, target as int));
            }
            return ;
        } else if target < place {
            proof {
                assert forall|k: int, m: int| place <= k < end && lo <= m < place implies !(
                #[trigger] key_at(info@, order@, axis, k)).lt(
                    #[trigger] key_at(info@, order@, axis, m),
                ) by {
                    assert(key_at(info@, order@, axis, m).lt(key_at(info@, order@, axis, place as int)));
                    if k == place {
                    } else if k < hi {
                        assert(!key_at(info@, order@, axis, k).lt(
                            key_at(info@, order@, axis, place as int),
                        ));
                    }
                }
            }
            hi = place;
        } else {
            proof {
                assert forall|k: int, m: int| start <= k < place + 1 && place + 1 <= m < hi implies !(
                #[trigger] key_at(info@, order@, axis, m)).lt(
                    #[trigger] key_at(info@, order@, axis, k),
                ) by {
                    assert(!key_at(info@, order@, axis, m).lt(
                        key_at(info@, order@, axis, place as int),
                    ));
                    if k == place {
                    } else if k >= lo {
                        assert(key_at(info@, order@, axis, k).lt(
                            key_at(info@, order@, axis, place as int),
                        ));
                    }
                }
            }
            lo = place + 1;
        }
    }
    proof {
        assert(lo == target && hi == target + 1);
        assert(splits_at(info@, order@, axis, start as int, end as int, target as int));
    }
}

/// The number of buckets into which the centroids are sorted when the cost
/// of a split is estimated.
pub const N_BUCKETS: usize = 12;

/// The encoding of 12, the number of buckets.
pub const N_BUCKETS_BITS: u32 = 0x4140_0000;

/// The box around the primitives at the places `start` up to `end`.
fn bound_of_range<P: Primitive>(
    primitives: &Vec<P>,
    info: &Vec<PrimitiveInfo>,
    order: &Vec<usize>,
    start: usize,
    end: usize,
) -> (r: Bounds3f)
    requires
        is_permutation(order@, info@.len() as int),
        primitives@.len() == info@.len(),
        forall|k: int| 0 <= k < info@.len() ==> (#[trigger] info@[k]).bounds == primitives@[k].bound(),
        start <= end <= info@.len(),
    ensures
        r == range_bound(primitives@, order@, start as int, end as int),
{

    let mut r: Bounds3f = Bounds3f::empty();
    let mut i: usize = start;
    while i < end
        invariant
            start <= i <= end <= info@.len(),
            is_permutation(order@, info@.len() as int),
            primitives@.len() == info@.len(),
            forall|k: int|
                0 <= k < info@.len() ==> (#[trigger] info@[k]).bounds == primitives@[k].bound(),
            r == range_bound(primitives@, order@, start as int, i as int),
        decreases end - i,
    {
        r = r.union(&info[order[i]].bounds);
        i = i + 1;
    }
    r
}

/// The box around the centroids of the primitives at the places `start` up
/// to `end`.
fn bound_of_centroids(info: &Vec<PrimitiveInfo>, order: &Vec<usize>, start: usize, end: usize) -> (r:
    Bounds3f)
    requires
        is_permutation(order@, info@.len() as int),
        start <= end <= info@.len(),
{

    let mut r: Bounds3f = Bounds3f::empty();
    let mut i: usize = start;
    while i < end
        invariant
            start <= i <= end <= info@.len(),
            is_permutation(order@, info@.len() as int),
        decreases end - i,
    {
        r = r.union_point(&info[order[i]].centroid);
        i = i + 1;
    }
    r
}

/// The bucket of a centroid: the whole part of twelve times its place along
/// `axis` of the box around all centroids, and the last bucket where that is
/// beyond.
fn bucket_of(centroids: &Bounds3f, centroid: &Point3f, axis: u8) -> (b: usize)
    ensures
        b < N_BUCKETS,
{
    let scaled: u64 = Float { bits: N_BUCKETS_BITS }.mul(centroids.offset(centroid, axis)).to_u64();
    if scaled >= 12 {
        11
    } else {
        scaled as usize
    }
}

/// Splits the places `start` up to `end` at the middle of the span of the
/// centroids along `axis`.
fn split_middle(
    order: &mut Vec<usize>,
    flags: &mut Vec<bool>,
    info: &Vec<PrimitiveInfo>,
    centroids: &Bounds3f,
    axis: u8,
    start: usize,
    end: usize,
) -> (mid: usize)
    requires
        is_permutation(old(order)@, info@.len() as int),
        old(flags)@.len() == info@.len(),
        start <= end <= info@.len(),
    ensures
        is_permutation(final(order)@, info@.len() as int),
        final(flags)@.len() == info@.len(),
        start <= mid <= end,
        forall|k: int|
            0 <= k < start || end <= k < info@.len() ==> #[trigger] final(order)@[k] == old(order)@[k],
{

    let middle: Float = centroids.p_min.component(axis).add(centroids.p_max.component(axis)).div(
        Float { bits: crate::pbrt::TWO_BITS },
    );
    let mut i: usize = start;
    while i < end
        invariant
            start <= i <= end <= info@.len(),
            flags@.len() == info@.len(),
            order@ == old(order)@,
            is_permutation(order@, info@.len() as int),
        decreases end - i,
    {
        let k: usize = order[i];
        flags[k] = info[k].centroid.component(axis).lt(middle);
        i = i + 1;
    }
    partition_flagged(order, flags, start, end)
}

/// Splits the places `start` up to `end` where the surface area heuristic
/// finds the cost of a split smallest, or not at all where no split is
/// cheaper than a leaf.
fn split_by_cost(
    order: &mut Vec<usize>,
    flags: &mut Vec<bool>,
    info: &Vec<PrimitiveInfo>,
    bounds: &Bounds3f,
    centroids: &Bounds3f,
    axis: u8,
    start: usize,
    end: usize,
) -> (r: Option<usize>)
    requires
        is_permutation(old(order)@, info@.len() as int),
        old(flags)@.len() == info@.len(),
        start <= end <= info@.len(),
    ensures
        is_permutation(final(order)@, info@.len() as int),
        final(flags)@.len() == info@.len(),
        r matches Some(mid) ==> start <= mid <= end,
        r is None ==> final(order)@ == old(order)@,
        forall|k: int|
            0 <= k < start || end <= k < info@.len() ==> #[trigger] final(order)@[k] == old(order)@[k],
{

    // sort the primitives into the buckets
    let mut counts: Vec<u64> = Vec::new();
    let mut boxes: Vec<Bounds3f> = Vec::new();
    let mut b: usize = 0;
    while b < N_BUCKETS
        invariant
            b <= N_BUCKETS,
            counts@.len() == b,
            boxes@.len() == b,
            forall|k: int| 0 <= k < b ==> counts@[k] == 0,
        decreases N_BUCKETS - b,
    {
        counts.push(0);
        boxes.push(Bounds3f::empty());
        b = b + 1;
    }
    let mut i: usize = start;
    while i < end
        invariant
            start <= i <= end <= info@.len(),
            counts@.len() == N_BUCKETS,
            boxes@.len() == N_BUCKETS,
            forall|k: int| 0 <= k < N_BUCKETS ==> counts@[k] <= i - start,
            order@ == old(order)@,
            is_permutation(order@, info@.len() as int),
        decreases end - i,
    {
        let k: usize = order[i];
        let bucket: usize = bucket_of(centroids, &info[k].centroid, axis);
        let count: u64 = counts[bucket] + 1;
        counts[bucket] = count;
        let grown: Bounds3f = boxes[bucket].union(&info[k].bounds);
        boxes[bucket] = grown;
        i = i + 1;
    }
    // the cost of splitting after each bucket
    let one: Float = Float { bits: ONE_BITS };
    let whole: Float = bounds.surface_area();
    let mut best: usize = 0;
    let mut best_cost: Float = Float { bits: 0 };
    let mut split: usize = 0;
    while split < N_BUCKETS - 1
        invariant
            split <= N_BUCKETS - 1,
            best < N_BUCKETS - 1,
            counts@.len() == N_BUCKETS,
            boxes@.len() == N_BUCKETS,
            forall|k: int| 0 <= k < N_BUCKETS ==> counts@[k] <= end - start,
        decreases N_BUCKETS - split,
    {
        let mut left: Bounds3f = Bounds3f::empty();
        let mut right: Bounds3f = Bounds3f::empty();
        let mut left_count: u128 = 0;
        let mut right_count: u128 = 0;
        let mut k: usize = 0;
        while k < N_BUCKETS
            invariant
                k <= N_BUCKETS,
                counts@.len() == N_BUCKETS,
                boxes@.len() == N_BUCKETS,
                left_count <= k * 0xffff_ffff_ffff_ffff,
                right_count <= k * 0xffff_ffff_ffff_ffff,
            decreases N_BUCKETS - k,
        {
            if k <= split {
                left = left.union(&boxes[k]);
                left_count = left_count + counts[k] as u128;
            } else {
                right = right.union(&boxes[k]);
                right_count = right_count + counts[k] as u128;
            }
            k = k + 1;
        }
        let cost: Float = one.add(
            count_as_number(left_count).mul(left.surface_area()).add(
                count_as_number(right_count).mul(right.surface_area()),
            ).div(whole),
        );
        if split == 0 || cost.lt(best_cost) {
            best = split;
            best_cost = cost;
        }
        split = split + 1;
    }
    let leaf_cost: Float = Float::from_u64((end - start) as u64);
    if !best_cost.lt(leaf_cost) {
        return None;
    }
    let mut i: usize = start;
    while i < end
        invariant
            start <= i <= end <= info@.len(),
            flags@.len() == info@.len(),
            order@ == old(order)@,
            is_permutation(order@, info@.len() as int),
        decreases end - i,
    {
        let k: usize = order[i];
        flags[k] = bucket_of(centroids, &info[k].centroid, axis) <= best;
        i = i + 1;
    }
    Some(partition_flagged(order, flags, start, end))
}

/// A count of primitives as a number.
fn count_as_number(count: u128) -> Float {
    if count > 0xffff_ffff_ffff_ffff {
        Float::from_u64(0xffff_ffff_ffff_ffff)
    } else {
        Float::from_u64(count as u64)
    }
}

/// How a hierarchy is built: the split method, and the number of primitives
/// up to which the surface area heuristic leaves them in one leaf.
#[derive(Debug, Clone, Copy)]
pub struct BuildSettings {
    pub max_prims_in_node: usize,
    pub split_method: SplitMethod,
}

/// Whether a node is split as the settings have it: an interior node parts
/// its places strictly between its first and its last; with equal counts it
/// parts them in the middle; with the surface area heuristic it holds more
/// primitives than are left together in a leaf.
pub open spec fn split_follows(settings: BuildSettings, node: BvhNode, span: Span) -> bool {
    node is Interior ==> {
        &&& span.first < span.split < span.last
        &&& settings.split_method == SplitMethod::EqualCounts ==> span.split == span.first + (
        span.last - span.first) / 2
        &&& settings.split_method == SplitMethod::SurfaceAreaHeuristic ==> span.last - span.first
            > settings.max_prims_in_node
    }
}

/// Decides where the places `start` up to `end` are split, and along which
/// axis: at `start` where they stay together in a leaf, and else strictly
/// between `start` and `end`, the places being brought into an order that
/// goes with the split.
fn choose_split(
    info: &Vec<PrimitiveInfo>,
    settings: BuildSettings,
    order: &mut Vec<usize>,
    flags: &mut Vec<bool>,
    bounds: &Bounds3f,
    start: usize,
    end: usize,
) -> (r: (usize, u8))
    requires
        is_permutation(old(order)@, info@.len() as int),
        old(flags)@.len() == info@.len(),
        start + 1 < end <= info@.len(),
    ensures
        is_permutation(final(order)@, info@.len() as int),
        final(flags)@.len() == info@.len(),
        forall|k: int|
            0 <= k < start || end <= k < info@.len() ==> #[trigger] final(order)@[k] == old(order)@[k],
        r.1 <= 2,
        r.0 == start || start < r.0 < end,
        r.0 == start ==> final(order)@ == old(order)@,
        r.0 != start && settings.split_method == SplitMethod::EqualCounts ==> r.0 == start + (end
            - start) / 2,
        r.0 != start && settings.split_method == SplitMethod::SurfaceAreaHeuristic ==> end - start
            > settings.max_prims_in_node,
{
    let count: usize = end - start;
    let centroids: Bounds3f = bound_of_centroids(info, order, start, end);
    let axis: u8 = centroids.maximum_extent();
    if centroids.p_max.component(axis).eq(centroids.p_min.component(axis)) {
        return (start, axis);
    }
    let half: usize = start + count / 2;
    match settings.split_method {
        SplitMethod::Middle => {
            let mid: usize = split_middle(order, flags, info, &centroids, axis, start, end);
            if mid == start || mid == end {
                select_place(order, info, axis, start, end, half);
                (half, axis)
            } else {
                (mid, axis)
            }
        },
        SplitMethod::EqualCounts => {
            select_place(order, info, axis, start, end, half);
            (half, axis)
        },
        SplitMethod::SurfaceAreaHeuristic => {
            if count <= settings.max_prims_in_node {
                (start, axis)
            } else if count <= 2 {
                select_place(order, info, axis, start, end, half);
                (half, axis)
            } else {
                match split_by_cost(order, flags, info, bounds, &centroids, axis, start, end) {
                    Some(mid) => {
                        if mid == start || mid == end {
                            select_place(order, info, axis, start, end, half);
                            (half, axis)
                        } else {
                            (mid, axis)
                        }
                    },
                    None => (start, axis),
                }
            }
        },
    }
}

/// Two subtrees that follow a node, the second behind the first, make a
/// subtree when the node takes them as its children.
proof fn lemma_children_make_subtree<P: Primitive>(
    primitives: Seq<P>,
    order: Seq<usize>,
    nodes: Seq<BvhNode>,
    spans: Seq<Span>,
    index: int,
    second: int,
    start: int,
    mid: int,
    end: int,
)
    requires
        0 <= index,
        subtree_ok(primitives, order, nodes, spans, index + 1, second, start, mid),
        subtree_ok(primitives, order, nodes, spans, second, nodes.len() as int, mid, end),
        0 <= start < mid < end <= order.len(),
        spans[index] == (Span { node_end: nodes.len() as int, first: start, last: end, split: mid }),
        nodes[index] matches BvhNode::Interior { bounds, axis, second_child } && axis <= 2
            && second_child == second && bounds == nodes[index + 1].box_of().joined(
            nodes[second].box_of(),
        ),
    ensures
        subtree_ok(primitives, order, nodes, spans, index, nodes.len() as int, start, end),
{
    reveal(subtree_ok);
    assert(node_ok(primitives, order, nodes, spans, index));
    assert forall|i: int| index <= i < nodes.len() implies {
        &&& #[trigger] node_ok(primitives, order, nodes, spans, i)
        &&& start <= spans[i].first
        &&& spans[i].last <= end
        &&& spans[i].node_end <= nodes.len()
    } by {
        if i == index {
        } else if i < second {
            assert(node_ok(primitives, order, nodes, spans, i));
        } else {
            assert(node_ok(primitives, order, nodes, spans, i));
        }
    }
}

/// Adds a leaf over the places `start` up to `end` behind the nodes that
/// are there.
fn push_leaf<P: Primitive>(
    primitives: &Vec<P>,
    order: &Vec<usize>,
    nodes: &mut Vec<BvhNode>,
    spans: &mut Ghost<Seq<Span>>,
    bounds: Bounds3f,
    start: usize,
    end: usize,
)
    requires
        old(spans)@.len() == old(nodes)@.len(),
        start < end <= order@.len(),
        bounds == range_bound(primitives@, order@, start as int, end as int),
    ensures
        final(nodes)@.len() == old(nodes)@.len() + 1,
        final(spans)@.len() == final(nodes)@.len(),
        forall|i: int| 0 <= i < old(nodes)@.len() ==> #[trigger] final(nodes)@[i] == old(nodes)@[i],
        forall|i: int| 0 <= i < old(nodes)@.len() ==> #[trigger] final(spans)@[i] == old(spans)@[i],
        final(nodes)@[old(nodes)@.len() as int].box_of() == bounds,
        final(nodes)@[old(nodes)@.len() as int] is Leaf,
        subtree_ok(
            primitives@,
            order@,
            final(nodes)@,
            final(spans)@,
            old(nodes)@.len() as int,
            final(nodes)@.len() as int,
            start as int,
            end as int,
        ),
{
    let index: usize = nodes.len();
    nodes.push(BvhNode::Leaf { bounds, first: start, count: end - start });
    proof {
        *spans.borrow_mut() = spans@.push(
            Span { node_end: index + 1, first: start as int, last: end as int, split: start as int },
        );
        reveal(subtree_ok);
        assert(node_ok(primitives@, order@, nodes@, spans@, index as int));
    }
}

/// Makes the node `index` the parent of the two subtrees that follow it.
fn close_interior<P: Primitive>(
    primitives: &Vec<P>,
    order: &Vec<usize>,
    nodes: &mut Vec<BvhNode>,
    spans: &mut Ghost<Seq<Span>>,
    index: usize,
    second: usize,
    axis: u8,
    bounds: Bounds3f,
    Ghost(start): Ghost<int>,
    Ghost(mid): Ghost<int>,
    Ghost(end): Ghost<int>,
)
    requires
        axis <= 2,
        index < second < old(nodes)@.len(),
        0 <= start < mid < end <= order@.len(),
        subtree_ok(primitives@, order@, old(nodes)@, old(spans)@, index + 1, second as int, start, mid),
        subtree_ok(
            primitives@,
            order@,
            old(nodes)@,
            old(spans)@,
            second as int,
            old(nodes)@.len() as int,
            mid,
            end,
        ),
        bounds == old(nodes)@[index + 1].box_of().joined(old(nodes)@[second as int].box_of()),
    ensures
        final(nodes)@.len() == old(nodes)@.len(),
        final(spans)@.len() == final(nodes)@.len(),
        forall|i: int|
            0 <= i < old(nodes)@.len() && i != index ==> #[trigger] final(nodes)@[i] == old(nodes)@[i],
        forall|i: int|
            0 <= i < old(nodes)@.len() && i != index ==> #[trigger] final(spans)@[i] == old(spans)@[i],
        final(nodes)@[index as int].box_of() == bounds,
        final(spans)@[index as int] == (Span {
            node_end: final(nodes)@.len() as int,
            first: start,
            last: end,
            split: mid,
        }),
        subtree_ok(
            primitives@,
            order@,
            final(nodes)@,
            final(spans)@,
            index as int,
            final(nodes)@.len() as int,
            start,
            end,
        ),
{
    proof {
        reveal(subtree_ok);
    }
    nodes[index] = BvhNode::Interior { bounds, axis, second_child: second };
    proof {
        *spans.borrow_mut() = spans@.update(
            index as int,
            Span { node_end: nodes@.len() as int, first: start, last: end, split: mid },
        );
        lemma_subtree_frame(
            primitives@,
            order@,
            old(nodes)@,
            old(spans)@,
            order@,
            nodes@,
            spans@,
            index + 1,
            second as int,
            start,
            mid,
        );
        lemma_subtree_frame(
            primitives@,
            order@,
            old(nodes)@,
            old(spans)@,
            order@,
            nodes@,
            spans@,
            second as int,
            nodes@.len() as int,
            mid,
            end,
        );
        lemma_children_make_subtree(
            primitives@,
            order@,
            nodes@,
            spans@,
            index as int,
            second as int,
            start,
            mid,
            end,
        );
    }
}

/// Builds the subtree over the places `start` up to `end` behind the nodes
/// that are there, and gives its box.
fn build_range<P: Primitive>(
    primitives: &Vec<P>,
    info: &Vec<PrimitiveInfo>,
    settings: BuildSettings,
    order: &mut Vec<usize>,
    flags: &mut Vec<bool>,
    nodes: &mut Vec<BvhNode>,
    spans: &mut Ghost<Seq<Span>>,
    start: usize,
    end: usize,
) -> (bounds: Bounds3f)
    requires
        primitives@.len() == info@.len(),
        forall|k: int| 0 <= k < info@.len() ==> (#[trigger] info@[k]).bounds == primitives@[k].bound(),
        is_permutation(old(order)@, info@.len() as int),
        old(flags)@.len() == info@.len(),
        old(spans)@.len() == old(nodes)@.len(),
        start < end <= info@.len(),
    ensures
        is_permutation(final(order)@, info@.len() as int),
        final(flags)@.len() == info@.len(),
        forall|k: int|
            0 <= k < start || end <= k < info@.len() ==> #[trigger] final(order)@[k] == old(order)@[k],
        final(nodes)@.len() > old(nodes)@.len(),
        final(spans)@.len() == final(nodes)@.len(),
        forall|i: int| 0 <= i < old(nodes)@.len() ==> #[trigger] final(nodes)@[i] == old(nodes)@[i],
        forall|i: int| 0 <= i < old(nodes)@.len() ==> #[trigger] final(spans)@[i] == old(spans)@[i],
        subtree_ok(
            primitives@,
            final(order)@,
            final(nodes)@,
            final(spans)@,
            old(nodes)@.len() as int,
            final(nodes)@.len() as int,
            start as int,
            end as int,
        ),
        bounds == final(nodes)@[old(nodes)@.len() as int].box_of(),
        forall|i: int|
            old(nodes)@.len() <= i < final(nodes)@.len() ==> split_follows(
                settings,
                #[trigger] final(nodes)@[i],
                final(spans)@[i],
            ),
    decreases end - start,
{
    let index: usize = nodes.len();
    let bounds: Bounds3f = bound_of_range(primitives, info, order, start, end);
    let count: usize = end - start;
    let (mid, axis) = if count > 1 {
        choose_split(info, settings, order, flags, &bounds, start, end)
    } else {
        (start, 0)
    };
    if mid == start {
        // a leaf: nothing has been moved
        assert(order@ == old(order)@);
        push_leaf(primitives, order, nodes, spans, bounds, start, end);
        return bounds;
    }
    // an interior node: its place is kept, then the children follow
    nodes.push(BvhNode::Leaf { bounds, first: start, count });
    proof {
        *spans.borrow_mut() = spans@.push(
            Span { node_end: index + 1, first: start as int, last: end as int, split: start as int },
        );
    }
    let left: Bounds3f = build_range(primitives, info, settings, order, flags, nodes, spans, start, mid);
    let second: usize = nodes.len();
    let ghost order1 = order@;
    let ghost nodes1 = nodes@;
    let ghost spans1 = spans@;
    let right: Bounds3f = build_range(primitives, info, settings, order, flags, nodes, spans, mid, end);
    proof {
        lemma_subtree_frame(
            primitives@,
            order1,
            nodes1,
            spans1,
            order@,
            nodes@,
            spans@,
            index + 1,
            second as int,
            start as int,
            mid as int,
        );
    }
    let joined: Bounds3f = left.union(&right);
    close_interior(
        primitives,
        order,
        nodes,
        spans,
        index,
        second,
        axis,
        joined,
        Ghost(start as int),
        Ghost(mid as int),
        Ghost(end as int),
    );
    joined
}

/// The ray `ray`, ended at the parameter `t_max`.
pub open spec fn ended_at(ray: Ray, t_max: Float) -> Ray {
    Ray { o: ray.o, d: ray.d, t_max, time: ray.time, differential: ray.differential }
}

/// What a walk has found so far, and where the ray ends by now: at what it
/// found last.
pub struct Walk<F> {
    pub found: Option<(F, Float)>,
    pub t_max: Float,
}

/// A walk after one more primitive has been tried: the primitive is met by
/// the ray as it ends by then, and what is met ends the ray there.
pub open spec fn tried_one<P: Primitive>(primitive: P, ray: Ray, walk: Walk<P::Found>) -> Walk<
    P::Found,
> {
    match primitive.struck(ended_at(ray, walk.t_max)) {
        Some(met) => Walk { found: Some(met), t_max: met.1 },
        None => walk,
    }
}

/// A walk after the primitives at the places `first` up to `last` have been
/// tried, in their order.
pub open spec fn tried<P: Primitive>(
    primitives: Seq<P>,
    order: Seq<usize>,
    ray: Ray,
    first: int,
    last: int,
    walk: Walk<P::Found>,
) -> Walk<P::Found>
    decreases last - first,
{
    if last <= first {
        walk
    } else {
        tried_one(
            primitives[order[last - 1] as int],
            ray,
            tried(primitives, order, ray, first, last - 1, walk),
        )
    }
}

/// A walk after the subtree at the node `i` has been visited: nothing
/// happens where the ray, as it ends by then, does not cross the node's box;
/// a leaf has its primitives tried; of the children of an interior node the
/// one is visited first that the ray reaches first along the node's axis.
#[verifier::opaque]
pub open spec fn visited<P: Primitive>(
    primitives: Seq<P>,
    order: Seq<usize>,
    nodes: Seq<BvhNode>,
    ray: Ray,
    slopes: RaySlopes,
    i: int,
    walk: Walk<P::Found>,
) -> Walk<P::Found>
    decreases nodes.len() - i,
{
    if i < 0 || i >= nodes.len() {
        walk
    } else if !nodes[i].box_of().crossed(ended_at(ray, walk.t_max), slopes) {
        walk
    } else {
        match nodes[i] {
            BvhNode::Leaf { first, count, .. } => tried(
                primitives,
                order,
                ray,
                first as int,
                first + count,
                walk,
            ),
            BvhNode::Interior { axis, second_child, .. } => if second_child <= i || second_child
                >= nodes.len() {
                walk
            } else if slopes.against(axis) {
                visited(
                    primitives,
                    order,
                    nodes,
                    ray,
                    slopes,
                    i + 1,
                    visited(primitives, order, nodes, ray, slopes, second_child as int, walk),
                )
            } else {
                visited(
                    primitives,
                    order,
                    nodes,
                    ray,
                    slopes,
                    second_child as int,
                    visited(primitives, order, nodes, ray, slopes, i + 1, walk),
                )
            },
        }
    }
}

/// A walk after the subtrees at the nodes of `pending` have been visited,
/// the last of them first.
#[verifier::opaque]
pub open spec fn visited_all<P: Primitive>(
    primitives: Seq<P>,
    order: Seq<usize>,
    nodes: Seq<BvhNode>,
    ray: Ray,
    slopes: RaySlopes,
    pending: Seq<usize>,
    walk: Walk<P::Found>,
) -> Walk<P::Found>
    decreases pending.len(),
{
    if pending.len() == 0 {
        walk
    } else {
        visited_all(
            primitives,
            order,
            nodes,
            ray,
            slopes,
            pending.drop_last(),
            visited(primitives, order, nodes, ray, slopes, pending.last() as int, walk),
        )
    }
}

/// Whether the ray meets one of the primitives at the places `first` up to
/// `last`.
pub open spec fn any_tried<P: Primitive>(
    primitives: Seq<P>,
    order: Seq<usize>,
    ray: Ray,
    first: int,
    last: int,
) -> bool
    decreases last - first,
{
    if last <= first {
        false
    } else {
        any_tried(primitives, order, ray, first, last - 1) || primitives[order[last
            - 1] as int].struck(ray) is Some
    }
}

/// Whether a visit of the subtree at the node `i` comes upon a primitive
/// that the ray meets.
#[verifier::opaque]
pub open spec fn any_visited<P: Primitive>(
    primitives: Seq<P>,
    order: Seq<usize>,
    nodes: Seq<BvhNode>,
    ray: Ray,
    slopes: RaySlopes,
    i: int,
) -> bool
    decreases nodes.len() - i,
{
    if i < 0 || i >= nodes.len() {
        false
    } else if !nodes[i].box_of().crossed(ray, slopes) {
        false
    } else {
        match nodes[i] {
            BvhNode::Leaf { first, count, .. } => any_tried(
                primitives,
                order,
                ray,
                first as int,
                first + count,
            ),
            BvhNode::Interior { second_child, .. } => if second_child <= i || second_child
                >= nodes.len() {
                false
            } else {
                any_visited(primitives, order, nodes, ray, slopes, i + 1) || any_visited(
                    primitives,
                    order,
                    nodes,
                    ray,
                    slopes,
                    second_child as int,
                )
            },
        }
    }
}

/// Whether a visit of one of the subtrees at the nodes of `pending` comes
/// upon a primitive that the ray meets.
#[verifier::opaque]
pub open spec fn any_pending<P: Primitive>(
    primitives: Seq<P>,
    order: Seq<usize>,
    nodes: Seq<BvhNode>,
    ray: Ray,
    slopes: RaySlopes,
    pending: Seq<usize>,
) -> bool
    decreases pending.len(),
{
    if pending.len() == 0 {
        false
    } else {
        any_pending(primitives, order, nodes, ray, slopes, pending.drop_last()) || any_visited(
            primitives,
            order,
            nodes,
            ray,
            slopes,
            pending.last() as int,
        )
    }
}

/// The number of nodes of the subtrees at the nodes of `pending`.
#[verifier::opaque]
pub open spec fn pending_size(spans: Seq<Span>, pending: Seq<usize>) -> int
    decreases pending.len(),
{
    if pending.len() == 0 {
        0
    } else {
        pending_size(spans, pending.drop_last()) + (spans[pending.last() as int].node_end
            - pending.last())
    }
}

/// What a walk does next: it goes down to a child and keeps the other for
/// later, or it is done with the node it stands at.
pub enum Step {
    Descend { next: usize, later: usize },
    Done,
}

/// What a search for anything that a ray meets does next: it has met
/// something, it goes on at a node, or it is over.
pub enum Probe {
    Met,
    Onward { next: usize },
    Over,
}

/// A bounding volume hierarchy over primitives of the type `P`.
///
/// The primitives stay where they are given; `order` names them in the order
/// of the leaves.
pub struct BVHAccel<P: Primitive> {
    pub primitives: Vec<P>,
    pub order: Vec<usize>,
    pub nodes: Vec<BvhNode>,
    pub settings: BuildSettings,
    pub spans: Ghost<Seq<Span>>,
}

impl<P: Primitive> BVHAccel<P> {
    /// The order names every primitive once, and the nodes are one tree
    /// over all places of the order, or none where there is no primitive.
    #[verifier::opaque]
    pub open spec fn wf(&self) -> bool {
        &&& is_permutation(self.order@, self.primitives@.len() as int)
        &&& self.spans@.len() == self.nodes@.len()
        &&& self.primitives@.len() == 0 ==> self.nodes@.len() == 0
        &&& forall|i: int|
            0 <= i < self.nodes@.len() ==> split_follows(
                self.settings,
                #[trigger] self.nodes@[i],
                self.spans@[i],
            )
        &&& self.primitives@.len() > 0 ==> subtree_ok(
            self.primitives@,
            self.order@,
            self.nodes@,
            self.spans@,
            0,
            self.nodes@.len() as int,
            0,
            self.primitives@.len() as int,
        )
    }

    /// The walk after the subtree at the node `i` has been visited.
    pub open spec fn after(&self, ray: Ray, i: int, walk: Walk<P::Found>) -> Walk<P::Found> {
        visited(self.primitives@, self.order@, self.nodes@, ray, RaySlopes::of(ray.d), i, walk)
    }

    /// The walk after the subtrees at the nodes of `pending` have been
    /// visited.
    pub open spec fn after_all(&self, ray: Ray, pending: Seq<usize>, walk: Walk<P::Found>) -> Walk<
        P::Found,
    > {
        visited_all(
            self.primitives@,
            self.order@,
            self.nodes@,
            ray,
            RaySlopes::of(ray.d),
            pending,
            walk,
        )
    }

    /// Whether a visit of the subtree at the node `i` comes upon a
    /// primitive that `ray` meets.
    pub open spec fn any_at(&self, ray: Ray, i: int) -> bool {
        any_visited(self.primitives@, self.order@, self.nodes@, ray, RaySlopes::of(ray.d), i)
    }

    /// Whether a visit of one of the subtrees at the nodes of `pending`
    /// comes upon a primitive that `ray` meets.
    pub open spec fn any_among(&self, ray: Ray, pending: Seq<usize>) -> bool {
        any_pending(self.primitives@, self.order@, self.nodes@, ray, RaySlopes::of(ray.d), pending)
    }

    /// What `ray` meets first on a walk through the hierarchy, and the
    /// parameter of the ray there.
    pub open spec fn nearest(&self, ray: Ray) -> Option<(P::Found, Float)> {
        self.after(ray, 0, Walk { found: None, t_max: ray.t_max }).found
    }

    /// Whether a walk through the hierarchy comes upon a primitive that
    /// `ray` meets.
    pub open spec fn occluded(&self, ray: Ray) -> bool {
        self.any_at(ray, 0)
    }

    /// Every node that is pending lies in the tree.
    pub open spec fn all_in_tree(&self, pending: Seq<usize>) -> bool {
        forall|k: int| 0 <= k < pending.len() ==> (#[trigger] pending[k]) < self.nodes@.len()
    }

    /// The number of nodes that a walk has before it: those of the subtree
    /// at `current` and of the subtrees that are pending.
    pub open spec fn ahead(&self, current: int, pending: Seq<usize>) -> int {
        self.spans@[current].node_end - current + pending_size(self.spans@, pending)
    }

    /// The hierarchy over `primitives`, built with the split method
    /// `split_method`.
    pub fn new(primitives: Vec<P>, max_prims_in_node: usize, split_method: SplitMethod) -> (r: Self)
        ensures
            r.wf(),
            r.primitives@ == primitives@,
            r.settings.max_prims_in_node == max_prims_in_node,
            r.settings.split_method == split_method,
    {

        let settings: BuildSettings = BuildSettings { max_prims_in_node, split_method };
        let n: usize = primitives.len();
        let mut info: Vec<PrimitiveInfo> = Vec::new();
        let mut order: Vec<usize> = Vec::new();
        let mut flags: Vec<bool> = Vec::new();
        let mut i: usize = 0;
        while i < n
            invariant
                i <= n == primitives@.len(),
                info@.len() == i,
                order@.len() == i,
                flags@.len() == i,
                forall|k: int| 0 <= k < i ==> (#[trigger] info@[k]).bounds == primitives@[k].bound(),
                forall|k: int| 0 <= k < i ==> (#[trigger] order@[k]) == k,
            decreases n - i,
        {
            let bounds: Bounds3f = primitives[i].world_bound();
            info.push(PrimitiveInfo { bounds, centroid: bounds.centroid() });
            order.push(i);
            flags.push(false);
            i = i + 1;
        }
        let mut nodes: Vec<BvhNode> = Vec::new();
        let mut spans: Ghost<Seq<Span>> = Ghost(Seq::empty());
        if n > 0 {
            build_range(&primitives, &info, settings, &mut order, &mut flags, &mut nodes, &mut spans, 0, n);
        }
        let r = BVHAccel { primitives, order, nodes, settings, spans };
        proof {
            reveal(BVHAccel::wf);
        }
        r
    }

    /// Every node of the tree is built as its span says.
    pub proof fn lemma_node_in_tree(&self, i: int)
        requires
            self.wf(),
            0 <= i < self.nodes@.len(),
        ensures
            node_ok(self.primitives@, self.order@, self.nodes@, self.spans@, i),
            self.spans@[i].node_end <= self.nodes@.len(),
            self.spans@[i].last <= self.primitives@.len(),
            self.spans@.len() == self.nodes@.len(),
            split_follows(self.settings, self.nodes@[i], self.spans@[i]),
    {
        reveal(BVHAccel::wf);
        reveal(subtree_ok);
    }

    /// The order names primitives.
    pub proof fn lemma_order_names_primitives(&self, k: int)
        requires
            self.wf(),
            0 <= k < self.order@.len(),
        ensures
            self.order@[k] < self.primitives@.len(),
    {
        reveal(BVHAccel::wf);
    }

    /// Without primitives there are no nodes.
    pub proof fn lemma_no_primitives_no_nodes(&self)
        requires
            self.wf(),
            self.primitives@.len() == 0,
        ensures
            self.nodes@.len() == 0,
    {
        reveal(BVHAccel::wf);
    }

    /// The subtrees that are pending have no negative size.
    proof fn lemma_pending_size_nonnegative(&self, pending: Seq<usize>)
        requires
            self.wf(),
            self.all_in_tree(pending),
        ensures
            pending_size(self.spans@, pending) >= 0,
        decreases pending.len(),
    {
        reveal(pending_size);
        if pending.len() > 0 {
            self.lemma_node_in_tree(pending.last() as int);
            self.lemma_pending_size_nonnegative(pending.drop_last());
        }
    }

    /// Tries the primitives of a leaf, in their order.
    fn try_leaf(
        &self,
        ray: &Ray,
        first: usize,
        count: usize,
        walking: &mut Ray,
        found: &mut Option<(P::Found, Float)>,
    )
        requires
            self.wf(),
            first + count <= self.order@.len(),
            *old(walking) == ended_at(*ray, old(walking).t_max),
        ensures
            *final(walking) == ended_at(*ray, final(walking).t_max),
            (Walk { found: *final(found), t_max: final(walking).t_max }) == tried(
                self.primitives@,
                self.order@,
                *ray,
                first as int,
                first + count,
                Walk { found: *old(found), t_max: old(walking).t_max },
            ),
    {

        let places: usize = self.order.len();
        let mut k: usize = first;
        while k < first + count
            invariant
                self.wf(),
                first <= k <= first + count <= self.order@.len() == places,
                *walking == ended_at(*ray, walking.t_max),
                (Walk { found: *found, t_max: walking.t_max }) == tried(
                    self.primitives@,
                    self.order@,
                    *ray,
                    first as int,
                    k as int,
                    Walk { found: *old(found), t_max: old(walking).t_max },
                ),
            decreases first + count - k,
        {
            proof {
                self.lemma_order_names_primitives(k as int);
            }
            match self.primitives[self.order[k]].intersect(walking) {
                Some(met) => {
                    walking.t_max = met.1;
                    *found = Some(met);
                },
                None => {},
            }
            k = k + 1;
        }
    }

    /// Visits the node `current` itself: a leaf has its primitives tried;
    /// of an interior node whose box the ray crosses the walk learns which
    /// child comes next and which later.
    fn visit_node(
        &self,
        ray: &Ray,
        slopes: &RaySlopes,
        current: usize,
        walking: &mut Ray,
        found: &mut Option<(P::Found, Float)>,
    ) -> (step: Step)
        requires
            self.wf(),
            current < self.nodes@.len(),
            *slopes == RaySlopes::of(ray.d),
            *old(walking) == ended_at(*ray, old(walking).t_max),
        ensures
            *final(walking) == ended_at(*ray, final(walking).t_max),
            step matches Step::Descend { next, later } ==> {
                &&& *final(walking) == *old(walking)
                &&& *final(found) == *old(found)
                &&& next < self.nodes@.len()
                &&& later < self.nodes@.len()
                &&& self.after(*ray, current as int, Walk { found: *old(found), t_max: old(walking).t_max })
                    == self.after(
                    *ray,
                    later as int,
                    self.after(
                        *ray,
                        next as int,
                        Walk { found: *old(found), t_max: old(walking).t_max },
                    ),
                )
                &&& self.spans@[next as int].node_end - next + (self.spans@[later as int].node_end
                    - later) < self.spans@[current as int].node_end - current
            },
            step is Done ==> (Walk { found: *final(found), t_max: final(walking).t_max })
                == self.after(
                *ray,
                current as int,
                Walk { found: *old(found), t_max: old(walking).t_max },
            ),
    {
        proof {
            reveal(visited);
            self.lemma_node_in_tree(current as int);
        }
        let node: BvhNode = self.nodes[current];
        if !node.bounds().intersect_p(walking, slopes) {
            return Step::Done;
        }
        match node {
            BvhNode::Leaf { first, count, .. } => {
                self.try_leaf(ray, first, count, walking, found);
                Step::Done
            },
            BvhNode::Interior { axis, second_child, .. } => {
                proof {
                    self.lemma_node_in_tree(current + 1);
                    self.lemma_node_in_tree(second_child as int);
                }
                if slopes.is_neg(axis) {
                    Step::Descend { next: second_child, later: current + 1 }
                } else {
                    Step::Descend { next: current + 1, later: second_child }
                }
            },
        }
    }

    /// Keeping a node for later puts its visit behind the visit of what
    /// comes next.
    proof fn lemma_kept_for_later(&self, ray: Ray, pending: Seq<usize>, later: usize, walk: Walk<P::Found>)
        ensures
            self.after_all(ray, pending.push(later), walk) == self.after_all(
                ray,
                pending,
                self.after(ray, later as int, walk),
            ),
            pending_size(self.spans@, pending.push(later)) == pending_size(self.spans@, pending) + (
            self.spans@[later as int].node_end - later),
    {
        reveal(visited_all);
        reveal(pending_size);
        assert(pending.push(later).drop_last() == pending);
    }

    /// Taking up the node kept last starts the visit of all that is pending
    /// with that node.
    proof fn lemma_taken_up(&self, ray: Ray, pending: Seq<usize>, walk: Walk<P::Found>)
        requires
            pending.len() > 0,
        ensures
            self.after_all(ray, pending, walk) == self.after_all(
                ray,
                pending.drop_last(),
                self.after(ray, pending.last() as int, walk),
            ),
            pending_size(self.spans@, pending) == pending_size(self.spans@, pending.drop_last()) + (
            self.spans@[pending.last() as int].node_end - pending.last()),
    {
        reveal(visited_all);
        reveal(pending_size);
    }

    /// Takes one step of a walk: visits the node `current` and says where
    /// the walk stands next, or that it is over.
    fn advance(
        &self,
        ray: &Ray,
        slopes: &RaySlopes,
        current: usize,
        pending: &mut Vec<usize>,
        walking: &mut Ray,
        found: &mut Option<(P::Found, Float)>,
    ) -> (r: Option<usize>)
        requires
            self.wf(),
            current < self.nodes@.len(),
            self.all_in_tree(old(pending)@),
            *slopes == RaySlopes::of(ray.d),
            *old(walking) == ended_at(*ray, old(walking).t_max),
        ensures
            *final(walking) == ended_at(*ray, final(walking).t_max),
            self.all_in_tree(final(pending)@),
            r matches Some(next) ==> {
                &&& next < self.nodes@.len()
                &&& self.after_all(
                    *ray,
                    final(pending)@,
                    self.after(
                        *ray,
                        next as int,
                        Walk { found: *final(found), t_max: final(walking).t_max },
                    ),
                ) == self.after_all(
                    *ray,
                    old(pending)@,
                    self.after(
                        *ray,
                        current as int,
                        Walk { found: *old(found), t_max: old(walking).t_max },
                    ),
                )
                &&& 0 <= self.ahead(next as int, final(pending)@) < self.ahead(
                    current as int,
                    old(pending)@,
                )
            },
            r is None ==> (Walk { found: *final(found), t_max: final(walking).t_max })
                == self.after_all(
                *ray,
                old(pending)@,
                self.after(
                    *ray,
                    current as int,
                    Walk { found: *old(found), t_max: old(walking).t_max },
                ),
            ),
    {
        let ghost before = Walk { found: *found, t_max: walking.t_max };
        proof {
            self.lemma_node_in_tree(current as int);
            self.lemma_pending_size_nonnegative(pending@);
        }
        match self.visit_node(ray, slopes, current, walking, found) {
            Step::Descend { next, later } => {
                proof {
                    self.lemma_kept_for_later(
                        *ray,
                        pending@,
                        later,
                        self.after(*ray, next as int, before),
                    );
                    self.lemma_node_in_tree(next as int);
                    self.lemma_node_in_tree(later as int);
                }
                pending.push(later);
                Some(next)
            },
            Step::Done => {
                if pending.len() == 0 {
                    proof {
                        reveal(visited_all);
                    }
                    return None;
                }
                proof {
                    self.lemma_taken_up(*ray, pending@, Walk { found: *found, t_max: walking.t_max });
                    self.lemma_pending_size_nonnegative(pending@.drop_last());
                    self.lemma_node_in_tree(pending@.last() as int);
                }
                let ghost left = pending@.drop_last();
                let next: usize = pending.pop().unwrap();
                assert(pending@ == left);
                Some(next)
            },
        }
    }

    /// Finds what `ray` meets first.
    pub fn intersect(&self, ray: &Ray) -> (r: Option<(P::Found, Float)>)
        requires
            self.wf(),
        ensures
            r == self.nearest(*ray),
    {
        if self.nodes.len() == 0 {
            proof {
                reveal(visited);
            }
            return None;
        }
        let slopes: RaySlopes = RaySlopes::new(&ray.d);
        let mut walking: Ray = *ray;
        let mut found: Option<(P::Found, Float)> = None;
        let mut pending: Vec<usize> = Vec::new();
        let mut current: usize = 0;
        let ghost goal = self.after(*ray, 0, Walk { found: None, t_max: ray.t_max });
        proof {
            reveal(visited_all);
        }
        loop
            invariant_except_break
                self.after_all(
                    *ray,
                    pending@,
                    self.after(*ray, current as int, Walk { found, t_max: walking.t_max }),
                ) == goal,
            invariant
                self.wf(),
                slopes == RaySlopes::of(ray.d),
                walking == ended_at(*ray, walking.t_max),
                current < self.nodes@.len(),
                self.all_in_tree(pending@),
            ensures
                found == goal.found,
            decreases self.ahead(current as int, pending@),
        {
            match self.advance(ray, &slopes, current, &mut pending, &mut walking, &mut found) {
                Some(next) => {
                    current = next;
                },
                None => {
                    break ;
                },
            }
        }
        found
    }

    /// Finds whether `ray` meets one of the primitives of a leaf.
    fn any_in_leaf(&self, ray: &Ray, first: usize, count: usize) -> (r: bool)
        requires
            self.wf(),
            first + count <= self.order@.len(),
        ensures
            r == any_tried(self.primitives@, self.order@, *ray, first as int, first + count),
    {
        let places: usize = self.order.len();
        let mut k: usize = first;
        while k < first + count
            invariant
                self.wf(),
                first <= k <= first + count <= self.order@.len() == places,
                !any_tried(self.primitives@, self.order@, *ray, first as int, k as int),
            decreases first + count - k,
        {
            proof {
                self.lemma_order_names_primitives(k as int);
            }
            if self.primitives[self.order[k]].intersect_p(ray) {
                proof {
                    lemma_any_tried_grows(
                        self.primitives@,
                        self.order@,
                        *ray,
                        first as int,
                        k + 1,
                        first + count,
                    );
                }
                return true;
            }
            k = k + 1;
        }
        false
    }

    /// Keeping a node for later adds what its visit may come upon.
    proof fn lemma_kept_to_probe(&self, ray: Ray, pending: Seq<usize>, later: usize)
        ensures
            self.any_among(ray, pending.push(later)) == (self.any_among(ray, pending) || self.any_at(
                ray,
                later as int,
            )),
            pending_size(self.spans@, pending.push(later)) == pending_size(self.spans@, pending) + (
            self.spans@[later as int].node_end - later),
    {
        reveal(any_pending);
        reveal(pending_size);
        assert(pending.push(later).drop_last() == pending);
    }

    /// Taking up the node kept last leaves what the visits of the others
    /// may come upon.
    proof fn lemma_taken_to_probe(&self, ray: Ray, pending: Seq<usize>)
        requires
            pending.len() > 0,
        ensures
            self.any_among(ray, pending) == (self.any_among(ray, pending.drop_last())
                || self.any_at(ray, pending.last() as int)),
            pending_size(self.spans@, pending) == pending_size(self.spans@, pending.drop_last()) + (
            self.spans@[pending.last() as int].node_end - pending.last()),
    {
        reveal(any_pending);
        reveal(pending_size);
    }

    /// Takes one step of a search for anything that `ray` meets.
    fn probe(&self, ray: &Ray, slopes: &RaySlopes, current: usize, pending: &mut Vec<usize>) -> (r:
        Probe)
        requires
            self.wf(),
            current < self.nodes@.len(),
            self.all_in_tree(old(pending)@),
            *slopes == RaySlopes::of(ray.d),
        ensures
            self.all_in_tree(final(pending)@),
            r is Met ==> self.any_at(*ray, current as int),
            r is Over ==> !self.any_at(*ray, current as int) && !self.any_among(*ray, old(pending)@),
            r matches Probe::Onward { next } ==> {
                &&& next < self.nodes@.len()
                &&& (self.any_at(*ray, current as int) || self.any_among(*ray, old(pending)@)) == (
                self.any_at(*ray, next as int) || self.any_among(*ray, final(pending)@))
                &&& 0 <= self.ahead(next as int, final(pending)@) < self.ahead(
                    current as int,
                    old(pending)@,
                )
            },
    {
        proof {
            reveal(any_visited);
            self.lemma_node_in_tree(current as int);
            self.lemma_pending_size_nonnegative(pending@);
        }
        let node: BvhNode = self.nodes[current];
        if node.bounds().intersect_p(ray, slopes) {
            match node {
                BvhNode::Leaf { first, count, .. } => {
                    if self.any_in_leaf(ray, first, count) {
                        return Probe::Met;
                    }
                },
                BvhNode::Interior { axis, second_child, .. } => {
                    proof {
                        self.lemma_node_in_tree(current + 1);
                        self.lemma_node_in_tree(second_child as int);
                    }
                    if slopes.is_neg(axis) {
                        proof {
                            self.lemma_kept_to_probe(*ray, pending@, (current + 1) as usize);
                        }
                        pending.push(current + 1);
                        return Probe::Onward { next: second_child };
                    } else {
                        proof {
                            self.lemma_kept_to_probe(*ray, pending@, second_child);
                        }
                        pending.push(second_child);
                        return Probe::Onward { next: current + 1 };
                    }
                },
            }
        }
        if pending.len() == 0 {
            proof {
                reveal(any_pending);
            }
            return Probe::Over;
        }
        proof {
            self.lemma_taken_to_probe(*ray, pending@);
            self.lemma_pending_size_nonnegative(pending@.drop_last());
            self.lemma_node_in_tree(pending@.last() as int);
        }
        let ghost left = pending@.drop_last();
        let next: usize = pending.pop().unwrap();
        assert(pending@ == left);
        Probe::Onward { next }
    }

    /// Finds whether `ray` meets anything.
    pub fn intersect_p(&self, ray: &Ray) -> (r: bool)
        requires
            self.wf(),
        ensures
            r == self.occluded(*ray),
    {
        if self.nodes.len() == 0 {
            proof {
                reveal(any_visited);
            }
            return false;
        }
        let slopes: RaySlopes = RaySlopes::new(&ray.d);
        let mut pending: Vec<usize> = Vec::new();
        let mut current: usize = 0;
        proof {
            reveal(any_pending);
        }
        loop
            invariant_except_break
                self.occluded(*ray) == (self.any_at(*ray, current as int) || self.any_among(
                    *ray,
                    pending@,
                )),
            invariant
                self.wf(),
                slopes == RaySlopes::of(ray.d),
                current < self.nodes@.len(),
                self.all_in_tree(pending@),
            ensures
                !self.occluded(*ray),
            decreases self.ahead(current as int, pending@),
        {
            match self.probe(ray, &slopes, current, &mut pending) {
                Probe::Met => {
                    return true;
                },
                Probe::Onward { next } => {
                    current = next;
                },
                Probe::Over => {
                    break ;
                },
            }
        }
        false
    }

    /// What has been found stays found, and a walk that has found nothing
    /// finds something in the subtree at the node `i` just when a search
    /// there comes upon a primitive that the ray meets; else it is left as
    /// it was.
    pub proof fn lemma_walk_finds_what_search_meets(&self, ray: Ray, i: int, walk: Walk<P::Found>)
        ensures
            walk.found is Some ==> self.after(ray, i, walk).found is Some,
            walk.found is None && walk.t_max == ray.t_max ==> {
                &&& self.any_at(ray, i) ==> self.after(ray, i, walk).found is Some
                &&& !self.any_at(ray, i) ==> self.after(ray, i, walk) == walk
            },
        decreases self.nodes@.len() - i,
    {
        reveal(visited);
        reveal(any_visited);
        let slopes = RaySlopes::of(ray.d);
        assert(ended_at(ray, ray.t_max) == ray);
        if 0 <= i < self.nodes@.len() {
            match self.nodes@[i] {
                BvhNode::Leaf { first, count, .. } => {
                    lemma_tried_finds_what_is_met(
                        self.primitives@,
                        self.order@,
                        ray,
                        first as int,
                        first + count,
                        walk,
                    );
                },
                BvhNode::Interior { axis, second_child, .. } => {
                    if i < second_child < self.nodes@.len() {
                        let (a, b) = if slopes.against(axis) {
                            (second_child as int, i + 1)
                        } else {
                            (i + 1, second_child as int)
                        };
                        self.lemma_walk_finds_what_search_meets(ray, a, walk);
                        self.lemma_walk_finds_what_search_meets(ray, b, self.after(ray, a, walk));
                    }
                },
            }
        }
    }

    /// A walk finds only what one of the primitives reports for the ray.
    pub proof fn lemma_walk_reports(&self, ray: Ray, i: int, walk: Walk<P::Found>)
        requires
            self.wf(),
            reported(self.primitives@, self.order@, ray, walk.found),
        ensures
            reported(self.primitives@, self.order@, ray, self.after(ray, i, walk).found),
        decreases self.nodes@.len() - i,
    {
        reveal(visited);
        let slopes = RaySlopes::of(ray.d);
        if 0 <= i < self.nodes@.len() {
            self.lemma_node_in_tree(i);
            match self.nodes@[i] {
                BvhNode::Leaf { first, count, .. } => {
                    lemma_tried_reports(
                        self.primitives@,
                        self.order@,
                        ray,
                        first as int,
                        first + count,
                        walk,
                    );
                },
                BvhNode::Interior { axis, second_child, .. } => {
                    if i < second_child < self.nodes@.len() {
                        let (a, b) = if slopes.against(axis) {
                            (second_child as int, i + 1)
                        } else {
                            (i + 1, second_child as int)
                        };
                        self.lemma_walk_reports(ray, a, walk);
                        self.lemma_walk_reports(ray, b, self.after(ray, a, walk));
                    }
                },
            }
        }
    }

    /// What a walk through the hierarchy finds is what one of its
    /// primitives reports for the ray, ended somewhere.
    pub proof fn lemma_nearest_is_reported(&self, ray: Ray)
        requires
            self.wf(),
        ensures
            reported(self.primitives@, self.order@, ray, self.nearest(ray)),
    {
        self.lemma_walk_reports(ray, 0, Walk { found: None, t_max: ray.t_max });
    }

    /// A search comes upon something that `ray` meets just when a walk
    /// finds what `ray` meets first.
    pub proof fn lemma_occluded_iff_nearest(&self, ray: Ray)
        ensures
            self.occluded(ray) <==> self.nearest(ray) is Some,
    {
        self.lemma_walk_finds_what_search_meets(ray, 0, Walk { found: None, t_max: ray.t_max });
    }

    /// A hierarchy without primitives is never met.
    pub proof fn lemma_nothing_to_meet(&self, ray: Ray)
        requires
            self.wf(),
            self.primitives@.len() == 0,
        ensures
            self.nearest(ray) is None,
            !self.occluded(ray),
    {
        self.lemma_no_primitives_no_nodes();
        reveal(visited);
        reveal(any_visited);
    }
}

/// Whether what has been found is what one of the primitives reports for the
/// ray, ended somewhere: nothing is found that no primitive reports.
pub open spec fn reported<P: Primitive>(
    primitives: Seq<P>,
    order: Seq<usize>,
    ray: Ray,
    found: Option<(P::Found, Float)>,
) -> bool {
    found is Some ==> exists|k: int, t_max: Float|
        0 <= k < order.len() && #[trigger] primitives[order[k] as int].struck(ended_at(ray, t_max))
            == found
}

/// Trying primitives finds only what one of them reports.
pub proof fn lemma_tried_reports<P: Primitive>(
    primitives: Seq<P>,
    order: Seq<usize>,
    ray: Ray,
    first: int,
    last: int,
    walk: Walk<P::Found>,
)
    requires
        0 <= first,
        last <= order.len(),
        reported(primitives, order, ray, walk.found),
    ensures
        reported(primitives, order, ray, tried(primitives, order, ray, first, last, walk).found),
    decreases last - first,
{
    if first < last {
        lemma_tried_reports(primitives, order, ray, first, last - 1, walk);
        let before = tried(primitives, order, ray, first, last - 1, walk);
        let after = tried(primitives, order, ray, first, last, walk);
        if primitives[order[last - 1] as int].struck(ended_at(ray, before.t_max)) is Some {
            assert(primitives[order[last - 1] as int].struck(ended_at(ray, before.t_max))
                == after.found);
        }
    }
}

/// What is met among some places is met among more.
pub proof fn lemma_any_tried_grows<P: Primitive>(
    primitives: Seq<P>,
    order: Seq<usize>,
    ray: Ray,
    first: int,
    upto: int,
    last: int,
)
    requires
        first <= upto <= last,
        any_tried(primitives, order, ray, first, upto),
    ensures
        any_tried(primitives, order, ray, first, last),
    decreases last - upto,
{
    if upto < last {
        lemma_any_tried_grows(primitives, order, ray, first, upto, last - 1);
    }
}

/// What has been found stays found when primitives are tried, and a walk
/// that has found nothing finds something just when the ray meets one of
/// them; else it is left as it was.
pub proof fn lemma_tried_finds_what_is_met<P: Primitive>(
    primitives: Seq<P>,
    order: Seq<usize>,
    ray: Ray,
    first: int,
    last: int,
    walk: Walk<P::Found>,
)
    ensures
        walk.found is Some ==> tried(primitives, order, ray, first, last, walk).found is Some,
        walk.found is None && walk.t_max == ray.t_max ==> {
            &&& any_tried(primitives, order, ray, first, last) ==> tried(
                primitives,
                order,
                ray,
                first,
                last,
                walk,
            ).found is Some
            &&& !any_tried(primitives, order, ray, first, last) ==> tried(
                primitives,
                order,
                ray,
                first,
                last,
                walk,
            ) == walk
        },
    decreases last - first,
{
    assert(ended_at(ray, ray.t_max) == ray);
    if first < last {
        lemma_tried_finds_what_is_met(primitives, order, ray, first, last - 1, walk);
    }
}

} // verus!
