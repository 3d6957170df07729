use crate::aabb::{inside_axis, AABB};
use crate::hittable::{
    cull_admits, cull_follows, entry_probe, hit_parameter, holds_handle, is_closest,
    lemma_closest_is_unique, lemma_cull_admits_part, probe_follows, Cull, HitRecord, Object, Probe,
};
use crate::hittable_list::{
    bounds, lemma_bounds_concat, lemma_bounds_encloses, lemma_bounds_insert, lemma_list_fields,
    lemma_scan_finds_closest, scan, HittableList,
};
use crate::interval::Interval;
use crate::ray::Ray;
use vstd::arithmetic::power2::{lemma_pow2_unfold, pow2};
use vstd::prelude::*;

verus! {

/// A child of a node of the hierarchy: an object itself, or a node below.
#[derive(Debug, PartialEq, Eq)]
pub enum Child {
    Leaf(Object),
    Branch(Box<BvhNode>),
}

/// A node of the bounding-volume hierarchy: two children and the union of
/// the boxes of all objects below it.
#[derive(Debug, PartialEq, Eq)]
pub struct BvhNode {
    pub left: Child,
    pub right: Child,
    pub bbox: AABB,
}

/// The number by which objects are ordered along `axis`: the lower bound of
/// the object's box on that axis.
pub open spec fn box_key(o: Object, axis: usize) -> i64 {
    o.bbox.spec_axis_interval(axis as u32).min
}

/// Where an object with key `key` goes into `sorted`: behind the last object
/// whose key is not greater.
pub open spec fn insert_position(sorted: Seq<Object>, key: i64, axis: usize) -> int
    decreases sorted.len(),
{
    if sorted.len() == 0 {
        0
    } else if box_key(sorted.last(), axis) <= key {
        sorted.len() as int
    } else {
        insert_position(sorted.drop_last(), key, axis)
    }
}

/// `items` in ascending order of `box_key`, objects of equal key in the order
/// in which `items` has them.
pub open spec fn sorted_by_key(items: Seq<Object>, axis: usize) -> Seq<Object>
    decreases items.len(),
{
    if items.len() == 0 {
        Seq::empty()
    } else {
        let rest = sorted_by_key(items.drop_last(), axis);
        rest.insert(insert_position(rest, box_key(items.last(), axis), axis), items.last())
    }
}

/// The position of an insertion lies within the sequence.
pub proof fn lemma_insert_position_bounds(sorted: Seq<Object>, key: i64, axis: usize)
    ensures
        0 <= insert_position(sorted, key, axis) <= sorted.len(),
    decreases sorted.len(),
{
    if sorted.len() > 0 && box_key(sorted.last(), axis) > key {
        lemma_insert_position_bounds(sorted.drop_last(), key, axis);
    }
}

/// Sorting keeps the objects: the result has the length of `items` and, as a
/// multiset, the same members.
pub proof fn lemma_sorted_permutes(items: Seq<Object>, axis: usize)
    ensures
        sorted_by_key(items, axis).len() == items.len(),
        sorted_by_key(items, axis).to_multiset() == items.to_multiset(),
    decreases items.len(),
{
    broadcast use vstd::seq_lib::to_multiset_build, vstd::seq_lib::to_multiset_insert;

    if items.len() == 0 {
        assert(items == Seq::<Object>::empty());
    } else {
        let rest = sorted_by_key(items.drop_last(), axis);
        lemma_sorted_permutes(items.drop_last(), axis);
        lemma_insert_position_bounds(rest, box_key(items.last(), axis), axis);
        assert(items == items.drop_last().push(items.last()));
    }
}

/// Sorting does not change the union of the boxes.
pub proof fn lemma_sorted_bounds(items: Seq<Object>, axis: usize)
    ensures
        bounds(sorted_by_key(items, axis)) == bounds(items),
    decreases items.len(),
{
    if items.len() > 0 {
        let rest = sorted_by_key(items.drop_last(), axis);
        let key = box_key(items.last(), axis);
        lemma_sorted_bounds(items.drop_last(), axis);
        lemma_insert_position_bounds(rest, key, axis);
        lemma_bounds_insert(rest, insert_position(rest, key, axis), items.last());
    }
}

/// Every object before the position of an insertion has a key that is not
/// greater than the inserted one, every object from it on a greater key,
/// provided that the sequence is in ascending order.
proof fn lemma_insert_position_splits(sorted: Seq<Object>, key: i64, axis: usize)
    requires
        forall|i: int, j: int|
            0 <= i <= j < sorted.len() ==> box_key(sorted[i], axis) <= box_key(sorted[j], axis),
    ensures
        forall|i: int|
            0 <= i < insert_position(sorted, key, axis) ==> box_key(#[trigger] sorted[i], axis)
                <= key,
        forall|i: int|
            insert_position(sorted, key, axis) <= i < sorted.len() ==> box_key(
                #[trigger] sorted[i],
                axis,
            ) > key,
    decreases sorted.len(),
{
    if sorted.len() > 0 && box_key(sorted.last(), axis) > key {
        lemma_insert_position_splits(sorted.drop_last(), key, axis);
        lemma_insert_position_bounds(sorted.drop_last(), key, axis);
        assert forall|i: int|
            insert_position(sorted, key, axis) <= i < sorted.len() implies box_key(
            #[trigger] sorted[i],
            axis,
        ) > key by {
            if i < sorted.len() - 1 {
                assert(sorted[i] == sorted.drop_last()[i]);
            }
        }
        assert forall|i: int| 0 <= i < insert_position(sorted, key, axis) implies box_key(
            #[trigger] sorted[i],
            axis,
        ) <= key by {
            assert(sorted[i] == sorted.drop_last()[i]);
        }
    }
}

/// The result of sorting is in ascending order of `box_key`.
pub proof fn lemma_sorted_ascends(items: Seq<Object>, axis: usize)
    ensures
        forall|i: int, j: int|
            0 <= i <= j < sorted_by_key(items, axis).len() ==> box_key(
                sorted_by_key(items, axis)[i],
                axis,
            ) <= box_key(sorted_by_key(items, axis)[j], axis),
    decreases items.len(),
{
    if items.len() > 0 {
        let rest = sorted_by_key(items.drop_last(), axis);
        let key = box_key(items.last(), axis);
        let pos = insert_position(rest, key, axis);
        lemma_sorted_ascends(items.drop_last(), axis);
        lemma_insert_position_bounds(rest, key, axis);
        lemma_insert_position_splits(rest, key, axis);
        let out = rest.insert(pos, items.last());
        assert forall|i: int, j: int| 0 <= i <= j < out.len() implies box_key(out[i], axis)
            <= box_key(out[j], axis) by {
            if i < pos {
                assert(out[i] == rest[i]);
            } else if i > pos {
                assert(out[i] == rest[i - 1]);
            }
            if j < pos {
                assert(out[j] == rest[j]);
            } else if j > pos {
                assert(out[j] == rest[j - 1]);
            }
        }
    }
}

/// Whether `a` goes before `b` along `axis_index`: whether the box of `a`
/// begins at a lesser value.
fn box_compare(a: &Object, b: &Object, axis_index: u32) -> (less: bool)
    ensures
        less == (a.bbox.spec_axis_interval(axis_index).min < b.bbox.spec_axis_interval(
            axis_index,
        ).min),
{
    a.bbox.axis_interval(axis_index).min < b.bbox.axis_interval(axis_index).min
}

/// Sorts `objects[s..e]` in place along `axis`, keeping the order of objects
/// whose boxes begin at the same value.
fn sort_by_axis(objects: &mut Vec<Object>, s: usize, e: usize, axis: usize)
    requires
        s <= e <= old(objects)@.len(),
        axis <= 2,
    ensures
        final(objects)@ == old(objects)@.subrange(0, s as int) + sorted_by_key(
            old(objects)@.subrange(s as int, e as int),
            axis,
        ) + old(objects)@.subrange(e as int, old(objects)@.len() as int),
{
    let mut sorted: Vec<Object> = Vec::new();
    let mut i: usize = s;
    while i < e
        invariant
            s <= i <= e <= objects@.len(),
            axis <= 2,
            objects@ == old(objects)@,
            sorted@ == sorted_by_key(objects@.subrange(s as int, i as int), axis),
            sorted@.len() == i - s,
        decreases e - i,
    {
        let object = objects[i];
        let mut pos: usize = sorted.len();
        proof {
            assert(sorted@.take(pos as int) == sorted@);
        }
        while pos > 0 && box_compare(&object, &sorted[pos - 1], axis as u32)
            invariant
                pos <= sorted@.len(),
                axis <= 2,
                insert_position(sorted@, box_key(object, axis), axis) == insert_position(
                    sorted@.take(pos as int),
                    box_key(object, axis),
                    axis,
                ),
            decreases pos,
        {
            proof {
                assert(sorted@.take(pos as int).drop_last() == sorted@.take(pos - 1));
            }
            pos -= 1;
        }
        proof {
            let grown = objects@.subrange(s as int, i + 1);
            assert(grown.drop_last() == objects@.subrange(s as int, i as int));
            assert(grown.last() == object);
            lemma_sorted_permutes(grown, axis);
        }
        sorted.insert(pos, object);
        i += 1;
    }
    let mut k: usize = 0;
    while k < sorted.len()
        invariant
            k <= sorted@.len(),
            sorted@.len() == e - s,
            s <= e <= objects@.len(),
            objects@.len() == old(objects)@.len(),
            sorted@ == sorted_by_key(old(objects)@.subrange(s as int, e as int), axis),
            objects@ == old(objects)@.subrange(0, s as int) + sorted@.take(k as int) + old(
                objects,
            )@.subrange(s + k, old(objects)@.len() as int),
        decreases sorted@.len() - k,
    {
        let object = sorted[k];
        objects.set(s + k, object);
        k += 1;
    }
    proof {
        assert(sorted@.take(k as int) == sorted@);
    }
}

/// The node over one object: both children are that object.
pub open spec fn twin(only: Object, bbox: AABB) -> BvhNode {
    BvhNode { left: Child::Leaf(only), right: Child::Leaf(only), bbox }
}

/// The node over two objects: they are the left and the right child in
/// their order along `axis`. Where their boxes begin at the same value they
/// count as ordered, and the first is the left child.
pub open spec fn pair(first: Object, second: Object, axis: usize, bbox: AABB) -> BvhNode {
    if box_key(second, axis) < box_key(first, axis) {
        BvhNode { left: Child::Leaf(second), right: Child::Leaf(first), bbox }
    } else {
        BvhNode { left: Child::Leaf(first), right: Child::Leaf(second), bbox }
    }
}

/// The hierarchy over `items`, which holds at least one object. The box of
/// the root is the union of all boxes, and the split axis is its longest. One
/// object is its own twin, two are ordered along the axis, and more are
/// sorted along it and split at the middle of the sequence into the two
/// hierarchies below. The split is at the middle of the sequence, not of
/// space: the two halves hold the same number of objects, or the right one
/// more, wherever the objects lie.
pub open spec fn built(items: Seq<Object>) -> BvhNode
    decreases items.len(),
{
    let bbox = bounds(items);
    let axis = bbox.spec_longest_axis();
    if items.len() <= 1 {
        twin(items[0], bbox)
    } else if items.len() == 2 {
        pair(items[0], items[1], axis, bbox)
    } else {
        let sorted = sorted_by_key(items, axis);
        let mid = items.len() as int / 2;
        proof {
            lemma_sorted_permutes(items, axis);
        }
        BvhNode {
            left: Child::Branch(Box::new(built(sorted.subrange(0, mid)))),
            right: Child::Branch(Box::new(built(sorted.subrange(mid, items.len() as int)))),
            bbox,
        }
    }
}

/// The order in which building the hierarchy over `items` leaves them: up
/// to two objects stay as they are, more are sorted along the split axis and
/// each half is then arranged in its turn.
pub open spec fn arranged(items: Seq<Object>) -> Seq<Object>
    decreases items.len(),
{
    if items.len() <= 2 {
        items
    } else {
        let sorted = sorted_by_key(items, bounds(items).spec_longest_axis());
        let mid = items.len() as int / 2;
        proof {
            lemma_sorted_permutes(items, bounds(items).spec_longest_axis());
        }
        arranged(sorted.subrange(0, mid)) + arranged(sorted.subrange(mid, items.len() as int))
    }
}

/// Arranging keeps the number of objects.
pub proof fn lemma_arranged_len(items: Seq<Object>)
    ensures
        arranged(items).len() == items.len(),
    decreases items.len(),
{
    if items.len() > 2 {
        let sorted = sorted_by_key(items, bounds(items).spec_longest_axis());
        let mid = items.len() as int / 2;
        lemma_sorted_permutes(items, bounds(items).spec_longest_axis());
        lemma_arranged_len(sorted.subrange(0, mid));
        lemma_arranged_len(sorted.subrange(mid, items.len() as int));
    }
}

/// The range in which the right child is searched: up to the hit that the
/// left child reported, or all of `ray_t` where it reported none.
pub open spec fn narrowed(ray_t: Interval, found: Option<HitRecord>) -> Interval {
    match found {
        Some(h) => Interval { min: ray_t.min, max: h.t },
        None => ray_t,
    }
}

impl Child {
    /// The box of the child: that of the object, or that which the node
    /// reports.
    pub open spec fn bounding_box(self) -> AABB {
        match self {
            Child::Leaf(o) => o.bbox,
            Child::Branch(node) => node.bbox,
        }
    }

    /// The number of nodes on the longest way down from the child to an
    /// object.
    pub open spec fn height(self) -> nat
        decreases self,
    {
        match self {
            Child::Leaf(o) => 0,
            Child::Branch(node) => node.height(),
        }
    }

    /// The objects below the child, from left to right.
    pub open spec fn leaves(self) -> Seq<Object>
        decreases self,
    {
        match self {
            Child::Leaf(o) => seq![o],
            Child::Branch(node) => node.leaves(),
        }
    }

    /// Every node below reports a box that encloses the boxes of all objects
    /// below it.
    pub open spec fn well_bounded(self) -> bool
        decreases self,
    {
        match self {
            Child::Leaf(o) => true,
            Child::Branch(node) => node.well_bounded(),
        }
    }

    /// What a search of the child finds: an object answers for itself, a
    /// node is searched as `BvhNode::hit_model` tells.
    pub open spec fn hit_model(self, cull: Cull, probe: Probe, ray_t: Interval) -> Option<
        HitRecord,
    >
        decreases self,
    {
        match self {
            Child::Leaf(o) => match probe(o.handle, ray_t) {
                Some(t) => Some(HitRecord { t, object: o.handle }),
                None => None,
            },
            Child::Branch(node) => node.hit_model(cull, probe, ray_t),
        }
    }

    fn hit<G: Fn(AABB, Interval) -> bool, F: Fn(usize, Interval) -> Option<i64>>(
        &self,
        ray_t: &Interval,
        rec: &mut HitRecord,
        cull: &G,
        probe: &F,
    ) -> (hit: bool)
        requires
            forall|bbox: AABB, range: Interval| #[trigger] call_requires(*cull, (bbox, range)),
            forall|handle: usize, range: Interval|
                holds_handle(self.leaves(), handle) ==> #[trigger] call_requires(
                    *probe,
                    (handle, range),
                ),
        ensures
            !hit ==> *final(rec) == *old(rec),
            hit ==> holds_handle(self.leaves(), final(rec).object),
            forall|by_box: Cull, by_object: Probe|
                #![trigger cull_follows(*cull, by_box), probe_follows(*probe, by_object)]
                cull_follows(*cull, by_box) && probe_follows(*probe, by_object)
                    ==> match self.hit_model(by_box, by_object, *ray_t) {
                    Some(h) => hit && *final(rec) == h,
                    None => !hit,
                },
        decreases self,
    {
        match self {
            Child::Leaf(o) => {
                proof {
                    assert(self.leaves()[0] == *o);
                    assert(self.leaves().contains(*o));
                }
                match probe(o.handle, *ray_t) {
                    Some(t) => {
                        *rec = HitRecord::new(t, o.handle);
                        true
                    },
                    None => false,
                }
            },
            Child::Branch(node) => node.hit(ray_t, rec, cull, probe),
        }
    }
}

/// The union of the boxes of `objects[s..e]`.
fn bounds_of(objects: &Vec<Object>, s: usize, e: usize) -> (bbox: AABB)
    requires
        s <= e <= objects@.len(),
    ensures
        bbox == bounds(objects@.subrange(s as int, e as int)),
{
    let mut bbox = AABB::empty();
    let mut i: usize = s;
    while i < e
        invariant
            s <= i <= e <= objects@.len(),
            bbox == bounds(objects@.subrange(s as int, i as int)),
        decreases e - i,
    {
        proof {
            assert(objects@.subrange(s as int, i + 1).drop_last() == objects@.subrange(
                s as int,
                i as int,
            ));
        }
        bbox = AABB::new_aabb(&bbox, &objects[i].bbox);
        i += 1;
    }
    bbox
}

/// A sequence is put together again from what lies before a range, the
/// range, and what follows it.
proof fn lemma_splice_back(whole: Seq<Object>, s: int, e: int, items: Seq<Object>)
    requires
        0 <= s <= e <= whole.len(),
        items == whole.subrange(s, e),
    ensures
        whole == whole.subrange(0, s) + items + whole.subrange(e, whole.len() as int),
{
}

/// The lower half of what sorting `items` along `axis` gives.
spec fn lower_half(items: Seq<Object>, axis: usize) -> Seq<Object> {
    sorted_by_key(items, axis).subrange(0, items.len() as int / 2)
}

/// The upper half of what sorting `items` along `axis` gives.
spec fn upper_half(items: Seq<Object>, axis: usize) -> Seq<Object> {
    sorted_by_key(items, axis).subrange(items.len() as int / 2, items.len() as int)
}

/// The vector with `whole[s..e]` sorted has the lower half of the sorted
/// objects in the range that is built next.
proof fn lemma_halves(whole: Seq<Object>, s: int, e: int, axis: usize, after_sort: Seq<Object>)
    requires
        0 <= s < e <= whole.len(),
        after_sort == whole.subrange(0, s) + sorted_by_key(whole.subrange(s, e), axis)
            + whole.subrange(e, whole.len() as int),
    ensures
        after_sort.len() == whole.len(),
        after_sort.subrange(s, s + (e - s) / 2) == lower_half(whole.subrange(s, e), axis),
{
    lemma_sorted_permutes(whole.subrange(s, e), axis);
}

/// With the lower half arranged, the range that is built next holds the
/// upper half of the sorted objects.
proof fn lemma_left_half_built(
    whole: Seq<Object>,
    s: int,
    e: int,
    axis: usize,
    after_sort: Seq<Object>,
    after_left: Seq<Object>,
)
    requires
        0 <= s < e <= whole.len(),
        after_sort == whole.subrange(0, s) + sorted_by_key(whole.subrange(s, e), axis)
            + whole.subrange(e, whole.len() as int),
        after_left == after_sort.subrange(0, s) + arranged(
            after_sort.subrange(s, s + (e - s) / 2),
        ) + after_sort.subrange(s + (e - s) / 2, after_sort.len() as int),
    ensures
        after_left.len() == whole.len(),
        after_left.subrange(s + (e - s) / 2, e) == upper_half(whole.subrange(s, e), axis),
{
    let items = whole.subrange(s, e);
    lemma_sorted_permutes(items, axis);
    lemma_halves(whole, s, e, axis, after_sort);
    lemma_arranged_len(lower_half(items, axis));
}

/// With both halves arranged, the range holds the objects as `arranged`
/// orders them, and the rest of the vector is as it was.
proof fn lemma_right_half_built(
    whole: Seq<Object>,
    s: int,
    e: int,
    axis: usize,
    after_sort: Seq<Object>,
    after_left: Seq<Object>,
    after_right: Seq<Object>,
)
    requires
        0 <= s < e <= whole.len(),
        e - s > 2,
        axis == bounds(whole.subrange(s, e)).spec_longest_axis(),
        after_sort == whole.subrange(0, s) + sorted_by_key(whole.subrange(s, e), axis)
            + whole.subrange(e, whole.len() as int),
        after_left == after_sort.subrange(0, s) + arranged(
            after_sort.subrange(s, s + (e - s) / 2),
        ) + after_sort.subrange(s + (e - s) / 2, after_sort.len() as int),
        after_right == after_left.subrange(0, s + (e - s) / 2) + arranged(
            after_left.subrange(s + (e - s) / 2, e),
        ) + after_left.subrange(e, after_left.len() as int),
    ensures
        after_right == whole.subrange(0, s) + arranged(whole.subrange(s, e)) + whole.subrange(
            e,
            whole.len() as int,
        ),
{
    let items = whole.subrange(s, e);
    let mid = s + (e - s) / 2;
    let low = lower_half(items, axis);
    let high = upper_half(items, axis);
    lemma_sorted_permutes(items, axis);
    lemma_halves(whole, s, e, axis, after_sort);
    lemma_left_half_built(whole, s, e, axis, after_sort, after_left);
    lemma_arranged_len(low);
    lemma_arranged_len(high);
    assert(after_left.subrange(0, mid) == whole.subrange(0, s) + arranged(low));
    assert(after_left.subrange(e, after_left.len() as int) == whole.subrange(
        e,
        whole.len() as int,
    ));
    assert(arranged(items) == arranged(low) + arranged(high));
    assert(after_right == whole.subrange(0, s) + (arranged(low) + arranged(high)) + whole.subrange(
        e,
        whole.len() as int,
    ));
}

/// Arranging keeps the objects: as a multiset, the result has the members of
/// `items`.
pub proof fn lemma_arranged_permutes(items: Seq<Object>)
    ensures
        arranged(items).to_multiset() == items.to_multiset(),
    decreases items.len(),
{
    if items.len() > 2 {
        let axis = bounds(items).spec_longest_axis();
        let sorted = sorted_by_key(items, axis);
        let mid = items.len() as int / 2;
        lemma_sorted_permutes(items, axis);
        let low = sorted.subrange(0, mid);
        let high = sorted.subrange(mid, items.len() as int);
        lemma_arranged_permutes(low);
        lemma_arranged_permutes(high);
        assert(sorted == low + high);
        vstd::seq_lib::lemma_multiset_commutative(low, high);
        vstd::seq_lib::lemma_multiset_commutative(arranged(low), arranged(high));
    }
}

impl BvhNode {
    /// The box that the node reports.
    pub open spec fn spec_bounding_box(&self) -> AABB {
        self.bbox
    }

    /// The number of nodes on the longest way down from the node to an
    /// object, the node itself counted.
    pub open spec fn height(self) -> nat
        decreases self,
    {
        if self.left.height() >= self.right.height() {
            1 + self.left.height()
        } else {
            1 + self.right.height()
        }
    }

    /// The objects below the node, from left to right.
    pub open spec fn leaves(self) -> Seq<Object>
        decreases self,
    {
        self.left.leaves() + self.right.leaves()
    }

    /// `handle` is the handle of an object below the node.
    pub open spec fn holds(self, handle: usize) -> bool {
        holds_handle(self.leaves(), handle)
    }

    /// The node and every node below it report a box that encloses the boxes
    /// of all objects below.
    pub open spec fn well_bounded(self) -> bool
        decreases self,
    {
        &&& forall|o: Object| #[trigger] self.leaves().contains(o) ==> self.bbox.encloses(o.bbox)
        &&& self.left.well_bounded()
        &&& self.right.well_bounded()
    }

    /// The box of the node and of every node below it is the union of the
    /// boxes of its two children.
    pub open spec fn boxes_are_unions(self) -> bool
        decreases self,
    {
        &&& self.bbox == self.left.bounding_box().union(self.right.bounding_box())
        &&& match self.left {
            Child::Leaf(o) => true,
            Child::Branch(node) => node.boxes_are_unions(),
        }
        &&& match self.right {
            Child::Leaf(o) => true,
            Child::Branch(node) => node.boxes_are_unions(),
        }
    }

    /// What a search of the node finds. A ray that the box test turns away
    /// finds nothing. Otherwise the left child is searched in all of `ray_t`
    /// and the right child in what the left hit, if any, leaves of it; a hit
    /// on the right is therefore the nearer one and is the result, else the
    /// hit on the left is.
    pub open spec fn hit_model(self, cull: Cull, probe: Probe, ray_t: Interval) -> Option<
        HitRecord,
    >
        decreases self,
    {
        if !cull(self.bbox, ray_t) {
            None
        } else {
            let on_left = self.left.hit_model(cull, probe, ray_t);
            let on_right = self.right.hit_model(cull, probe, narrowed(ray_t, on_left));
            match on_right {
                Some(h) => on_right,
                None => on_left,
            }
        }
    }

    /// Builds the hierarchy over `src_objects[s..e]`, which must hold at
    /// least one object. The objects of that range are reordered as the
    /// splits require; the rest of the vector is left alone.
    pub fn new(src_objects: &mut Vec<Object>, s: usize, e: usize) -> (node: BvhNode)
        requires
            s < e <= old(src_objects)@.len(),
        ensures
            node == built(old(src_objects)@.subrange(s as int, e as int)),
            final(src_objects)@ == old(src_objects)@.subrange(0, s as int) + arranged(
                old(src_objects)@.subrange(s as int, e as int),
            ) + old(src_objects)@.subrange(e as int, old(src_objects)@.len() as int),
        decreases e - s,
    {
        let ghost whole = src_objects@;
        let ghost items = whole.subrange(s as int, e as int);
        let bbox = bounds_of(src_objects, s, e);
        let axis = bbox.longest_axis();
        let object_span = e - s;
        if object_span == 1 {
            proof {
                lemma_splice_back(whole, s as int, e as int, items);
            }
            BvhNode {
                left: Child::Leaf(src_objects[s]),
                right: Child::Leaf(src_objects[s]),
                bbox,
            }
        } else if object_span == 2 {
            proof {
                lemma_splice_back(whole, s as int, e as int, items);
            }
            if box_compare(&src_objects[s + 1], &src_objects[s], axis as u32) {
                BvhNode {
                    left: Child::Leaf(src_objects[s + 1]),
                    right: Child::Leaf(src_objects[s]),
                    bbox,
                }
            } else {
                BvhNode {
                    left: Child::Leaf(src_objects[s]),
                    right: Child::Leaf(src_objects[s + 1]),
                    bbox,
                }
            }
        } else {
            sort_by_axis(src_objects, s, e, axis);
            let mid = s + object_span / 2;
            let ghost after_sort = src_objects@;
            proof {
                lemma_halves(whole, s as int, e as int, axis, after_sort);
            }
            let left = BvhNode::new(src_objects, s, mid);
            let ghost after_left = src_objects@;
            proof {
                lemma_left_half_built(whole, s as int, e as int, axis, after_sort, after_left);
            }
            let right = BvhNode::new(src_objects, mid, e);
            proof {
                lemma_right_half_built(
                    whole,
                    s as int,
                    e as int,
                    axis,
                    after_sort,
                    after_left,
                    src_objects@,
                );
            }
            BvhNode { left: Child::Branch(Box::new(left)), right: Child::Branch(Box::new(right)), bbox }
        }
    }

    /// Builds the hierarchy over all objects of `list`, which must not be
    /// empty, and leaves them in the order that the splits gave them.
    pub fn new_list(list: &mut HittableList) -> (node: BvhNode)
        requires
            old(list)@.len() > 0,
        ensures
            node == built(old(list)@),
            final(list)@ == arranged(old(list)@),
            final(list).spec_bounding_box() == old(list).spec_bounding_box(),
    {
        let len = list.objects.len();
        proof {
            lemma_list_fields(*list);
            assert(list.objects@.subrange(0, len as int) == list.objects@);
        }
        let node = BvhNode::new(&mut list.objects, 0, len);
        proof {
            lemma_list_fields(*list);
            lemma_arranged_len(old(list).objects@);
            assert(list.objects@ == arranged(old(list).objects@));
        }
        node
    }

    /// Searches the objects below the node for the nearest hit within
    /// `ray_t`. `cull` tests a bounding box and `probe` one object, named by
    /// its handle, each within a range. On a hit `rec` holds it; on a miss
    /// `rec` is left alone. Where the two tests answer as some functions
    /// tell, the outcome is that of `hit_model` with those functions.
    pub fn hit<G: Fn(AABB, Interval) -> bool, F: Fn(usize, Interval) -> Option<i64>>(
        &self,
        ray_t: &Interval,
        rec: &mut HitRecord,
        cull: &G,
        probe: &F,
    ) -> (hit: bool)
        requires
            forall|bbox: AABB, range: Interval| #[trigger] call_requires(*cull, (bbox, range)),
            forall|handle: usize, range: Interval|
                self.holds(handle) ==> #[trigger] call_requires(*probe, (handle, range)),
        ensures
            !hit ==> *final(rec) == *old(rec),
            hit ==> self.holds(final(rec).object),
            forall|by_box: Cull, by_object: Probe|
                #![trigger cull_follows(*cull, by_box), probe_follows(*probe, by_object)]
                cull_follows(*cull, by_box) && probe_follows(*probe, by_object)
                    ==> match self.hit_model(by_box, by_object, *ray_t) {
                    Some(h) => hit && *final(rec) == h,
                    None => !hit,
                },
        decreases self,
    {
        if !cull(self.bbox, *ray_t) {
            return false;
        }
        proof {
            lemma_leaves_of_children(*self);
        }
        let hit_left = self.left.hit(ray_t, rec, cull, probe);
        let hit_right = if hit_left {
            self.right.hit(&Interval::new(ray_t.min, rec.t), rec, cull, probe)
        } else {
            self.right.hit(ray_t, rec, cull, probe)
        };
        hit_left || hit_right
    }

    /// Searches the objects below the node for the nearest hit of the
    /// lattice ray `r` within `ray_t`. The boxes are tested with the slab
    /// test of `AABB::hit`; `probe` tests one object. The coordinates of the
    /// ray must be within `REACH`.
    pub fn hit_ray<F: Fn(usize, Interval) -> Option<i64>>(
        &self,
        r: &Ray,
        ray_t: &Interval,
        rec: &mut HitRecord,
        probe: &F,
    ) -> (hit: bool)
        requires
            r.in_reach(),
            forall|handle: usize, range: Interval|
                self.holds(handle) ==> #[trigger] call_requires(*probe, (handle, range)),
        ensures
            !hit ==> *final(rec) == *old(rec),
            hit ==> self.holds(final(rec).object),
            forall|by_object: Probe| #[trigger]
                probe_follows(*probe, by_object) ==> match self.hit_model(
                    slab_cull(*r),
                    by_object,
                    *ray_t,
                ) {
                    Some(h) => hit && *final(rec) == h,
                    None => !hit,
                },
    {
        let cull = |bbox: AABB, range: Interval| -> (passes: bool)
            ensures
                passes == bbox.passes_through(*r, range),
            { bbox.hit(r, &range) };
        proof {
            assert(cull_follows(cull, slab_cull(*r)));
        }
        self.hit(ray_t, rec, &cull, probe)
    }

    #[verifier::when_used_as_spec(spec_bounding_box)]
    pub fn bounding_box(&self) -> (r: AABB)
        ensures
            r == self.spec_bounding_box(),
    {
        self.bbox
    }
}

/// The box test of a lattice ray: the slab test, as a function of box and
/// range.
pub open spec fn slab_cull(r: Ray) -> Cull {
    |bbox: AABB, range: Interval| bbox.passes_through(r, range)
}

/// At the whole parameter `t` the ray is strictly inside the box of `o`.
pub open spec fn met_inside(r: Ray, o: Object, t: i64) -> bool {
    &&& inside_axis(o.bbox.x, r.origin.x, r.direction.x, t as int, 1)
    &&& inside_axis(o.bbox.y, r.origin.y, r.direction.y, t as int, 1)
    &&& inside_axis(o.bbox.z, r.origin.z, r.direction.z, t as int, 1)
}

/// The slab test loses no hit: where every object that the ray meets is met
/// inside its box, the slab test turns the ray away from no box around an
/// object that it meets within the range asked about. So the slab test is a
/// box test for which the hierarchy and the linear search agree.
pub proof fn lemma_slab_test_admits(
    r: Ray,
    entry: spec_fn(usize) -> Option<i64>,
    objects: Seq<Object>,
)
    requires
        forall|o: Object| #[trigger]
            objects.contains(o) ==> match entry(o.handle) {
                Some(t) => met_inside(r, o, t),
                None => true,
            },
    ensures
        cull_admits(slab_cull(r), entry, objects),
{
    let cull = slab_cull(r);
    assert forall|bbox: AABB, range: Interval, o: Object|
        #![trigger objects.contains(o), cull(bbox, range)]
        objects.contains(o) && bbox.encloses(o.bbox) && (match entry(o.handle) {
            Some(t) => range.spec_surrounds(t),
            None => false,
        }) implies cull(bbox, range) by {
        let t = entry(o.handle)->0;
        assert(met_inside(r, o, t));
        assert(bbox.passes_at(r, range, t as int, 1));
    }
}

/// An object is below a node exactly when it is below one of its children.
pub proof fn lemma_leaves_of_children(node: BvhNode)
    ensures
        forall|o: Object|
            node.leaves().contains(o) <==> node.left.leaves().contains(o)
                || node.right.leaves().contains(o),
        forall|handle: usize|
            node.holds(handle) <==> holds_handle(node.left.leaves(), handle) || holds_handle(
                node.right.leaves(),
                handle,
            ),
{
    let l = node.left.leaves();
    let r = node.right.leaves();
    assert(node.leaves() == l + r);
    assert forall|o: Object| node.leaves().contains(o) <==> l.contains(o) || r.contains(o) by {
        if node.leaves().contains(o) {
            let k = choose|k: int| 0 <= k < (l + r).len() && (l + r)[k] == o;
            if k < l.len() {
                assert(l[k] == o);
            } else {
                assert(r[k - l.len()] == o);
            }
        }
        if l.contains(o) {
            let k = choose|k: int| 0 <= k < l.len() && l[k] == o;
            assert((l + r)[k] == o);
        }
        if r.contains(o) {
            let k = choose|k: int| 0 <= k < r.len() && r[k] == o;
            assert((l + r)[k + l.len()] == o);
        }
    }
    assert forall|handle: usize|
        node.holds(handle) <==> holds_handle(l, handle) || holds_handle(r, handle) by {
        if node.holds(handle) {
            let o = choose|o: Object| node.leaves().contains(o) && o.handle == handle;
            assert(l.contains(o) || r.contains(o));
        }
        if holds_handle(l, handle) {
            let o = choose|o: Object| l.contains(o) && o.handle == handle;
            assert(node.leaves().contains(o));
        }
        if holds_handle(r, handle) {
            let o = choose|o: Object| r.contains(o) && o.handle == handle;
            assert(node.leaves().contains(o));
        }
    }
}

/// A sequence cut in two holds what its two parts hold.
proof fn lemma_parts_hold(whole: Seq<Object>, mid: int)
    requires
        0 <= mid <= whole.len(),
    ensures
        forall|o: Object|
            whole.contains(o) <==> whole.subrange(0, mid).contains(o) || whole.subrange(
                mid,
                whole.len() as int,
            ).contains(o),
{
    let l = whole.subrange(0, mid);
    let r = whole.subrange(mid, whole.len() as int);
    assert forall|o: Object| whole.contains(o) <==> l.contains(o) || r.contains(o) by {
        if whole.contains(o) {
            let k = choose|k: int| 0 <= k < whole.len() && whole[k] == o;
            if k < mid {
                assert(l[k] == o);
            } else {
                assert(r[k - mid] == o);
            }
        }
        if l.contains(o) {
            let k = choose|k: int| 0 <= k < l.len() && l[k] == o;
            assert(whole[k] == o);
        }
        if r.contains(o) {
            let k = choose|k: int| 0 <= k < r.len() && r[k] == o;
            assert(whole[k + mid] == o);
        }
    }
}

/// The hierarchy over `items` has exactly the objects of `items` below its
/// root.
pub proof fn lemma_built_leaves(items: Seq<Object>)
    requires
        items.len() > 0,
    ensures
        forall|o: Object| built(items).leaves().contains(o) <==> items.contains(o),
    decreases items.len(),
{
    let node = built(items);
    let axis = bounds(items).spec_longest_axis();
    lemma_leaves_of_children(node);
    if items.len() == 1 {
        assert(node.left.leaves() == seq![items[0]]);
        assert(node.right.leaves() == seq![items[0]]);
        assert forall|o: Object| node.leaves().contains(o) <==> items.contains(o) by {
            if items.contains(o) {
                assert(seq![items[0]][0] == o);
            }
            if node.leaves().contains(o) {
                assert(items[0] == o);
            }
        }
    } else if items.len() == 2 {
        let low = if box_key(items[1], axis) < box_key(items[0], axis) {
            items[1]
        } else {
            items[0]
        };
        let high = if box_key(items[1], axis) < box_key(items[0], axis) {
            items[0]
        } else {
            items[1]
        };
        assert(node.left.leaves() == seq![low]);
        assert(node.right.leaves() == seq![high]);
        assert forall|o: Object| node.leaves().contains(o) <==> items.contains(o) by {
            if items.contains(o) {
                assert(seq![low][0] == low);
                assert(seq![high][0] == high);
            }
            if node.leaves().contains(o) {
                assert(items[0] == o || items[1] == o);
            }
        }
    } else {
        let sorted = sorted_by_key(items, axis);
        let mid = items.len() as int / 2;
        lemma_sorted_permutes(items, axis);
        lemma_built_leaves(sorted.subrange(0, mid));
        lemma_built_leaves(sorted.subrange(mid, items.len() as int));
        lemma_parts_hold(sorted, mid);
        assert forall|o: Object| sorted.contains(o) <==> items.contains(o) by {
            vstd::seq_lib::to_multiset_contains(sorted, o);
            vstd::seq_lib::to_multiset_contains(items, o);
        }
    }
}

/// In the hierarchy over `items` every node reports a box that encloses the
/// boxes of all objects below it.
pub proof fn lemma_built_well_bounded(items: Seq<Object>)
    requires
        items.len() > 0,
    ensures
        built(items).well_bounded(),
        built(items).bbox == bounds(items),
    decreases items.len(),
{
    let node = built(items);
    lemma_built_leaves(items);
    assert forall|o: Object| #[trigger] node.leaves().contains(o) implies node.bbox.encloses(
        o.bbox,
    ) by {
        lemma_bounds_encloses(items, o);
    }
    if items.len() > 2 {
        let axis = bounds(items).spec_longest_axis();
        let sorted = sorted_by_key(items, axis);
        let mid = items.len() as int / 2;
        lemma_sorted_permutes(items, axis);
        lemma_built_well_bounded(sorted.subrange(0, mid));
        lemma_built_well_bounded(sorted.subrange(mid, items.len() as int));
    }
}

/// The hierarchy is balanced: its height is the logarithm of the number of
/// objects, rounded up, and 1 for a single object. So no object lies more
/// than that many nodes below the root, however the objects lie in space.
pub proof fn lemma_built_height(items: Seq<Object>)
    requires
        items.len() > 0,
    ensures
        built(items).height() >= 1,
        items.len() <= pow2(built(items).height()),
        pow2(built(items).height()) <= 2 * items.len(),
        items.len() >= 2 ==> pow2(built(items).height()) + 2 <= 2 * items.len(),
    decreases items.len(),
{
    let node = built(items);
    if items.len() <= 2 {
        assert(node.height() == 1);
        lemma_pow2_unfold(1);
        assert(pow2(0) == 1) by {
            vstd::arithmetic::power2::lemma2_to64();
        }
    } else {
        let axis = bounds(items).spec_longest_axis();
        let sorted = sorted_by_key(items, axis);
        let mid = items.len() as int / 2;
        lemma_sorted_permutes(items, axis);
        let low = sorted.subrange(0, mid);
        let high = sorted.subrange(mid, items.len() as int);
        lemma_built_height(low);
        lemma_built_height(high);
        let on_left = built(low).height();
        let on_right = built(high).height();
        assert(node.left.height() == on_left);
        assert(node.right.height() == on_right);
        if on_left < on_right {
            vstd::arithmetic::power2::lemma_pow2_strictly_increases(on_left, on_right);
        }
        if on_right < on_left {
            vstd::arithmetic::power2::lemma_pow2_strictly_increases(on_right, on_left);
        }
        lemma_pow2_unfold(node.height());
    }
}

/// The box of every node of the hierarchy over `items` is the union of the
/// boxes of its two children.
pub proof fn lemma_built_box_is_union(items: Seq<Object>)
    requires
        items.len() > 0,
    ensures
        built(items).bbox == built(items).left.bounding_box().union(
            built(items).right.bounding_box(),
        ),
        built(items).boxes_are_unions(),
    decreases items.len(),
{
    let node = built(items);
    let axis = bounds(items).spec_longest_axis();
    if items.len() == 1 {
        assert(bounds(items) == items[0].bbox) by {
            reveal_with_fuel(bounds, 2);
            assert(items.last() == items[0]);
        }
        assert(node.left == Child::Leaf(items[0]) && node.right == Child::Leaf(items[0]));
    } else if items.len() == 2 {
        assert(bounds(items) == items[0].bbox.union(items[1].bbox)) by {
            reveal_with_fuel(bounds, 3);
            assert(items.drop_last().last() == items[0]);
            assert(items.last() == items[1]);
        }
        assert(node == pair(items[0], items[1], axis, bounds(items)));
    } else {
        let sorted = sorted_by_key(items, axis);
        let mid = items.len() as int / 2;
        lemma_sorted_permutes(items, axis);
        let low = sorted.subrange(0, mid);
        let high = sorted.subrange(mid, items.len() as int);
        lemma_sorted_bounds(items, axis);
        assert(sorted == low + high);
        lemma_bounds_concat(low, high);
        lemma_built_well_bounded(low);
        lemma_built_well_bounded(high);
        lemma_built_box_is_union(low);
        lemma_built_box_is_union(high);
        assert(node.left == Child::Branch(Box::new(built(low))));
        assert(node.right == Child::Branch(Box::new(built(high))));
    }
}

/// A search of a child finds the least parameter at which an object below
/// it is met.
proof fn lemma_child_finds_closest(
    child: Child,
    entry: spec_fn(usize) -> Option<i64>,
    cull: Cull,
    ray_t: Interval,
)
    requires
        child.well_bounded(),
        cull_admits(cull, entry, child.leaves()),
    ensures
        is_closest(
            child.leaves(),
            entry,
            ray_t,
            hit_parameter(child.hit_model(cull, entry_probe(entry), ray_t)),
        ),
        match child.hit_model(cull, entry_probe(entry), ray_t) {
            Some(h) => entry(h.object) == Some(h.t) && holds_handle(child.leaves(), h.object),
            None => true,
        },
    decreases child,
{
    match child {
        Child::Leaf(o) => {
            assert(child.leaves()[0] == o);
            assert(child.leaves().contains(o));
            assert forall|w: Object| child.leaves().contains(w) implies w == o by {
                let k = choose|k: int| 0 <= k < child.leaves().len() && child.leaves()[k] == w;
            }
        },
        Child::Branch(node) => {
            lemma_node_finds_closest(*node, entry, cull, ray_t);
        },
    }
}

/// A search of a node finds the least parameter: where every object is met
/// at most once, as `entry` tells, where every node reports a box around
/// all that is below it, and where the box test turns no ray away from a box
/// around an object that it meets, `hit_model` returns the least parameter
/// within `ray_t` at which any object below the node is met, together with
/// an object that is met there.
pub proof fn lemma_node_finds_closest(
    node: BvhNode,
    entry: spec_fn(usize) -> Option<i64>,
    cull: Cull,
    ray_t: Interval,
)
    requires
        node.well_bounded(),
        cull_admits(cull, entry, node.leaves()),
    ensures
        is_closest(
            node.leaves(),
            entry,
            ray_t,
            hit_parameter(node.hit_model(cull, entry_probe(entry), ray_t)),
        ),
        match node.hit_model(cull, entry_probe(entry), ray_t) {
            Some(h) => entry(h.object) == Some(h.t) && node.holds(h.object),
            None => true,
        },
    decreases node,
{
    let probe = entry_probe(entry);
    lemma_leaves_of_children(node);
    if cull(node.bbox, ray_t) {
        let on_left = node.left.hit_model(cull, probe, ray_t);
        let range = narrowed(ray_t, on_left);
        let on_right = node.right.hit_model(cull, probe, range);
        lemma_cull_admits_part(cull, entry, node.leaves(), node.left.leaves());
        lemma_cull_admits_part(cull, entry, node.leaves(), node.right.leaves());
        lemma_child_finds_closest(node.left, entry, cull, ray_t);
        lemma_child_finds_closest(node.right, entry, cull, range);
        match on_right {
            Some(h) => {
                let w = choose|o: Object|
                    node.right.leaves().contains(o) && entry(o.handle) == Some(h.t);
                assert(node.leaves().contains(w));
            },
            None => {
                match on_left {
                    Some(h) => {
                        let w = choose|o: Object|
                            node.left.leaves().contains(o) && entry(o.handle) == Some(h.t);
                        assert(node.leaves().contains(w));
                    },
                    None => {},
                }
            },
        }
    }
}

/// The hierarchy and the linear search agree. For any objects, each met at
/// most once as `entry` tells, and any box test that turns no ray away from
/// a box around an object that it meets: the search of the hierarchy built
/// over the objects and the linear search of the same objects hit or miss
/// alike, and on a hit report the same parameter, which is the least within
/// `ray_t` at which any of the objects is met. Each reports an object that is
/// met there; where several objects are met at that parameter the two may
/// name different ones.
pub proof fn lemma_bvh_agrees_with_scan(
    items: Seq<Object>,
    entry: spec_fn(usize) -> Option<i64>,
    cull: Cull,
    ray_t: Interval,
)
    requires
        items.len() > 0,
        cull_admits(cull, entry, items),
    ensures
        hit_parameter(built(items).hit_model(cull, entry_probe(entry), ray_t)) == hit_parameter(
            scan(items, entry_probe(entry), ray_t),
        ),
        is_closest(
            items,
            entry,
            ray_t,
            hit_parameter(built(items).hit_model(cull, entry_probe(entry), ray_t)),
        ),
        match built(items).hit_model(cull, entry_probe(entry), ray_t) {
            Some(h) => entry(h.object) == Some(h.t) && holds_handle(items, h.object),
            None => true,
        },
{
    let node = built(items);
    let by_tree = node.hit_model(cull, entry_probe(entry), ray_t);
    lemma_built_leaves(items);
    lemma_built_well_bounded(items);
    lemma_cull_admits_part(cull, entry, items, node.leaves());
    lemma_node_finds_closest(node, entry, cull, ray_t);
    lemma_scan_finds_closest(items, entry, ray_t);
    match by_tree {
        Some(h) => {
            let w = choose|o: Object| node.leaves().contains(o) && entry(o.handle) == Some(h.t);
            assert(items.contains(w));
            let v = choose|o: Object| node.leaves().contains(o) && o.handle == h.object;
            assert(items.contains(v));
        },
        None => {},
    }
    lemma_closest_is_unique(
        items,
        entry,
        ray_t,
        hit_parameter(by_tree),
        hit_parameter(scan(items, entry_probe(entry), ray_t)),
    );
}

} // verus!
