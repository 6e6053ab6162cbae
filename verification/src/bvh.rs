//! The bounding-volume hierarchy: a strictly binary tree over shapes.
//!
//! Construction sorts each object range by the minimum bound on the
//! widest axis and splits at the midpoint; a range of one duplicates the
//! single leaf on both sides.  A node's box is the union of its
//! children's boxes, so the containment invariant of [`hittable_wf`]
//! holds by construction and box pruning is sound.

use vstd::prelude::*;

use vstd::seq_lib::lemma_multiset_commutative;

use crate::aabb::{aabb_contains, aabb_proper, aabb_union, aabb_wf, AABB};
use crate::hit::{
    flatten, hbox, hittable_hit_spec, hittable_wf, rec_wf, seq_fold_hit, HitRecord, Hittable,
};
use crate::hit_list::{lemma_wf_box, HitList};
use crate::interval::{ivl_wf, Interval};
use crate::ray::{ray_wf, Ray};

verus! {

#[allow(non_camel_case_types)]
pub struct Bvh_Node {
    pub left: Box<Hittable>,
    pub right: Box<Hittable>,
    pub bbox: AABB,
}

/// The sort key on one axis: the lower bound of the shape's box.
pub open spec fn axis_key(h: Hittable, axis: i32) -> int {
    if axis == 1 {
        hbox(h).y.min as int
    } else if axis == 2 {
        hbox(h).z.min as int
    } else {
        hbox(h).x.min as int
    }
}

/// Does `a` sort at or before `b` on the given axis?
pub fn box_compare(a: &Hittable, b: &Hittable, axis_index: i32) -> (r: bool)
    ensures
        r == (axis_key(*a, axis_index) <= axis_key(*b, axis_index)),
{
    let a_axis_interval = a.bounding_box().axis_interval(axis_index);
    let b_axis_interval = b.bounding_box().axis_interval(axis_index);
    a_axis_interval.min <= b_axis_interval.min
}

pub fn box_compare_x(a: &Hittable, b: &Hittable) -> (r: bool)
    ensures
        r == (axis_key(*a, 0) <= axis_key(*b, 0)),
{
    box_compare(a, b, 0)
}

pub fn box_compare_y(a: &Hittable, b: &Hittable) -> (r: bool)
    ensures
        r == (axis_key(*a, 1) <= axis_key(*b, 1)),
{
    box_compare(a, b, 1)
}

pub fn box_compare_z(a: &Hittable, b: &Hittable) -> (r: bool)
    ensures
        r == (axis_key(*a, 2) <= axis_key(*b, 2)),
{
    box_compare(a, b, 2)
}

/// Keys never decrease along the range.
pub open spec fn sorted_range(s: Seq<Hittable>, lo: int, hi: int, axis: i32) -> bool {
    forall|j1: int, j2: int|
        lo <= j1 <= j2 < hi ==> axis_key(#[trigger] s[j1], axis) <= axis_key(#[trigger] s[j2], axis)
}

/// Inserting an element adds it to the sequence's multiset.
proof fn lemma_seq_insert_multiset(s: Seq<Hittable>, pos: int, elt: Hittable)
    requires
        0 <= pos <= s.len(),
    ensures
        s.insert(pos, elt).to_multiset() == s.to_multiset().insert(elt),
{
    broadcast use vstd::seq_lib::group_to_multiset_ensures;

    let s0 = s.subrange(0, pos);
    let s1 = s.subrange(pos, s.len() as int);
    lemma_multiset_commutative(s0.push(elt), s1);
    lemma_multiset_commutative(s0, s1);
    assert(s =~= s0 + s1);
    assert(s.insert(pos, elt).to_multiset() =~= s.to_multiset().insert(elt));
}

/// A sequence's multiset splits across any cut of a subrange.
proof fn lemma_subrange_multiset_split(s: Seq<Hittable>, a: int, m: int, b: int)
    requires
        0 <= a <= m <= b <= s.len(),
    ensures
        s.subrange(a, b).to_multiset() == s.subrange(a, m).to_multiset().add(
            s.subrange(m, b).to_multiset(),
        ),
{
    assert(s.subrange(a, b) =~= s.subrange(a, m) + s.subrange(m, b));
    lemma_multiset_commutative(s.subrange(a, m), s.subrange(m, b));
}

/// Sort the range `[start, end)` by the key on `axis`, by insertion.
fn sort_range(objs: &mut Vec<Hittable>, start: usize, end: usize, axis: i32)
    requires
        start <= end,
        end <= old(objs)@.len(),
    ensures
        final(objs)@.len() == old(objs)@.len(),
        forall|j: int|
            0 <= j < old(objs)@.len() && !(start <= j < end) ==> final(objs)@[j] == old(objs)@[j],
        final(objs)@.subrange(start as int, end as int).to_multiset() == old(objs)@.subrange(
            start as int,
            end as int,
        ).to_multiset(),
        sorted_range(final(objs)@, start as int, end as int, axis),
{
    broadcast use vstd::seq_lib::group_to_multiset_ensures;

    let ghost orig = objs@;
    if start == end {
        proof {
            assert(objs@.subrange(start as int, end as int) =~= orig.subrange(
                start as int,
                end as int,
            ));
        }
        return ;
    }
    let mut i: usize = start + 1;
    while i < end
        invariant
            start < end <= objs@.len(),
            start < i <= end,
            objs@.len() == orig.len(),
            objs@.to_multiset() == orig.to_multiset(),
            forall|j: int| 0 <= j < orig.len() && !(start <= j < end) ==> objs@[j] == orig[j],
            sorted_range(objs@, start as int, i as int, axis),
        decreases end - i,
    {
        let ghost before = objs@;
        let cur = objs.remove(i);
        let ghost removed = objs@;
        proof {
            broadcast use vstd::multiset::group_multiset_axioms;

            assert(removed =~= before.remove(i as int));
            before.remove_ensures(i as int);
            before.to_multiset_ensures();
            assert(before[i as int] == cur);
            assert(before.contains(cur));
            assert(before.to_multiset().count(cur) > 0);
            assert(removed.to_multiset() == before.to_multiset().remove(cur));
        }
        let mut j: usize = start;
        while j < i && box_compare(&objs[j], &cur, axis)
            invariant
                start <= j <= i,
                i < before.len() == orig.len(),
                objs@ == removed,
                removed.len() == orig.len() - 1,
                forall|k: int| start <= k < j ==> axis_key(#[trigger] removed[k], axis) <= axis_key(
                    cur,
                    axis,
                ),
            decreases i - j,
        {
            j = j + 1;
        }
        objs.insert(j, cur);
        proof {
            broadcast use vstd::multiset::group_multiset_axioms;

            assert(objs@ =~= removed.insert(j as int, cur));
            removed.insert_ensures(j as int, cur);
            lemma_seq_insert_multiset(removed, j as int, cur);
            assert(objs@.to_multiset() == removed.to_multiset().insert(cur));
            assert(objs@.to_multiset() =~= before.to_multiset());
            assert forall|k: int|
                0 <= k < orig.len() && !(start <= k < end) implies objs@[k] == orig[k] by {
                if k < start {
                    assert(removed[k] == before[k]);
                    assert(objs@[k] == removed[k]);
                } else {
                    assert(removed[k - 1] == before[k]);
                    assert(objs@[k] == removed[k - 1]);
                }
            }
            assert forall|j1: int, j2: int|
                start <= j1 <= j2 < i + 1 implies axis_key(#[trigger] objs@[j1], axis) <= axis_key(
                #[trigger] objs@[j2],
                axis,
            ) by {
                assert(forall|k: int|
                    start <= k < i ==> #[trigger] removed[k] == before[k] && removed[k] == (
                    if k < j {
                        objs@[k]
                    } else {
                        objs@[k + 1]
                    }));
                if j < i {
                    assert(axis_key(removed[j as int], axis) > axis_key(cur, axis));
                }
            }
        }
        i = i + 1;
    }
    proof {
        let pre_a = orig.subrange(0, start as int);
        let mid_a = orig.subrange(start as int, end as int);
        let post_a = orig.subrange(end as int, orig.len() as int);
        let pre_b = objs@.subrange(0, start as int);
        let mid_b = objs@.subrange(start as int, end as int);
        let post_b = objs@.subrange(end as int, orig.len() as int);
        assert(pre_b =~= pre_a);
        assert(post_b =~= post_a);
        assert(orig =~= pre_a + (mid_a + post_a));
        assert(objs@ =~= pre_a + (mid_b + post_a));
        lemma_multiset_commutative(pre_a, mid_a + post_a);
        lemma_multiset_commutative(pre_a, mid_b + post_a);
        lemma_multiset_commutative(mid_a, post_a);
        lemma_multiset_commutative(mid_b, post_a);
        assert(mid_b.to_multiset() =~= mid_a.to_multiset()) by {
            assert forall|x: Hittable| true implies mid_b.to_multiset().count(x)
                == mid_a.to_multiset().count(x) by {
                assert(orig.to_multiset().count(x) == pre_a.to_multiset().count(x)
                    + mid_a.to_multiset().count(x) + post_a.to_multiset().count(x));
                assert(objs@.to_multiset().count(x) == pre_a.to_multiset().count(x)
                    + mid_b.to_multiset().count(x) + post_a.to_multiset().count(x));
            }
        }
    }
}

/// Do two sequences hold exactly the same members?
pub open spec fn same_members(a: Seq<Hittable>, b: Seq<Hittable>) -> bool {
    forall|x: Hittable| a.contains(x) <==> b.contains(x)
}

/// Membership in a concatenation is membership in either part.
proof fn lemma_concat_contains(s1: Seq<Hittable>, s2: Seq<Hittable>)
    ensures
        forall|x: Hittable| #[trigger]
            (s1 + s2).contains(x) <==> s1.contains(x) || s2.contains(x),
{
    assert forall|x: Hittable| #[trigger]
        (s1 + s2).contains(x) <==> s1.contains(x) || s2.contains(x) by {
        if (s1 + s2).contains(x) {
            let i = choose|i: int| 0 <= i < (s1 + s2).len() && (s1 + s2)[i] == x;
            if i < s1.len() {
                assert(s1[i] == x);
            } else {
                assert(s2[i - s1.len()] == x);
            }
        }
        if s1.contains(x) {
            let i = choose|i: int| 0 <= i < s1.len() && s1[i] == x;
            assert((s1 + s2)[i] == x);
        }
        if s2.contains(x) {
            let i = choose|i: int| 0 <= i < s2.len() && s2[i] == x;
            assert((s1 + s2)[s1.len() + i] == x);
        }
    }
}

/// A singleton holds exactly its one member.
proof fn lemma_singleton_contains(o: Hittable)
    ensures
        forall|x: Hittable| #[trigger] seq![o].contains(x) <==> x == o,
{
    assert forall|x: Hittable| #[trigger] seq![o].contains(x) <==> x == o by {
        if seq![o].contains(x) {
            let i = choose|i: int| 0 <= i < 1 && seq![o][i] == x;
            assert(i == 0);
        }
        assert(seq![o][0] == o);
    }
}

/// Equal multisets hold the same members.
proof fn lemma_multiset_contains_iff(s1: Seq<Hittable>, s2: Seq<Hittable>)
    requires
        s1.to_multiset() == s2.to_multiset(),
    ensures
        forall|x: Hittable| s1.contains(x) <==> s2.contains(x),
{
    broadcast use vstd::seq_lib::group_to_multiset_ensures;

    assert forall|x: Hittable| s1.contains(x) <==> s2.contains(x) by {
        assert(s1.contains(x) <==> s1.to_multiset().count(x) > 0);
        assert(s2.contains(x) <==> s2.to_multiset().count(x) > 0);
    }
}

/// Every element of a range with the same multiset as a well-formed
/// range is itself well-formed.
proof fn lemma_wf_across_multiset(s1: Seq<Hittable>, s2: Seq<Hittable>)
    requires
        s1.to_multiset() == s2.to_multiset(),
        forall|i: int| 0 <= i < s1.len() ==> hittable_wf(#[trigger] s1[i]),
    ensures
        forall|i: int| 0 <= i < s2.len() ==> hittable_wf(#[trigger] s2[i]),
{
    broadcast use vstd::seq_lib::group_to_multiset_ensures;

    assert forall|i: int| 0 <= i < s2.len() implies hittable_wf(#[trigger] s2[i]) by {
        assert(s2.contains(s2[i]));
        assert(s2.to_multiset().count(s2[i]) > 0);
        assert(s1.to_multiset().count(s2[i]) > 0);
        assert(s1.contains(s2[i]));
        let k = choose|k: int| 0 <= k < s1.len() && s1[k] == s2[i];
        assert(hittable_wf(s1[k]));
    }
}

/// Every leaf under the left child sorts at or before every leaf under
/// the right child on the axis the builder split by.
pub open spec fn split_partition(n: Bvh_Node, ax: i32) -> bool {
    forall|x: Hittable, y: Hittable|
        #![trigger flatten(*n.left).contains(x), flatten(*n.right).contains(y)]
        flatten(*n.left).contains(x) && flatten(*n.right).contains(y) ==> axis_key(x, ax)
            <= axis_key(y, ax)
}

/// A well-formed shape's box encloses the box of every leaf beneath it.
pub proof fn lemma_wf_flatten_boxes(h: Hittable)
    requires
        hittable_wf(h),
    ensures
        forall|x: Hittable|
            #[trigger] flatten(h).contains(x) ==> aabb_contains(hbox(h), hbox(x)),
    decreases h, 1int,
{
    match h {
        Hittable::Sphere(_) => {},
        Hittable::Quad(_) => {},
        Hittable::List(l) => {
            lemma_wf_flatten_boxes_seq(l.list@, 0, l.bbox);
            assert forall|x: Hittable| #[trigger]
                flatten(h).contains(x) implies aabb_contains(hbox(h), hbox(x)) by {
                assert(crate::hit::flat_from(l.list@, 0).contains(x));
            }
        },
        Hittable::Node(n) => {
            lemma_wf_flatten_boxes(*n.left);
            lemma_wf_flatten_boxes(*n.right);
            lemma_concat_contains(flatten(*n.left), flatten(*n.right));
            assert forall|x: Hittable| #[trigger]
                flatten(h).contains(x) implies aabb_contains(hbox(h), hbox(x)) by {
                assert((flatten(*n.left) + flatten(*n.right)).contains(x));
            }
        },
    }
}

/// The members' flattened leaves all sit inside a box that encloses
/// every member's box.
proof fn lemma_wf_flatten_boxes_seq(s: Seq<Hittable>, i: int, outer: AABB)
    requires
        0 <= i <= s.len(),
        forall|k: int| 0 <= k < s.len() ==> hittable_wf(#[trigger] s[k]),
        forall|k: int| 0 <= k < s.len() ==> aabb_contains(outer, hbox(#[trigger] s[k])),
    ensures
        forall|x: Hittable|
            #[trigger] crate::hit::flat_from(s, i).contains(x) ==> aabb_contains(outer, hbox(x)),
    decreases s, s.len() - i,
{
    if i < s.len() {
        lemma_wf_flatten_boxes(s[i]);
        lemma_wf_flatten_boxes_seq(s, i + 1, outer);
        lemma_concat_contains(flatten(s[i]), crate::hit::flat_from(s, i + 1));
        assert forall|x: Hittable| #[trigger]
            crate::hit::flat_from(s, i).contains(x) implies aabb_contains(outer, hbox(x)) by {
            assert((flatten(s[i]) + crate::hit::flat_from(s, i + 1)).contains(x));
        }
    }
}

impl Bvh_Node {
    /// Build a tree over the object range `[start, end)`.
    pub fn new(objects: Vec<Hittable>, start: usize, end: usize) -> (r: Bvh_Node)
        requires
            start < end,
            end <= objects@.len(),
            forall|i: int| 0 <= i < objects@.len() ==> hittable_wf(#[trigger] objects@[i]),
        ensures
            hittable_wf(Hittable::Node(r)),
            (forall|j: int| start <= j < end ==> crate::hit::is_prim(#[trigger] objects@[j]))
                ==> same_members(
                flatten(Hittable::Node(r)),
                objects@.subrange(start as int, end as int),
            ),
            forall|x: Hittable|
                #[trigger] flatten(Hittable::Node(r)).contains(x) ==> aabb_contains(
                    r.bbox,
                    hbox(x),
                ),
            end - start == 1 && crate::hit::is_prim(objects@[start as int]) ==> *r.left
                == objects@[start as int] && *r.right == objects@[start as int],
            end - start == 2 && crate::hit::is_prim(objects@[start as int])
                && crate::hit::is_prim(objects@[start as int + 1]) ==> *r.left == objects@[
                start as int
            ] && *r.right == objects@[start as int + 1],
            (end - start > 2 && (forall|j: int|
                start <= j < end ==> crate::hit::is_prim(#[trigger] objects@[j]))) ==> exists|
                ax: i32,
            | #[trigger] split_partition(r, ax),
    {
        let mut objs = objects;
        Bvh_Node::build(&mut objs, start, end)
    }

    /// Build a tree over the whole collection.
    pub fn new_by_list(hit_list: &HitList) -> (r: Bvh_Node)
        requires
            hittable_wf(Hittable::List(*hit_list)),
            hit_list.list@.len() > 0,
        ensures
            hittable_wf(Hittable::Node(r)),
            (forall|j: int|
                0 <= j < hit_list.list@.len() ==> crate::hit::is_prim(
                    #[trigger] hit_list.list@[j],
                )) ==> same_members(flatten(Hittable::Node(r)), hit_list.list@),
    {
        let copy = hit_list.duplicate();
        let len = copy.list.len();
        proof {
            if forall|j: int|
                0 <= j < hit_list.list@.len() ==> crate::hit::is_prim(
                    #[trigger] hit_list.list@[j],
                ) {
                assert(copy.list@ =~= hit_list.list@);
            }
            assert(copy.list@.subrange(0, copy.list@.len() as int) =~= copy.list@);
        }
        Bvh_Node::new(copy.list, 0, len)
    }

    /// The recursive builder: box the range, choose the widest axis,
    /// sort, split at the midpoint and recurse.
    fn build(objs: &mut Vec<Hittable>, start: usize, end: usize) -> (r: Bvh_Node)
        requires
            start < end,
            end <= old(objs)@.len(),
            forall|i: int| start <= i < end ==> hittable_wf(#[trigger] old(objs)@[i]),
        ensures
            final(objs)@.len() == old(objs)@.len(),
            forall|j: int|
                0 <= j < old(objs)@.len() && !(start <= j < end) ==> final(objs)@[j] == old(
                    objs,
                )@[j],
            final(objs)@.subrange(start as int, end as int).to_multiset() == old(objs)@.subrange(
                start as int,
                end as int,
            ).to_multiset(),
            hittable_wf(Hittable::Node(r)),
            (forall|j: int| start <= j < end ==> crate::hit::is_prim(#[trigger] old(objs)@[j]))
                ==> same_members(
                flatten(Hittable::Node(r)),
                old(objs)@.subrange(start as int, end as int),
            ),
            forall|x: Hittable|
                #[trigger] flatten(Hittable::Node(r)).contains(x) ==> aabb_contains(
                    r.bbox,
                    hbox(x),
                ),
            end - start == 1 ==> hbox(*r.left) == hbox(old(objs)@[start as int]) && hbox(*r.right)
                == hbox(old(objs)@[start as int]),
            end - start == 1 && crate::hit::is_prim(old(objs)@[start as int]) ==> *r.left == old(
                objs,
            )@[start as int] && *r.right == old(objs)@[start as int],
            end - start == 2 ==> hbox(*r.left) == hbox(old(objs)@[start as int]) && hbox(*r.right)
                == hbox(old(objs)@[start as int + 1]),
            end - start == 2 && crate::hit::is_prim(old(objs)@[start as int])
                && crate::hit::is_prim(old(objs)@[start as int + 1]) ==> *r.left == old(
                objs,
            )@[start as int] && *r.right == old(objs)@[start as int + 1],
            (end - start > 2 && (forall|j: int|
                start <= j < end ==> crate::hit::is_prim(#[trigger] old(objs)@[j]))) ==> exists|
                ax: i32,
            | #[trigger] split_partition(r, ax),
        decreases end - start,
    {
        let ghost orig = objs@;
        let mut bbox = AABB::new(Interval::empty(), Interval::empty(), Interval::empty());
        let mut idx = start;
        while idx < end
            invariant
                start <= idx <= end <= objs@.len(),
                objs@ == orig,
                forall|i: int| start <= i < end ==> hittable_wf(#[trigger] objs@[i]),
                aabb_wf(bbox),
            decreases end - idx,
        {
            let element = &objs[idx];
            proof {
                lemma_wf_box(objs@[idx as int]);
            }
            bbox = AABB::new_by_aabb(&bbox, &element.bounding_box());
            idx = idx + 1;
        }
        let axis = bbox.longest_axis();
        let object_span = end - start;
        if object_span == 1 {
            let leaf = &objs[start];
            let left = leaf.duplicate();
            let right = leaf.duplicate();
            proof {
                lemma_wf_box(objs@[start as int]);
                assert(objs@.subrange(start as int, end as int) =~= orig.subrange(
                    start as int,
                    end as int,
                ));
            }
            let node_box = AABB::new_by_aabb(&left.bounding_box(), &right.bounding_box());
            let ghost gleft = left;
            let ghost gright = right;
            let node = Bvh_Node { left: Box::new(left), right: Box::new(right), bbox: node_box };
            proof {
                if forall|j: int|
                    start <= j < end ==> crate::hit::is_prim(#[trigger] orig[j]) {
                    let obj = orig[start as int];
                    assert(crate::hit::is_prim(obj));
                    assert(gleft == obj && gright == obj);
                    assert(flatten(gleft) =~= seq![obj]);
                    assert(flatten(Hittable::Node(node)) =~= seq![obj] + seq![obj]);
                    lemma_concat_contains(seq![obj], seq![obj]);
                    lemma_singleton_contains(obj);
                    assert(orig.subrange(start as int, end as int) =~= seq![obj]);
                    assert forall|x: Hittable|
                        flatten(Hittable::Node(node)).contains(x) <==> orig.subrange(
                            start as int,
                            end as int,
                        ).contains(x) by {
                        assert(seq![obj].contains(x) <==> x == obj);
                    }
                }
                assert(hittable_wf(Hittable::Node(node)));
                lemma_wf_flatten_boxes(Hittable::Node(node));
            }
            node
        } else if object_span == 2 {
            let left = objs[start].duplicate();
            let right = objs[start + 1].duplicate();
            proof {
                lemma_wf_box(objs@[start as int]);
                lemma_wf_box(objs@[start as int + 1]);
                assert(objs@.subrange(start as int, end as int) =~= orig.subrange(
                    start as int,
                    end as int,
                ));
            }
            let node_box = AABB::new_by_aabb(&left.bounding_box(), &right.bounding_box());
            let ghost gleft = left;
            let ghost gright = right;
            let node = Bvh_Node { left: Box::new(left), right: Box::new(right), bbox: node_box };
            proof {
                if forall|j: int|
                    start <= j < end ==> crate::hit::is_prim(#[trigger] orig[j]) {
                    let a = orig[start as int];
                    let bb = orig[start as int + 1];
                    assert(crate::hit::is_prim(a) && crate::hit::is_prim(bb));
                    assert(gleft == a && gright == bb);
                    assert(flatten(gleft) =~= seq![a]);
                    assert(flatten(gright) =~= seq![bb]);
                    assert(flatten(Hittable::Node(node)) =~= seq![a] + seq![bb]);
                    lemma_concat_contains(seq![a], seq![bb]);
                    lemma_singleton_contains(a);
                    lemma_singleton_contains(bb);
                    assert(orig.subrange(start as int, end as int) =~= seq![a] + seq![bb]);
                    assert forall|x: Hittable|
                        flatten(Hittable::Node(node)).contains(x) <==> orig.subrange(
                            start as int,
                            end as int,
                        ).contains(x) by {
                        assert(seq![a].contains(x) <==> x == a);
                        assert(seq![bb].contains(x) <==> x == bb);
                    }
                }
                assert(hittable_wf(Hittable::Node(node)));
                lemma_wf_flatten_boxes(Hittable::Node(node));
            }
            node
        } else {
            sort_range(objs, start, end, axis);
            let ghost sorted = objs@;
            proof {
                lemma_wf_across_multiset(
                    orig.subrange(start as int, end as int),
                    sorted.subrange(start as int, end as int),
                );
                assert forall|i: int| start <= i < end implies hittable_wf(
                    #[trigger] sorted[i],
                ) by {
                    assert(sorted.subrange(start as int, end as int)[i - start] == sorted[i]);
                }
            }
            let mid = start + object_span / 2;
            let left = Bvh_Node::build(objs, start, mid);
            let ghost after_left = objs@;
            proof {
                assert forall|i: int| mid <= i < end implies hittable_wf(
                    #[trigger] after_left[i],
                ) by {
                    assert(after_left[i] == sorted[i]);
                }
            }
            let right = Bvh_Node::build(objs, mid, end);
            proof {
                lemma_wf_box(Hittable::Node(left));
                lemma_wf_box(Hittable::Node(right));
                lemma_chain_multisets(orig, sorted, after_left, objs@, start as int, mid as int,
                    end as int);
            }
            let node_box = AABB::new_by_aabb(&left.bbox, &right.bbox);
            let ghost gleft = left;
            let ghost gright = right;
            let node = Bvh_Node {
                left: Box::new(Hittable::Node(left)),
                right: Box::new(Hittable::Node(right)),
                bbox: node_box,
            };
            proof {
                if forall|j: int|
                    start <= j < end ==> crate::hit::is_prim(#[trigger] orig[j]) {
                    let os = orig.subrange(start as int, end as int);
                    let ss = sorted.subrange(start as int, end as int);
                    let s1 = sorted.subrange(start as int, mid as int);
                    let s2 = sorted.subrange(mid as int, end as int);
                    lemma_multiset_contains_iff(ss, os);
                    assert forall|j: int|
                        start <= j < end implies crate::hit::is_prim(#[trigger] sorted[j]) by {
                        assert(ss[j - start] == sorted[j]);
                        assert(ss.contains(sorted[j]));
                        assert(os.contains(sorted[j]));
                        let k = choose|k: int| 0 <= k < os.len() && os[k] == sorted[j];
                        assert(os[k] == orig[start + k]);
                    }
                    assert(same_members(flatten(Hittable::Node(gleft)), s1));
                    assert(after_left.subrange(mid as int, end as int) =~= s2);
                    assert forall|j: int|
                        mid <= j < end implies crate::hit::is_prim(
                        #[trigger] after_left[j],
                    ) by {
                        assert(after_left[j] == sorted[j]);
                    }
                    assert(same_members(flatten(Hittable::Node(gright)), s2));
                    assert(flatten(Hittable::Node(node)) =~= flatten(Hittable::Node(gleft))
                        + flatten(Hittable::Node(gright)));
                    lemma_concat_contains(
                        flatten(Hittable::Node(gleft)),
                        flatten(Hittable::Node(gright)),
                    );
                    assert(ss =~= s1 + s2);
                    lemma_concat_contains(s1, s2);
                    assert forall|x: Hittable|
                        flatten(Hittable::Node(node)).contains(x) <==> os.contains(x) by {
                        assert(flatten(Hittable::Node(node)).contains(x) <==> (flatten(
                            Hittable::Node(gleft),
                        ) + flatten(Hittable::Node(gright))).contains(x));
                        assert(ss.contains(x) <==> (s1 + s2).contains(x));
                    }
                    assert forall|x: Hittable, y: Hittable|
                        flatten(*node.left).contains(x) && flatten(*node.right).contains(
                            y,
                        ) implies axis_key(x, axis) <= axis_key(y, axis) by {
                        assert(s1.contains(x));
                        assert(s2.contains(y));
                        let k1 = choose|k: int| 0 <= k < s1.len() && s1[k] == x;
                        let k2 = choose|k: int| 0 <= k < s2.len() && s2[k] == y;
                        assert(sorted[start + k1] == x);
                        assert(sorted[mid + k2] == y);
                        assert(axis_key(sorted[start + k1], axis) <= axis_key(
                            sorted[mid + k2],
                            axis,
                        ));
                    }
                    assert(split_partition(node, axis));
                }
                assert(hittable_wf(Hittable::Node(node)));
                lemma_wf_flatten_boxes(Hittable::Node(node));
            }
            node
        }
    }

    /// The enclosing box.
    pub fn bounding_box(&self) -> (r: AABB)
        ensures
            r == self.bbox,
    {
        self.bbox
    }

    /// A deep copy: same box, well-formedness kept.
    pub fn duplicate(&self) -> (r: Bvh_Node)
        ensures
            r.bbox == self.bbox,
            hittable_wf(Hittable::Node(*self)) ==> hittable_wf(Hittable::Node(r)),
        decreases *self, 0int,
    {
        Bvh_Node {
            left: Box::new(self.left.duplicate()),
            right: Box::new(self.right.duplicate()),
            bbox: self.bbox,
        }
    }

    /// Probe the node's box; if the ray meets it, query both children,
    /// narrowing the right child's search to what the left child found.
    pub fn hit(&self, ray_: &Ray, ray_t: Interval, rec: &mut HitRecord) -> (res: bool)
        requires
            hittable_wf(Hittable::Node(*self)),
            ray_wf(*ray_),
            ivl_wf(ray_t),
            rec_wf(*old(rec)),
        ensures
            res == hittable_hit_spec(Hittable::Node(*self), *ray_, ray_t) is Some,
            res ==> hittable_hit_spec(Hittable::Node(*self), *ray_, ray_t) == Some(*final(rec)),
            !res ==> *final(rec) == *old(rec),
            rec_wf(*final(rec)),
        decreases *self, 0int,
    {
        let mut ray_t_ref = ray_t;
        if !self.bbox.hit(ray_, &mut ray_t_ref) {
            return false;
        }
        let hit_left = self.left.hit(ray_, ray_t, rec);
        let right_t = Interval::new(
            ray_t.min,
            if hit_left {
                rec.t
            } else {
                ray_t.max
            },
        );
        let hit_right = self.right.hit(ray_, right_t, rec);
        hit_left || hit_right
    }
}

/// The fold state is consistent: once a best record is held, the search
/// ceiling is exactly its parameter.
pub open spec fn fold_state_inv(c: int, b: Option<HitRecord>) -> bool {
    b is Some ==> c == b.unwrap().t as int
}

/// Keep the new result if there is one, else the old.
pub open spec fn keep_nearer(o: Option<HitRecord>, b: Option<HitRecord>) -> Option<HitRecord> {
    if o is Some {
        o
    } else {
        b
    }
}

/// The search ceiling after absorbing a fold result.
pub open spec fn next_closest(c: int, o: Option<HitRecord>) -> int {
    if o is Some {
        o.unwrap().t as int
    } else {
        c
    }
}

/// Folding a concatenation beyond the first part is folding the second.
proof fn lemma_fold_shift(
    s1: Seq<Hittable>,
    s2: Seq<Hittable>,
    k: int,
    r: Ray,
    tmin: int,
    c: int,
    b: Option<HitRecord>,
)
    requires
        0 <= k <= s2.len(),
    ensures
        seq_fold_hit(s1 + s2, s1.len() + k, r, tmin, c, b) == seq_fold_hit(s2, k, r, tmin, c, b),
    decreases s2.len() - k,
{
    if k < s2.len() {
        assert((s1 + s2)[s1.len() + k] == s2[k]);
        match hittable_hit_spec(s2[k], r, crate::interval::ivl2(tmin, c)) {
            Some(rec) => {
                lemma_fold_shift(s1, s2, k + 1, r, tmin, rec.t as int, Some(rec));
            },
            None => {
                lemma_fold_shift(s1, s2, k + 1, r, tmin, c, b);
            },
        }
    }
}

/// Folding a concatenation is folding the first part, then folding the
/// second from the state the first part left behind.
proof fn lemma_fold_append(
    s1: Seq<Hittable>,
    s2: Seq<Hittable>,
    i: int,
    r: Ray,
    tmin: int,
    c: int,
    b: Option<HitRecord>,
)
    requires
        0 <= i <= s1.len(),
        fold_state_inv(c, b),
    ensures
        seq_fold_hit(s1 + s2, i, r, tmin, c, b) == seq_fold_hit(
            s2,
            0,
            r,
            tmin,
            next_closest(c, seq_fold_hit(s1, i, r, tmin, c, b)),
            seq_fold_hit(s1, i, r, tmin, c, b),
        ),
    decreases s1.len() - i,
{
    if i == s1.len() {
        lemma_fold_shift(s1, s2, 0, r, tmin, c, b);
    } else {
        assert((s1 + s2)[i] == s1[i]);
        match hittable_hit_spec(s1[i], r, crate::interval::ivl2(tmin, c)) {
            Some(rec) => {
                lemma_fold_append(s1, s2, i + 1, r, tmin, rec.t as int, Some(rec));
                lemma_fold_carry(s1, i + 1, r, tmin, rec.t as int, Some(rec));
            },
            None => {
                lemma_fold_append(s1, s2, i + 1, r, tmin, c, b);
            },
        }
    }
}

/// The record carried into a fold only rides along: the fold's result is
/// the carried record unless the fold finds something itself.
proof fn lemma_fold_carry(
    s: Seq<Hittable>,
    i: int,
    r: Ray,
    tmin: int,
    c: int,
    b: Option<HitRecord>,
)
    requires
        0 <= i <= s.len(),
    ensures
        seq_fold_hit(s, i, r, tmin, c, b) == keep_nearer(seq_fold_hit(s, i, r, tmin, c, None), b),
    decreases s.len() - i,
{
    if i < s.len() {
        match hittable_hit_spec(s[i], r, crate::interval::ivl2(tmin, c)) {
            Some(rec) => {
                lemma_fold_carry(s, i + 1, r, tmin, rec.t as int, Some(rec));
            },
            None => {
                lemma_fold_carry(s, i + 1, r, tmin, c, b);
            },
        }
    }
}

/// A shape whose box lies inside a box the ray misses cannot be hit in
/// any search range at most as wide.
#[verifier::rlimit(100)]
proof fn lemma_boxed_out(h: Hittable, r: Ray, tmin: int, c: int, cbig: int, bigbox: AABB)
    requires
        hittable_wf(h),
        aabb_proper(bigbox),
        aabb_contains(bigbox, hbox(h)),
        !crate::aabb::aabb_hit_spec(bigbox, r, crate::interval::ivl2(tmin, cbig)),
        c <= cbig,
        i64::MIN <= tmin <= i64::MAX,
        i64::MIN <= c <= i64::MAX,
        i64::MIN <= cbig <= i64::MAX,
    ensures
        hittable_hit_spec(h, r, crate::interval::ivl2(tmin, c)) is None,
    decreases h, 1int,
{
    let small = crate::interval::ivl2(tmin, c);
    let big = crate::interval::ivl2(tmin, cbig);
    crate::hit_list::lemma_wf_box(h);
    if crate::aabb::aabb_hit_spec(hbox(h), r, small) {
        crate::aabb::lemma_slab_mono(hbox(h), bigbox, r, small, big);
        assert(false);
    }
    match h {
        Hittable::Sphere(s) => {},
        Hittable::Quad(q) => {},
        Hittable::List(l) => {
            lemma_boxed_out_seq(l.list@, 0, r, tmin, c, cbig, bigbox, None, l.bbox);
        },
        Hittable::Node(n) => {
            lemma_boxed_out(*n.left, r, tmin, c, cbig, bigbox);
            lemma_boxed_out(*n.right, r, tmin, c, cbig, bigbox);
        },
    }
}

/// Folding shapes that all lie inside a missed box changes nothing.
proof fn lemma_boxed_out_seq(
    s: Seq<Hittable>,
    i: int,
    r: Ray,
    tmin: int,
    c: int,
    cbig: int,
    bigbox: AABB,
    b: Option<HitRecord>,
    owner: AABB,
)
    requires
        0 <= i <= s.len(),
        forall|k: int| 0 <= k < s.len() ==> hittable_wf(#[trigger] s[k]),
        forall|k: int| 0 <= k < s.len() ==> aabb_contains(owner, hbox(#[trigger] s[k])),
        aabb_contains(bigbox, owner),
        aabb_proper(bigbox),
        !crate::aabb::aabb_hit_spec(bigbox, r, crate::interval::ivl2(tmin, cbig)),
        c <= cbig,
        i64::MIN <= tmin <= i64::MAX,
        i64::MIN <= c <= i64::MAX,
        i64::MIN <= cbig <= i64::MAX,
    ensures
        seq_fold_hit(s, i, r, tmin, c, b) == b,
    decreases s, s.len() - i,
{
    if i < s.len() {
        lemma_boxed_out(s[i], r, tmin, c, cbig, bigbox);
        lemma_boxed_out_seq(s, i + 1, r, tmin, c, cbig, bigbox, b, owner);
    }
}

/// Folding a single primitive leaf absorbs its own query result.
#[verifier::rlimit(100)]
proof fn lemma_tree_fold_leaf(h: Hittable, r: Ray, tmin: int, c: int, b: Option<HitRecord>)
    requires
        h is Sphere || h is Quad,
        fold_state_inv(c, b),
    ensures
        seq_fold_hit(seq![h], 0, r, tmin, c, b) == keep_nearer(
            hittable_hit_spec(h, r, crate::interval::ivl2(tmin, c)),
            b,
        ),
{
    let t = crate::interval::ivl2(tmin, c);
    let one = seq![h];
    assert(one[0] == h);
    match hittable_hit_spec(h, r, t) {
        Some(rec) => {
            assert(seq_fold_hit(one, 0, r, tmin, c, b) == seq_fold_hit(
                one,
                1,
                r,
                tmin,
                rec.t as int,
                Some(rec),
            ));
            assert(seq_fold_hit(one, 1, r, tmin, rec.t as int, Some(rec)) == Some(rec));
        },
        None => {
            assert(seq_fold_hit(one, 0, r, tmin, c, b) == seq_fold_hit(one, 1, r, tmin, c, b));
            assert(seq_fold_hit(one, 1, r, tmin, c, b) == b);
        },
    }
}

/// The heart of the hierarchy's correctness: folding the flattened
/// leaves of a shape from any consistent state gives exactly what the
/// shape's own (box-pruned, both-children) query gives.
#[verifier::rlimit(100)]
proof fn lemma_tree_fold(h: Hittable, r: Ray, tmin: int, c: int, b: Option<HitRecord>)
    requires
        hittable_wf(h),
        fold_state_inv(c, b),
        i64::MIN <= tmin <= i64::MAX,
        i64::MIN <= c <= i64::MAX,
    ensures
        seq_fold_hit(flatten(h), 0, r, tmin, c, b) == keep_nearer(
            hittable_hit_spec(h, r, crate::interval::ivl2(tmin, c)),
            b,
        ),
        fold_state_inv(
            next_closest(c, seq_fold_hit(flatten(h), 0, r, tmin, c, b)),
            seq_fold_hit(flatten(h), 0, r, tmin, c, b),
        ),
    decreases h, 1int,
{
    let t = crate::interval::ivl2(tmin, c);
    match h {
        Hittable::Sphere(s) => {
            assert(flatten(h) =~= seq![h]);
            assert(flatten(h) == seq![h]);
            lemma_tree_fold_leaf(h, r, tmin, c, b);
            assert(seq_fold_hit(flatten(h), 0, r, tmin, c, b) == seq_fold_hit(
                seq![h],
                0,
                r,
                tmin,
                c,
                b,
            ));
        },
        Hittable::Quad(q) => {
            assert(flatten(h) =~= seq![h]);
            assert(flatten(h) == seq![h]);
            lemma_tree_fold_leaf(h, r, tmin, c, b);
            assert(seq_fold_hit(flatten(h), 0, r, tmin, c, b) == seq_fold_hit(
                seq![h],
                0,
                r,
                tmin,
                c,
                b,
            ));
        },
        Hittable::List(l) => {
            lemma_tree_fold_seq(l.list@, 0, r, tmin, c, b);
            lemma_fold_carry(l.list@, 0, r, tmin, c, b);
        },
        Hittable::Node(n) => {
            if !crate::aabb::aabb_hit_spec(n.bbox, r, t) {
                lemma_boxed_out(*n.left, r, tmin, c, c, n.bbox);
                lemma_boxed_out(*n.right, r, tmin, c, c, n.bbox);
                lemma_fold_append(flatten(*n.left), flatten(*n.right), 0, r, tmin, c, b);
                lemma_tree_fold(*n.left, r, tmin, c, b);
                lemma_tree_fold(*n.right, r, tmin, c, b);
            } else {
                lemma_fold_append(flatten(*n.left), flatten(*n.right), 0, r, tmin, c, b);
                lemma_tree_fold(*n.left, r, tmin, c, b);
                let fl = seq_fold_hit(flatten(*n.left), 0, r, tmin, c, b);
                lemma_tree_fold(*n.right, r, tmin, next_closest(c, fl), fl);
            }
        },
    }
}

/// Flattening preserves the fold: folding the flattened members is
/// folding the members themselves.
proof fn lemma_tree_fold_seq(
    s: Seq<Hittable>,
    i: int,
    r: Ray,
    tmin: int,
    c: int,
    b: Option<HitRecord>,
)
    requires
        0 <= i <= s.len(),
        forall|k: int| 0 <= k < s.len() ==> hittable_wf(#[trigger] s[k]),
        fold_state_inv(c, b),
        i64::MIN <= tmin <= i64::MAX,
        i64::MIN <= c <= i64::MAX,
    ensures
        seq_fold_hit(crate::hit::flat_from(s, i), 0, r, tmin, c, b) == seq_fold_hit(
            s,
            i,
            r,
            tmin,
            c,
            b,
        ),
    decreases s, s.len() - i,
{
    if i >= s.len() {
        assert(crate::hit::flat_from(s, i) =~= Seq::<Hittable>::empty());
    } else {
        lemma_fold_append(flatten(s[i]), crate::hit::flat_from(s, i + 1), 0, r, tmin, c, b);
        lemma_tree_fold(s[i], r, tmin, c, b);
        let f = seq_fold_hit(flatten(s[i]), 0, r, tmin, c, b);
        lemma_tree_fold_seq(s, i + 1, r, tmin, next_closest(c, f), f);
    }
}

/// A query against any well-formed shape — a BVH above all — returns
/// exactly what a brute-force linear search over its flattened
/// primitives returns: the same presence or absence of a hit, and the
/// identical record (parameter, point, normal and material reference).
pub proof fn lemma_bvh_equals_linear_search(h: Hittable, r: Ray, t: Interval)
    requires
        hittable_wf(h),
        ivl_wf(t),
    ensures
        hittable_hit_spec(h, r, t) == seq_fold_hit(
            flatten(h),
            0,
            r,
            t.min as int,
            t.max as int,
            None,
        ),
{
    lemma_tree_fold(h, r, t.min as int, t.max as int, None);
    assert(crate::interval::ivl2(t.min as int, t.max as int) == t);
}

/// Until a fold finds its first hit, its search ceiling never moves: so
/// a successful fold that started empty names a shape hit in the
/// original range.
proof fn lemma_fold_first_hit(s: Seq<Hittable>, i: int, r: Ray, tmin: int, c: int)
    requires
        0 <= i <= s.len(),
        seq_fold_hit(s, i, r, tmin, c, None) is Some,
    ensures
        exists|k: int|
            i <= k < s.len() && hittable_hit_spec(#[trigger] s[k], r, crate::interval::ivl2(
                tmin,
                c,
            )) is Some,
    decreases s.len() - i,
{
    if i < s.len() {
        match hittable_hit_spec(s[i], r, crate::interval::ivl2(tmin, c)) {
            Some(rec) => {
                assert(hittable_hit_spec(s[i], r, crate::interval::ivl2(tmin, c)) is Some);
            },
            None => {
                lemma_fold_first_hit(s, i + 1, r, tmin, c);
            },
        }
    }
}

/// If any shape in the range is hit within the current search range,
/// the fold comes back with something.
proof fn lemma_fold_finds(
    s: Seq<Hittable>,
    i: int,
    r: Ray,
    tmin: int,
    c: int,
    b: Option<HitRecord>,
    k: int,
)
    requires
        0 <= i <= k < s.len(),
        hittable_hit_spec(s[k], r, crate::interval::ivl2(tmin, c)) is Some,
    ensures
        seq_fold_hit(s, i, r, tmin, c, b) is Some,
    decreases s.len() - i,
{
    match hittable_hit_spec(s[i], r, crate::interval::ivl2(tmin, c)) {
        Some(rec) => {
            lemma_fold_carry(s, i + 1, r, tmin, rec.t as int, Some(rec));
        },
        None => {
            lemma_fold_finds(s, i + 1, r, tmin, c, b, k);
        },
    }
}

/// The existence half of the equivalence: a query against a well-formed
/// shape reports a hit exactly when some primitive leaf under it
/// reports a hit on the same ray and search interval.
pub proof fn lemma_hit_iff_some_primitive_hits(h: Hittable, r: Ray, t: Interval)
    requires
        hittable_wf(h),
        ivl_wf(t),
    ensures
        hittable_hit_spec(h, r, t) is Some <==> exists|k: int|
            0 <= k < flatten(h).len() && hittable_hit_spec(#[trigger] flatten(h)[k], r, t)
                is Some,
{
    lemma_bvh_equals_linear_search(h, r, t);
    assert(crate::interval::ivl2(t.min as int, t.max as int) == t);
    if hittable_hit_spec(h, r, t) is Some {
        lemma_fold_first_hit(flatten(h), 0, r, t.min as int, t.max as int);
    }
    if exists|k: int|
        0 <= k < flatten(h).len() && hittable_hit_spec(#[trigger] flatten(h)[k], r, t) is Some {
        let k = choose|k: int|
            0 <= k < flatten(h).len() && hittable_hit_spec(#[trigger] flatten(h)[k], r, t)
                is Some;
        lemma_fold_finds(flatten(h), 0, r, t.min as int, t.max as int, None, k);
    }
}

/// Chain the three range-multiset equalities of sort and the two
/// recursive builds into one for the whole range.
proof fn lemma_chain_multisets(
    orig: Seq<Hittable>,
    sorted: Seq<Hittable>,
    after_left: Seq<Hittable>,
    fin: Seq<Hittable>,
    start: int,
    mid: int,
    end: int,
)
    requires
        0 <= start <= mid <= end <= orig.len(),
        sorted.len() == orig.len(),
        after_left.len() == orig.len(),
        fin.len() == orig.len(),
        sorted.subrange(start, end).to_multiset() == orig.subrange(start, end).to_multiset(),
        forall|j: int| 0 <= j < orig.len() && !(start <= j < end) ==> sorted[j] == orig[j],
        after_left.subrange(start, mid).to_multiset() == sorted.subrange(start, mid).to_multiset(),
        forall|j: int| 0 <= j < orig.len() && !(start <= j < mid) ==> after_left[j] == sorted[j],
        fin.subrange(mid, end).to_multiset() == after_left.subrange(mid, end).to_multiset(),
        forall|j: int| 0 <= j < orig.len() && !(mid <= j < end) ==> fin[j] == after_left[j],
    ensures
        fin.subrange(start, end).to_multiset() == orig.subrange(start, end).to_multiset(),
        forall|j: int| 0 <= j < orig.len() && !(start <= j < end) ==> fin[j] == orig[j],
{
    lemma_subrange_multiset_split(fin, start, mid, end);
    lemma_subrange_multiset_split(after_left, start, mid, end);
    lemma_subrange_multiset_split(sorted, start, mid, end);
    assert(fin.subrange(start, mid) =~= after_left.subrange(start, mid));
    assert(after_left.subrange(mid, end) =~= sorted.subrange(mid, end));
}

} // verus!
