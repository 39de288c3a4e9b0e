//! The bounding volume hierarchy: a binary tree whose every node carries a
//! box enclosing everything below it, letting a traversal prune whole
//! subtrees with one exact slab test.  Building the tree sorts the shapes
//! along a randomly chosen axis and splits at the midpoint; the tree offers
//! a ray exactly the candidate parameters the flat list does.

use crate::aabb::{box_ok, surrounding_box, surrounding_spec, Aabb};
use crate::hittable::{deterministic, hit_ts, spec_bbox, wf, Hittable};
use crate::hittable_list::{
    lemma_list_ts_has, lemma_list_ts_member, list_det, list_ts, list_ts_upto, list_wf,
};
use crate::ray::Ray;
use crate::rng::random_int_lr;
use vstd::multiset::Multiset;
use vstd::prelude::*;
use vstd::seq_lib::group_to_multiset_ensures;

verus! {

pub struct BvhNode {
    pub left: Option<Box<Hittable>>,
    pub right: Option<Box<Hittable>>,
    pub box_: Aabb,
}

/// Sequences holding the same shapes offer the same candidate parameters.
proof fn lemma_list_ts_permuted(s1: Seq<Hittable>, s2: Seq<Hittable>, r: Ray)
    requires
        s1.to_multiset() == s2.to_multiset(),
    ensures
        list_ts(s1, r) =~= list_ts(s2, r),
{
    broadcast use group_to_multiset_ensures;

    assert forall|t: int| list_ts(s1, r).contains(t) implies list_ts(s2, r).contains(t) by {
        lemma_list_ts_member(s1, r, s1.len() as int, t);
        let i = choose|i: int| 0 <= i < s1.len() && #[trigger] hit_ts(s1[i], r).contains(t);
        assert(s1.contains(s1[i]));
        assert(s2.to_multiset().count(s1[i]) > 0);
        assert(s2.contains(s1[i]));
        let j = choose|j: int| 0 <= j < s2.len() && s2[j] == s1[i];
        lemma_list_ts_has(s2, r, s2.len() as int, j, t);
    }
    assert forall|t: int| list_ts(s2, r).contains(t) implies list_ts(s1, r).contains(t) by {
        lemma_list_ts_member(s2, r, s2.len() as int, t);
        let i = choose|i: int| 0 <= i < s2.len() && #[trigger] hit_ts(s2[i], r).contains(t);
        assert(s2.contains(s2[i]));
        assert(s1.to_multiset().count(s2[i]) > 0);
        assert(s1.contains(s2[i]));
        let j = choose|j: int| 0 <= j < s1.len() && s1[j] == s2[i];
        lemma_list_ts_has(s1, r, s1.len() as int, j, t);
    }
}

/// Splitting a sequence splits its candidate set.
proof fn lemma_list_ts_split(s: Seq<Hittable>, mid: int, r: Ray)
    requires
        0 <= mid <= s.len(),
    ensures
        list_ts(s, r) =~= list_ts(s.subrange(0, mid), r).union(
            list_ts(s.subrange(mid, s.len() as int), r),
        ),
{
    let a = s.subrange(0, mid);
    let b = s.subrange(mid, s.len() as int);
    assert forall|t: int| list_ts(s, r).contains(t) implies list_ts(a, r).union(
        list_ts(b, r),
    ).contains(t) by {
        lemma_list_ts_member(s, r, s.len() as int, t);
        let i = choose|i: int| 0 <= i < s.len() && #[trigger] hit_ts(s[i], r).contains(t);
        if i < mid {
            assert(a[i] == s[i]);
            lemma_list_ts_has(a, r, a.len() as int, i, t);
        } else {
            assert(b[i - mid] == s[i]);
            lemma_list_ts_has(b, r, b.len() as int, i - mid, t);
        }
    }
    assert forall|t: int| list_ts(a, r).union(list_ts(b, r)).contains(t) implies list_ts(
        s,
        r,
    ).contains(t) by {
        if list_ts(a, r).contains(t) {
            lemma_list_ts_member(a, r, a.len() as int, t);
            let i = choose|i: int| 0 <= i < a.len() && #[trigger] hit_ts(a[i], r).contains(t);
            assert(s[i] == a[i]);
            lemma_list_ts_has(s, r, s.len() as int, i, t);
        } else {
            lemma_list_ts_member(b, r, b.len() as int, t);
            let i = choose|i: int| 0 <= i < b.len() && #[trigger] hit_ts(b[i], r).contains(t);
            assert(s[mid + i] == b[i]);
            lemma_list_ts_has(s, r, s.len() as int, mid + i, t);
        }
    }
}

/// The key the builder sorts by: the box's small corner along the axis.
fn box_min_key(h: &Hittable, axis: i64) -> (k: i64)
    requires
        wf(*h),
{
    let mut b: Aabb = Default::default();
    let got = h.bounding_box(0, 65536, &mut b);
    if axis == 0 {
        b.min.x
    } else if axis == 1 {
        b.min.y
    } else {
        b.min.z
    }
}

/// Selection sort by box corner: returns the same shapes, ordered.
fn sort_by_axis(src: Vec<Hittable>, axis: i64) -> (r: Vec<Hittable>)
    requires
        list_wf(src@),
    ensures
        r@.to_multiset() == src@.to_multiset(),
        r@.len() == src@.len(),
        list_wf(r@),
        list_det(src@) ==> list_det(r@),
{
    proof {
        broadcast use group_to_multiset_ensures;

    }
    let ghost orig = src@;
    let mut rest = src;
    let mut out: Vec<Hittable> = Vec::new();
    while rest.len() > 0
        invariant
            out@.to_multiset().add(rest@.to_multiset()) == orig.to_multiset(),
            list_wf(rest@),
            list_wf(out@),
            list_det(orig) ==> list_det(out@) && list_det(rest@),
            out@.len() + rest@.len() == orig.len(),
        decreases rest@.len(),
    {
        proof {
            broadcast use group_to_multiset_ensures;

        }
        let mut m: usize = 0;
        let mut best = box_min_key(&rest[0], axis);
        let mut j: usize = 1;
        while j < rest.len()
            invariant
                m < rest@.len(),
                j <= rest@.len(),
                list_wf(rest@),
            decreases rest@.len() - j,
        {
            let kj = box_min_key(&rest[j], axis);
            if kj < best {
                best = kj;
                m = j;
            }
            j = j + 1;
        }
        let ghost old_rest = rest@;
        let ghost old_out = out@;
        let x = rest.remove(m);
        out.push(x);
        proof {
            broadcast use group_to_multiset_ensures;

            assert(rest@.to_multiset() =~= old_rest.to_multiset().remove(old_rest[m as int]));
            assert(out@.to_multiset() =~= old_out.to_multiset().insert(old_rest[m as int]));
            assert(out@.to_multiset().add(rest@.to_multiset()) =~= orig.to_multiset());
            assert forall|i: int| 0 <= i < rest@.len() implies wf(#[trigger] rest@[i]) by {
                assert(rest@[i] == (if i < m { old_rest[i] } else { old_rest[i + 1] }));
            }
            assert forall|i: int| 0 <= i < out@.len() implies wf(#[trigger] out@[i]) by {
                if i < old_out.len() {
                    assert(out@[i] == old_out[i]);
                } else {
                    assert(out@[i] == old_rest[m as int]);
                }
            }
            if list_det(orig) {
                assert forall|i: int| 0 <= i < rest@.len() implies deterministic(
                    #[trigger] rest@[i],
                ) by {
                    assert(rest@[i] == (if i < m { old_rest[i] } else { old_rest[i + 1] }));
                }
                assert forall|i: int| 0 <= i < out@.len() implies deterministic(
                    #[trigger] out@[i],
                ) by {
                    if i < old_out.len() {
                        assert(out@[i] == old_out[i]);
                    } else {
                        assert(out@[i] == old_rest[m as int]);
                    }
                }
            }
        }
    }
    proof {
        broadcast use group_to_multiset_ensures;

        assert(rest@.to_multiset() =~= Multiset::<Hittable>::empty());
        assert(out@.to_multiset().add(Multiset::<Hittable>::empty()) =~= out@.to_multiset());
    }
    out
}

impl BvhNode {
    /// Builds the tree over a non-empty collection: sort the shapes by box
    /// corner along a random axis, split at the midpoint, recurse, and wrap
    /// the two halves in their surrounding box.  The tree offers every ray
    /// exactly the candidate parameters the flat collection does.
    pub fn creat(src_objects: Vec<Hittable>, t0: i64, t1: i64) -> (ret: BvhNode)
        requires
            list_wf(src_objects@),
            src_objects@.len() >= 1,
        ensures
            wf(Hittable::Bvh(ret)),
            list_det(src_objects@) ==> deterministic(Hittable::Bvh(ret)),
            forall|r: Ray| #[trigger] hit_ts(Hittable::Bvh(ret), r) =~= list_ts(src_objects@, r),
        decreases src_objects@.len(),
    {
        let ghost src = src_objects@;
        let axis = random_int_lr(0, 2) as i64;
        let object_span = src_objects.len();
        if object_span == 1 {
            let mut objects = src_objects;
            let a = match objects.pop() {
                Some(x) => x,
                None => {
                    proof {
                        assert(false);
                    }
                    unreached()
                },
            };
            proof {
                assert(a == src[0]);
            }
            let mut bl: Aabb = Default::default();
            let got = a.bounding_box(t0, t1, &mut bl);
            let ret = BvhNode { left: Some(Box::new(a)), right: None, box_: bl };
            proof {
                lemma_box_ok_of_wf(src[0]);
                assert forall|r: Ray| #[trigger] hit_ts(Hittable::Bvh(ret), r) =~= list_ts(
                    src,
                    r,
                ) by {
                    assert(hit_ts(Hittable::Bvh(ret), r) =~= hit_ts(src[0], r));
                    assert(list_ts_upto(src, r, 0) == Set::<int>::empty());
                    assert(list_ts_upto(src, r, 1) == list_ts_upto(src, r, 0).union(
                        hit_ts(src[0], r),
                    ));
                    assert(list_ts(src, r) =~= hit_ts(src[0], r));
                }
            }
            ret
        } else if object_span == 2 {
            let mut objects = src_objects;
            let b = match objects.pop() {
                Some(x) => x,
                None => {
                    proof {
                        assert(false);
                    }
                    unreached()
                },
            };
            let a = match objects.pop() {
                Some(x) => x,
                None => {
                    proof {
                        assert(false);
                    }
                    unreached()
                },
            };
            proof {
                assert(a == src[0] && b == src[1]);
            }
            let ka = box_min_key(&a, axis);
            let kb = box_min_key(&b, axis);
            let (first, second) = if ka < kb {
                (a, b)
            } else {
                (b, a)
            };
            let mut bl: Aabb = Default::default();
            let mut br: Aabb = Default::default();
            let gl = first.bounding_box(t0, t1, &mut bl);
            let gr = second.bounding_box(t0, t1, &mut br);
            let bb = surrounding_box(bl, br);
            let ret = BvhNode {
                left: Some(Box::new(first)),
                right: Some(Box::new(second)),
                box_: bb,
            };
            proof {
                lemma_box_ok_of_wf(src[0]);
                lemma_box_ok_of_wf(src[1]);
                crate::aabb::lemma_surrounding_box_contains(bl, br);
                assert forall|r: Ray| #[trigger] hit_ts(Hittable::Bvh(ret), r) =~= list_ts(
                    src,
                    r,
                ) by {
                    assert(list_ts_upto(src, r, 0) == Set::<int>::empty());
                    assert(list_ts_upto(src, r, 1) == list_ts_upto(src, r, 0).union(
                        hit_ts(src[0], r),
                    ));
                    assert(list_ts_upto(src, r, 2) == list_ts_upto(src, r, 1).union(
                        hit_ts(src[1], r),
                    ));
                }
            }
            ret
        } else {
            let sorted = sort_by_axis(src_objects, axis);
            let ghost ss = sorted@;
            let mut left_vec = sorted;
            let mid = object_span / 2;
            let right_vec = left_vec.split_off(mid);
            proof {
                assert(left_vec@ =~= ss.subrange(0, mid as int));
                assert(right_vec@ =~= ss.subrange(mid as int, ss.len() as int));
                assert(list_wf(left_vec@));
                assert(list_wf(right_vec@));
                if list_det(src) {
                    crate::bvh::lemma_det_sub(ss, left_vec@, right_vec@);
                }
            }
            let left_node = BvhNode::creat(left_vec, t0, t1);
            let right_node = BvhNode::creat(right_vec, t0, t1);
            let bb = surrounding_box(left_node.box_, right_node.box_);
            let ghost lh = Hittable::Bvh(left_node);
            let ghost rh = Hittable::Bvh(right_node);
            let ret = BvhNode {
                left: Some(Box::new(Hittable::Bvh(left_node))),
                right: Some(Box::new(Hittable::Bvh(right_node))),
                box_: bb,
            };
            proof {
                crate::aabb::lemma_surrounding_box_contains(
                    spec_bbox(lh),
                    spec_bbox(rh),
                );
                assert forall|r: Ray| #[trigger] hit_ts(Hittable::Bvh(ret), r) =~= list_ts(
                    src,
                    r,
                ) by {
                    lemma_list_ts_permuted(src, ss, r);
                    lemma_list_ts_split(ss, mid as int, r);
                    assert(hit_ts(lh, r) =~= list_ts(ss.subrange(0, mid as int), r));
                    assert(hit_ts(rh, r) =~= list_ts(
                        ss.subrange(mid as int, ss.len() as int),
                        r,
                    ));
                }
            }
            ret
        }
    }
}

/// The hierarchy is interchangeable with the flat list: for any scene of
/// deterministic shapes and any ray, a tree built over the shapes and the
/// flat collection report the same nearest hit parameter (or both report
/// none).  The two hypotheses are exactly what `BvhNode::creat`,
/// `Hittable::hit` and `HittableList::hit` promise.
pub proof fn lemma_bvh_matches_list(
    node: BvhNode,
    objs: Seq<Hittable>,
    r: Ray,
    tmin: int,
    tmax: int,
    tree_answer: Option<int>,
    list_answer: Option<int>,
)
    requires
        hit_ts(Hittable::Bvh(node), r) =~= list_ts(objs, r),
        crate::nearest::answers(hit_ts(Hittable::Bvh(node), r), tmin, tmax, tree_answer),
        crate::nearest::answers(list_ts(objs, r), tmin, tmax, list_answer),
    ensures
        tree_answer == list_answer,
{
    crate::nearest::lemma_answers_congruent(
        hit_ts(Hittable::Bvh(node), r),
        list_ts(objs, r),
        tmin,
        tmax,
        tree_answer,
    );
    match (tree_answer, list_answer) {
        (Some(t1), Some(t2)) => {
            crate::nearest::lemma_nearest_unique(list_ts(objs, r), tmin, tmax, t1, t2);
        },
        (Some(t1), None) => {
            assert(crate::nearest::qualifies(list_ts(objs, r), tmin, tmax, t1));
        },
        (None, Some(t2)) => {
            assert(crate::nearest::qualifies(list_ts(objs, r), tmin, tmax, t2));
            assert(crate::nearest::has_hit(list_ts(objs, r), tmin, tmax));
        },
        (None, None) => {
        },
    }
}

/// Sub-sequences of a deterministic sequence are deterministic.
proof fn lemma_det_sub(s: Seq<Hittable>, a: Seq<Hittable>, b: Seq<Hittable>)
    requires
        list_det(s),
        exists|m: int|
            0 <= m <= s.len() && a =~= s.subrange(0, m) && b =~= s.subrange(m, s.len() as int),
    ensures
        list_det(a),
        list_det(b),
{
    let m = choose|m: int|
        0 <= m <= s.len() && a =~= s.subrange(0, m) && b =~= s.subrange(m, s.len() as int);
    assert forall|i: int| 0 <= i < a.len() implies deterministic(#[trigger] a[i]) by {
        assert(a[i] == s[i]);
    }
    assert forall|i: int| 0 <= i < b.len() implies deterministic(#[trigger] b[i]) by {
        assert(b[i] == s[m + i]);
    }
}

/// A well-formed shape's box has working corners.
pub proof fn lemma_box_ok_of_wf(h: Hittable)
    requires
        wf(h),
    ensures
        box_ok(spec_bbox(h)),
    decreases h,
{
    match h {
        Hittable::Translate(tr) => {
        },
        Hittable::FlipFace(f) => {
            lemma_box_ok_of_wf(*f.ptr);
        },
        Hittable::ConstantMedium(cm) => {
        },
        _ => {
        },
    }
}

} // verus!
