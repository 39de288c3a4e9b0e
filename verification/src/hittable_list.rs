//! A flat aggregate of shapes, intersected by a linear scan that shrinks
//! the search window to the best parameter found so far.

use crate::aabb::{surrounding_box, surrounding_spec, Aabb};
use crate::hittable::{
    deterministic, hit_ts, holds_mat, point_exact, rec_ok, spec_bbox, wf, HitRecord, Hittable,
};
use crate::material::{mat_ok, Material};
use crate::nearest::{answers, lemma_scan_step};
use crate::ray::{ray_ok, Ray};
use vstd::prelude::*;

verus! {

pub struct HittableList {
    pub objects: Vec<Hittable>,
}

/// Everything in the list is well-formed.
pub open spec fn list_wf(s: Seq<Hittable>) -> bool {
    forall|i: int| 0 <= i < s.len() ==> wf(#[trigger] s[i])
}

/// Everything in the list answers hit queries deterministically.
pub open spec fn list_det(s: Seq<Hittable>) -> bool {
    forall|i: int| 0 <= i < s.len() ==> deterministic(#[trigger] s[i])
}

/// Every member reports the ray's exact point at its hit parameter.
pub open spec fn list_point_exact(s: Seq<Hittable>) -> bool {
    forall|i: int| 0 <= i < s.len() ==> point_exact(#[trigger] s[i])
}

/// The candidate parameters of the first `n` members.
pub open spec fn list_ts_upto(s: Seq<Hittable>, r: Ray, n: int) -> Set<int>
    decreases n,
{
    if n <= 0 {
        Set::empty()
    } else {
        list_ts_upto(s, r, n - 1).union(hit_ts(s[n - 1], r))
    }
}

/// The candidate parameters of the whole list.
pub open spec fn list_ts(s: Seq<Hittable>, r: Ray) -> Set<int> {
    list_ts_upto(s, r, s.len() as int)
}

/// A member of the aggregate set belongs to some member.
pub proof fn lemma_list_ts_member(s: Seq<Hittable>, r: Ray, n: int, t: int)
    requires
        0 <= n <= s.len(),
        list_ts_upto(s, r, n).contains(t),
    ensures
        exists|i: int| 0 <= i < n && #[trigger] hit_ts(s[i], r).contains(t),
    decreases n,
{
    if n > 0 {
        if hit_ts(s[n - 1], r).contains(t) {
        } else {
            lemma_list_ts_member(s, r, n - 1, t);
        }
    }
}

/// And conversely.
pub proof fn lemma_list_ts_has(s: Seq<Hittable>, r: Ray, n: int, i: int, t: int)
    requires
        0 <= i < n <= s.len(),
        hit_ts(s[i], r).contains(t),
    ensures
        list_ts_upto(s, r, n).contains(t),
    decreases n,
{
    if i < n - 1 {
        lemma_list_ts_has(s, r, n - 1, i, t);
    }
}

impl HittableList {
    /// Appends a shape to the aggregate.
    pub fn add(&mut self, obj: Hittable)
        ensures
            final(self).objects@ =~= old(self).objects@.push(obj),
    {
        self.objects.push(obj);
    }

    /// The nearest hit over all members: a linear scan tracking the closest
    /// qualifying parameter found so far.
    pub fn hit(&self, r: Ray, t_min: i64, t_max: i64) -> (res: Option<(HitRecord, &Material)>)
        requires
            list_wf(self.objects@),
            ray_ok(r),
            -0x100_0000_0000 <= r.tm <= 0x100_0000_0000,
            -0x100_0000_0000 <= t_min <= 0x100_0000_0000,
            -0x100_0000_0000 <= t_max <= 0x100_0000_0000,
        ensures
            list_det(self.objects@) ==> answers(
                list_ts(self.objects@, r),
                t_min as int,
                t_max as int,
                match res {
                    Some(rm) => Some(rm.0.t as int),
                    None => None,
                },
            ),
            res matches Some(rm) ==> t_min < rm.0.t <= t_max && rec_ok(rm.0) && mat_ok(*rm.1)
                && exists|i: int|
                0 <= i < self.objects@.len() && holds_mat(#[trigger] self.objects@[i], *rm.1),
            list_point_exact(self.objects@) ==> (res matches Some(rm) ==> rm.0.p.x
                == crate::ray::at_comp(r.st.x as int, r.dir.x as int, rm.0.t as int) && rm.0.p.y
                == crate::ray::at_comp(r.st.y as int, r.dir.y as int, rm.0.t as int) && rm.0.p.z
                == crate::ray::at_comp(r.st.z as int, r.dir.z as int, rm.0.t as int)),
    {
        let ghost s = self.objects@;
        let mut best: Option<(HitRecord, &Material)> = None;
        let mut closest: i64 = t_max;
        let mut i: usize = 0;
        while i < self.objects.len()
            invariant
                s == self.objects@,
                list_wf(s),
                ray_ok(r),
                -0x100_0000_0000 <= r.tm <= 0x100_0000_0000,
                -0x100_0000_0000 <= t_min <= 0x100_0000_0000,
                -0x100_0000_0000 <= t_max <= 0x100_0000_0000,
                i <= s.len(),
                closest == (match best {
                    Some(rm) => rm.0.t as int,
                    None => t_max as int,
                }),
                -0x100_0000_0000 <= closest <= 0x100_0000_0000,
                best matches Some(rm) ==> t_min < rm.0.t <= t_max && rec_ok(rm.0) && mat_ok(
                    *rm.1,
                ) && exists|q: int| 0 <= q < i && holds_mat(#[trigger] s[q], *rm.1),
                list_point_exact(s) ==> (best matches Some(rm) ==> rm.0.p.x
                    == crate::ray::at_comp(r.st.x as int, r.dir.x as int, rm.0.t as int)
                    && rm.0.p.y == crate::ray::at_comp(r.st.y as int, r.dir.y as int, rm.0.t as int)
                    && rm.0.p.z == crate::ray::at_comp(
                    r.st.z as int,
                    r.dir.z as int,
                    rm.0.t as int,
                )),
                list_det(s) ==> answers(
                    list_ts_upto(s, r, i as int),
                    t_min as int,
                    t_max as int,
                    match best {
                        Some(rm) => Some(rm.0.t as int),
                        None => None,
                    },
                ),
            decreases s.len() - i,
        {
            let ghost prev = list_ts_upto(s, r, i as int);
            let h = self.objects[i].hit(r, t_min, closest);
            proof {
                if list_det(s) {
                    assert(deterministic(s[i as int]));
                    lemma_scan_step(
                        prev,
                        hit_ts(s[i as int], r),
                        t_min as int,
                        t_max as int,
                        match best {
                            Some(rm) => Some(rm.0.t as int),
                            None => None,
                        },
                        match h {
                            Some(rm) => Some(rm.0.t as int),
                            None => None,
                        },
                    );
                }
            }
            match h {
                Some(rm) => {
                    proof {
                        assert(holds_mat(s[i as int], *rm.1));
                    }
                    closest = rm.0.t;
                    best = Some(rm);
                },
                None => {
                },
            }
            i = i + 1;
        }
        best
    }

    /// The box around every member, or nothing for an empty list.
    pub fn bounding_box(&self, t0: i64, t1: i64, output_box: &mut Aabb) -> (b: bool)
        requires
            list_wf(self.objects@),
        ensures
            b == (self.objects@.len() > 0),
            b ==> *final(output_box) == list_bbox(self.objects@, self.objects@.len() as int),
    {
        if self.objects.len() == 0 {
            return false;
        }
        let mut temp_box: Aabb = Default::default();
        let mut first = true;
        let mut i: usize = 0;
        while i < self.objects.len()
            invariant
                list_wf(self.objects@),
                i <= self.objects@.len(),
                self.objects@.len() > 0,
                !first ==> i > 0 && *output_box == list_bbox(self.objects@, i as int),
                first ==> i == 0,
            decreases self.objects@.len() - i,
        {
            let got = self.objects[i].bounding_box(t0, t1, &mut temp_box);
            if first {
                *output_box = temp_box;
            } else {
                *output_box = surrounding_box(*output_box, temp_box);
            }
            first = false;
            i = i + 1;
        }
        true
    }
}

/// The box around the first `n` members.
pub open spec fn list_bbox(s: Seq<Hittable>, n: int) -> Aabb
    decreases n,
{
    if n <= 1 {
        spec_bbox(s[0])
    } else {
        surrounding_spec(list_bbox(s, n - 1), spec_bbox(s[n - 1]))
    }
}

} // verus!
