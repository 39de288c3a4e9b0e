//! Axis-aligned bounding boxes: the merge operation and the slab test.
//!
//! Because every quantity is a fixed-point integer, the slab test can be made
//! exact: it decides whether *any* representable ray parameter in the query
//! window lands inside the box, which is precisely the fact the bounding
//! volume hierarchy needs for sound pruning.

use crate::fixed::{div_floor, fmax, fmin, lemma_mul_ge_ceil, lemma_mul_le_floor};
use crate::ray::{ray_ok, Ray};
use crate::vec3::{vec_ok, Point3, Vec3};
use vstd::prelude::*;

verus! {

#[derive(Copy, Clone, Debug, PartialEq, Eq, Structural)]
pub struct Aabb {
    pub min: Point3,
    pub max: Point3,
}

impl Default for Aabb {
    /// The degenerate box at the origin.
    fn default() -> (r: Aabb)
        ensures
            r.min == (Vec3 { x: 0, y: 0, z: 0 }),
            r.max == (Vec3 { x: 0, y: 0, z: 0 }),
    {
        Aabb { min: Vec3 { x: 0, y: 0, z: 0 }, max: Vec3 { x: 0, y: 0, z: 0 } }
    }
}

/// A box whose corners are within the working magnitude.
pub open spec fn box_ok(b: Aabb) -> bool {
    &&& vec_ok(b.min)
    &&& vec_ok(b.max)
}

/// `outer` encloses `inner` componentwise.
pub open spec fn box_contains_box(outer: Aabb, inner: Aabb) -> bool {
    &&& outer.min.x <= inner.min.x
    &&& outer.min.y <= inner.min.y
    &&& outer.min.z <= inner.min.z
    &&& inner.max.x <= outer.max.x
    &&& inner.max.y <= outer.max.y
    &&& inner.max.z <= outer.max.z
}

/// One axis of the exact point-on-ray-in-slab relation, stated over the
/// unrounded products (everything scaled by 65536).
pub open spec fn axis_in(mn: int, mx: int, o: int, d: int, t: int) -> bool {
    mn * 65536 <= o * 65536 + d * t <= mx * 65536
}

/// The point the ray reaches at parameter `t` lies inside the box, exactly.
pub open spec fn pt_in_box(b: Aabb, r: Ray, t: int) -> bool {
    &&& axis_in(b.min.x as int, b.max.x as int, r.st.x as int, r.dir.x as int, t)
    &&& axis_in(b.min.y as int, b.max.y as int, r.st.y as int, r.dir.y as int, t)
    &&& axis_in(b.min.z as int, b.max.z as int, r.st.z as int, r.dir.z as int, t)
}

/// The open-closed query window of the hit protocol.
pub open spec fn hit_window(tmin: int, tmax: int, t: int) -> bool {
    tmin < t <= tmax
}

/// What the slab test decides: some representable parameter in the window
/// puts the ray inside the box.
pub open spec fn box_hit_exists(b: Aabb, r: Ray, tmin: int, tmax: int) -> bool {
    exists|t: int| #[trigger] pt_in_box(b, r, t) && hit_window(tmin, tmax, t)
}

/// A parameter satisfying one exact slab axis lands, after the single
/// rounding of the ray-evaluation, between that axis's planes.
pub proof fn lemma_at_comp_in_box(mn: int, mx: int, o: int, d: int, t: int)
    requires
        axis_in(mn, mx, o, d, t),
    ensures
        mn <= crate::ray::at_comp(o, d, t) <= mx,
{
    vstd::arithmetic::div_mod::lemma_div_is_ordered((mn - o) * 65536, d * t, 65536);
    vstd::arithmetic::div_mod::lemma_div_is_ordered(d * t, (mx - o) * 65536, 65536);
    vstd::arithmetic::div_mod::lemma_div_multiples_vanish(mn - o, 65536);
    vstd::arithmetic::div_mod::lemma_div_multiples_vanish(mx - o, 65536);
    assert((mn - o) * 65536 == 65536 * (mn - o)) by (nonlinear_arith);
    assert((mx - o) * 65536 == 65536 * (mx - o)) by (nonlinear_arith);
}

/// A point inside an inner box is inside any enclosing box.
pub proof fn lemma_pt_in_wider(outer: Aabb, inner: Aabb, r: Ray, t: int)
    requires
        box_contains_box(outer, inner),
        pt_in_box(inner, r, t),
    ensures
        pt_in_box(outer, r, t),
{
}

/// The smallest box around two boxes, as a mathematical function.
pub open spec fn surrounding_spec(box0: Aabb, box1: Aabb) -> Aabb {
    Aabb {
        min: Vec3 {
            x: if box0.min.x < box1.min.x {
                box0.min.x
            } else {
                box1.min.x
            },
            y: if box0.min.y < box1.min.y {
                box0.min.y
            } else {
                box1.min.y
            },
            z: if box0.min.z < box1.min.z {
                box0.min.z
            } else {
                box1.min.z
            },
        },
        max: Vec3 {
            x: if box0.max.x < box1.max.x {
                box1.max.x
            } else {
                box0.max.x
            },
            y: if box0.max.y < box1.max.y {
                box1.max.y
            } else {
                box0.max.y
            },
            z: if box0.max.z < box1.max.z {
                box1.max.z
            } else {
                box0.max.z
            },
        },
    }
}

/// The box around two boxes: componentwise minimum of the small corners and
/// maximum of the large corners.
pub fn surrounding_box(box0: Aabb, box1: Aabb) -> (r: Aabb)
    ensures
        r == surrounding_spec(box0, box1),
{
    let small = Vec3 {
        x: fmin(box0.min.x, box1.min.x),
        y: fmin(box0.min.y, box1.min.y),
        z: fmin(box0.min.z, box1.min.z),
    };
    let big = Vec3 {
        x: fmax(box0.max.x, box1.max.x),
        y: fmax(box0.max.y, box1.max.y),
        z: fmax(box0.max.z, box1.max.z),
    };
    Aabb { min: small, max: big }
}

/// The surrounding box does not depend on the order of its arguments.
pub proof fn lemma_surrounding_box_commutative(box0: Aabb, box1: Aabb)
    ensures
        surrounding_spec(box0, box1) == surrounding_spec(box1, box0),
{
    let a = surrounding_spec(box0, box1);
    let b = surrounding_spec(box1, box0);
    assert(a.min.x == b.min.x && a.min.y == b.min.y && a.min.z == b.min.z);
    assert(a.max.x == b.max.x && a.max.y == b.max.y && a.max.z == b.max.z);
    assert(a.min == b.min && a.max == b.max);
}

/// The surrounding box encloses both of its arguments.
pub proof fn lemma_surrounding_box_contains(box0: Aabb, box1: Aabb)
    ensures
        box_contains_box(surrounding_spec(box0, box1), box0),
        box_contains_box(surrounding_spec(box0, box1), box1),
{
}

/// The set of parameters `t` (within the working range) that satisfy one
/// axis of the slab relation, returned as an integer interval; `None` means
/// no parameter at all satisfies it.
fn axis_window(mn: i64, mx: i64, o: i64, d: i64) -> (res: Option<(i128, i128)>)
    requires
        -0x40_0000_0000 <= mn <= 0x40_0000_0000,
        -0x40_0000_0000 <= mx <= 0x40_0000_0000,
        -0x40_0000_0000 <= o <= 0x40_0000_0000,
        -0x40_0000_0000 <= d <= 0x40_0000_0000,
    ensures
        match res {
            Some(w) => forall|t: int|
                -0x1_0000_0000_0000 <= t <= 0x1_0000_0000_0000 ==> (axis_in(
                    mn as int,
                    mx as int,
                    o as int,
                    d as int,
                    t,
                ) <==> w.0 <= t <= w.1),
            None => forall|t: int| !axis_in(mn as int, mx as int, o as int, d as int, t),
        },
{
    if d == 0 {
        if mn <= o && o <= mx {
            proof {
                assert forall|t: int| -0x1_0000_0000_0000 <= t <= 0x1_0000_0000_0000 implies (
                axis_in(mn as int, mx as int, o as int, d as int, t) <==> -0x1_0000_0000_0000
                    <= t <= 0x1_0000_0000_0000) by {
                    assert(d as int * t == 0) by (nonlinear_arith)
                        requires
                            d as int == 0;
                }
            }
            Some((-0x1_0000_0000_0000, 0x1_0000_0000_0000))
        } else {
            proof {
                assert forall|t: int| !axis_in(mn as int, mx as int, o as int, d as int, t) by {
                    assert(d as int * t == 0) by (nonlinear_arith)
                        requires
                            d as int == 0;
                }
            }
            None
        }
    } else if d > 0 {
        let nlo = -((mn as i128) - (o as i128)) * 65536;
        let qlo = div_floor(nlo, d as i128);
        proof {
            crate::fixed::lemma_div_bounded(nlo as int, d as int, 0x100_0000_0000_0000);
        }
        let lo = -qlo;
        let hi = div_floor(((mx as i128) - (o as i128)) * 65536, d as i128);
        proof {
            assert forall|t: int| -0x1_0000_0000_0000 <= t <= 0x1_0000_0000_0000 implies (
            axis_in(mn as int, mx as int, o as int, d as int, t) <==> lo as int <= t
                <= hi as int) by {
                lemma_mul_ge_ceil(t, (mn - o) * 65536, d as int);
                lemma_mul_le_floor(t, (mx - o) * 65536, d as int);
                assert(t * (d as int) == d as int * t) by (nonlinear_arith);
            }
        }
        Some((lo, hi))
    } else {
        let nd = -(d as i128);
        let nlo = -((o as i128) - (mx as i128)) * 65536;
        let qlo = div_floor(nlo, nd);
        proof {
            crate::fixed::lemma_div_bounded(nlo as int, nd as int, 0x100_0000_0000_0000);
        }
        let lo = -qlo;
        let hi = div_floor(((o as i128) - (mn as i128)) * 65536, nd);
        proof {
            assert forall|t: int| -0x1_0000_0000_0000 <= t <= 0x1_0000_0000_0000 implies (
            axis_in(mn as int, mx as int, o as int, d as int, t) <==> lo as int <= t
                <= hi as int) by {
                lemma_mul_ge_ceil(t, (o - mx) * 65536, nd as int);
                lemma_mul_le_floor(t, (o - mn) * 65536, nd as int);
                assert(t * (nd as int) == -(d as int * t)) by (nonlinear_arith)
                    requires
                        nd as int == -(d as int);
            }
        }
        Some((lo, hi))
    }
}

/// The candidate parameters a solid box offers a ray: every representable
/// parameter whose ray point lies inside the box.
pub open spec fn box_ts(b: Aabb, r: Ray) -> Set<int> {
    Set::new(|t: int| pt_in_box(b, r, t))
}

/// Decides `pt_in_box` for one concrete parameter by exact arithmetic.
pub fn pt_in_box_check(b: &Aabb, r: Ray, t: i64) -> (res: bool)
    requires
        box_ok(*b),
        ray_ok(r),
        -0x100_0000_0000 <= t <= 0x100_0000_0000,
    ensures
        res == pt_in_box(*b, r, t as int),
{
    proof {
        assert(-0x4000_0000_0000_0000_0000 <= r.dir.x as int * t as int
            <= 0x4000_0000_0000_0000_0000 && -0x4000_0000_0000_0000_0000 <= r.dir.y as int
            * t as int <= 0x4000_0000_0000_0000_0000 && -0x4000_0000_0000_0000_0000
            <= r.dir.z as int * t as int <= 0x4000_0000_0000_0000_0000) by (nonlinear_arith)
            requires
                -0x40_0000_0000 <= r.dir.x as int <= 0x40_0000_0000,
                -0x40_0000_0000 <= r.dir.y as int <= 0x40_0000_0000,
                -0x40_0000_0000 <= r.dir.z as int <= 0x40_0000_0000,
                -0x100_0000_0000 <= t as int <= 0x100_0000_0000;
    }
    let tx = (r.st.x as i128) * 65536 + (r.dir.x as i128) * (t as i128);
    let ty = (r.st.y as i128) * 65536 + (r.dir.y as i128) * (t as i128);
    let tz = (r.st.z as i128) * 65536 + (r.dir.z as i128) * (t as i128);
    (b.min.x as i128) * 65536 <= tx && tx <= (b.max.x as i128) * 65536 && (b.min.y as i128)
        * 65536 <= ty && ty <= (b.max.y as i128) * 65536 && (b.min.z as i128) * 65536 <= tz && tz
        <= (b.max.z as i128) * 65536
}

/// The nearest parameter in the open-closed window whose ray point lies
/// inside the box, or nothing.
pub fn box_enter(b: &Aabb, r: Ray, t_min: i64, t_max: i64) -> (res: Option<i64>)
    requires
        box_ok(*b),
        ray_ok(r),
        -0x100_0000_0000 <= t_min <= 0x100_0000_0000,
        -0x100_0000_0000 <= t_max <= 0x100_0000_0000,
    ensures
        crate::nearest::answers(box_ts(*b, r), t_min as int, t_max as int, match res {
            Some(t) => Some(t as int),
            None => None,
        }),
        res matches Some(t) ==> t_min < t <= t_max,
{
    let wx = axis_window(b.min.x, b.max.x, r.st.x, r.dir.x);
    let wy = axis_window(b.min.y, b.max.y, r.st.y, r.dir.y);
    let wz = axis_window(b.min.z, b.max.z, r.st.z, r.dir.z);
    match (wx, wy, wz) {
        (Some(px), Some(py), Some(pz)) => {
            let mut lo: i128 = (t_min as i128) + 1;
            let mut hi: i128 = t_max as i128;
            if px.0 > lo {
                lo = px.0;
            }
            if py.0 > lo {
                lo = py.0;
            }
            if pz.0 > lo {
                lo = pz.0;
            }
            if px.1 < hi {
                hi = px.1;
            }
            if py.1 < hi {
                hi = py.1;
            }
            if pz.1 < hi {
                hi = pz.1;
            }
            if lo <= hi {
                proof {
                    assert(pt_in_box(*b, r, lo as int));
                    assert(crate::nearest::qualifies(
                        box_ts(*b, r),
                        t_min as int,
                        t_max as int,
                        lo as int,
                    ));
                    assert forall|t2: int|
                        #[trigger] crate::nearest::qualifies(
                            box_ts(*b, r),
                            t_min as int,
                            t_max as int,
                            t2,
                        ) implies lo as int <= t2 by {
                        assert(pt_in_box(*b, r, t2));
                    }
                }
                Some(lo as i64)
            } else {
                proof {
                    if crate::nearest::has_hit(box_ts(*b, r), t_min as int, t_max as int) {
                        let t = choose|t: int|
                            #[trigger] crate::nearest::qualifies(
                                box_ts(*b, r),
                                t_min as int,
                                t_max as int,
                                t,
                            );
                        assert(pt_in_box(*b, r, t));
                        assert(lo as int <= t <= hi as int);
                    }
                }
                None
            }
        },
        _ => {
            proof {
                if crate::nearest::has_hit(box_ts(*b, r), t_min as int, t_max as int) {
                    let t = choose|t: int|
                        #[trigger] crate::nearest::qualifies(
                            box_ts(*b, r),
                            t_min as int,
                            t_max as int,
                            t,
                        );
                    assert(pt_in_box(*b, r, t));
                }
            }
            None
        },
    }
}

impl Aabb {
    pub fn max(&self) -> (r: Point3)
        ensures
            r == self.max,
    {
        self.max
    }

    pub fn min(&self) -> (r: Point3)
        ensures
            r == self.min,
    {
        self.min
    }

    /// The slab test: decides exactly whether some parameter in the
    /// open-closed window `(t_min, t_max]` puts the ray inside the box.
    pub fn hit(&self, r: Ray, t_min: i64, t_max: i64) -> (res: bool)
        requires
            box_ok(*self),
            ray_ok(r),
            -0x100_0000_0000 <= t_min <= 0x100_0000_0000,
            -0x100_0000_0000 <= t_max <= 0x100_0000_0000,
        ensures
            res == box_hit_exists(*self, r, t_min as int, t_max as int),
    {
        let wx = axis_window(self.min.x, self.max.x, r.st.x, r.dir.x);
        let wy = axis_window(self.min.y, self.max.y, r.st.y, r.dir.y);
        let wz = axis_window(self.min.z, self.max.z, r.st.z, r.dir.z);
        match (wx, wy, wz) {
            (Some(px), Some(py), Some(pz)) => {
                let mut lo: i128 = (t_min as i128) + 1;
                let mut hi: i128 = t_max as i128;
                if px.0 > lo {
                    lo = px.0;
                }
                if py.0 > lo {
                    lo = py.0;
                }
                if pz.0 > lo {
                    lo = pz.0;
                }
                if px.1 < hi {
                    hi = px.1;
                }
                if py.1 < hi {
                    hi = py.1;
                }
                if pz.1 < hi {
                    hi = pz.1;
                }
                let res = lo <= hi;
                proof {
                    if lo <= hi {
                        assert(pt_in_box(*self, r, lo as int) && hit_window(
                            t_min as int,
                            t_max as int,
                            lo as int,
                        ));
                    } else {
                        if box_hit_exists(*self, r, t_min as int, t_max as int) {
                            let t = choose|t: int|
                                #[trigger] pt_in_box(*self, r, t) && hit_window(
                                    t_min as int,
                                    t_max as int,
                                    t,
                                );
                            assert(lo as int <= t <= hi as int);
                        }
                    }
                }
                res
            },
            _ => {
                proof {
                    if box_hit_exists(*self, r, t_min as int, t_max as int) {
                        let t = choose|t: int|
                            #[trigger] pt_in_box(*self, r, t) && hit_window(
                                t_min as int,
                                t_max as int,
                                t,
                            );
                    }
                }
                false
            },
        }
    }
}

} // verus!
