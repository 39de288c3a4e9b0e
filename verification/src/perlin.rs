//! Perlin gradient noise over a fixed table of 256 random unit vectors and
//! three shuffled index tables.

use crate::fixed::{clamp, div_floor, fx_abs, lemma_div_bounded};
use crate::rng::random_int_lr;
use crate::vec3::{dot, random_unit_vector, vec_ok, Point3, Vec3};
use vstd::prelude::*;

verus! {

/// The identity table 0, 1, ..., 255.
pub open spec fn ramp256() -> Seq<usize> {
    Seq::new(256, |i: int| i as usize)
}

/// An index table: a permutation of 0..=255 (every entry below 256, and the
/// entries a rearrangement of the identity table).
pub open spec fn perm_ok(p: Seq<usize>) -> bool {
    &&& p.len() == 256
    &&& forall|i: int| 0 <= i < 256 ==> #[trigger] p[i] < 256
    &&& p.to_multiset() == ramp256().to_multiset()
}

/// The gradient table: 256 vectors with components within one.
pub open spec fn ranvec_ok(v: Seq<Vec3>) -> bool {
    &&& v.len() == 256
    &&& forall|i: int|
        0 <= i < 256 ==> -65536 <= (#[trigger] v[i]).x <= 65536 && -65536 <= v[i].y <= 65536
            && -65536 <= v[i].z <= 65536
}

pub struct Perlin {
    pub ranvec: Vec<Vec3>,
    pub perm_x: Vec<usize>,
    pub perm_y: Vec<usize>,
    pub perm_z: Vec<usize>,
}

/// A well-formed noise generator.
pub open spec fn perlin_ok(p: Perlin) -> bool {
    &&& ranvec_ok(p.ranvec@)
    &&& perm_ok(p.perm_x@)
    &&& perm_ok(p.perm_y@)
    &&& perm_ok(p.perm_z@)
}

/// The cubic smoothing weight, as a mathematical function.
pub open spec fn smooth_spec(s: int) -> int {
    crate::fixed::clamp_s(
        crate::fixed::clamp_s(s * s / 65536, 0, 65536) * (3 * 65536 - 2 * s) / 65536,
        0,
        65536,
    )
}

/// The gradient the three index tables select for an integer cell.
pub open spec fn grad_at(pl: Perlin, ci: int, cj: int, ck: int) -> Vec3 {
    pl.ranvec@[(pl.perm_x@[ci % 256] ^ pl.perm_y@[cj % 256] ^ pl.perm_z@[ck % 256]) as int]
}

/// One of the eight trilinear terms, the corners indexed 0 to 7 by bits.
pub open spec fn interp_term(c: Seq<Vec3>, u: int, v: int, w: int, n: int) -> int {
    let i = n / 4;
    let j = (n / 2) % 2;
    let k = n % 2;
    let wi = if i == 1 {
        smooth_spec(u)
    } else {
        65536 - smooth_spec(u)
    };
    let wj = if j == 1 {
        smooth_spec(v)
    } else {
        65536 - smooth_spec(v)
    };
    let wk = if k == 1 {
        smooth_spec(w)
    } else {
        65536 - smooth_spec(w)
    };
    let weight = crate::fixed::clamp_s(
        crate::fixed::clamp_s(wi * wj / 65536, 0, 65536) * wk / 65536,
        0,
        65536,
    );
    let g = c[n];
    let d = crate::fixed::clamp_s(
        (g.x * (u - i * 65536) + g.y * (v - j * 65536) + g.z * (w - k * 65536)) / 65536,
        -0x8_0000,
        0x8_0000,
    );
    crate::fixed::clamp_s(weight * d / 65536, -0x8_0000, 0x8_0000)
}

/// The sum of the first `n` trilinear terms.
pub open spec fn interp_sum(c: Seq<Vec3>, u: int, v: int, w: int, n: int) -> int
    decreases n,
{
    if n <= 0 {
        0
    } else {
        interp_sum(c, u, v, w, n - 1) + interp_term(c, u, v, w, n - 1)
    }
}

/// The noise value, as a mathematical function of the tables and the point:
/// the trilinear blend of the eight surrounding cell gradients.
pub open spec fn noise_spec(pl: Perlin, p: Point3) -> int {
    let ci = p.x as int / 65536;
    let cj = p.y as int / 65536;
    let ck = p.z as int / 65536;
    interp_sum(
        Seq::new(8, |q: int| grad_at(pl, ci + q / 4, cj + (q / 2) % 2, ck + q % 2)),
        p.x - ci * 65536,
        p.y - cj * 65536,
        p.z - ck * 65536,
        8,
    )
}

/// The octave fold: accumulated turbulence, the halving weight and the
/// doubling point after `n` octaves.
pub open spec fn turb_state(pl: Perlin, p: Point3, n: int) -> (int, int, Vec3)
    decreases n,
{
    if n <= 0 {
        (0, 65536, p)
    } else {
        let st = turb_state(pl, p, n - 1);
        let oct = crate::fixed::clamp_s(
            st.1 * noise_spec(pl, st.2) / 65536,
            -0x40_0000,
            0x40_0000,
        );
        (
            crate::fixed::clamp_s(st.0 + oct, -0x80_0000, 0x80_0000),
            st.1 / 2,
            Vec3 {
                x: crate::fixed::clamp_s(st.2.x * 2, -0x40_0000_0000, 0x40_0000_0000) as i64,
                y: crate::fixed::clamp_s(st.2.y * 2, -0x40_0000_0000, 0x40_0000_0000) as i64,
                z: crate::fixed::clamp_s(st.2.z * 2, -0x40_0000_0000, 0x40_0000_0000) as i64,
            },
        )
    }
}

/// The folded turbulence magnitude.
pub open spec fn turb_spec(pl: Perlin, p: Point3, depth: int) -> int {
    crate::fixed::abs_s(turb_state(pl, p, depth).0)
}

impl Perlin {
    /// A freshly shuffled index table.
    fn perlin_generate_perm() -> (r: Vec<usize>)
        ensures
            perm_ok(r@),
    {
        let mut ret: Vec<usize> = Vec::new();
        let mut i: usize = 0;
        while i < 256
            invariant
                i <= 256,
                ret@ =~= ramp256().subrange(0, i as int),
            decreases 256 - i,
        {
            ret.push(i);
            proof {
                assert(ret@ =~= ramp256().subrange(0, i + 1));
            }
            i = i + 1;
        }
        proof {
            assert(ret@ =~= ramp256());
            assert(forall|j: int| 0 <= j < 256 ==> #[trigger] ret@[j] < 256);
        }
        Perlin::permute(&mut ret);
        ret
    }

    /// Fisher-Yates shuffle; every entry stays below 256.
    fn permute(p: &mut Vec<usize>)
        requires
            perm_ok(old(p)@),
        ensures
            perm_ok(final(p)@),
    {
        let mut i: usize = 256;
        while i > 0
            invariant
                i <= 256,
                perm_ok(p@),
            decreases i,
        {
            i = i - 1;
            let id = random_int_lr(0, i as isize) as usize;
            let a = p[i];
            let b = p[id];
            let ghost before = p@;
            p.set(i, b);
            let ghost mid = p@;
            p.set(id, a);
            proof {
                broadcast use vstd::multiset::group_multiset_axioms;
                broadcast use vstd::seq_lib::group_to_multiset_ensures;

                vstd::seq_lib::to_multiset_update(before, i as int, b);
                vstd::seq_lib::to_multiset_update(mid, id as int, a);
                assert(mid[id as int] == b);
                assert(before.contains(a));
                assert(before.to_multiset().count(a) > 0);
                assert forall|x: usize|
                    p@.to_multiset().count(x) == before.to_multiset().count(x) by {
                    assert(p@.to_multiset().count(x) == mid.to_multiset().insert(a).remove(
                        b,
                    ).count(x));
                    assert(mid.to_multiset().count(x) == before.to_multiset().insert(b).remove(
                        a,
                    ).count(x));
                }
                assert(p@.to_multiset() =~= before.to_multiset());
            }
        }
    }

    /// The noise value at a point, within 16 of either sign.
    pub fn noise(&self, p: Point3) -> (r: i64)
        requires
            perlin_ok(*self),
            vec_ok(p),
        ensures
            r == noise_spec(*self, p),
            -0x40_0000 <= r <= 0x40_0000,
    {
        let i = floor_cell(p.x);
        let j = floor_cell(p.y);
        let k = floor_cell(p.z);
        let u_fl = p.x - i * 65536;
        let v_fl = p.y - j * 65536;
        let w_fl = p.z - k * 65536;
        let mut c: Vec<Vec3> = Vec::new();
        let mut di: i64 = 0;
        while di < 2
            invariant
                0 <= di <= 2,
                perlin_ok(*self),
                c@.len() == di * 4,
                forall|q: int|
                    0 <= q < c@.len() ==> -65536 <= (#[trigger] c@[q]).x <= 65536 && -65536
                        <= c@[q].y <= 65536 && -65536 <= c@[q].z <= 65536,
                forall|q: int|
                    0 <= q < c@.len() ==> #[trigger] c@[q] == grad_at(
                        *self,
                        i as int + q / 4,
                        j as int + (q / 2) % 2,
                        k as int + q % 2,
                    ),
                -0x40_0000 <= i + 1 && i <= 0x40_0000,
                -0x40_0000 <= j + 1 && j <= 0x40_0000,
                -0x40_0000 <= k + 1 && k <= 0x40_0000,
            decreases 2 - di,
        {
            let mut dj: i64 = 0;
            while dj < 2
                invariant
                    0 <= di < 2,
                    0 <= dj <= 2,
                    perlin_ok(*self),
                    c@.len() == di * 4 + dj * 2,
                    forall|q: int|
                        0 <= q < c@.len() ==> -65536 <= (#[trigger] c@[q]).x <= 65536 && -65536
                            <= c@[q].y <= 65536 && -65536 <= c@[q].z <= 65536,
                forall|q: int|
                    0 <= q < c@.len() ==> #[trigger] c@[q] == grad_at(
                        *self,
                        i as int + q / 4,
                        j as int + (q / 2) % 2,
                        k as int + q % 2,
                    ),
                    -0x40_0000 <= i + 1 && i <= 0x40_0000,
                    -0x40_0000 <= j + 1 && j <= 0x40_0000,
                    -0x40_0000 <= k + 1 && k <= 0x40_0000,
                decreases 2 - dj,
            {
                let mut dk: i64 = 0;
                while dk < 2
                    invariant
                        0 <= di < 2,
                        0 <= dj < 2,
                        0 <= dk <= 2,
                        perlin_ok(*self),
                        c@.len() == di * 4 + dj * 2 + dk,
                        forall|q: int|
                            0 <= q < c@.len() ==> -65536 <= (#[trigger] c@[q]).x <= 65536 && -65536
                                <= c@[q].y <= 65536 && -65536 <= c@[q].z <= 65536,
                forall|q: int|
                    0 <= q < c@.len() ==> #[trigger] c@[q] == grad_at(
                        *self,
                        i as int + q / 4,
                        j as int + (q / 2) % 2,
                        k as int + q % 2,
                    ),
                        -0x40_0000 <= i + 1 && i <= 0x40_0000,
                        -0x40_0000 <= j + 1 && j <= 0x40_0000,
                        -0x40_0000 <= k + 1 && k <= 0x40_0000,
                    decreases 2 - dk,
                {
                    let ix = mask_index(i + di);
                    let iy = mask_index(j + dj);
                    let iz = mask_index(k + dk);
                    let hx = self.perm_x[ix];
                    let hy = self.perm_y[iy];
                    let hz = self.perm_z[iz];
                    let h = hx ^ hy ^ hz;
                    proof {
                        assert(hx ^ hy < 256 && (hx ^ hy) ^ hz < 256) by (bit_vector)
                            requires
                                hx < 256usize && hy < 256usize && hz < 256usize;
                    }
                    c.push(self.ranvec[h]);
                    proof {
                        let n = 4 * di + 2 * dj + dk;
                        assert(n / 4 == di && (n / 2) % 2 == dj && n % 2 == dk)
                            by (nonlinear_arith)
                            requires
                                n == 4 * di + 2 * dj + dk,
                                0 <= di < 2,
                                0 <= dj < 2,
                                0 <= dk < 2;
                        assert(c@[n as int] == grad_at(
                            *self,
                            i as int + di as int,
                            j as int + dj as int,
                            k as int + dk as int,
                        ));
                    }
                    dk = dk + 1;
                }
                dj = dj + 1;
            }
            di = di + 1;
        }
        proof {
            let ci = p.x as int / 65536;
            let cj = p.y as int / 65536;
            let ck = p.z as int / 65536;
            let model = Seq::new(
                8,
                |q: int| grad_at(*self, ci + q / 4, cj + (q / 2) % 2, ck + q % 2),
            );
            assert(c@ =~= model);
            assert(c@ == model);
        }
        Perlin::perlin_interp(c, u_fl, v_fl, w_fl)
    }

    /// Trilinear interpolation of the eight gradient terms with a
    /// smoothed weight in each axis.
    fn perlin_interp(c: Vec<Vec3>, u: i64, v: i64, w: i64) -> (r: i64)
        requires
            c@.len() == 8,
            0 <= u < 65536,
            0 <= v < 65536,
            0 <= w < 65536,
            forall|q: int|
                0 <= q < 8 ==> -65536 <= (#[trigger] c@[q]).x <= 65536 && -65536 <= c@[q].y <= 65536
                    && -65536 <= c@[q].z <= 65536,
        ensures
            r == interp_sum(c@, u as int, v as int, w as int, 8),
            -0x40_0000 <= r <= 0x40_0000,
    {
        let uu = smooth(u);
        let vv = smooth(v);
        let ww = smooth(w);
        let mut accum: i64 = 0;
        let mut i: i64 = 0;
        while i < 2
            invariant
                0 <= i <= 2,
                uu == smooth_spec(u as int) && vv == smooth_spec(v as int) && ww == smooth_spec(
                    w as int,
                ),
                accum == interp_sum(c@, u as int, v as int, w as int, 4 * i),
                -0x8_0000 * (4 * i) <= accum <= 0x8_0000 * (4 * i),
                c@.len() == 8,
                0 <= uu <= 65536 && 0 <= vv <= 65536 && 0 <= ww <= 65536,
                0 <= u < 65536 && 0 <= v < 65536 && 0 <= w < 65536,
                forall|q: int|
                    0 <= q < 8 ==> -65536 <= (#[trigger] c@[q]).x <= 65536 && -65536 <= c@[q].y
                        <= 65536 && -65536 <= c@[q].z <= 65536,
            decreases 2 - i,
        {
            let mut j: i64 = 0;
            while j < 2
                invariant
                    0 <= i < 2,
                    0 <= j <= 2,
                    uu == smooth_spec(u as int) && vv == smooth_spec(v as int) && ww
                        == smooth_spec(w as int),
                    accum == interp_sum(c@, u as int, v as int, w as int, 4 * i + 2 * j),
                    -0x8_0000 * (4 * i + 2 * j) <= accum <= 0x8_0000 * (4 * i + 2 * j),
                    c@.len() == 8,
                    0 <= uu <= 65536 && 0 <= vv <= 65536 && 0 <= ww <= 65536,
                    0 <= u < 65536 && 0 <= v < 65536 && 0 <= w < 65536,
                    forall|q: int|
                        0 <= q < 8 ==> -65536 <= (#[trigger] c@[q]).x <= 65536 && -65536 <= c@[q].y
                            <= 65536 && -65536 <= c@[q].z <= 65536,
                decreases 2 - j,
            {
                let mut k: i64 = 0;
                while k < 2
                    invariant
                        0 <= i < 2,
                        0 <= j < 2,
                        0 <= k <= 2,
                        uu == smooth_spec(u as int) && vv == smooth_spec(v as int) && ww
                            == smooth_spec(w as int),
                        accum == interp_sum(c@, u as int, v as int, w as int, 4 * i + 2 * j + k),
                        -0x8_0000 * (4 * i + 2 * j + k) <= accum <= 0x8_0000 * (4 * i + 2 * j + k),
                        c@.len() == 8,
                        0 <= uu <= 65536 && 0 <= vv <= 65536 && 0 <= ww <= 65536,
                        0 <= u < 65536 && 0 <= v < 65536 && 0 <= w < 65536,
                        forall|q: int|
                            0 <= q < 8 ==> -65536 <= (#[trigger] c@[q]).x <= 65536 && -65536
                                <= c@[q].y <= 65536 && -65536 <= c@[q].z <= 65536,
                    decreases 2 - k,
                {
                    let wi = if i == 1 {
                        uu
                    } else {
                        65536 - uu
                    };
                    let wj = if j == 1 {
                        vv
                    } else {
                        65536 - vv
                    };
                    let wk = if k == 1 {
                        ww
                    } else {
                        65536 - ww
                    };
                    let weight = clamp(
                        small_mul(clamp(small_mul(wi, wj), 0, 65536), wk),
                        0,
                        65536,
                    );
                    let off = Vec3 { x: u - i * 65536, y: v - j * 65536, z: w - k * 65536 };
                    let idx = (i * 4 + j * 2 + k) as usize;
                    let g = c[idx];
                    let d = clamp(dot(g, off), -0x8_0000, 0x8_0000);
                    let term = clamp(small_mul(weight, d), -0x8_0000, 0x8_0000);
                    proof {
                        let n = 4 * i + 2 * j + k;
                        assert(n / 4 == i && (n / 2) % 2 == j && n % 2 == k) by (nonlinear_arith)
                            requires
                                n == 4 * i + 2 * j + k,
                                0 <= i < 2,
                                0 <= j < 2,
                                0 <= k < 2;
                        assert(term == interp_term(c@, u as int, v as int, w as int, n as int));
                        assert(interp_sum(c@, u as int, v as int, w as int, n + 1) == interp_sum(
                            c@,
                            u as int,
                            v as int,
                            w as int,
                            n as int,
                        ) + interp_term(c@, u as int, v as int, w as int, n as int));
                    }
                    accum = accum + term;
                    k = k + 1;
                }
                j = j + 1;
            }
            i = i + 1;
        }
        accum
    }

    /// Summed octaves of noise, folded to a non-negative value.
    pub fn turb(&self, p: Point3, depth: usize) -> (r: i64)
        requires
            perlin_ok(*self),
            vec_ok(p),
            depth <= 16,
        ensures
            r == turb_spec(*self, p, depth as int),
            0 <= r <= 0x80_0000,
    {
        let mut accum: i64 = 0;
        let mut temp_p = p;
        let mut weight: i64 = 65536;
        let mut step: usize = 0;
        while step < depth
            invariant
                step <= depth <= 16,
                perlin_ok(*self),
                vec_ok(temp_p),
                0 <= weight <= 65536,
                -0x80_0000 <= accum <= 0x80_0000,
                (accum as int, weight as int, temp_p) == turb_state(*self, p, step as int),
            decreases depth - step,
        {
            let n = self.noise(temp_p);
            let octave = clamp(small_mul(weight, n), -0x40_0000, 0x40_0000);
            let ghost prev = (accum as int, weight as int, temp_p);
            accum = clamp(accum + octave, -0x80_0000, 0x80_0000);
            weight = weight / 2;
            temp_p = Vec3 {
                x: clamp(temp_p.x * 2, -0x40_0000_0000, 0x40_0000_0000),
                y: clamp(temp_p.y * 2, -0x40_0000_0000, 0x40_0000_0000),
                z: clamp(temp_p.z * 2, -0x40_0000_0000, 0x40_0000_0000),
            };
            proof {
                assert(turb_state(*self, p, step as int + 1).0 == accum as int && turb_state(
                    *self,
                    p,
                    step as int + 1,
                ).1 == weight as int && turb_state(*self, p, step as int + 1).2 == temp_p);
            }
            step = step + 1;
        }
        fx_abs(accum)
    }
}

impl Perlin {
    /// An equal, independently owned copy of the table.
    pub fn duplicate(&self) -> (r: Perlin)
        ensures
            r.ranvec@ =~= self.ranvec@,
            r.perm_x@ =~= self.perm_x@,
            r.perm_y@ =~= self.perm_y@,
            r.perm_z@ =~= self.perm_z@,
            perlin_ok(*self) ==> perlin_ok(r),
    {
        Perlin {
            ranvec: copy_vec3s(&self.ranvec),
            perm_x: copy_indices(&self.perm_x),
            perm_y: copy_indices(&self.perm_y),
            perm_z: copy_indices(&self.perm_z),
        }
    }
}

/// An element-by-element copy of a vector of points.
fn copy_vec3s(v: &Vec<Vec3>) -> (r: Vec<Vec3>)
    ensures
        r@ =~= v@,
{
    let mut r: Vec<Vec3> = Vec::new();
    let mut i: usize = 0;
    while i < v.len()
        invariant
            i <= v@.len(),
            r@ =~= v@.subrange(0, i as int),
        decreases v@.len() - i,
    {
        r.push(v[i]);
        proof {
            assert(r@ =~= v@.subrange(0, i + 1));
        }
        i = i + 1;
    }
    proof {
        assert(v@.subrange(0, v@.len() as int) =~= v@);
    }
    r
}

/// An element-by-element copy of an index table.
fn copy_indices(v: &Vec<usize>) -> (r: Vec<usize>)
    ensures
        r@ =~= v@,
{
    let mut r: Vec<usize> = Vec::new();
    let mut i: usize = 0;
    while i < v.len()
        invariant
            i <= v@.len(),
            r@ =~= v@.subrange(0, i as int),
        decreases v@.len() - i,
    {
        r.push(v[i]);
        proof {
            assert(r@ =~= v@.subrange(0, i + 1));
        }
        i = i + 1;
    }
    proof {
        assert(v@.subrange(0, v@.len() as int) =~= v@);
    }
    r
}

impl Default for Perlin {
    /// A fresh table of random gradients and three fresh shuffles.
    fn default() -> (r: Perlin)
        ensures
            perlin_ok(r),
    {
        let mut ranvec: Vec<Vec3> = Vec::new();
        let mut i: usize = 0;
        while i < 256
            invariant
                i <= 256,
                ranvec@.len() == i,
                forall|j: int|
                    0 <= j < i ==> -65536 <= (#[trigger] ranvec@[j]).x <= 65536 && -65536
                        <= ranvec@[j].y <= 65536 && -65536 <= ranvec@[j].z <= 65536,
            decreases 256 - i,
        {
            ranvec.push(random_unit_vector());
            i = i + 1;
        }
        Perlin {
            ranvec,
            perm_x: Perlin::perlin_generate_perm(),
            perm_y: Perlin::perlin_generate_perm(),
            perm_z: Perlin::perlin_generate_perm(),
        }
    }
}

/// The integer cell of a fixed-point coordinate (its floor), within +-512.
fn floor_cell(x: i64) -> (r: i64)
    requires
        -0x40_0000_0000 <= x <= 0x40_0000_0000,
    ensures
        r as int == (x as int) / 65536,
        r * 65536 <= x < (r + 1) * 65536,
        -0x40_0000 <= r <= 0x40_0000,
        0 <= x - r * 65536 < 65536,
{
    proof {
        lemma_div_bounded(x as int, 65536, 0x40_0000_0000);
    }
    let q = div_floor(x as i128, 65536) as i64;
    proof {
        vstd::arithmetic::div_mod::lemma_fundamental_div_mod(x as int, 65536);
        vstd::arithmetic::div_mod::lemma_mod_bound(x as int, 65536);
        assert(65536 * (x as int / 65536) == (x as int / 65536) * 65536) by (nonlinear_arith);
        assert(-0x40_0000 <= q as int <= 0x40_0000) by (nonlinear_arith)
            requires
                q as int * 65536 <= (x as int) < (q as int + 1) * 65536,
                -0x40_0000_0000 <= x as int <= 0x40_0000_0000;
    }
    q
}

/// A cell coordinate folded into the table range `0..256`.
fn mask_index(i: i64) -> (r: usize)
    requires
        -0x80_0000 <= i <= 0x80_0000,
    ensures
        r as int == (i as int) % 256,
        r < 256,
{
    proof {
        lemma_div_bounded(i as int, 256, 0x80_0000);
        vstd::arithmetic::div_mod::lemma_fundamental_div_mod(i as int, 256);
        vstd::arithmetic::div_mod::lemma_mod_bound(i as int, 256);
        assert(256 * (i as int / 256) == (i as int / 256) * 256) by (nonlinear_arith);
    }
    let q = div_floor(i as i128, 256) as i64;
    let m = i - q * 256;
    m as usize
}

/// Fixed-point product of two small scalars.
fn small_mul(a: i64, b: i64) -> (r: i64)
    requires
        -0x40_0000 <= a <= 0x40_0000,
        -0x40_0000 <= b <= 0x40_0000,
    ensures
        r == a as int * b as int / 65536,
        -0x1000_0000 <= r <= 0x1000_0000,
{
    proof {
        assert(-0x1000_0000_0000 <= a as int * b as int <= 0x1000_0000_0000)
            by (nonlinear_arith)
            requires
                -0x40_0000 <= a as int <= 0x40_0000,
                -0x40_0000 <= b as int <= 0x40_0000;
        vstd::arithmetic::div_mod::lemma_div_is_ordered(
            a as int * b as int,
            0x1000_0000_0000,
            65536,
        );
        vstd::arithmetic::div_mod::lemma_div_is_ordered(
            -0x1000_0000_0000,
            a as int * b as int,
            65536,
        );
    }
    div_floor((a as i128) * (b as i128), 65536) as i64
}

/// The cubic smoothing weight `s^2 (3 - 2 s)` of a fraction in `[0, 1)`.
fn smooth(s: i64) -> (r: i64)
    requires
        0 <= s < 65536,
    ensures
        r == smooth_spec(s as int),
        0 <= r <= 65536,
{
    let s2 = clamp(small_mul(s, s), 0, 65536);
    let t = clamp(small_mul(s2, 3 * 65536 - 2 * s), 0, 65536);
    t
}

} // verus!
