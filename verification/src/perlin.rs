//! Lattice gradient noise with permutation tables.

use vstd::prelude::*;

use crate::fx::{
    fits, fx_abs, fx_add, fx_floor_parts, fx_mul, fx_sub, sadd, sat, sdiv, smul, ssub, tdiv,
    FX_ONE,
};
use crate::rt::{random_fx, random_int, RtRng};
use crate::vec3::{sv_dot, sv_scale, vfits, Vec3};

verus! {

/// Entries in each permutation table.
pub const POINT_COUNT: i32 = 256;

pub struct Perlin {
    pub randvec: Vec<Vec3>,
    pub perm_x: Vec<i32>,
    pub perm_y: Vec<i32>,
    pub perm_z: Vec<i32>,
}

pub open spec fn perm_wf(p: Seq<i32>) -> bool {
    p.len() == 256 && forall|i: int| 0 <= i < 256 ==> 0 <= #[trigger] p[i] < 256
}

pub open spec fn perlin_wf(pl: Perlin) -> bool {
    pl.randvec@.len() == 256 && (forall|i: int| 0 <= i < 256 ==> vfits(#[trigger] pl.randvec@[i]))
        && perm_wf(pl.perm_x@) && perm_wf(pl.perm_y@) && perm_wf(pl.perm_z@)
}

/// The low eight bits, as a table index.
pub open spec fn mask8(v: int) -> int {
    ((v as i32) & 255) as int
}

/// The table index of the lattice corner `(i, j, k)`.
pub open spec fn perlin_hash(pl: Perlin, i: int, j: int, k: int) -> int {
    (pl.perm_x@[mask8(i)] ^ pl.perm_y@[mask8(j)] ^ pl.perm_z@[mask8(k)]) as int
}

/// The gradient vector at the lattice corner `(i, j, k)`.
pub open spec fn perlin_grad(pl: Perlin, i: int, j: int, k: int) -> Vec3
    recommends
        perlin_wf(pl),
{
    pl.randvec@[perlin_hash(pl, i, j, k)]
}

/// The Hermite smoothing `t^2 (3 - 2 t)`.
pub open spec fn smooth(t: int) -> int {
    smul(smul(t, t), ssub(3 * (FX_ONE as int), smul(2 * (FX_ONE as int), t)))
}

/// Either a smoothed weight or its complement, by corner selector.
pub open spec fn wcoef(sel: int, tt: int) -> int {
    if sel == 1 {
        tt
    } else {
        ssub(FX_ONE as int, tt)
    }
}

/// One corner's contribution to the trilinear blend.
pub open spec fn perlin_term(
    pl: Perlin,
    i: int,
    j: int,
    k: int,
    si: int,
    sj: int,
    sk: int,
    u: int,
    v: int,
    w: int,
) -> int {
    let dvec = Vec3 {
        x: ssub(u, si * (FX_ONE as int)) as i64,
        y: ssub(v, sj * (FX_ONE as int)) as i64,
        z: ssub(w, sk * (FX_ONE as int)) as i64,
    };
    smul(
        smul(smul(wcoef(si, smooth(u)), wcoef(sj, smooth(v))), wcoef(sk, smooth(w))),
        sv_dot(perlin_grad(pl, i + si, j + sj, k + sk), dvec),
    )
}

/// The noise value at a point: the trilinear blend of the eight corner
/// contributions of the containing lattice cell.
pub open spec fn noise_spec(pl: Perlin, p: Vec3) -> int {
    let i = (p.x as int) / (FX_ONE as int);
    let j = (p.y as int) / (FX_ONE as int);
    let k = (p.z as int) / (FX_ONE as int);
    let u = (p.x as int) % (FX_ONE as int);
    let v = (p.y as int) % (FX_ONE as int);
    let w = (p.z as int) % (FX_ONE as int);
    sadd(
        sadd(
            sadd(
                sadd(
                    sadd(
                        sadd(
                            sadd(
                                sadd(0, perlin_term(pl, i, j, k, 0, 0, 0, u, v, w)),
                                perlin_term(pl, i, j, k, 0, 0, 1, u, v, w),
                            ),
                            perlin_term(pl, i, j, k, 0, 1, 0, u, v, w),
                        ),
                        perlin_term(pl, i, j, k, 0, 1, 1, u, v, w),
                    ),
                    perlin_term(pl, i, j, k, 1, 0, 0, u, v, w),
                ),
                perlin_term(pl, i, j, k, 1, 0, 1, u, v, w),
            ),
            perlin_term(pl, i, j, k, 1, 1, 0, u, v, w),
        ),
        perlin_term(pl, i, j, k, 1, 1, 1, u, v, w),
    )
}

/// The turbulence accumulator: summed, halving octaves of noise at
/// doubling frequencies.
pub open spec fn turb_acc(pl: Perlin, p: Vec3, depth: int, accum: int, weight: int) -> int
    decreases depth,
{
    if depth <= 0 {
        accum
    } else {
        turb_acc(
            pl,
            sv_scale(p, 2 * (FX_ONE as int)),
            depth - 1,
            sadd(accum, smul(weight, noise_spec(pl, p))),
            smul(weight, (FX_ONE as int) / 2),
        )
    }
}

/// The turbulence value: the accumulator's magnitude.
pub open spec fn turb_spec(pl: Perlin, p: Vec3, depth: int) -> int {
    let a = turb_acc(pl, p, depth, 0, FX_ONE as int);
    if a >= 0 {
        a
    } else {
        -a
    }
}

/// The masked index is a table index.
proof fn lemma_mask8_bound(v: int)
    ensures
        0 <= mask8(v) < 256,
{
    let w = v as i32;
    assert(0 <= (w & 255) < 256) by (bit_vector);
}

/// The exclusive-or of two table indices is a table index.
proof fn lemma_xor_bound(a: i32, b: i32)
    requires
        0 <= a < 256,
        0 <= b < 256,
    ensures
        0 <= (a ^ b) < 256,
{
    assert(0 <= a < 256 && 0 <= b < 256 ==> 0 <= (a ^ b) < 256) by (bit_vector);
}

/// The identity table: the indices 0 to 255 in order.
pub open spec fn iota256() -> Seq<i32> {
    Seq::new(256, |k: int| k as i32)
}

/// Overwriting one slot trades its old value for the new one in the
/// sequence's multiset.
proof fn lemma_update_multiset(s: Seq<i32>, i: int, v: i32)
    requires
        0 <= i < s.len(),
    ensures
        s.update(i, v).to_multiset() == s.to_multiset().remove(s[i]).insert(v),
{
    broadcast use vstd::seq_lib::group_to_multiset_ensures;
    broadcast use vstd::multiset::group_multiset_axioms;

    let s2 = s.update(i, v);
    assert(s.remove(i) =~= s2.remove(i));
    assert(s2[i] == v);
    assert(s2.contains(v));
    assert(s2.to_multiset().count(v) > 0);
    assert(s2.to_multiset() =~= s.to_multiset().remove(s[i]).insert(v)) by {
        assert(s2.remove(i).to_multiset() == s2.to_multiset().remove(v));
        assert(s.remove(i).to_multiset() == s.to_multiset().remove(s[i]));
    }
}

/// Swapping two slots leaves the sequence's multiset unchanged.
proof fn lemma_swap_multiset(s: Seq<i32>, i: int, t: int)
    requires
        0 <= i < s.len(),
        0 <= t < s.len(),
    ensures
        s.update(i, s[t]).update(t, s[i]).to_multiset() == s.to_multiset(),
{
    broadcast use vstd::seq_lib::group_to_multiset_ensures;
    broadcast use vstd::multiset::group_multiset_axioms;

    let a = s[i];
    let b = s[t];
    if i == t {
        assert(s.update(i, b).update(t, a) =~= s);
    } else {
        let s1 = s.update(i, b);
        lemma_update_multiset(s, i, b);
        assert(s1[t] == b);
        lemma_update_multiset(s1, t, a);
        assert(s.contains(a));
        assert(s.to_multiset().count(a) > 0);
        assert(s1.update(t, a).to_multiset() =~= s.to_multiset());
    }
}

impl Perlin {
    /// A shuffled permutation of the indices 0 to 255.
    pub fn generate_perm(rng: &mut RtRng) -> (r: Vec<i32>)
        ensures
            perm_wf(r@),
            r@.to_multiset() == iota256().to_multiset(),
    {
        let mut p: Vec<i32> = Vec::new();
        let mut i: i32 = 0;
        while i < POINT_COUNT
            invariant
                0 <= i <= 256,
                p@.len() == i,
                forall|k: int| 0 <= k < i ==> 0 <= #[trigger] p@[k] < 256,
                p@ =~= iota256().subrange(0, i as int),
            decreases 256 - i,
        {
            p.push(i);
            proof {
                assert(p@ =~= iota256().subrange(0, i + 1));
            }
            i = i + 1;
        }
        proof {
            assert(p@ =~= iota256());
        }
        Perlin::permute(&mut p, rng);
        p
    }

    /// Shuffle in place by backward swaps with random partners; the
    /// result holds exactly the values it started with.
    pub fn permute(p: &mut Vec<i32>, rng: &mut RtRng)
        requires
            forall|k: int| 0 <= k < old(p)@.len() ==> 0 <= #[trigger] old(p)@[k] < 256,
            old(p)@.len() <= 256,
        ensures
            final(p)@.len() == old(p)@.len(),
            forall|k: int| 0 <= k < final(p)@.len() ==> 0 <= #[trigger] final(p)@[k] < 256,
            final(p)@.to_multiset() == old(p)@.to_multiset(),
    {
        if p.len() < 2 {
            return ;
        }
        let mut i: usize = p.len() - 1;
        while i >= 1
            invariant
                1 <= i < p@.len() <= 256,
                p@.len() == old(p)@.len(),
                forall|k: int| 0 <= k < p@.len() ==> 0 <= #[trigger] p@[k] < 256,
                p@.to_multiset() == old(p)@.to_multiset(),
            decreases i,
        {
            let target = random_int(rng, 0, i as i32);
            let ghost before = p@;
            let a = p[i];
            let b = p[target as usize];
            p[i] = b;
            p[target as usize] = a;
            proof {
                assert(p@ =~= before.update(i as int, b).update(target as int, a));
                lemma_swap_multiset(before, i as int, target as int);
            }
            if i == 1 {
                return ;
            }
            i = i - 1;
        }
    }

    /// Fresh tables: random gradients with components in `[0, 1)` and
    /// three shuffled permutations of the indices.
    pub fn new(rng: &mut RtRng) -> (r: Perlin)
        ensures
            perlin_wf(r),
            forall|k: int|
                0 <= k < 256 ==> 0 <= #[trigger] r.randvec@[k].x < FX_ONE && 0 <= r.randvec@[k].y
                    < FX_ONE && 0 <= r.randvec@[k].z < FX_ONE,
            r.perm_x@.to_multiset() == iota256().to_multiset(),
            r.perm_y@.to_multiset() == iota256().to_multiset(),
            r.perm_z@.to_multiset() == iota256().to_multiset(),
    {
        let mut randvec: Vec<Vec3> = Vec::new();
        let mut i: i32 = 0;
        while i < POINT_COUNT
            invariant
                0 <= i <= 256,
                randvec@.len() == i,
                forall|k: int| 0 <= k < i ==> vfits(#[trigger] randvec@[k]),
                forall|k: int|
                    0 <= k < i ==> 0 <= #[trigger] randvec@[k].x < FX_ONE && 0 <= randvec@[k].y
                        < FX_ONE && 0 <= randvec@[k].z < FX_ONE,
            decreases 256 - i,
        {
            let v = Vec3 {
                x: random_fx(rng, 0, FX_ONE),
                y: random_fx(rng, 0, FX_ONE),
                z: random_fx(rng, 0, FX_ONE),
            };
            randvec.push(v);
            i = i + 1;
        }
        let perm_x = Perlin::generate_perm(rng);
        let perm_y = Perlin::generate_perm(rng);
        let perm_z = Perlin::generate_perm(rng);
        Perlin { randvec, perm_x, perm_y, perm_z }
    }

    /// Fetch the gradient at a lattice corner.
    fn grad(&self, ci: i32, cj: i32, ck: i32) -> (g: Vec3)
        requires
            perlin_wf(*self),
        ensures
            g == perlin_grad(*self, ci as int, cj as int, ck as int),
            vfits(g),
    {
        proof {
            lemma_mask8_bound(ci as int);
            lemma_mask8_bound(cj as int);
            lemma_mask8_bound(ck as int);
        }
        let hx = self.perm_x[(ci & 255) as usize];
        let hy = self.perm_y[(cj & 255) as usize];
        let hz = self.perm_z[(ck & 255) as usize];
        proof {
            lemma_xor_bound(hx, hy);
            lemma_xor_bound(hx ^ hy, hz);
        }
        self.randvec[((hx ^ hy) ^ hz) as usize]
    }

    /// The noise value at a point.
    pub fn noise(&self, p: Vec3) -> (r: i64)
        requires
            perlin_wf(*self),
            vfits(p),
        ensures
            r as int == noise_spec(*self, p),
            fits(r as int),
    {
        let (i, u) = fx_floor_parts(p.x);
        let (j, v) = fx_floor_parts(p.y);
        let (k, w) = fx_floor_parts(p.z);
        let uu = Perlin::smooth_fx(u);
        let vv = Perlin::smooth_fx(v);
        let ww = Perlin::smooth_fx(w);
        let mut accum: i64 = 0;
        let ii = i as i32;
        let jj = j as i32;
        let kk = k as i32;
        accum = fx_add(accum, self.corner_term(ii, jj, kk, 0, 0, 0, u, v, w, uu, vv, ww));
        accum = fx_add(accum, self.corner_term(ii, jj, kk, 0, 0, 1, u, v, w, uu, vv, ww));
        accum = fx_add(accum, self.corner_term(ii, jj, kk, 0, 1, 0, u, v, w, uu, vv, ww));
        accum = fx_add(accum, self.corner_term(ii, jj, kk, 0, 1, 1, u, v, w, uu, vv, ww));
        accum = fx_add(accum, self.corner_term(ii, jj, kk, 1, 0, 0, u, v, w, uu, vv, ww));
        accum = fx_add(accum, self.corner_term(ii, jj, kk, 1, 0, 1, u, v, w, uu, vv, ww));
        accum = fx_add(accum, self.corner_term(ii, jj, kk, 1, 1, 0, u, v, w, uu, vv, ww));
        accum = fx_add(accum, self.corner_term(ii, jj, kk, 1, 1, 1, u, v, w, uu, vv, ww));
        accum
    }

    /// The Hermite smoothing of a fractional coordinate.
    fn smooth_fx(t: i64) -> (r: i64)
        requires
            fits(t as int),
        ensures
            r as int == smooth(t as int),
            fits(r as int),
    {
        fx_mul(fx_mul(t, t), fx_sub(3 * FX_ONE, fx_mul(2 * FX_ONE, t)))
    }

    /// One corner's contribution.
    fn corner_term(
        &self,
        ii: i32,
        jj: i32,
        kk: i32,
        si: i32,
        sj: i32,
        sk: i32,
        u: i64,
        v: i64,
        w: i64,
        uu: i64,
        vv: i64,
        ww: i64,
    ) -> (r: i64)
        requires
            perlin_wf(*self),
            -20000 <= ii <= 20000,
            -20000 <= jj <= 20000,
            -20000 <= kk <= 20000,
            si == 0 || si == 1,
            sj == 0 || sj == 1,
            sk == 0 || sk == 1,
            fits(u as int),
            fits(v as int),
            fits(w as int),
            uu as int == smooth(u as int),
            vv as int == smooth(v as int),
            ww as int == smooth(w as int),
        ensures
            r as int == perlin_term(
                *self,
                ii as int,
                jj as int,
                kk as int,
                si as int,
                sj as int,
                sk as int,
                u as int,
                v as int,
                w as int,
            ),
            fits(r as int),
    {
        let g = self.grad(ii + si, jj + sj, kk + sk);
        let dvec = Vec3 {
            x: fx_sub(u, si as i64 * FX_ONE),
            y: fx_sub(v, sj as i64 * FX_ONE),
            z: fx_sub(w, sk as i64 * FX_ONE),
        };
        let wu = if si == 1 {
            uu
        } else {
            fx_sub(FX_ONE, uu)
        };
        let wv = if sj == 1 {
            vv
        } else {
            fx_sub(FX_ONE, vv)
        };
        let ww_ = if sk == 1 {
            ww
        } else {
            fx_sub(FX_ONE, ww)
        };
        fx_mul(fx_mul(fx_mul(wu, wv), ww_), g.dot(&dvec))
    }

    /// Turbulence: layered octaves of noise.
    pub fn turb(&self, p: Vec3, depth: i32) -> (r: i64)
        requires
            perlin_wf(*self),
            vfits(p),
            0 <= depth,
        ensures
            r as int == turb_spec(*self, p, depth as int),
            fits(r as int),
    {
        let mut accum: i64 = 0;
        let mut temp_p = p;
        let mut weight: i64 = FX_ONE;
        let mut it: i32 = 0;
        while it < depth
            invariant
                0 <= it <= depth,
                perlin_wf(*self),
                vfits(temp_p),
                fits(accum as int),
                fits(weight as int),
                turb_acc(*self, p, depth as int, 0, FX_ONE as int) == turb_acc(
                    *self,
                    temp_p,
                    depth - it,
                    accum as int,
                    weight as int,
                ),
            decreases depth - it,
        {
            let n = self.noise(temp_p);
            accum = fx_add(accum, fx_mul(weight, n));
            weight = fx_mul(weight, 32768);
            temp_p = temp_p.scale(2 * FX_ONE);
            it = it + 1;
        }
        fx_abs(accum)
    }
}

} // verus!
