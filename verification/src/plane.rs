//! Infinite plane: linear-equation intersection.

use vstd::prelude::*;
use crate::math::{COORD_LIMIT, SCALE, T_LIMIT, abs_i, div_trunc, trunc_div, isqrt, sqrt_floor,
    round_div, round_div_spec, lemma_round_div_err, lemma_round_div_sign, lemma_mul_bound,
    lemma_square_bound};
use crate::vec3::{Point3, Vec3, dot, in_bounds, is_unit_eps, lemma_unit_bounds,
    lemma_normalized_unit, lemma_unit_eps_of_exact, dot_wide};
use crate::ray::{Ray, ray_at};
use crate::hit::{HitMath, HitRecord, MaterialId, hit_matches, orient_normal, face_normal};

verus! {

/// Tolerance on `dot(direction, normal)` (carried at scale
/// `SCALE * SCALE`) under which a ray counts as parallel to the plane.
pub const EPS_DENOM: i64 = 10_000;

/// An infinite plane through `point` with unit normal `normal`.
pub struct Plane {
    pub point: Point3,
    pub normal: Vec3,
    pub mat: MaterialId,
}

/// Spec-level mirror of the plane intersection test.
pub open spec fn plane_hit_math(pl: Plane, r: Ray, t_min: int, t_max: int) -> Option<HitMath> {
    let denom = dot(r.direction, pl.normal);
    if -(EPS_DENOM as int) < denom < EPS_DENOM as int {
        Option::None
    } else {
        let num = dot3_diff(pl.point, r.origin, pl.normal);
        let t = trunc_div(num * SCALE, denom);
        if t < t_min || t > t_max {
            Option::None
        } else {
            let p = ray_at(r, t);
            let o = orient_normal(
                r.direction.x as int,
                r.direction.y as int,
                r.direction.z as int,
                pl.normal.x as int,
                pl.normal.y as int,
                pl.normal.z as int,
            );
            Option::Some(
                HitMath {
                    t,
                    px: p.0,
                    py: p.1,
                    pz: p.2,
                    nx: o.0,
                    ny: o.1,
                    nz: o.2,
                    front_face: o.3,
                },
            )
        }
    }
}

/// `dot(a - b, n)`, exactly.
pub open spec fn dot3_diff(a: Point3, b: Point3, n: Vec3) -> int {
    (a.x - b.x) * n.x + (a.y - b.y) * n.y + (a.z - b.z) * n.z
}

/// The normalization a constructed plane stores: each component is the
/// round-to-nearest of the exact unit component at scale `SCALE`, with
/// the square root of the squared length carried at nine extra decimal
/// digits of precision so the root's own rounding is negligible.
pub open spec fn normalize_math(v: Vec3) -> (int, int, int) {
    let nn = v.x * v.x + v.y * v.y + v.z * v.z;
    let l = sqrt_floor(nn * 1_000_000_000_000_000_000);
    (
        round_div_spec(v.x * 1_000_000_000_000_000, l),
        round_div_spec(v.y * 1_000_000_000_000_000, l),
        round_div_spec(v.z * 1_000_000_000_000_000, l),
    )
}

impl Plane {
    /// In bounds, with a stored normal unit within one raw unit.
    pub open spec fn wf(self) -> bool {
        in_bounds(self.point) && is_unit_eps(self.normal)
    }

    /// Plane through `point` with the given normal.
    ///
    /// The normal may be any nonzero in-bounds vector; it is stored
    /// normalized at construction: the stored components are the
    /// rounded normalization `normalize_math` of the input, so the
    /// stored normal points the same way as the input, matches it up
    /// to one raw unit per component after scaling, and has unit
    /// length within `1e-6`.
    pub fn new(point: Point3, normal: Vec3, mat: MaterialId) -> (pl: Plane)
        requires
            in_bounds(point),
            in_bounds(normal),
            !(normal.x == 0 && normal.y == 0 && normal.z == 0),
        ensures
            pl.point == point,
            pl.mat == mat,
            pl.normal.x == normalize_math(normal).0,
            pl.normal.y == normalize_math(normal).1,
            pl.normal.z == normalize_math(normal).2,
            normal.x >= 0 ==> pl.normal.x >= 0,
            normal.x < 0 ==> pl.normal.x <= 0,
            normal.y >= 0 ==> pl.normal.y >= 0,
            normal.y < 0 ==> pl.normal.y <= 0,
            normal.z >= 0 ==> pl.normal.z >= 0,
            normal.z < 0 ==> pl.normal.z <= 0,
            pl.wf(),
    {
        proof {
            lemma_square_bound(normal.x as int, COORD_LIMIT as int);
            lemma_square_bound(normal.y as int, COORD_LIMIT as int);
            lemma_square_bound(normal.z as int, COORD_LIMIT as int);
            if normal.x != 0 {
                assert((normal.x as int) * (normal.x as int) >= 1) by (nonlinear_arith)
                    requires
                        normal.x != 0,
                ;
            } else if normal.y != 0 {
                assert((normal.y as int) * (normal.y as int) >= 1) by (nonlinear_arith)
                    requires
                        normal.y != 0,
                ;
            } else {
                assert((normal.z as int) * (normal.z as int) >= 1) by (nonlinear_arith)
                    requires
                        normal.z != 0,
                ;
            }
        }
        let nx128 = normal.x as i128;
        let ny128 = normal.y as i128;
        let nz128 = normal.z as i128;
        let nn: i128 = nx128 * nx128 + ny128 * ny128 + nz128 * nz128;
        let l: i128 = isqrt((nn * 1_000_000_000_000_000_000) as u128) as i128;
        proof {
            assert((nn * 1_000_000_000_000_000_000) as u128 as int == nn
                * 1_000_000_000_000_000_000);
            assert(l >= 1) by (nonlinear_arith)
                requires
                    0 <= l,
                    ((l as int) + 1) * ((l as int) + 1) > 1_000_000_000_000_000_000int,
            ;
            lemma_mul_bound(normal.x as int, 1_000_000_000_000_000int, COORD_LIMIT as int,
                1_000_000_000_000_000int);
            lemma_mul_bound(normal.y as int, 1_000_000_000_000_000int, COORD_LIMIT as int,
                1_000_000_000_000_000int);
            lemma_mul_bound(normal.z as int, 1_000_000_000_000_000int, COORD_LIMIT as int,
                1_000_000_000_000_000int);
        }
        let ax: i128 = nx128 * 1_000_000_000_000_000;
        let ay: i128 = ny128 * 1_000_000_000_000_000;
        let az: i128 = nz128 * 1_000_000_000_000_000;
        let rnx = round_div(ax, l);
        let rny = round_div(ay, l);
        let rnz = round_div(az, l);
        proof {
            lemma_round_div_err(ax as int, l as int);
            lemma_round_div_err(ay as int, l as int);
            lemma_round_div_err(az as int, l as int);
            lemma_round_div_sign(ax as int, l as int);
            lemma_round_div_sign(ay as int, l as int);
            lemma_round_div_sign(az as int, l as int);
            lemma_normalized_unit(
                normal.x as int,
                normal.y as int,
                normal.z as int,
                rnx as int,
                rny as int,
                rnz as int,
                l as int,
            );
            assert(-1_000_001 <= rnx <= 1_000_001 && -1_000_001 <= rny <= 1_000_001 && -1_000_001
                <= rnz <= 1_000_001) by (nonlinear_arith)
                requires
                    (rnx as int) * (rnx as int) + (rny as int) * (rny as int) + (rnz as int) * (
                    rnz as int) <= 1_000_002_000_001int,
            ;
        }
        let nv = Vec3 { x: rnx as i64, y: rny as i64, z: rnz as i64 };
        Plane { point, normal: nv, mat }
    }

    /// Horizontal plane `y = height` with normal toward positive y.
    pub fn horizontal(height: i64, mat: MaterialId) -> (pl: Plane)
        requires
            -COORD_LIMIT <= height <= COORD_LIMIT,
        ensures
            pl == (Plane {
                point: Vec3 { x: 0, y: height, z: 0 },
                normal: Vec3 { x: 0, y: SCALE, z: 0 },
                mat,
            }),
            pl.wf(),
    {
        proof {
            lemma_unit_eps_of_exact(0, SCALE as int, 0);
        }
        Plane {
            point: Vec3 { x: 0, y: height, z: 0 },
            normal: Vec3 { x: 0, y: SCALE, z: 0 },
            mat,
        }
    }

    /// Vertical plane `z = z_position` with normal toward positive z.
    pub fn vertical_z(z_position: i64, mat: MaterialId) -> (pl: Plane)
        requires
            -COORD_LIMIT <= z_position <= COORD_LIMIT,
        ensures
            pl == (Plane {
                point: Vec3 { x: 0, y: 0, z: z_position },
                normal: Vec3 { x: 0, y: 0, z: SCALE },
                mat,
            }),
            pl.wf(),
    {
        proof {
            lemma_unit_eps_of_exact(0, 0, SCALE as int);
        }
        Plane {
            point: Vec3 { x: 0, y: 0, z: z_position },
            normal: Vec3 { x: 0, y: 0, z: SCALE },
            mat,
        }
    }

    /// Vertical plane `x = x_position` with normal toward positive x.
    pub fn vertical_x(x_position: i64, mat: MaterialId) -> (pl: Plane)
        requires
            -COORD_LIMIT <= x_position <= COORD_LIMIT,
        ensures
            pl == (Plane {
                point: Vec3 { x: x_position, y: 0, z: 0 },
                normal: Vec3 { x: SCALE, y: 0, z: 0 },
                mat,
            }),
            pl.wf(),
    {
        proof {
            lemma_unit_eps_of_exact(SCALE as int, 0, 0);
        }
        Plane {
            point: Vec3 { x: x_position, y: 0, z: 0 },
            normal: Vec3 { x: SCALE, y: 0, z: 0 },
            mat,
        }
    }

    /// Intersect the ray with the plane over `[t_min, t_max]`.
    ///
    /// The result is pinned to `plane_hit_math`: a hit is returned if
    /// and only if the ray is not parallel to the plane (within the
    /// `EPS_DENOM` tolerance) and the solved parameter lies in range.
    pub fn hit(&self, r: &Ray, t_min: i64, t_max: i64) -> (res: Option<HitRecord>)
        requires
            self.wf(),
            r.wf(),
            -T_LIMIT <= t_min <= t_max <= T_LIMIT,
        ensures
            hit_matches(res, plane_hit_math(*self, *r, t_min as int, t_max as int), self.mat),
    {
        proof {
            lemma_unit_bounds(self.normal);
        }
        let denom: i128 = dot_wide(&r.direction, &self.normal);
        proof {
            lemma_mul_bound(r.direction.x as int, self.normal.x as int, COORD_LIMIT as int,
                SCALE as int + 1);
            lemma_mul_bound(r.direction.y as int, self.normal.y as int, COORD_LIMIT as int,
                SCALE as int + 1);
            lemma_mul_bound(r.direction.z as int, self.normal.z as int, COORD_LIMIT as int,
                SCALE as int + 1);
        }
        if -(EPS_DENOM as i128) < denom && denom < EPS_DENOM as i128 {
            return Option::None;
        }
        let ex = self.point.x - r.origin.x;
        let ey = self.point.y - r.origin.y;
        let ez = self.point.z - r.origin.z;
        proof {
            lemma_mul_bound(ex as int, self.normal.x as int, 2_000_000_000int, SCALE as int + 1);
            lemma_mul_bound(ey as int, self.normal.y as int, 2_000_000_000int, SCALE as int + 1);
            lemma_mul_bound(ez as int, self.normal.z as int, 2_000_000_000int, SCALE as int + 1);
        }
        let num: i128 = (ex as i128) * (self.normal.x as i128) + (ey as i128) * (self.normal.y
            as i128) + (ez as i128) * (self.normal.z as i128);
        let tq: i128 = div_trunc(num * (SCALE as i128), denom);
        if tq < t_min as i128 || tq > t_max as i128 {
            return Option::None;
        }
        let t = tq as i64;
        let p = r.at(t);
        let (n, ff) = face_normal(&r.direction, &self.normal);
        Option::Some(HitRecord { t, p, normal: n, front_face: ff, mat: self.mat })
    }
}

/// Every committed plane hit lies in the interval, on the ray, with a
/// normal unit within one raw unit that opposes the ray direction.
pub proof fn lemma_plane_hit_valid(pl: Plane, r: Ray, t_min: int, t_max: int)
    requires
        pl.wf(),
    ensures
        match plane_hit_math(pl, r, t_min, t_max) {
            Option::Some(h) => t_min <= h.t <= t_max && h.px == ray_at(r, h.t).0 && h.py == ray_at(
                r,
                h.t,
            ).1 && h.pz == ray_at(r, h.t).2 && crate::vec3::dot3(
                r.direction.x as int,
                r.direction.y as int,
                r.direction.z as int,
                h.nx,
                h.ny,
                h.nz,
            ) <= 0 && crate::vec3::is_unit3_eps(h.nx, h.ny, h.nz),
            Option::None => true,
        },
{
    let denom = dot(r.direction, pl.normal);
    if -(EPS_DENOM as int) < denom < EPS_DENOM as int {
    } else {
        let num = dot3_diff(pl.point, r.origin, pl.normal);
        let t = trunc_div(num * SCALE, denom);
        if t < t_min || t > t_max {
        } else {
            crate::hit::lemma_orient_opposes(
                r.direction.x as int,
                r.direction.y as int,
                r.direction.z as int,
                pl.normal.x as int,
                pl.normal.y as int,
                pl.normal.z as int,
            );
            crate::hit::lemma_orient_preserves_norm(
                r.direction.x as int,
                r.direction.y as int,
                r.direction.z as int,
                pl.normal.x as int,
                pl.normal.y as int,
                pl.normal.z as int,
            );
        }
    }
}

/// How far a committed hit can lie off the plane: the quantization of
/// the ray parameter to raw units contributes less than one unit of
/// `dot(direction, normal)`, and the rounding of each hit-point
/// coordinate less than one raw unit weighted by the normal. In world
/// terms the offset is below `1e-6` scaled by the direction's normal
/// component, plus about `2e-6`.
pub proof fn lemma_plane_hit_deviation(pl: Plane, r: Ray, t_min: int, t_max: int)
    ensures
        match plane_hit_math(pl, r, t_min, t_max) {
            Option::Some(h) => (SCALE as int) * abs_i(
                (h.px - pl.point.x) * pl.normal.x + (h.py - pl.point.y) * pl.normal.y + (h.pz
                    - pl.point.z) * pl.normal.z,
            ) < abs_i(dot(r.direction, pl.normal)) + (SCALE as int) * (abs_i(pl.normal.x as int)
                + abs_i(pl.normal.y as int) + abs_i(pl.normal.z as int)),
            Option::None => true,
        },
{
    let denom = dot(r.direction, pl.normal);
    if -(EPS_DENOM as int) < denom < EPS_DENOM as int {
    } else {
        let num = dot3_diff(pl.point, r.origin, pl.normal);
        let t = trunc_div(num * SCALE, denom);
        if t < t_min || t > t_max {
        } else {
            let dxi = r.direction.x as int;
            let dyi = r.direction.y as int;
            let dzi = r.direction.z as int;
            let nxi = pl.normal.x as int;
            let nyi = pl.normal.y as int;
            let nzi = pl.normal.z as int;
            let oxi = r.origin.x as int;
            let oyi = r.origin.y as int;
            let ozi = r.origin.z as int;
            let pxi = pl.point.x as int;
            let pyi = pl.point.y as int;
            let pzi = pl.point.z as int;
            let qx = trunc_div(t * dxi, SCALE as int);
            let qy = trunc_div(t * dyi, SCALE as int);
            let qz = trunc_div(t * dzi, SCALE as int);
            crate::math::lemma_trunc_div_rem(t * dxi, SCALE as int);
            crate::math::lemma_trunc_div_rem(t * dyi, SCALE as int);
            crate::math::lemma_trunc_div_rem(t * dzi, SCALE as int);
            crate::math::lemma_trunc_div_rem(num * SCALE, denom);
            let rx = qx * SCALE - t * dxi;
            let ry = qy * SCALE - t * dyi;
            let rz = qz * SCALE - t * dzi;
            let sig = t * denom - num * SCALE;
            let e = (oxi + qx - pxi) * nxi + (oyi + qy - pyi) * nyi + (ozi + qz - pzi) * nzi;
            assert((SCALE as int) * ((oxi + qx - pxi) * nxi) == (SCALE as int) * ((oxi - pxi)
                * nxi) + (t * dxi) * nxi + rx * nxi) by (nonlinear_arith)
                requires
                    rx == qx * (SCALE as int) - t * dxi,
            ;
            assert((SCALE as int) * ((oyi + qy - pyi) * nyi) == (SCALE as int) * ((oyi - pyi)
                * nyi) + (t * dyi) * nyi + ry * nyi) by (nonlinear_arith)
                requires
                    ry == qy * (SCALE as int) - t * dyi,
            ;
            assert((SCALE as int) * ((ozi + qz - pzi) * nzi) == (SCALE as int) * ((ozi - pzi)
                * nzi) + (t * dzi) * nzi + rz * nzi) by (nonlinear_arith)
                requires
                    rz == qz * (SCALE as int) - t * dzi,
            ;
            assert((SCALE as int) * ((oxi - pxi) * nxi) + (SCALE as int) * ((oyi - pyi) * nyi) + (
            SCALE as int) * ((ozi - pzi) * nzi) == -(num * SCALE)) by (nonlinear_arith)
                requires
                    num == (pxi - oxi) * nxi + (pyi - oyi) * nyi + (pzi - ozi) * nzi,
            ;
            assert((t * dxi) * nxi == t * (dxi * nxi)) by (nonlinear_arith);
            assert((t * dyi) * nyi == t * (dyi * nyi)) by (nonlinear_arith);
            assert((t * dzi) * nzi == t * (dzi * nzi)) by (nonlinear_arith);
            assert(t * (dxi * nxi) + t * (dyi * nyi) + t * (dzi * nzi) == t * denom)
                by (nonlinear_arith)
                requires
                    denom == dxi * nxi + dyi * nyi + dzi * nzi,
            ;
            assert((SCALE as int) * e == (SCALE as int) * ((oxi + qx - pxi) * nxi) + (SCALE
                as int) * ((oyi + qy - pyi) * nyi) + (SCALE as int) * ((ozi + qz - pzi) * nzi))
                by (nonlinear_arith)
                requires
                    e == (oxi + qx - pxi) * nxi + (oyi + qy - pyi) * nyi + (ozi + qz - pzi)
                        * nzi,
            ;
            assert((SCALE as int) * e == sig + rx * nxi + ry * nyi + rz * nzi);
            assert(rx * nxi <= (SCALE as int - 1) * abs_i(nxi) && -((SCALE as int - 1) * abs_i(
                nxi,
            )) <= rx * nxi) by (nonlinear_arith)
                requires
                    -(SCALE as int - 1) <= rx <= SCALE as int - 1,
                    -abs_i(nxi) <= nxi <= abs_i(nxi),
                    0 <= abs_i(nxi),
            ;
            assert(ry * nyi <= (SCALE as int - 1) * abs_i(nyi) && -((SCALE as int - 1) * abs_i(
                nyi,
            )) <= ry * nyi) by (nonlinear_arith)
                requires
                    -(SCALE as int - 1) <= ry <= SCALE as int - 1,
                    -abs_i(nyi) <= nyi <= abs_i(nyi),
                    0 <= abs_i(nyi),
            ;
            assert(rz * nzi <= (SCALE as int - 1) * abs_i(nzi) && -((SCALE as int - 1) * abs_i(
                nzi,
            )) <= rz * nzi) by (nonlinear_arith)
                requires
                    -(SCALE as int - 1) <= rz <= SCALE as int - 1,
                    -abs_i(nzi) <= nzi <= abs_i(nzi),
                    0 <= abs_i(nzi),
            ;
            assert((SCALE as int) * abs_i(e) == abs_i((SCALE as int) * e)) by (nonlinear_arith)
                requires
                    -abs_i(e) <= e <= abs_i(e),
                    0 <= abs_i(e),
                    abs_i(e) == (if e < 0 { -e } else { e }),
            ;
            assert((SCALE as int - 1) * abs_i(nxi) + (SCALE as int - 1) * abs_i(nyi) + (SCALE
                as int - 1) * abs_i(nzi) <= (SCALE as int) * (abs_i(nxi) + abs_i(nyi) + abs_i(
                nzi,
            ))) by (nonlinear_arith)
                requires
                    0 <= abs_i(nxi),
                    0 <= abs_i(nyi),
                    0 <= abs_i(nzi),
            ;
        }
    }
}

/// A ray parallel to the plane never hits, whatever its origin.
pub proof fn lemma_parallel_ray_misses(pl: Plane, r: Ray, t_min: int, t_max: int)
    requires
        dot(r.direction, pl.normal) == 0,
    ensures
        plane_hit_math(pl, r, t_min, t_max) is None,
{
}

} // verus!
