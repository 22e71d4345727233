//! Finite right cylinder along the vertical axis: quadratic lateral
//! surface plus two cap disks.

use vstd::prelude::*;
use crate::math::{COORD_LIMIT, SCALE, T_LIMIT, abs_i, div_trunc, trunc_div, isqrt, sqrt_floor,
    lemma_mul_bound, lemma_trunc_div_exact};
use crate::vec3::{Point3, Vec3, in_bounds};
use crate::ray::{Ray, ray_at};
use crate::hit::{HitMath, HitRecord, MaterialId, hit_matches, orient_normal, face_normal};

verus! {

/// A cylinder whose base disk has center `center`, extending upward by
/// `height` along the vertical axis, with radius `radius` (both stored
/// non-negative).
pub struct Cylinder {
    pub center: Point3,
    pub radius: i64,
    pub height: i64,
    pub mat: MaterialId,
}

/// A candidate lateral root: committed iff it lies in the interval and
/// the hit point's height offset lies within `[0, height]`. The radial
/// normal is the horizontal offset from the axis divided by the radius;
/// it is committed only when its length is unit within one raw unit
/// (`1e-6`), so a rounding excursion — possible for a grazing root on
/// a fast ray — is declined rather than committed out of tolerance.
pub open spec fn lateral_math(cy: Cylinder, r: Ray, t_min: int, t_max: int, t: int) -> Option<
    HitMath,
> {
    if t < t_min || t > t_max {
        Option::None
    } else {
        let p = ray_at(r, t);
        let hy = p.1 - cy.center.y;
        if hy < 0 || hy > cy.height {
            Option::None
        } else {
            let nx = trunc_div((p.0 - cy.center.x) * SCALE, cy.radius as int);
            let nz = trunc_div((p.2 - cy.center.z) * SCALE, cy.radius as int);
            if nx < -2 * SCALE || nx > 2 * SCALE || nz < -2 * SCALE || nz > 2 * SCALE
                || !crate::vec3::is_unit3_eps(nx, 0, nz) {
                Option::None
            } else {
                let o = orient_normal(
                    r.direction.x as int,
                    r.direction.y as int,
                    r.direction.z as int,
                    nx,
                    0,
                    nz,
                );
                Option::Some(
                    HitMath {
                        t,
                        px: p.0,
                        py: p.1,
                        pz: p.2,
                        nx: o.0,
                        ny: o.1,
                        nz: o.2,
                        front_face: o.3,
                    },
                )
            }
        }
    }
}

/// A cap plane crossing qualifies iff its parameter lies in the
/// interval and the hit point lies within the cap disk.
pub open spec fn cap_ok_spec(cy: Cylinder, r: Ray, t_min: int, t_max: int, t: int) -> bool {
    t_min <= t <= t_max && {
        let p = ray_at(r, t);
        (p.0 - cy.center.x) * (p.0 - cy.center.x) + (p.2 - cy.center.z) * (p.2 - cy.center.z)
            <= (cy.radius as int) * (cy.radius as int)
    }
}

/// The hit committed on a cap: outward normal straight up for the top
/// disk, straight down for the bottom disk, oriented against the ray.
pub open spec fn cap_hit_math(cy: Cylinder, r: Ray, t: int, top: bool) -> HitMath {
    let p = ray_at(r, t);
    let s = if top {
        SCALE as int
    } else {
        -SCALE as int
    };
    let o = orient_normal(r.direction.x as int, r.direction.y as int, r.direction.z as int, 0, s,
        0);
    HitMath { t, px: p.0, py: p.1, pz: p.2, nx: o.0, ny: o.1, nz: o.2, front_face: o.3 }
}

/// Cap testing: a ray vertical-parallel (zero vertical direction at
/// this resolution) misses both caps; otherwise the two cap-plane
/// crossings are solved and the nearer qualifying one is committed
/// (the bottom disk on an exact tie).
pub open spec fn caps_math(cy: Cylinder, r: Ray, t_min: int, t_max: int) -> Option<HitMath> {
    let dy = r.direction.y as int;
    if dy == 0 {
        Option::None
    } else {
        let tb = trunc_div((cy.center.y - r.origin.y) * SCALE, dy);
        let tt = trunc_div((cy.center.y + cy.height - r.origin.y) * SCALE, dy);
        let bok = cap_ok_spec(cy, r, t_min, t_max, tb);
        let tok = cap_ok_spec(cy, r, t_min, t_max, tt);
        if bok && tok {
            if tt < tb {
                Option::Some(cap_hit_math(cy, r, tt, true))
            } else {
                Option::Some(cap_hit_math(cy, r, tb, false))
            }
        } else if bok {
            Option::Some(cap_hit_math(cy, r, tb, false))
        } else if tok {
            Option::Some(cap_hit_math(cy, r, tt, true))
        } else {
            Option::None
        }
    }
}

/// Spec-level mirror of the cylinder intersection test.
///
/// The lateral quadratic (in the two horizontal coordinates) is solved
/// only when it is non-degenerate: a ray parallel to the axis
/// (`a == 0`), a zero radius, or a negative discriminant all fall
/// through to cap testing. The smaller root is tried first, then the
/// larger, then the caps.
pub open spec fn cylinder_hit_math(cy: Cylinder, r: Ray, t_min: int, t_max: int) -> Option<
    HitMath,
> {
    let ocx = r.origin.x - cy.center.x;
    let ocz = r.origin.z - cy.center.z;
    let dx = r.direction.x as int;
    let dz = r.direction.z as int;
    let a2 = dx * dx + dz * dz;
    let b2 = 2 * (ocx * dx + ocz * dz);
    let c2 = ocx * ocx + ocz * ocz - (cy.radius as int) * (cy.radius as int);
    let disc = b2 * b2 - 4 * (a2 * c2);
    if a2 > 0 && cy.radius > 0 && disc >= 0 {
        let s = sqrt_floor(disc);
        let tlo = trunc_div((-b2 - s) * SCALE, 2 * a2);
        let thi = trunc_div((-b2 + s) * SCALE, 2 * a2);
        match lateral_math(cy, r, t_min, t_max, tlo) {
            Option::Some(h) => Option::Some(h),
            Option::None => match lateral_math(cy, r, t_min, t_max, thi) {
                Option::Some(h) => Option::Some(h),
                Option::None => caps_math(cy, r, t_min, t_max),
            },
        }
    } else {
        caps_math(cy, r, t_min, t_max)
    }
}

impl Cylinder {
    /// Center in bounds, radius and height non-negative and in bounds.
    pub open spec fn wf(self) -> bool {
        &&& in_bounds(self.center)
        &&& 0 <= self.radius <= COORD_LIMIT
        &&& 0 <= self.height <= COORD_LIMIT
    }

    /// Cylinder with base at `center`, extending upward.
    ///
    /// Radius and height are stored as magnitudes of the given values.
    pub fn new(center: Point3, radius: i64, height: i64, mat: MaterialId) -> (cy: Cylinder)
        requires
            in_bounds(center),
            -COORD_LIMIT <= radius <= COORD_LIMIT,
            -COORD_LIMIT <= height <= COORD_LIMIT,
        ensures
            cy.center == center,
            cy.mat == mat,
            cy.radius == abs_i(radius as int),
            cy.height == abs_i(height as int),
            cy.wf(),
    {
        let rad = if radius < 0 {
            -radius
        } else {
            radius
        };
        let h = if height < 0 {
            -height
        } else {
            height
        };
        Cylinder { center, radius: rad, height: h, mat }
    }

    /// Intersect the ray with the cylinder over `[t_min, t_max]`.
    ///
    /// The result is pinned to `cylinder_hit_math`: the nearer lateral
    /// root is tried first, the farther as fallback, and the cap disks
    /// after that; the degenerate axis-parallel quadratic is guarded
    /// and falls through to the caps.
    pub fn hit(&self, r: &Ray, t_min: i64, t_max: i64) -> (res: Option<HitRecord>)
        requires
            self.wf(),
            r.wf(),
            -T_LIMIT <= t_min <= t_max <= T_LIMIT,
        ensures
            hit_matches(res, cylinder_hit_math(*self, *r, t_min as int, t_max as int), self.mat),
    {
        let ocx = r.origin.x - self.center.x;
        let ocz = r.origin.z - self.center.z;
        let dx = r.direction.x;
        let dz = r.direction.z;
        proof {
            crate::math::lemma_square_bound(dx as int, COORD_LIMIT as int);
            crate::math::lemma_square_bound(dz as int, COORD_LIMIT as int);
            lemma_mul_bound(ocx as int, dx as int, 2_000_000_000int, COORD_LIMIT as int);
            lemma_mul_bound(ocz as int, dz as int, 2_000_000_000int, COORD_LIMIT as int);
            crate::math::lemma_square_bound(ocx as int, 2_000_000_000int);
            crate::math::lemma_square_bound(ocz as int, 2_000_000_000int);
            crate::math::lemma_square_bound(self.radius as int, COORD_LIMIT as int);
        }
        let a2: i128 = (dx as i128) * (dx as i128) + (dz as i128) * (dz as i128);
        let b2: i128 = 2 * ((ocx as i128) * (dx as i128) + (ocz as i128) * (dz as i128));
        let c2: i128 = (ocx as i128) * (ocx as i128) + (ocz as i128) * (ocz as i128) - (self.radius
            as i128) * (self.radius as i128);
        proof {
            crate::math::lemma_square_bound(b2 as int, 8_000_000_000_000_000_000int);
            lemma_mul_bound(a2 as int, c2 as int, 2_000_000_000_000_000_000int,
                8_000_000_000_000_000_000int);
        }
        let disc: i128 = b2 * b2 - 4 * (a2 * c2);
        if a2 > 0 && self.radius > 0 && disc >= 0 {
            let s: i128 = isqrt(disc as u128) as i128;
            proof {
                assert(disc as u128 as int == disc as int);
                assert(s as int == sqrt_floor(disc as int));
                assert(s <= 12_000_000_000_000_000_000i128) by (nonlinear_arith)
                    requires
                        0 <= s,
                        (s as int) * (s as int) <= 130_000_000_000_000_000_000_000_000_000_000_000_000int,
                ;
                lemma_mul_bound((-b2 - s) as int, SCALE as int, 20_000_000_000_000_000_000int,
                    SCALE as int);
                lemma_mul_bound((-b2 + s) as int, SCALE as int, 20_000_000_000_000_000_000int,
                    SCALE as int);
            }
            let tlo = div_trunc((-b2 - s) * (SCALE as i128), 2 * a2);
            match self.lateral_exec(r, t_min, t_max, tlo) {
                Option::Some(h) => { return Option::Some(h); },
                Option::None => {},
            }
            let thi = div_trunc((-b2 + s) * (SCALE as i128), 2 * a2);
            match self.lateral_exec(r, t_min, t_max, thi) {
                Option::Some(h) => { return Option::Some(h); },
                Option::None => {},
            }
            self.caps_exec(r, t_min, t_max)
        } else {
            self.caps_exec(r, t_min, t_max)
        }
    }

    /// Try one lateral root.
    fn lateral_exec(&self, r: &Ray, t_min: i64, t_max: i64, tq: i128) -> (res: Option<HitRecord>)
        requires
            self.wf(),
            r.wf(),
            self.radius > 0,
            -T_LIMIT <= t_min <= t_max <= T_LIMIT,
        ensures
            hit_matches(res, lateral_math(*self, *r, t_min as int, t_max as int, tq as int),
                self.mat),
    {
        if tq < t_min as i128 || tq > t_max as i128 {
            return Option::None;
        }
        let t = tq as i64;
        let p = r.at(t);
        let hy = p.y - self.center.y;
        if hy < 0 || hy > self.height {
            return Option::None;
        }
        proof {
            lemma_mul_bound((p.x - self.center.x) as int, SCALE as int,
                3_000_000_000_000_000int, SCALE as int);
            lemma_mul_bound((p.z - self.center.z) as int, SCALE as int,
                3_000_000_000_000_000int, SCALE as int);
        }
        let nxw: i128 = div_trunc(((p.x - self.center.x) as i128) * (SCALE as i128), self.radius
            as i128);
        let nzw: i128 = div_trunc(((p.z - self.center.z) as i128) * (SCALE as i128), self.radius
            as i128);
        let lim: i128 = 2 * (SCALE as i128);
        if nxw < -lim || nxw > lim || nzw < -lim || nzw > lim {
            return Option::None;
        }
        proof {
            crate::math::lemma_square_bound(nxw as int, 2_000_000int);
            crate::math::lemma_square_bound(nzw as int, 2_000_000int);
            assert((SCALE as int - 1) * (SCALE as int - 1) == 999_998_000_001int)
                by (nonlinear_arith);
            assert((SCALE as int + 1) * (SCALE as int + 1) == 1_000_002_000_001int)
                by (nonlinear_arith);
        }
        let nrm: i128 = nxw * nxw + nzw * nzw;
        if nrm < 999_998_000_001 || nrm > 1_000_002_000_001 {
            return Option::None;
        }
        let outward = Vec3 { x: nxw as i64, y: 0, z: nzw as i64 };
        let (n, ff) = face_normal(&r.direction, &outward);
        Option::Some(HitRecord { t, p, normal: n, front_face: ff, mat: self.mat })
    }

    /// Test the two cap disks and commit the nearer qualifying one.
    fn caps_exec(&self, r: &Ray, t_min: i64, t_max: i64) -> (res: Option<HitRecord>)
        requires
            self.wf(),
            r.wf(),
            -T_LIMIT <= t_min <= t_max <= T_LIMIT,
        ensures
            hit_matches(res, caps_math(*self, *r, t_min as int, t_max as int), self.mat),
    {
        let dy = r.direction.y;
        if dy == 0 {
            return Option::None;
        }
        proof {
            lemma_mul_bound((self.center.y - r.origin.y) as int, SCALE as int, 2_000_000_000int,
                SCALE as int);
            lemma_mul_bound((self.center.y + self.height - r.origin.y) as int, SCALE as int,
                3_000_000_000int, SCALE as int);
        }
        let nb: i128 = ((self.center.y - r.origin.y) as i128) * (SCALE as i128);
        let nt: i128 = ((self.center.y + self.height - r.origin.y) as i128) * (SCALE as i128);
        let tb = div_trunc(nb, dy as i128);
        let tt = div_trunc(nt, dy as i128);
        let bok = self.cap_ok(r, t_min, t_max, tb);
        let tok = self.cap_ok(r, t_min, t_max, tt);
        if bok && tok {
            if tt < tb {
                Option::Some(self.cap_commit(r, tt as i64, true))
            } else {
                Option::Some(self.cap_commit(r, tb as i64, false))
            }
        } else if bok {
            Option::Some(self.cap_commit(r, tb as i64, false))
        } else if tok {
            Option::Some(self.cap_commit(r, tt as i64, true))
        } else {
            Option::None
        }
    }

    /// Whether one cap-plane crossing qualifies.
    fn cap_ok(&self, r: &Ray, t_min: i64, t_max: i64, tq: i128) -> (b: bool)
        requires
            self.wf(),
            r.wf(),
            -T_LIMIT <= t_min <= t_max <= T_LIMIT,
        ensures
            b == cap_ok_spec(*self, *r, t_min as int, t_max as int, tq as int),
    {
        if tq < t_min as i128 || tq > t_max as i128 {
            return false;
        }
        let t = tq as i64;
        let p = r.at(t);
        let ddx = p.x - self.center.x;
        let ddz = p.z - self.center.z;
        proof {
            lemma_mul_bound(ddx as int, ddx as int, 3_000_000_000_000_000int,
                3_000_000_000_000_000int);
            lemma_mul_bound(ddz as int, ddz as int, 3_000_000_000_000_000int,
                3_000_000_000_000_000int);
            lemma_mul_bound(self.radius as int, self.radius as int, COORD_LIMIT as int,
                COORD_LIMIT as int);
        }
        let dist2: i128 = (ddx as i128) * (ddx as i128) + (ddz as i128) * (ddz as i128);
        dist2 <= (self.radius as i128) * (self.radius as i128)
    }

    /// Commit a qualifying cap hit.
    fn cap_commit(&self, r: &Ray, t: i64, top: bool) -> (h: HitRecord)
        requires
            self.wf(),
            r.wf(),
            -T_LIMIT <= t <= T_LIMIT,
        ensures
            ({
                let hm = cap_hit_math(*self, *r, t as int, top);
                h.t == hm.t && h.p.x == hm.px && h.p.y == hm.py && h.p.z == hm.pz && h.normal.x
                    == hm.nx && h.normal.y == hm.ny && h.normal.z == hm.nz && h.front_face
                    == hm.front_face && h.mat == self.mat
            }),
    {
        let p = r.at(t);
        let sgn: i64 = if top {
            SCALE
        } else {
            -SCALE
        };
        let outward = Vec3 { x: 0, y: sgn, z: 0 };
        let (n, ff) = face_normal(&r.direction, &outward);
        HitRecord { t, p, normal: n, front_face: ff, mat: self.mat }
    }
}

/// Every committed lateral hit lies in the interval, on the ray, with
/// a radial (vertical-component-zero) normal opposing the ray, unit
/// within one raw unit.
proof fn lemma_lateral_valid(cy: Cylinder, r: Ray, t_min: int, t_max: int, t: int)
    ensures
        match lateral_math(cy, r, t_min, t_max, t) {
            Option::Some(h) => t_min <= h.t <= t_max && h.px == ray_at(r, h.t).0 && h.py == ray_at(
                r,
                h.t,
            ).1 && h.pz == ray_at(r, h.t).2 && crate::vec3::dot3(
                r.direction.x as int,
                r.direction.y as int,
                r.direction.z as int,
                h.nx,
                h.ny,
                h.nz,
            ) <= 0 && h.ny == 0 && crate::vec3::is_unit3_eps(h.nx, h.ny, h.nz),
            Option::None => true,
        },
{
    if t < t_min || t > t_max {
    } else {
        let p = ray_at(r, t);
        let hy = p.1 - cy.center.y;
        if hy < 0 || hy > cy.height {
        } else {
            let nx = trunc_div((p.0 - cy.center.x) * SCALE, cy.radius as int);
            let nz = trunc_div((p.2 - cy.center.z) * SCALE, cy.radius as int);
            if nx < -2 * SCALE || nx > 2 * SCALE || nz < -2 * SCALE || nz > 2 * SCALE
                || !crate::vec3::is_unit3_eps(nx, 0, nz) {
            } else {
                crate::hit::lemma_orient_opposes(
                    r.direction.x as int,
                    r.direction.y as int,
                    r.direction.z as int,
                    nx,
                    0,
                    nz,
                );
                crate::hit::lemma_orient_preserves_norm(
                    r.direction.x as int,
                    r.direction.y as int,
                    r.direction.z as int,
                    nx,
                    0,
                    nz,
                );
            }
        }
    }
}

/// Every committed cap hit lies in the interval, on the ray, with an
/// exactly unit vertical normal opposing the ray.
proof fn lemma_caps_valid(cy: Cylinder, r: Ray, t_min: int, t_max: int)
    ensures
        match caps_math(cy, r, t_min, t_max) {
            Option::Some(h) => t_min <= h.t <= t_max && h.px == ray_at(r, h.t).0 && h.py == ray_at(
                r,
                h.t,
            ).1 && h.pz == ray_at(r, h.t).2 && crate::vec3::dot3(
                r.direction.x as int,
                r.direction.y as int,
                r.direction.z as int,
                h.nx,
                h.ny,
                h.nz,
            ) <= 0 && crate::vec3::is_unit3(h.nx, h.ny, h.nz) && crate::vec3::is_unit3_eps(
                h.nx,
                h.ny,
                h.nz,
            ),
            Option::None => true,
        },
{
    let dy = r.direction.y as int;
    if dy == 0 {
    } else {
        let tb = trunc_div((cy.center.y - r.origin.y) * SCALE, dy);
        let tt = trunc_div((cy.center.y + cy.height - r.origin.y) * SCALE, dy);
        crate::hit::lemma_orient_opposes(
            r.direction.x as int,
            r.direction.y as int,
            r.direction.z as int,
            0,
            SCALE as int,
            0,
        );
        crate::hit::lemma_orient_opposes(
            r.direction.x as int,
            r.direction.y as int,
            r.direction.z as int,
            0,
            -SCALE as int,
            0,
        );
        crate::hit::lemma_orient_unit(
            r.direction.x as int,
            r.direction.y as int,
            r.direction.z as int,
            0,
            SCALE as int,
            0,
        );
        crate::hit::lemma_orient_unit(
            r.direction.x as int,
            r.direction.y as int,
            r.direction.z as int,
            0,
            -SCALE as int,
            0,
        );
        let ot = orient_normal(r.direction.x as int, r.direction.y as int, r.direction.z as int,
            0, SCALE as int, 0);
        let ob = orient_normal(r.direction.x as int, r.direction.y as int, r.direction.z as int,
            0, -SCALE as int, 0);
        crate::vec3::lemma_unit_eps_of_exact(ot.0, ot.1, ot.2);
        crate::vec3::lemma_unit_eps_of_exact(ob.0, ob.1, ob.2);
    }
}

/// Every committed cylinder hit lies in the interval, on the ray, and
/// its normal opposes the ray with unit length within one raw unit;
/// cap normals are exactly unit, lateral normals are radial with
/// vertical component zero.
pub proof fn lemma_cylinder_hit_valid(cy: Cylinder, r: Ray, t_min: int, t_max: int)
    ensures
        match cylinder_hit_math(cy, r, t_min, t_max) {
            Option::Some(h) => t_min <= h.t <= t_max && h.px == ray_at(r, h.t).0 && h.py == ray_at(
                r,
                h.t,
            ).1 && h.pz == ray_at(r, h.t).2 && crate::vec3::dot3(
                r.direction.x as int,
                r.direction.y as int,
                r.direction.z as int,
                h.nx,
                h.ny,
                h.nz,
            ) <= 0 && crate::vec3::is_unit3_eps(h.nx, h.ny, h.nz) && (crate::vec3::is_unit3(
                h.nx,
                h.ny,
                h.nz,
            ) || h.ny == 0),
            Option::None => true,
        },
{
    let ocx = r.origin.x - cy.center.x;
    let ocz = r.origin.z - cy.center.z;
    let dx = r.direction.x as int;
    let dz = r.direction.z as int;
    let a2 = dx * dx + dz * dz;
    let b2 = 2 * (ocx * dx + ocz * dz);
    let c2 = ocx * ocx + ocz * ocz - (cy.radius as int) * (cy.radius as int);
    let disc = b2 * b2 - 4 * (a2 * c2);
    if a2 > 0 && cy.radius > 0 && disc >= 0 {
        let s = sqrt_floor(disc);
        let tlo = trunc_div((-b2 - s) * SCALE, 2 * a2);
        let thi = trunc_div((-b2 + s) * SCALE, 2 * a2);
        lemma_lateral_valid(cy, r, t_min, t_max, tlo);
        lemma_lateral_valid(cy, r, t_min, t_max, thi);
        lemma_caps_valid(cy, r, t_min, t_max);
    } else {
        lemma_caps_valid(cy, r, t_min, t_max);
    }
}

/// A committed lateral hit lies on the cylinder's surface within three
/// raw units relative to the radius: the horizontal distance `D` from
/// the axis satisfies `(SCALE - 3)^2 * r^2 <= SCALE^2 * D^2
/// <= (SCALE + 3)^2 * r^2` (the literals below are those squares), a
/// relative deviation under `3e-6`. This follows from the commit guard
/// on the radial normal's length together with the division remainders.
pub proof fn lemma_lateral_hit_on_surface(cy: Cylinder, r: Ray, t_min: int, t_max: int, t: int)
    requires
        cy.radius > 0,
    ensures
        match lateral_math(cy, r, t_min, t_max, t) {
            Option::Some(h) => ({
                let ux = h.px - cy.center.x;
                let uz = h.pz - cy.center.z;
                let rr = cy.radius as int;
                999_994_000_009 * (rr * rr) <= 1_000_000_000_000 * (ux * ux + uz * uz)
                    <= 1_000_006_000_009 * (rr * rr)
            }),
            Option::None => true,
        },
{
    if t < t_min || t > t_max {
    } else {
        let p = ray_at(r, t);
        let hy = p.1 - cy.center.y;
        if hy < 0 || hy > cy.height {
        } else {
            let rr = cy.radius as int;
            let ux = p.0 - cy.center.x;
            let uz = p.2 - cy.center.z;
            let nx = trunc_div(ux * SCALE, rr);
            let nz = trunc_div(uz * SCALE, rr);
            if nx < -2 * SCALE || nx > 2 * SCALE || nz < -2 * SCALE || nz > 2 * SCALE
                || !crate::vec3::is_unit3_eps(nx, 0, nz) {
            } else {
                crate::math::lemma_trunc_div_rem(ux * SCALE, rr);
                crate::math::lemma_trunc_div_rem(uz * SCALE, rr);
                let ex = nx * rr - ux * SCALE;
                let ez = nz * rr - uz * SCALE;
                let g = nx * nx + nz * nz;
                let cross = nx * ex + nz * ez;
                let anx = abs_i(nx);
                let anz = abs_i(nz);
                assert(1_000_000_000_000 * (ux * ux) == (nx * nx) * (rr * rr) - 2 * (rr * (nx
                    * ex)) + ex * ex) by (nonlinear_arith)
                    requires
                        ex == nx * rr - ux * 1_000_000,
                ;
                assert(1_000_000_000_000 * (uz * uz) == (nz * nz) * (rr * rr) - 2 * (rr * (nz
                    * ez)) + ez * ez) by (nonlinear_arith)
                    requires
                        ez == nz * rr - uz * 1_000_000,
                ;
                assert((nx * nx) * (rr * rr) + (nz * nz) * (rr * rr) == g * (rr * rr))
                    by (nonlinear_arith)
                    requires
                        g == nx * nx + nz * nz,
                ;
                assert((anx + anz) * (anx + anz) <= 2 * g) by (nonlinear_arith)
                    requires
                        g == nx * nx + nz * nz,
                        anx == abs_i(nx),
                        anz == abs_i(nz),
                ;
                assert(2 * (anx + anz) <= 3_000_003) by (nonlinear_arith)
                    requires
                        0 <= anx + anz,
                        (anx + anz) * (anx + anz) <= 2 * g,
                        g <= 1_000_002_000_001,
                ;
                assert(-((anx + anz) * (rr - 1)) <= cross <= (anx + anz) * (rr - 1))
                    by (nonlinear_arith)
                    requires
                        cross == nx * ex + nz * ez,
                        -anx <= nx <= anx,
                        -anz <= nz <= anz,
                        -(rr - 1) <= ex <= rr - 1,
                        -(rr - 1) <= ez <= rr - 1,
                        0 <= anx,
                        0 <= anz,
                ;
                assert(-(3_000_003 * (rr * rr)) <= 2 * (rr * cross) <= 3_000_003 * (rr * rr))
                    by (nonlinear_arith)
                    requires
                        -((anx + anz) * (rr - 1)) <= cross <= (anx + anz) * (rr - 1),
                        2 * (anx + anz) <= 3_000_003,
                        0 <= anx + anz,
                        1 <= rr,
                ;
                assert(0 <= ex * ex <= rr * rr && 0 <= ez * ez <= rr * rr) by (nonlinear_arith)
                    requires
                        -(rr - 1) <= ex <= rr - 1,
                        -(rr - 1) <= ez <= rr - 1,
                        1 <= rr,
                ;
                assert(999_998_000_001 * (rr * rr) <= g * (rr * rr) <= 1_000_002_000_001 * (rr
                    * rr)) by (nonlinear_arith)
                    requires
                        999_998_000_001 <= g <= 1_000_002_000_001,
                        1 <= rr,
                ;
                assert(2 * (rr * (nx * ex)) + 2 * (rr * (nz * ez)) == 2 * (rr * cross))
                    by (nonlinear_arith)
                    requires
                        cross == nx * ex + nz * ez,
                ;
            }
        }
    }
}

/// The lateral candidates are tried nearest first: the root built from
/// `-sqrt` never exceeds the root built from `+sqrt`.
pub proof fn lemma_lateral_roots_ordered(b2: int, s: int, a2: int)
    requires
        a2 > 0,
        s >= 0,
    ensures
        trunc_div((-b2 - s) * SCALE, 2 * a2) <= trunc_div((-b2 + s) * SCALE, 2 * a2),
{
    crate::math::lemma_trunc_div_monotone((-b2 - s) * SCALE, (-b2 + s) * SCALE, 2 * a2);
}

/// A vertical ray dropped from above the cylinder through the top disk
/// hits the cap plane `y = center.y + height` with stored normal
/// straight up, at the cap's own parameter.
pub proof fn lemma_cylinder_vertical_top_cap(cy: Cylinder, r: Ray, t_min: int, t_max: int)
    requires
        cy.wf(),
        r.direction.x == 0,
        r.direction.y == -SCALE,
        r.direction.z == 0,
        r.origin.y > cy.center.y + cy.height,
        (r.origin.x - cy.center.x) * (r.origin.x - cy.center.x) + (r.origin.z - cy.center.z) * (
        r.origin.z - cy.center.z) <= (cy.radius as int) * (cy.radius as int),
        t_min <= r.origin.y - cy.center.y - cy.height <= t_max,
    ensures
        match cylinder_hit_math(cy, r, t_min, t_max) {
            Option::Some(h) => h.t == r.origin.y - cy.center.y - cy.height && h.px == r.origin.x
                && h.py == cy.center.y + cy.height && h.pz == r.origin.z && h.nx == 0 && h.ny
                == SCALE && h.nz == 0,
            Option::None => false,
        },
{
    let oy = r.origin.y as int;
    let cyy = cy.center.y as int;
    let h = cy.height as int;
    let dy = r.direction.y as int;
    // The two cap-plane crossings are exact: the divisions cancel.
    assert((cyy - oy) * SCALE == -((oy - cyy) * SCALE));
    assert((cyy + h - oy) * SCALE == -((oy - cyy - h) * SCALE));
    lemma_trunc_div_exact(oy - cyy, SCALE as int);
    lemma_trunc_div_exact(oy - cyy - h, SCALE as int);
    let tb = trunc_div((cyy - oy) * SCALE, dy);
    let tt = trunc_div((cyy + h - oy) * SCALE, dy);
    assert(abs_i((cyy - oy) * SCALE) == abs_i((oy - cyy) * SCALE));
    assert(abs_i((cyy + h - oy) * SCALE) == abs_i((oy - cyy - h) * SCALE));
    assert(tb == oy - cyy);
    assert(tt == oy - cyy - h);
    // Along a vertical ray the horizontal coordinates never move.
    assert(trunc_div(tt * 0, SCALE as int) == 0) by {
        assert(tt * 0 == 0) by (nonlinear_arith);
        assert(abs_i(0int) / abs_i(SCALE as int) == 0) by {
            vstd::arithmetic::div_mod::lemma_div_of0(SCALE as int);
        }
    }
    assert(trunc_div(tb * 0, SCALE as int) == 0) by {
        assert(tb * 0 == 0) by (nonlinear_arith);
        assert(abs_i(0int) / abs_i(SCALE as int) == 0) by {
            vstd::arithmetic::div_mod::lemma_div_of0(SCALE as int);
        }
    }
    // And the vertical coordinate moves by exactly the parameter.
    assert(tt * dy == -(tt * SCALE)) by (nonlinear_arith)
        requires
            dy == -SCALE,
    ;
    assert(tb * dy == -(tb * SCALE)) by (nonlinear_arith)
        requires
            dy == -SCALE,
    ;
    lemma_trunc_div_exact(tt, SCALE as int);
    lemma_trunc_div_exact(tb, SCALE as int);
    assert(abs_i(tt * dy) == abs_i(tt * SCALE));
    assert(abs_i(tb * dy) == abs_i(tb * SCALE));
    assert(trunc_div(tt * dy, SCALE as int) == -tt);
    assert(trunc_div(tb * dy, SCALE as int) == -tb);
    assert(ray_at(r, tt).1 == cyy + h);
    assert(ray_at(r, tb).1 == cyy);
    assert(cap_ok_spec(cy, r, t_min, t_max, tt));
}

} // verus!
