//! Axis-aligned box: slab-method intersection.

use vstd::prelude::*;
use crate::math::{COORD_LIMIT, SCALE, T_LIMIT, div_trunc, trunc_div, lemma_trunc_div_bound,
    lemma_trunc_div_sign};
use crate::vec3::{Point3, Vec3, in_bounds};
use crate::ray::{Ray, ray_at};
use crate::hit::{HitMath, HitRecord, MaterialId, hit_matches, orient_normal, face_normal};

verus! {

/// Bound on the running slab parameters: a slab crossing is at most
/// `2 * COORD_LIMIT * SCALE` raw units, and the interval bounds are
/// smaller still.
pub const SLAB_T_LIMIT: i128 = 2_000_000_000_000_000;

/// An axis-aligned box between two opposite corners.
///
/// The corner ordering `min.x <= max.x` (and likewise per axis) is the
/// caller's responsibility; it is assumed, not enforced, just as the
/// slab test itself assumes it.
pub struct Cube {
    pub min: Point3,
    pub max: Point3,
    pub mat: MaterialId,
}

/// Running state of the slab walk: the entry and exit parameters so
/// far, and which axis (with its direction sign) set the entry.
pub ghost struct SlabMath {
    pub t_enter: int,
    pub t_exit: int,
    pub axis: int,
    pub entering: bool,
}

/// One axis of the slab method.
///
/// A direction component of zero raw units is parallel to the slab pair
/// (the `1e-8` tolerance lies below the fixed-point resolution): the
/// ray passes iff its origin already lies within the slab. Otherwise
/// the two crossing parameters shrink the running interval, and the
/// axis remembers whether it set the entry point.
pub open spec fn slab_step(min_v: int, max_v: int, o_v: int, d_v: int, st: SlabMath, axis: int)
    -> Option<SlabMath> {
    if d_v == 0 {
        if o_v < min_v || o_v > max_v {
            Option::None
        } else {
            Option::Some(st)
        }
    } else {
        let t1 = trunc_div((min_v - o_v) * SCALE, d_v);
        let t2 = trunc_div((max_v - o_v) * SCALE, d_v);
        let t_near = if t1 < t2 { t1 } else { t2 };
        let t_far = if t1 < t2 { t2 } else { t1 };
        let upd = t_near > st.t_enter;
        let te = if upd { t_near } else { st.t_enter };
        let ax = if upd { axis } else { st.axis };
        let en = if upd { d_v < 0 } else { st.entering };
        let tx = if t_far < st.t_exit { t_far } else { st.t_exit };
        if te >= tx {
            Option::None
        } else {
            Option::Some(SlabMath { t_enter: te, t_exit: tx, axis: ax, entering: en })
        }
    }
}

/// Outward face normal of the axis that set the entry point: it points
/// toward the side the ray came in from.
pub open spec fn axis_outward(axis: int, entering: bool) -> (int, int, int) {
    let s = if entering { -SCALE as int } else { SCALE as int };
    if axis == 0 {
        (s, 0, 0)
    } else if axis == 1 {
        (0, s, 0)
    } else {
        (0, 0, s)
    }
}

/// Spec-level mirror of the slab intersection test.
pub open spec fn cube_hit_math(c: Cube, r: Ray, t_min: int, t_max: int) -> Option<HitMath> {
    let st0 = SlabMath { t_enter: t_min, t_exit: t_max, axis: 0, entering: true };
    match slab_step(c.min.x as int, c.max.x as int, r.origin.x as int, r.direction.x as int, st0,
        0) {
        Option::None => Option::None,
        Option::Some(s1) => match slab_step(c.min.y as int, c.max.y as int, r.origin.y as int,
            r.direction.y as int, s1, 1) {
            Option::None => Option::None,
            Option::Some(s2) => match slab_step(c.min.z as int, c.max.z as int, r.origin.z as int,
                r.direction.z as int, s2, 2) {
                Option::None => Option::None,
                Option::Some(s3) => {
                    if s3.t_enter < t_min || s3.t_enter > t_max {
                        Option::None
                    } else {
                        let nrm = axis_outward(s3.axis, s3.entering);
                        let o = orient_normal(
                            r.direction.x as int,
                            r.direction.y as int,
                            r.direction.z as int,
                            nrm.0,
                            nrm.1,
                            nrm.2,
                        );
                        let p = ray_at(r, s3.t_enter);
                        Option::Some(
                            HitMath {
                                t: s3.t_enter,
                                px: p.0,
                                py: p.1,
                                pz: p.2,
                                nx: o.0,
                                ny: o.1,
                                nz: o.2,
                                front_face: o.3,
                            },
                        )
                    }
                },
            },
        },
    }
}

/// Executable slab state; agrees with a `SlabMath` value.
struct SlabState {
    t_enter: i128,
    t_exit: i128,
    axis: u8,
    entering: bool,
}

impl SlabState {
    spec fn view_math(self) -> SlabMath {
        SlabMath {
            t_enter: self.t_enter as int,
            t_exit: self.t_exit as int,
            axis: self.axis as int,
            entering: self.entering,
        }
    }

    spec fn bounded(self) -> bool {
        &&& -SLAB_T_LIMIT <= self.t_enter <= SLAB_T_LIMIT
        &&& -SLAB_T_LIMIT <= self.t_exit <= SLAB_T_LIMIT
        &&& self.axis <= 2
    }
}

/// One executable axis of the slab walk.
fn slab_exec(min_v: i64, max_v: i64, o_v: i64, d_v: i64, st: SlabState, axis: u8) -> (res: Option<
    SlabState,
>)
    requires
        -COORD_LIMIT <= min_v <= COORD_LIMIT,
        -COORD_LIMIT <= max_v <= COORD_LIMIT,
        -COORD_LIMIT <= o_v <= COORD_LIMIT,
        -COORD_LIMIT <= d_v <= COORD_LIMIT,
        st.bounded(),
        axis <= 2,
    ensures
        ({
            let m = slab_step(min_v as int, max_v as int, o_v as int, d_v as int, st.view_math(),
                axis as int);
            match (res, m) {
                (Option::Some(s), Option::Some(sm)) => s.view_math() == sm && s.bounded(),
                (Option::None, Option::None) => true,
                _ => false,
            }
        }),
{
    if d_v == 0 {
        if o_v < min_v || o_v > max_v {
            Option::None
        } else {
            Option::Some(st)
        }
    } else {
        proof {
            crate::math::lemma_mul_bound(min_v - o_v, SCALE as int, 2_000_000_000int,
                SCALE as int);
            crate::math::lemma_mul_bound(max_v - o_v, SCALE as int, 2_000_000_000int,
                SCALE as int);
        }
        let n1: i128 = ((min_v - o_v) as i128) * (SCALE as i128);
        let n2: i128 = ((max_v - o_v) as i128) * (SCALE as i128);
        proof {
            lemma_trunc_div_bound(n1 as int, d_v as int, SLAB_T_LIMIT as int);
            lemma_trunc_div_bound(n2 as int, d_v as int, SLAB_T_LIMIT as int);
            assert(SLAB_T_LIMIT * 1 <= SLAB_T_LIMIT * crate::math::abs_i(d_v as int))
                by (nonlinear_arith)
                requires
                    1 <= crate::math::abs_i(d_v as int),
            ;
        }
        let t1 = div_trunc(n1, d_v as i128);
        let t2 = div_trunc(n2, d_v as i128);
        let (t_near, t_far) = if t1 < t2 {
            (t1, t2)
        } else {
            (t2, t1)
        };
        let upd = t_near > st.t_enter;
        let te = if upd { t_near } else { st.t_enter };
        let ax = if upd { axis } else { st.axis };
        let en = if upd { d_v < 0 } else { st.entering };
        let tx = if t_far < st.t_exit { t_far } else { st.t_exit };
        if te >= tx {
            Option::None
        } else {
            Option::Some(SlabState { t_enter: te, t_exit: tx, axis: ax, entering: en })
        }
    }
}

impl Cube {
    /// Corners and interval bounds within the accepted scene bounds.
    pub open spec fn wf(self) -> bool {
        in_bounds(self.min) && in_bounds(self.max)
    }

    /// Box defined by two opposite corners.
    pub fn new(min: Point3, max: Point3, mat: MaterialId) -> (c: Cube)
        requires
            in_bounds(min),
            in_bounds(max),
        ensures
            c == (Cube { min, max, mat }),
            c.wf(),
    {
        Cube { min, max, mat }
    }

    /// Intersect the ray with the box over `[t_min, t_max]`.
    ///
    /// The result is pinned to `cube_hit_math`: the slabs of the three
    /// axes shrink the parameter interval, a ray parallel to a slab
    /// pair passes only if its origin lies within it, and the final
    /// entry parameter is committed iff it stayed inside the interval.
    /// The face normal is the unit vector of the axis that set the
    /// entry point, oriented against the ray.
    pub fn hit(&self, r: &Ray, t_min: i64, t_max: i64) -> (res: Option<HitRecord>)
        requires
            self.wf(),
            r.wf(),
            -T_LIMIT <= t_min <= t_max <= T_LIMIT,
        ensures
            hit_matches(res, cube_hit_math(*self, *r, t_min as int, t_max as int), self.mat),
    {
        let st0 = SlabState { t_enter: t_min as i128, t_exit: t_max as i128, axis: 0,
            entering: true };
        let s1 = match slab_exec(self.min.x, self.max.x, r.origin.x, r.direction.x, st0, 0) {
            Option::None => { return Option::None; },
            Option::Some(s) => s,
        };
        let s2 = match slab_exec(self.min.y, self.max.y, r.origin.y, r.direction.y, s1, 1) {
            Option::None => { return Option::None; },
            Option::Some(s) => s,
        };
        let s3 = match slab_exec(self.min.z, self.max.z, r.origin.z, r.direction.z, s2, 2) {
            Option::None => { return Option::None; },
            Option::Some(s) => s,
        };
        if s3.t_enter < t_min as i128 || s3.t_enter > t_max as i128 {
            return Option::None;
        }
        let t = s3.t_enter as i64;
        let p = r.at(t);
        let sgn: i64 = if s3.entering { -SCALE } else { SCALE };
        let outward = if s3.axis == 0 {
            Vec3 { x: sgn, y: 0, z: 0 }
        } else if s3.axis == 1 {
            Vec3 { x: 0, y: sgn, z: 0 }
        } else {
            Vec3 { x: 0, y: 0, z: sgn }
        };
        let (n, ff) = face_normal(&r.direction, &outward);
        Option::Some(HitRecord { t, p, normal: n, front_face: ff, mat: self.mat })
    }
}

/// Every committed box hit lies in the interval, on the ray, with an
/// exactly unit axis-aligned normal that opposes the ray direction.
pub proof fn lemma_cube_hit_valid(c: Cube, r: Ray, t_min: int, t_max: int)
    ensures
        match cube_hit_math(c, r, t_min, t_max) {
            Option::Some(h) => t_min <= h.t <= t_max && h.px == ray_at(r, h.t).0 && h.py == ray_at(
                r,
                h.t,
            ).1 && h.pz == ray_at(r, h.t).2 && crate::vec3::dot3(
                r.direction.x as int,
                r.direction.y as int,
                r.direction.z as int,
                h.nx,
                h.ny,
                h.nz,
            ) <= 0 && crate::vec3::is_unit3(h.nx, h.ny, h.nz) && crate::vec3::is_unit3_eps(
                h.nx,
                h.ny,
                h.nz,
            ),
            Option::None => true,
        },
{
    let st0 = SlabMath { t_enter: t_min, t_exit: t_max, axis: 0, entering: true };
    let m1 = slab_step(c.min.x as int, c.max.x as int, r.origin.x as int, r.direction.x as int,
        st0, 0);
    match m1 {
        Option::None => {},
        Option::Some(s1) => {
            let m2 = slab_step(c.min.y as int, c.max.y as int, r.origin.y as int, r.direction.y
                as int, s1, 1);
            match m2 {
                Option::None => {},
                Option::Some(s2) => {
                    let m3 = slab_step(c.min.z as int, c.max.z as int, r.origin.z as int,
                        r.direction.z as int, s2, 2);
                    match m3 {
                        Option::None => {},
                        Option::Some(s3) => {
                            if s3.t_enter < t_min || s3.t_enter > t_max {
                            } else {
                                let nrm = axis_outward(s3.axis, s3.entering);
                                assert(crate::vec3::is_unit3(nrm.0, nrm.1, nrm.2));
                                crate::hit::lemma_orient_opposes(
                                    r.direction.x as int,
                                    r.direction.y as int,
                                    r.direction.z as int,
                                    nrm.0,
                                    nrm.1,
                                    nrm.2,
                                );
                                crate::hit::lemma_orient_unit(
                                    r.direction.x as int,
                                    r.direction.y as int,
                                    r.direction.z as int,
                                    nrm.0,
                                    nrm.1,
                                    nrm.2,
                                );
                                let o = orient_normal(
                                    r.direction.x as int,
                                    r.direction.y as int,
                                    r.direction.z as int,
                                    nrm.0,
                                    nrm.1,
                                    nrm.2,
                                );
                                crate::vec3::lemma_unit_eps_of_exact(o.0, o.1, o.2);
                            }
                        },
                    }
                },
            }
        },
    }
}

/// A slab step never lowers the running entry parameter.
proof fn lemma_slab_step_monotone(
    min_v: int,
    max_v: int,
    o_v: int,
    d_v: int,
    st: SlabMath,
    axis: int,
)
    ensures
        match slab_step(min_v, max_v, o_v, d_v, st, axis) {
            Option::Some(s) => s.t_enter >= st.t_enter,
            Option::None => true,
        },
{
}

/// An axis whose slabs lie behind a forward-looking state rejects the
/// ray: origin outside the slab and direction not toward it.
proof fn lemma_slab_step_away(min_v: int, max_v: int, o_v: int, d_v: int, st: SlabMath, axis: int)
    requires
        min_v <= max_v,
        st.t_enter >= 0,
        (o_v < min_v && d_v <= 0) || (o_v > max_v && d_v >= 0),
    ensures
        slab_step(min_v, max_v, o_v, d_v, st, axis) is None,
{
    if d_v != 0 {
        lemma_trunc_div_sign((min_v - o_v) * SCALE, d_v);
        lemma_trunc_div_sign((max_v - o_v) * SCALE, d_v);
    }
}

/// A ray that starts outside the box on some axis and does not move
/// toward it on that axis never hits, over any forward interval.
pub proof fn lemma_cube_away_miss(c: Cube, r: Ray, t_min: int, t_max: int)
    requires
        0 <= t_min,
        c.min.x <= c.max.x,
        c.min.y <= c.max.y,
        c.min.z <= c.max.z,
        ((r.origin.x < c.min.x && r.direction.x <= 0) || (r.origin.x > c.max.x && r.direction.x
            >= 0)) || ((r.origin.y < c.min.y && r.direction.y <= 0) || (r.origin.y > c.max.y
            && r.direction.y >= 0)) || ((r.origin.z < c.min.z && r.direction.z <= 0) || (
        r.origin.z > c.max.z && r.direction.z >= 0)),
    ensures
        cube_hit_math(c, r, t_min, t_max) is None,
{
    let st0 = SlabMath { t_enter: t_min, t_exit: t_max, axis: 0, entering: true };
    let away_x = (r.origin.x < c.min.x && r.direction.x <= 0) || (r.origin.x > c.max.x
        && r.direction.x >= 0);
    let away_y = (r.origin.y < c.min.y && r.direction.y <= 0) || (r.origin.y > c.max.y
        && r.direction.y >= 0);
    if away_x {
        lemma_slab_step_away(c.min.x as int, c.max.x as int, r.origin.x as int, r.direction.x
            as int, st0, 0);
    } else {
        lemma_slab_step_monotone(c.min.x as int, c.max.x as int, r.origin.x as int, r.direction.x
            as int, st0, 0);
        match slab_step(c.min.x as int, c.max.x as int, r.origin.x as int, r.direction.x as int,
            st0, 0) {
            Option::None => {},
            Option::Some(s1) => {
                if away_y {
                    lemma_slab_step_away(c.min.y as int, c.max.y as int, r.origin.y as int,
                        r.direction.y as int, s1, 1);
                } else {
                    lemma_slab_step_monotone(c.min.y as int, c.max.y as int, r.origin.y as int,
                        r.direction.y as int, s1, 1);
                    match slab_step(c.min.y as int, c.max.y as int, r.origin.y as int,
                        r.direction.y as int, s1, 1) {
                        Option::None => {},
                        Option::Some(s2) => {
                            lemma_slab_step_away(c.min.z as int, c.max.z as int, r.origin.z
                                as int, r.direction.z as int, s2, 2);
                        },
                    }
                }
            },
        }
    }
}

/// A ray exactly parallel to one axis's slab pair, with its origin
/// outside that axis's extent, never hits, whatever the other axes say.
pub proof fn lemma_cube_parallel_outside_miss(c: Cube, r: Ray, t_min: int, t_max: int)
    requires
        (r.direction.x == 0 && (r.origin.x < c.min.x || r.origin.x > c.max.x)) || (r.direction.y
            == 0 && (r.origin.y < c.min.y || r.origin.y > c.max.y)) || (r.direction.z == 0 && (
        r.origin.z < c.min.z || r.origin.z > c.max.z)),
    ensures
        cube_hit_math(c, r, t_min, t_max) is None,
{
}

} // verus!
