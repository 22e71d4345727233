//! The uniform intersection capability over the closed set of
//! primitives, and the geometric guarantees every committed hit obeys.

use vstd::prelude::*;
use crate::math::T_LIMIT;
use crate::vec3::dot3;
use crate::ray::{Ray, ray_at};
use crate::hit::{HitMath, HitRecord, MaterialId, hit_matches};
use crate::cube::{Cube, cube_hit_math};
use crate::cylinder::{Cylinder, cylinder_hit_math};
use crate::plane::{Plane, plane_hit_math};

verus! {

/// A scene primitive: every variant answers the same intersection
/// contract through `test`.
pub enum Primitive {
    Cube(Cube),
    Cylinder(Cylinder),
    Plane(Plane),
}

/// Spec-level mirror of the dispatched intersection test.
pub open spec fn primitive_hit_math(p: Primitive, r: Ray, t_min: int, t_max: int) -> Option<
    HitMath,
> {
    match p {
        Primitive::Cube(c) => cube_hit_math(c, r, t_min, t_max),
        Primitive::Cylinder(cy) => cylinder_hit_math(cy, r, t_min, t_max),
        Primitive::Plane(pl) => plane_hit_math(pl, r, t_min, t_max),
    }
}

impl Primitive {
    /// The contained primitive is well formed.
    pub open spec fn wf(self) -> bool {
        match self {
            Primitive::Cube(c) => c.wf(),
            Primitive::Cylinder(cy) => cy.wf(),
            Primitive::Plane(pl) => pl.wf(),
        }
    }

    /// The material handle the primitive shares with its hits.
    pub open spec fn mat(self) -> MaterialId {
        match self {
            Primitive::Cube(c) => c.mat,
            Primitive::Cylinder(cy) => cy.mat,
            Primitive::Plane(pl) => pl.mat,
        }
    }

    /// Intersect the ray with this primitive over `[t_min, t_max]`.
    ///
    /// An absent result means no intersection in range; a present one
    /// is pinned to the variant's spec mirror, a function of the
    /// arguments alone.
    pub fn test(&self, r: &Ray, t_min: i64, t_max: i64) -> (res: Option<HitRecord>)
        requires
            self.wf(),
            r.wf(),
            -T_LIMIT <= t_min <= t_max <= T_LIMIT,
        ensures
            hit_matches(res, primitive_hit_math(*self, *r, t_min as int, t_max as int),
                self.mat()),
    {
        match self {
            Primitive::Cube(c) => c.hit(r, t_min, t_max),
            Primitive::Cylinder(cy) => cy.hit(r, t_min, t_max),
            Primitive::Plane(pl) => pl.hit(r, t_min, t_max),
        }
    }
}

/// Every committed hit's parameter lies in the caller's interval, and
/// its point is the ray evaluated at that parameter.
pub proof fn lemma_hit_in_interval(p: Primitive, r: Ray, t_min: int, t_max: int)
    requires
        p.wf(),
    ensures
        match primitive_hit_math(p, r, t_min, t_max) {
            Option::Some(h) => t_min <= h.t <= t_max && h.px == ray_at(r, h.t).0 && h.py == ray_at(
                r,
                h.t,
            ).1 && h.pz == ray_at(r, h.t).2,
            Option::None => true,
        },
{
    match p {
        Primitive::Cube(c) => crate::cube::lemma_cube_hit_valid(c, r, t_min, t_max),
        Primitive::Cylinder(cy) => crate::cylinder::lemma_cylinder_hit_valid(cy, r, t_min, t_max),
        Primitive::Plane(pl) => crate::plane::lemma_plane_hit_valid(pl, r, t_min, t_max),
    }
}

/// Every committed hit's normal opposes the ray direction and has unit
/// length within one raw unit (`1e-6` of a world unit); box faces and
/// cylinder caps are exactly unit.
pub proof fn lemma_hit_normal(p: Primitive, r: Ray, t_min: int, t_max: int)
    requires
        p.wf(),
    ensures
        match primitive_hit_math(p, r, t_min, t_max) {
            Option::Some(h) => dot3(
                r.direction.x as int,
                r.direction.y as int,
                r.direction.z as int,
                h.nx,
                h.ny,
                h.nz,
            ) <= 0 && crate::vec3::is_unit3_eps(h.nx, h.ny, h.nz),
            Option::None => true,
        },
{
    match p {
        Primitive::Cube(c) => crate::cube::lemma_cube_hit_valid(c, r, t_min, t_max),
        Primitive::Cylinder(cy) => crate::cylinder::lemma_cylinder_hit_valid(cy, r, t_min, t_max),
        Primitive::Plane(pl) => crate::plane::lemma_plane_hit_valid(pl, r, t_min, t_max),
    }
}

} // verus!
