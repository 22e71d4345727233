//! Parametric rays: `P(t) = origin + t * direction`.

use vstd::prelude::*;
use crate::math::{COORD_LIMIT, POINT_LIMIT, SCALE, T_LIMIT, div_trunc, trunc_div,
    lemma_mul_bound, lemma_trunc_div_bound};
use crate::vec3::{Point3, Vec3, in_bounds};

verus! {

/// A ray with an origin and a (not necessarily unit) direction.
#[derive(Clone, Copy, Debug, PartialEq, Eq, Structural)]
pub struct Ray {
    pub origin: Point3,
    pub direction: Vec3,
}

/// The point `origin + t * direction`, componentwise in fixed point.
pub open spec fn ray_at(r: Ray, t: int) -> (int, int, int) {
    (
        r.origin.x + trunc_div(t * r.direction.x, SCALE as int),
        r.origin.y + trunc_div(t * r.direction.y, SCALE as int),
        r.origin.z + trunc_div(t * r.direction.z, SCALE as int),
    )
}

impl Ray {
    /// Origin and direction both within the accepted scene bounds.
    pub open spec fn wf(self) -> bool {
        in_bounds(self.origin) && in_bounds(self.direction)
    }

    /// Build a ray.
    pub fn new(origin: Point3, direction: Vec3) -> (r: Ray)
        ensures
            r == (Ray { origin, direction }),
    {
        Ray { origin, direction }
    }

    /// Evaluate the ray at parameter `t`.
    pub fn at(&self, t: i64) -> (p: Point3)
        requires
            self.wf(),
            -T_LIMIT <= t <= T_LIMIT,
        ensures
            p.x == ray_at(*self, t as int).0,
            p.y == ray_at(*self, t as int).1,
            p.z == ray_at(*self, t as int).2,
            -POINT_LIMIT <= p.x <= POINT_LIMIT,
            -POINT_LIMIT <= p.y <= POINT_LIMIT,
            -POINT_LIMIT <= p.z <= POINT_LIMIT,
    {
        let px = self.at_component(t, self.origin.x, self.direction.x);
        let py = self.at_component(t, self.origin.y, self.direction.y);
        let pz = self.at_component(t, self.origin.z, self.direction.z);
        Vec3 { x: px, y: py, z: pz }
    }

    /// One component of `origin + t * direction`.
    fn at_component(&self, t: i64, o: i64, d: i64) -> (c: i64)
        requires
            -T_LIMIT <= t <= T_LIMIT,
            -COORD_LIMIT <= o <= COORD_LIMIT,
            -COORD_LIMIT <= d <= COORD_LIMIT,
        ensures
            c == o + trunc_div(t * d, SCALE as int),
            -POINT_LIMIT <= c <= POINT_LIMIT,
    {
        proof {
            lemma_mul_bound(t as int, d as int, T_LIMIT as int, COORD_LIMIT as int);
        }
        let num: i128 = (t as i128) * (d as i128);
        proof {
            lemma_trunc_div_bound(num as int, SCALE as int, 1_000_000_000_000_000int);
        }
        let q: i128 = div_trunc(num, SCALE as i128);
        (o as i128 + q) as i64
    }
}

} // verus!
