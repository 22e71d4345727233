//! Hit records, the shared front-face orientation rule, and the
//! spec-level mirror that every intersection contract is pinned to.

use vstd::prelude::*;
use crate::math::SCALE;
use crate::vec3::{Point3, Vec3, dot3, in_bounds, is_unit3};

verus! {

/// A shared, non-owning handle to a material owned by the caller.
#[derive(Clone, Copy, Debug, PartialEq, Eq, Structural)]
pub struct MaterialId(pub u64);

/// The result of a successful intersection test.
#[derive(Clone, Copy, Debug, PartialEq, Eq, Structural)]
pub struct HitRecord {
    /// Ray parameter of the intersection, in raw fixed-point units.
    pub t: i64,
    /// World-space hit point, `origin + t * direction`.
    pub p: Point3,
    /// Surface normal at scale `SCALE`, oriented against the ray.
    pub normal: Vec3,
    /// Whether the ray arrived from the side the outward normal faces.
    pub front_face: bool,
    /// The material of the primitive that was hit.
    pub mat: MaterialId,
}

/// The mathematical content of a hit, over unbounded integers.
pub ghost struct HitMath {
    pub t: int,
    pub px: int,
    pub py: int,
    pub pz: int,
    pub nx: int,
    pub ny: int,
    pub nz: int,
    pub front_face: bool,
}

/// Front-face convention: keep the outward normal when it opposes the
/// ray direction, otherwise store its negation and record the flip.
pub open spec fn orient_normal(dx: int, dy: int, dz: int, nx: int, ny: int, nz: int) -> (
    int,
    int,
    int,
    bool,
) {
    if dot3(dx, dy, dz, nx, ny, nz) < 0 {
        (nx, ny, nz, true)
    } else {
        (-nx, -ny, -nz, false)
    }
}

/// An executable result agrees with the spec-level mirror of the test.
pub open spec fn hit_matches(res: Option<HitRecord>, m: Option<HitMath>, mat: MaterialId) -> bool {
    match (res, m) {
        (Option::Some(h), Option::Some(hm)) => {
            &&& h.t == hm.t
            &&& h.p.x == hm.px
            &&& h.p.y == hm.py
            &&& h.p.z == hm.pz
            &&& h.normal.x == hm.nx
            &&& h.normal.y == hm.ny
            &&& h.normal.z == hm.nz
            &&& h.front_face == hm.front_face
            &&& h.mat == mat
        },
        (Option::None, Option::None) => true,
        _ => false,
    }
}

/// The stored normal never points with the ray: its dot product with
/// the ray direction is non-positive.
pub proof fn lemma_orient_opposes(dx: int, dy: int, dz: int, nx: int, ny: int, nz: int)
    ensures
        ({
            let o = orient_normal(dx, dy, dz, nx, ny, nz);
            dot3(dx, dy, dz, o.0, o.1, o.2) <= 0
        }),
{
    if dot3(dx, dy, dz, nx, ny, nz) < 0 {
    } else {
        assert(dx * (-nx) + dy * (-ny) + dz * (-nz) == -(dx * nx + dy * ny + dz * nz))
            by (nonlinear_arith);
    }
}

/// Orientation preserves exact unit length.
pub proof fn lemma_orient_unit(dx: int, dy: int, dz: int, nx: int, ny: int, nz: int)
    requires
        is_unit3(nx, ny, nz),
    ensures
        ({
            let o = orient_normal(dx, dy, dz, nx, ny, nz);
            is_unit3(o.0, o.1, o.2)
        }),
{
    assert((-nx) * (-nx) + (-ny) * (-ny) + (-nz) * (-nz) == nx * nx + ny * ny + nz * nz)
        by (nonlinear_arith);
}

/// Orientation preserves the squared length of the normal.
pub proof fn lemma_orient_preserves_norm(dx: int, dy: int, dz: int, nx: int, ny: int, nz: int)
    ensures
        ({
            let o = orient_normal(dx, dy, dz, nx, ny, nz);
            o.0 * o.0 + o.1 * o.1 + o.2 * o.2 == nx * nx + ny * ny + nz * nz
        }),
{
    assert((-nx) * (-nx) + (-ny) * (-ny) + (-nz) * (-nz) == nx * nx + ny * ny + nz * nz)
        by (nonlinear_arith);
}

/// Two results that meet the intersection contract for the same inputs
/// are equal: the test is a function of its inputs alone.
pub proof fn lemma_hit_deterministic(
    res1: Option<HitRecord>,
    res2: Option<HitRecord>,
    m: Option<HitMath>,
    mat: MaterialId,
)
    requires
        hit_matches(res1, m, mat),
        hit_matches(res2, m, mat),
    ensures
        res1 == res2,
{
    match (res1, res2) {
        (Option::Some(h1), Option::Some(h2)) => {
            assert(h1.p == h2.p);
            assert(h1.normal == h2.normal);
            assert(h1 == h2);
        },
        _ => {},
    }
}

/// Apply the front-face rule to an outward normal.
///
/// The outward normal is at most a couple of units long (axis normals
/// are exactly one unit; radial normals stay within rounding of one).
pub fn face_normal(dir: &Vec3, outward: &Vec3) -> (r: (Vec3, bool))
    requires
        in_bounds(*dir),
        -2 * SCALE <= outward.x <= 2 * SCALE,
        -2 * SCALE <= outward.y <= 2 * SCALE,
        -2 * SCALE <= outward.z <= 2 * SCALE,
    ensures
        ({
            let o = orient_normal(
                dir.x as int,
                dir.y as int,
                dir.z as int,
                outward.x as int,
                outward.y as int,
                outward.z as int,
            );
            r.0.x == o.0 && r.0.y == o.1 && r.0.z == o.2 && r.1 == o.3
        }),
{
    let d = crate::vec3::dot_wide(dir, outward);
    if d < 0 {
        (*outward, true)
    } else {
        (Vec3 { x: -outward.x, y: -outward.y, z: -outward.z }, false)
    }
}

} // verus!
