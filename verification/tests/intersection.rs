//! Scenario tests for the intersection core, in raw fixed-point units:
//! `S` raw units are one world unit.

use ray_intersect::cube::Cube;
use ray_intersect::cylinder::Cylinder;
use ray_intersect::hit::MaterialId;
use ray_intersect::plane::Plane;
use ray_intersect::primitive::Primitive;
use ray_intersect::ray::Ray;
use ray_intersect::vec3::Vec3;

const S: i64 = 1_000_000;
const T_MIN: i64 = 1_000;
const T_MAX: i64 = 1_000_000_000_000;

fn v(x: i64, y: i64, z: i64) -> Vec3 {
    Vec3 { x, y, z }
}

fn ray(ox: i64, oy: i64, oz: i64, dx: i64, dy: i64, dz: i64) -> Ray {
    Ray { origin: v(ox, oy, oz), direction: v(dx, dy, dz) }
}

fn mat() -> MaterialId {
    MaterialId(7)
}

/// The committed hit point equals origin + t * direction, exactly.
fn assert_on_ray(r: &Ray, h: &ray_intersect::hit::HitRecord) {
    let t = h.t as i128;
    let ex = r.origin.x as i128 + t * r.direction.x as i128 / S as i128;
    let ey = r.origin.y as i128 + t * r.direction.y as i128 / S as i128;
    let ez = r.origin.z as i128 + t * r.direction.z as i128 / S as i128;
    assert_eq!(h.p.x as i128, ex);
    assert_eq!(h.p.y as i128, ey);
    assert_eq!(h.p.z as i128, ez);
}

#[test]
fn plane_horizontal_hit() {
    let pl = Plane::horizontal(2 * S, mat());
    let r = ray(0, 5 * S, 0, 0, -S, 0);
    let h = pl.hit(&r, T_MIN, T_MAX).expect("ray straight down must hit");
    assert_eq!(h.t, 3 * S);
    assert_eq!((h.p.x, h.p.y, h.p.z), (0, 2 * S, 0));
    assert_eq!((h.normal.x, h.normal.y, h.normal.z), (0, S, 0));
    assert!(h.front_face);
    assert_eq!(h.mat, mat());
    assert_on_ray(&r, &h);
}

#[test]
fn plane_parallel_misses() {
    let pl = Plane::horizontal(2 * S, mat());
    // dot(direction, normal) == 0: parallel, whatever the origin.
    assert!(pl.hit(&ray(0, 5 * S, 0, S, 0, 0), T_MIN, T_MAX).is_none());
    assert!(pl.hit(&ray(9 * S, -3 * S, S, -S, 0, 7 * S), T_MIN, T_MAX).is_none());
    let px = Plane::vertical_x(0, mat());
    assert!(px.hit(&ray(5 * S, 0, 0, 0, 3 * S, 4 * S), T_MIN, T_MAX).is_none());
}

#[test]
fn plane_behind_interval_misses() {
    let pl = Plane::horizontal(2 * S, mat());
    // The plane lies behind the origin for an upward ray.
    assert!(pl.hit(&ray(0, 5 * S, 0, 0, S, 0), T_MIN, T_MAX).is_none());
    // In range only if t <= t_max.
    assert!(pl.hit(&ray(0, 5 * S, 0, 0, -S, 0), T_MIN, 2 * S).is_none());
}

#[test]
fn plane_unit_normal_constructors() {
    let pz = Plane::vertical_z(4 * S, mat());
    let r = ray(0, 0, 0, 0, 0, S);
    let h = pz.hit(&r, T_MIN, T_MAX).expect("ray toward the plane must hit");
    assert_eq!(h.t, 4 * S);
    // Approached from the back side: the stored normal is flipped.
    assert_eq!((h.normal.x, h.normal.y, h.normal.z), (0, 0, -S));
    assert!(!h.front_face);
    assert_on_ray(&r, &h);
}

#[test]
fn plane_new_normalizes_exactly_when_possible() {
    // (3, 4, 0) normalizes exactly to (3/5, 4/5, 0) in fixed point.
    let pl = Plane::new(v(0, 0, 0), v(3_000_000, 4_000_000, 0), mat());
    assert_eq!((pl.normal.x, pl.normal.y, pl.normal.z), (600_000, 800_000, 0));
}

#[test]
fn plane_new_normalizes_diagonal_within_tolerance() {
    // (1, 1, 0) normalizes to (1/sqrt(2), 1/sqrt(2), 0), rounded to
    // the nearest raw unit per component.
    let pl = Plane::new(v(0, 0, 0), v(S, S, 0), mat());
    assert_eq!((pl.normal.x, pl.normal.y, pl.normal.z), (707_107, 707_107, 0));
    let nn = pl.normal.x as i128 * pl.normal.x as i128 + pl.normal.y as i128 * pl.normal.y as i128
        + pl.normal.z as i128 * pl.normal.z as i128;
    let s2 = S as i128 * S as i128;
    // Unit within one raw unit of length.
    assert!((S as i128 - 1) * (S as i128 - 1) <= nn && nn <= (S as i128 + 1) * (S as i128 + 1));
    assert!((nn - s2).abs() <= 2 * s2 / 1_000_000);
}

#[test]
fn plane_diagonal_normal_hit() {
    // A 45-degree plane built from a non-unit normal, hit straight
    // down: the solved parameter is exact because the rounding of the
    // normal cancels between numerator and denominator.
    let pl = Plane::new(v(0, 0, 0), v(S, S, 0), mat());
    let r = ray(0, 5 * S, 0, 0, -S, 0);
    let h = pl.hit(&r, T_MIN, T_MAX).expect("ray down onto the tilted plane must hit");
    assert_eq!(h.t, 5 * S);
    assert_eq!((h.p.x, h.p.y, h.p.z), (0, 0, 0));
    assert_eq!((h.normal.x, h.normal.y, h.normal.z), (707_107, 707_107, 0));
    assert!(h.front_face);
    assert_on_ray(&r, &h);
}

#[test]
fn plane_pythagorean_normal() {
    // (3/5, 4/5, 0) is exactly unit in fixed point and stored as given.
    let n = v(600_000, 800_000, 0);
    let pl = Plane::new(v(0, 0, 0), n, mat());
    let r = ray(-3 * S, -4 * S, 0, 600_000, 800_000, 0);
    let h = pl.hit(&r, T_MIN, T_MAX).expect("ray along the normal must hit");
    assert_eq!(h.t, 5 * S);
    assert_eq!((h.p.x, h.p.y, h.p.z), (0, 0, 0));
    assert_eq!((h.normal.x, h.normal.y, h.normal.z), (-600_000, -800_000, 0));
    assert_on_ray(&r, &h);
}

#[test]
fn cube_hits_min_x_face() {
    let c = Cube::new(v(-S, -S, -S), v(S, S, S), mat());
    let r = ray(-2 * S, 0, 0, S, 0, 0);
    let h = c.hit(&r, T_MIN, T_MAX).expect("ray toward the box must hit");
    assert_eq!(h.t, S);
    assert_eq!((h.p.x, h.p.y, h.p.z), (-S, 0, 0));
    assert_eq!((h.normal.x, h.normal.y, h.normal.z), (-S, 0, 0));
    assert_eq!(h.mat, mat());
    assert_on_ray(&r, &h);
}

#[test]
fn cube_pointed_away_misses() {
    let c = Cube::new(v(-S, -S, -S), v(S, S, S), mat());
    assert!(c.hit(&ray(-2 * S, 0, 0, -S, 0, 0), T_MIN, T_MAX).is_none());
    assert!(c.hit(&ray(0, 2 * S, 0, 0, S, 0), T_MIN, T_MAX).is_none());
    assert!(c.hit(&ray(3 * S, 3 * S, 3 * S, S, S, S), T_MIN, T_MAX).is_none());
}

#[test]
fn cube_parallel_slab_outside_misses() {
    let c = Cube::new(v(-S, -S, -S), v(S, S, S), mat());
    // Parallel to the x slabs, origin outside them: would cross the
    // y and z slabs, but must miss.
    assert!(c.hit(&ray(-2 * S, 0, -3 * S, 0, 0, S), T_MIN, T_MAX).is_none());
    assert!(c.hit(&ray(2 * S, -3 * S, 0, 0, S, 0), T_MIN, T_MAX).is_none());
}

#[test]
fn cube_parallel_slab_inside_passes() {
    let c = Cube::new(v(-S, -S, -S), v(S, S, S), mat());
    // Parallel to the x slabs but origin within them on x.
    let r = ray(0, 0, -3 * S, 0, 0, S);
    let h = c.hit(&r, T_MIN, T_MAX).expect("must hit the z = min face");
    assert_eq!(h.t, 2 * S);
    assert_eq!((h.normal.x, h.normal.y, h.normal.z), (0, 0, -S));
    assert_on_ray(&r, &h);
}

#[test]
fn cube_boundary_origin_counts_as_inside() {
    let c = Cube::new(v(-S, -S, -S), v(S, S, S), mat());
    // Zero direction component with the origin exactly on the slab
    // boundary: boundary-inclusive, so the other axes decide.
    let r = ray(S, 0, -3 * S, 0, 0, S);
    assert!(c.hit(&r, T_MIN, T_MAX).is_some());
}

#[test]
fn cylinder_vertical_ray_hits_top_cap() {
    let cy = Cylinder::new(v(0, 0, 0), S, 2 * S, mat());
    let r = ray(S / 2, 5 * S, 0, 0, -S, 0);
    let h = cy.hit(&r, T_MIN, T_MAX).expect("drop through the top disk must hit");
    assert_eq!(h.t, 3 * S);
    assert_eq!((h.p.x, h.p.y, h.p.z), (S / 2, 2 * S, 0));
    assert_eq!((h.normal.x, h.normal.y, h.normal.z), (0, S, 0));
    assert!(h.front_face);
    assert_on_ray(&r, &h);
}

#[test]
fn cylinder_vertical_ray_outside_radius_misses() {
    let cy = Cylinder::new(v(0, 0, 0), S, 2 * S, mat());
    let r = ray(2 * S, 5 * S, 0, 0, -S, 0);
    assert!(cy.hit(&r, T_MIN, T_MAX).is_none());
}

#[test]
fn cylinder_lateral_hit_radial_normal() {
    let cy = Cylinder::new(v(0, 0, 0), S, 2 * S, mat());
    let r = ray(-3 * S, S, 0, S, 0, 0);
    let h = cy.hit(&r, T_MIN, T_MAX).expect("horizontal ray at mid-height must hit");
    assert_eq!(h.t, 2 * S);
    assert_eq!((h.p.x, h.p.y, h.p.z), (-S, S, 0));
    // Radial normal: perpendicular to the vertical axis, and unit
    // within the stated tolerance (here exactly unit).
    assert_eq!(h.normal.y, 0);
    let nn = h.normal.x as i128 * h.normal.x as i128 + h.normal.y as i128 * h.normal.y as i128
        + h.normal.z as i128 * h.normal.z as i128;
    let s2 = S as i128 * S as i128;
    assert!((nn - s2).abs() <= s2 / 1_000_000, "normal must be unit within 1e-6");
    assert_eq!((h.normal.x, h.normal.y, h.normal.z), (-S, 0, 0));
    assert!(h.front_face);
    assert_on_ray(&r, &h);
}

#[test]
fn cylinder_ray_from_below_hits_bottom_cap() {
    let cy = Cylinder::new(v(0, 0, 0), S, 2 * S, mat());
    let r = ray(0, -5 * S, 0, 0, S, 0);
    let h = cy.hit(&r, T_MIN, T_MAX).expect("rise through the bottom disk must hit");
    assert_eq!(h.t, 5 * S);
    assert_eq!((h.p.x, h.p.y, h.p.z), (0, 0, 0));
    assert_eq!((h.normal.x, h.normal.y, h.normal.z), (0, -S, 0));
    assert!(h.front_face);
    assert_on_ray(&r, &h);
}

#[test]
fn cylinder_lateral_above_height_misses() {
    let cy = Cylinder::new(v(0, 0, 0), S, 2 * S, mat());
    // Aimed at the lateral surface's extension above the cylinder.
    let r = ray(-3 * S, 3 * S, 0, S, 0, 0);
    assert!(cy.hit(&r, T_MIN, T_MAX).is_none());
}

#[test]
fn cylinder_axis_parallel_outside_misses() {
    let cy = Cylinder::new(v(0, 0, 0), S, 2 * S, mat());
    // Parallel to the axis, outside the radius: the degenerate
    // quadratic must be declined, not divided by.
    let r = ray(3 * S, S, 0, 0, 0, S);
    assert!(cy.hit(&r, T_MIN, T_MAX).is_none());
}

#[test]
fn cylinder_zero_height_tie_breaks_to_bottom_disk() {
    let cy = Cylinder::new(v(0, 0, 0), S, 0, mat());
    let r = ray(0, 5 * S, 0, 0, -S, 0);
    // Both cap planes coincide: the tie goes to the bottom disk, whose
    // outward normal is flipped against the downward ray.
    let h = cy.hit(&r, T_MIN, T_MAX).expect("flat disk must still hit");
    assert_eq!(h.t, 5 * S);
    assert_eq!((h.normal.x, h.normal.y, h.normal.z), (0, S, 0));
    assert!(!h.front_face);
    assert_on_ray(&r, &h);
}

#[test]
fn cylinder_zero_radius_axis_ray() {
    // Degenerate zero radius: only a ray meeting the axis exactly can
    // qualify, through the cap disks; the lateral solve is declined.
    let cy = Cylinder::new(v(0, 0, 0), 0, 2 * S, mat());
    let r = ray(0, 5 * S, 0, 0, -S, 0);
    let h = cy.hit(&r, T_MIN, T_MAX).expect("axis ray must meet the top disk");
    assert_eq!(h.t, 3 * S);
    assert_eq!((h.normal.x, h.normal.y, h.normal.z), (0, S, 0));
    let off = ray(S / 2, 5 * S, 0, 0, -S, 0);
    assert!(cy.hit(&off, T_MIN, T_MAX).is_none());
}

#[test]
fn far_scene_stays_exact() {
    // Near the accepted scene bounds the arithmetic is still exact.
    let c = Cube::new(v(998 * S, -S, -S), v(999 * S, S, S), mat());
    let r = ray(-999 * S, 0, 0, S, 0, 0);
    let h = c.hit(&r, T_MIN, T_MAX).expect("long shot must hit");
    assert_eq!(h.t, 1997 * S);
    assert_eq!((h.p.x, h.p.y, h.p.z), (998 * S, 0, 0));
    assert_eq!((h.normal.x, h.normal.y, h.normal.z), (-S, 0, 0));
    assert_on_ray(&r, &h);
}

#[test]
fn cylinder_new_stores_magnitudes() {
    let cy = Cylinder::new(v(0, 0, 0), -S, -2 * S, mat());
    assert_eq!(cy.radius, S);
    assert_eq!(cy.height, 2 * S);
}

#[test]
fn test_dispatch_matches_direct_calls() {
    let r = ray(-3 * S, S, 0, S, 0, 0);
    let cy = Cylinder::new(v(0, 0, 0), S, 2 * S, mat());
    let direct = cy.hit(&r, T_MIN, T_MAX);
    let dispatched = Primitive::Cylinder(cy).test(&r, T_MIN, T_MAX);
    assert_eq!(direct, dispatched);
}

#[test]
fn test_is_deterministic() {
    let r = ray(-2 * S, 300_000, -400_000, S, 17, -40_000);
    let prims = [
        Primitive::Cube(Cube::new(v(-S, -S, -S), v(S, S, S), mat())),
        Primitive::Cylinder(Cylinder::new(v(0, 0, 0), S, 2 * S, mat())),
        Primitive::Plane(Plane::horizontal(-S / 2, mat())),
    ];
    for p in prims.iter() {
        let first = p.test(&r, T_MIN, T_MAX);
        let second = p.test(&r, T_MIN, T_MAX);
        assert_eq!(first, second, "identical inputs must give identical results");
    }
}

#[test]
fn committed_hits_are_valid() {
    // For a spread of rays and primitives: t in range, p on the ray,
    // normal opposing the direction.
    let prims = [
        Primitive::Cube(Cube::new(v(-S, -S, -S), v(S, S, S), mat())),
        Primitive::Cylinder(Cylinder::new(v(0, 0, 0), S, 2 * S, mat())),
        Primitive::Plane(Plane::horizontal(0, mat())),
    ];
    let rays = [
        ray(-3 * S, S / 2, S / 3, S, -100_000, 50_000),
        ray(0, 5 * S, 0, 0, -S, 0),
        ray(2 * S, 2 * S, 2 * S, -S, -S, -S),
        ray(0, S / 2, -4 * S, 10_000, 5_000, S),
    ];
    for p in prims.iter() {
        for r in rays.iter() {
            if let Some(h) = p.test(r, T_MIN, T_MAX) {
                assert!(T_MIN <= h.t && h.t <= T_MAX);
                assert_on_ray(r, &h);
                let d = h.normal.x as i128 * r.direction.x as i128
                    + h.normal.y as i128 * r.direction.y as i128
                    + h.normal.z as i128 * r.direction.z as i128;
                assert!(d <= 0, "stored normal must oppose the ray");
                let nn = h.normal.x as i128 * h.normal.x as i128
                    + h.normal.y as i128 * h.normal.y as i128
                    + h.normal.z as i128 * h.normal.z as i128;
                assert!(
                    (S as i128 - 1) * (S as i128 - 1) <= nn
                        && nn <= (S as i128 + 1) * (S as i128 + 1),
                    "stored normal must be unit within one raw unit"
                );
                assert_eq!(h.mat, mat());
            }
        }
    }
}
