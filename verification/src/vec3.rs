//! Vectors and points in raw fixed-point units.

use vstd::prelude::*;
use crate::math::{COORD_LIMIT, SCALE, abs_i, lemma_mul_bound, lemma_sum_abs_sq};

verus! {

/// A 3-vector in raw fixed-point units (`SCALE` raw units per world unit).
#[derive(Clone, Copy, Debug, PartialEq, Eq, Structural)]
pub struct Vec3 {
    pub x: i64,
    pub y: i64,
    pub z: i64,
}

/// A position in space; same representation as a direction.
pub type Point3 = Vec3;

/// Exact dot product; the result carries scale `SCALE * SCALE`.
pub open spec fn dot(a: Vec3, b: Vec3) -> int {
    a.x * b.x + a.y * b.y + a.z * b.z
}

/// Exact dot product over raw integer components.
pub open spec fn dot3(ax: int, ay: int, az: int, bx: int, by: int, bz: int) -> int {
    ax * bx + ay * by + az * bz
}

/// Exactly unit length, over raw integer components.
pub open spec fn is_unit3(nx: int, ny: int, nz: int) -> bool {
    nx * nx + ny * ny + nz * nz == (SCALE as int) * (SCALE as int)
}

/// Unit length within one raw unit, that is within `1e-6` of a world
/// unit: `(SCALE - 1)^2 <= |v|^2 <= (SCALE + 1)^2`.
pub open spec fn is_unit_eps(v: Vec3) -> bool {
    (SCALE - 1) * (SCALE - 1) <= dot(v, v) <= (SCALE + 1) * (SCALE + 1)
}

/// Unit length within one raw unit, over raw integer components.
pub open spec fn is_unit3_eps(nx: int, ny: int, nz: int) -> bool {
    (SCALE - 1) * (SCALE - 1) <= nx * nx + ny * ny + nz * nz <= (SCALE + 1) * (SCALE + 1)
}

/// Every component within the accepted scene bounds.
pub open spec fn in_bounds(v: Vec3) -> bool {
    &&& -COORD_LIMIT <= v.x <= COORD_LIMIT
    &&& -COORD_LIMIT <= v.y <= COORD_LIMIT
    &&& -COORD_LIMIT <= v.z <= COORD_LIMIT
}

/// A vector unit within tolerance has every component within
/// `SCALE + 1` in magnitude.
pub proof fn lemma_unit_bounds(v: Vec3)
    requires
        is_unit_eps(v),
    ensures
        -(SCALE + 1) <= v.x <= SCALE + 1,
        -(SCALE + 1) <= v.y <= SCALE + 1,
        -(SCALE + 1) <= v.z <= SCALE + 1,
{
    assert(-1_000_001 <= v.x <= 1_000_001 && -1_000_001 <= v.y <= 1_000_001 && -1_000_001 <= v.z
        <= 1_000_001) by (nonlinear_arith)
        requires
            (v.x as int) * (v.x as int) + (v.y as int) * (v.y as int) + (v.z as int) * (v.z
                as int) <= 1_000_002_000_001int,
    ;
}

/// An exactly unit vector is in particular unit within tolerance.
pub proof fn lemma_unit_eps_of_exact(nx: int, ny: int, nz: int)
    ensures
        is_unit3(nx, ny, nz) ==> is_unit3_eps(nx, ny, nz),
{
    assert((1_000_000int - 1) * (1_000_000int - 1) <= 1_000_000int * 1_000_000int <= (1_000_000int
        + 1) * (1_000_000int + 1)) by (nonlinear_arith);
}

/// Components rounded to nearest from the high-precision normalization
/// of a nonzero vector form a vector of unit length within one raw
/// unit. Here `l` is the floor of the square root of the squared
/// length carried at nine extra decimal digits (scaled by `10^18`),
/// and each `n` component is within half an `l` of the exact scaled
/// quotient.
#[verifier::rlimit(60)]
pub proof fn lemma_normalized_unit(vx: int, vy: int, vz: int, nx: int, ny: int, nz: int, l: int)
    requires
        1 <= vx * vx + vy * vy + vz * vz <= 3_000_000_000_000_000_000,
        0 <= l,
        l * l <= (vx * vx + vy * vy + vz * vz) * 1_000_000_000_000_000_000,
        (vx * vx + vy * vy + vz * vz) * 1_000_000_000_000_000_000 < (l + 1) * (l + 1),
        2 * abs_i(nx * l - vx * 1_000_000_000_000_000) <= l,
        2 * abs_i(ny * l - vy * 1_000_000_000_000_000) <= l,
        2 * abs_i(nz * l - vz * 1_000_000_000_000_000) <= l,
    ensures
        is_unit3_eps(nx, ny, nz),
{
    let nn = vx * vx + vy * vy + vz * vz;
    let ax = vx * 1_000_000_000_000_000;
    let ay = vy * 1_000_000_000_000_000;
    let az = vz * 1_000_000_000_000_000;
    let ex = nx * l - ax;
    let ey = ny * l - ay;
    let ez = nz * l - az;
    let sa = ax * ax + ay * ay + az * az;
    let se = ex * ex + ey * ey + ez * ez;
    let sc = ax * ex + ay * ey + az * ez;
    let sn = nx * nx + ny * ny + nz * nz;
    // The scaled root is at least the precision factor.
    assert(l >= 1_000_000_000) by (nonlinear_arith)
        requires
            0 <= l,
            1 <= nn,
            nn * 1_000_000_000_000_000_000 < (l + 1) * (l + 1),
    ;
    // The squared scaled components bracket the squared root.
    assert(1_000_000_000_000 * (l * l) <= sa && sa < 1_000_000_000_000 * ((l + 1) * (l + 1)))
        by (nonlinear_arith)
        requires
            ax == vx * 1_000_000_000_000_000,
            ay == vy * 1_000_000_000_000_000,
            az == vz * 1_000_000_000_000_000,
            nn == vx * vx + vy * vy + vz * vz,
            sa == ax * ax + ay * ay + az * az,
            l * l <= nn * 1_000_000_000_000_000_000,
            nn * 1_000_000_000_000_000_000 < (l + 1) * (l + 1),
    ;
    // Their magnitude sum, by the quadratic mean bound.
    lemma_sum_abs_sq(ax, ay, az);
    let sp = abs_i(ax) + abs_i(ay) + abs_i(az);
    assert(0 <= sp);
    assert(4 * sp <= 7_000_000 * (l + 1)) by (nonlinear_arith)
        requires
            0 <= sp,
            0 <= l,
            sp * sp <= 3 * sa,
            sa < 1_000_000_000_000 * ((l + 1) * (l + 1)),
    ;
    // The cross term is bounded by half the magnitude sum times `l`.
    assert(2 * (ax * ex) <= abs_i(ax) * l && -(abs_i(ax) * l) <= 2 * (ax * ex))
        by (nonlinear_arith)
        requires
            -abs_i(ax) <= ax <= abs_i(ax),
            -abs_i(ex) <= ex <= abs_i(ex),
            2 * abs_i(ex) <= l,
            0 <= abs_i(ax),
            0 <= abs_i(ex),
    ;
    assert(2 * (ay * ey) <= abs_i(ay) * l && -(abs_i(ay) * l) <= 2 * (ay * ey))
        by (nonlinear_arith)
        requires
            -abs_i(ay) <= ay <= abs_i(ay),
            -abs_i(ey) <= ey <= abs_i(ey),
            2 * abs_i(ey) <= l,
            0 <= abs_i(ay),
            0 <= abs_i(ey),
    ;
    assert(2 * (az * ez) <= abs_i(az) * l && -(abs_i(az) * l) <= 2 * (az * ez))
        by (nonlinear_arith)
        requires
            -abs_i(az) <= az <= abs_i(az),
            -abs_i(ez) <= ez <= abs_i(ez),
            2 * abs_i(ez) <= l,
            0 <= abs_i(az),
            0 <= abs_i(ez),
    ;
    assert(sp * l == abs_i(ax) * l + abs_i(ay) * l + abs_i(az) * l) by (nonlinear_arith)
        requires
            sp == abs_i(ax) + abs_i(ay) + abs_i(az),
    ;
    assert(-(sp * l) <= 2 * sc <= sp * l);
    assert(4 * (2 * sc) <= 7_000_000 * ((l + 1) * l) && -(7_000_000 * ((l + 1) * l)) <= 4 * (2
        * sc)) by (nonlinear_arith)
        requires
            -(sp * l) <= 2 * sc <= sp * l,
            4 * sp <= 7_000_000 * (l + 1),
            0 <= sp,
            0 <= l,
    ;
    // The rounding residues are each at most half of `l`.
    assert(4 * (ex * ex) <= l * l) by (nonlinear_arith)
        requires
            2 * abs_i(ex) <= l,
            -abs_i(ex) <= ex <= abs_i(ex),
            0 <= abs_i(ex),
    ;
    assert(4 * (ey * ey) <= l * l) by (nonlinear_arith)
        requires
            2 * abs_i(ey) <= l,
            -abs_i(ey) <= ey <= abs_i(ey),
            0 <= abs_i(ey),
    ;
    assert(4 * (ez * ez) <= l * l) by (nonlinear_arith)
        requires
            2 * abs_i(ez) <= l,
            -abs_i(ez) <= ez <= abs_i(ez),
            0 <= abs_i(ez),
    ;
    assert(0 <= se) by (nonlinear_arith)
        requires
            se == ex * ex + ey * ey + ez * ez,
    ;
    // Expand the squared norm of the rounded components, one at a time.
    assert((nx * nx) * (l * l) == ax * ax + 2 * (ax * ex) + ex * ex) by (nonlinear_arith)
        requires
            ex == nx * l - ax,
    ;
    assert((ny * ny) * (l * l) == ay * ay + 2 * (ay * ey) + ey * ey) by (nonlinear_arith)
        requires
            ey == ny * l - ay,
    ;
    assert((nz * nz) * (l * l) == az * az + 2 * (az * ez) + ez * ez) by (nonlinear_arith)
        requires
            ez == nz * l - az,
    ;
    assert(sn * (l * l) == (nx * nx) * (l * l) + (ny * ny) * (l * l) + (nz * nz) * (l * l))
        by (nonlinear_arith)
        requires
            sn == nx * nx + ny * ny + nz * nz,
    ;
    assert(sn * (l * l) == sa + 2 * sc + se);
    // Combine: the scaled bracket, cross term and residues leave the
    // squared norm within one raw unit of length of exactly unit.
    assert(4 * (sn * (l * l)) <= 4_000_008_000_004 * (l * l)) by (nonlinear_arith)
        requires
            sn * (l * l) == sa + 2 * sc + se,
            sa < 1_000_000_000_000 * ((l + 1) * (l + 1)),
            4 * (2 * sc) <= 7_000_000 * ((l + 1) * l),
            4 * (ex * ex) <= l * l,
            4 * (ey * ey) <= l * l,
            4 * (ez * ez) <= l * l,
            se == ex * ex + ey * ey + ez * ez,
            l >= 1_000_000_000,
    ;
    assert(4 * (sn * (l * l)) >= 3_999_992_000_004 * (l * l)) by (nonlinear_arith)
        requires
            sn * (l * l) == sa + 2 * sc + se,
            1_000_000_000_000 * (l * l) <= sa,
            -(7_000_000 * ((l + 1) * l)) <= 4 * (2 * sc),
            0 <= se,
            l >= 1_000_000_000,
    ;
    assert(999_998_000_001 <= sn <= 1_000_002_000_001) by (nonlinear_arith)
        requires
            4 * (sn * (l * l)) <= 4_000_008_000_004 * (l * l),
            4 * (sn * (l * l)) >= 3_999_992_000_004 * (l * l),
            l >= 1,
    ;
}

impl Vec3 {
    /// Build a vector from raw fixed-point components.
    pub fn new(x: i64, y: i64, z: i64) -> (v: Vec3)
        ensures
            v == (Vec3 { x, y, z }),
    {
        Vec3 { x, y, z }
    }
}

/// Exact dot product over wide integers.
///
/// The bound admits every vector this crate produces: scene coordinates,
/// computed hit points and scaled normals all stay far below it.
pub fn dot_wide(a: &Vec3, b: &Vec3) -> (r: i128)
    requires
        -4_000_000_000_000_000 <= a.x <= 4_000_000_000_000_000,
        -4_000_000_000_000_000 <= a.y <= 4_000_000_000_000_000,
        -4_000_000_000_000_000 <= a.z <= 4_000_000_000_000_000,
        -4_000_000_000_000_000 <= b.x <= 4_000_000_000_000_000,
        -4_000_000_000_000_000 <= b.y <= 4_000_000_000_000_000,
        -4_000_000_000_000_000 <= b.z <= 4_000_000_000_000_000,
    ensures
        r == dot(*a, *b),
{
    proof {
        lemma_mul_bound(a.x as int, b.x as int, 4_000_000_000_000_000, 4_000_000_000_000_000);
        lemma_mul_bound(a.y as int, b.y as int, 4_000_000_000_000_000, 4_000_000_000_000_000);
        lemma_mul_bound(a.z as int, b.z as int, 4_000_000_000_000_000, 4_000_000_000_000_000);
    }
    (a.x as i128) * (b.x as i128) + (a.y as i128) * (b.y as i128) + (a.z as i128) * (b.z as i128)
}

} // verus!
