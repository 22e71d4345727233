//! Fixed-point arithmetic: scale constants, truncating division and
//! an exact integer square root, with the lemmas the primitives need.

use vstd::prelude::*;
use vstd::arithmetic::div_mod::{
    lemma_div_is_ordered, lemma_div_multiples_vanish, lemma_div_pos_is_pos,
    lemma_div_nonincreasing, lemma_fundamental_div_mod, lemma_mod_division_less_than_divisor,
    lemma_mod_bound,
};

verus! {

/// Number of raw fixed-point units in one world unit.
pub const SCALE: i64 = 1_000_000;

/// Largest raw magnitude accepted for a primitive or ray coordinate
/// (one thousand world units).
pub const COORD_LIMIT: i64 = 1_000_000_000;

/// Largest raw magnitude accepted for the bounds of the ray-parameter
/// interval (one million world units).
pub const T_LIMIT: i64 = 1_000_000_000_000;

/// Bound on a computed hit-point coordinate: a point reached from an
/// in-bounds origin along an in-bounds direction within `T_LIMIT`.
pub const POINT_LIMIT: i64 = 2_000_000_000_000_000;

/// Magnitude of an integer.
pub open spec fn abs_i(x: int) -> int {
    if x < 0 {
        -x
    } else {
        x
    }
}

/// Round-toward-zero division: the rounding that the executable
/// fixed-point division performs.
pub open spec fn trunc_div(n: int, d: int) -> int {
    let q = abs_i(n) / abs_i(d);
    if (n < 0) == (d < 0) {
        q
    } else {
        -q
    }
}

/// `|n| <= m * |d|` bounds the truncated quotient by `m`.
pub proof fn lemma_trunc_div_bound(n: int, d: int, m: int)
    requires
        d != 0,
        0 <= m,
        -(m * abs_i(d)) <= n <= m * abs_i(d),
    ensures
        -m <= trunc_div(n, d) <= m,
{
    let nn = abs_i(n);
    let dd = abs_i(d);
    assert(1 <= dd);
    assert(nn <= m * dd);
    lemma_div_is_ordered(nn, m * dd, dd);
    lemma_div_multiples_vanish(m, dd);
    lemma_div_pos_is_pos(nn, dd);
}

/// Bounds on the factors bound the product.
pub proof fn lemma_mul_bound(a: int, b: int, aa: int, bb: int)
    by (nonlinear_arith)
    requires
        -aa <= a <= aa,
        -bb <= b <= bb,
    ensures
        -(aa * bb) <= a * b <= aa * bb,
{
}

/// A bounded value has a bounded, non-negative square.
pub proof fn lemma_square_bound(a: int, aa: int)
    by (nonlinear_arith)
    requires
        -aa <= a <= aa,
    ensures
        0 <= a * a <= aa * aa,
{
}

/// The truncated quotient keeps the sign of the exact quotient.
pub proof fn lemma_trunc_div_sign(n: int, d: int)
    requires
        d != 0,
    ensures
        n >= 0 && d > 0 ==> trunc_div(n, d) >= 0,
        n <= 0 && d < 0 ==> trunc_div(n, d) >= 0,
        n >= 0 && d < 0 ==> trunc_div(n, d) <= 0,
        n <= 0 && d > 0 ==> trunc_div(n, d) <= 0,
{
    lemma_div_pos_is_pos(abs_i(n), abs_i(d));
}

/// Division is exact on exact multiples.
pub proof fn lemma_trunc_div_exact(a: int, d: int)
    requires
        d > 0,
    ensures
        trunc_div(a * d, d) == a,
{
    assert(abs_i(a * d) == abs_i(a) * d) by (nonlinear_arith)
        requires
            d > 0,
    ;
    lemma_div_multiples_vanish(abs_i(a), d);
    if a < 0 {
        assert(a * d < 0) by (nonlinear_arith)
            requires
                a < 0,
                d > 0,
        ;
    } else {
        assert(a * d >= 0) by (nonlinear_arith)
            requires
                a >= 0,
                d > 0,
        ;
    }
}

/// Truncating signed division on wide integers.
pub fn div_trunc(n: i128, d: i128) -> (q: i128)
    requires
        d != 0,
        i128::MIN < n,
        i128::MIN < d,
    ensures
        q == trunc_div(n as int, d as int),
{
    let neg: bool = (n < 0) != (d < 0);
    let nn: u128 = if n < 0 {
        (-n) as u128
    } else {
        n as u128
    };
    let dd: u128 = if d < 0 {
        (-d) as u128
    } else {
        d as u128
    };
    proof {
        assert(nn as int == abs_i(n as int));
        assert(dd as int == abs_i(d as int));
    }
    let q0: u128 = nn / dd;
    proof {
        lemma_div_nonincreasing(nn as int, dd as int);
        lemma_div_pos_is_pos(nn as int, dd as int);
    }
    if neg {
        -(q0 as i128)
    } else {
        q0 as i128
    }
}

/// With a positive divisor the truncated quotient is monotone in the
/// numerator.
pub proof fn lemma_trunc_div_monotone(n1: int, n2: int, d: int)
    requires
        n1 <= n2,
        d > 0,
    ensures
        trunc_div(n1, d) <= trunc_div(n2, d),
{
    if 0 <= n1 {
        lemma_div_is_ordered(n1, n2, d);
    } else if n2 < 0 {
        lemma_div_is_ordered(-n2, -n1, d);
    } else {
        lemma_trunc_div_sign(n1, d);
        lemma_trunc_div_sign(n2, d);
    }
}

/// The truncated quotient multiplied back differs from the numerator
/// by less than the divisor.
pub proof fn lemma_trunc_div_rem(a: int, d: int)
    requires
        d != 0,
    ensures
        abs_i(trunc_div(a, d) * d - a) < abs_i(d),
{
    let nn = abs_i(a);
    let dd = abs_i(d);
    let q0 = nn / dd;
    lemma_fundamental_div_mod(nn, dd);
    lemma_mod_bound(nn, dd);
    lemma_div_pos_is_pos(nn, dd);
    let q = trunc_div(a, d);
    if (a < 0) == (d < 0) {
        if d > 0 {
            assert(q * d == q0 * dd);
        } else {
            assert(q * d == q0 * (-dd) * 1) by (nonlinear_arith)
                requires
                    q == q0,
                    d == -dd,
            ;
            assert(q0 * (-dd) * 1 == -(q0 * dd)) by (nonlinear_arith);
            assert(a == -nn);
        }
    } else {
        if d > 0 {
            assert(q * d == (-q0) * dd) by (nonlinear_arith)
                requires
                    q == -q0,
                    d == dd,
            ;
            assert((-q0) * dd == -(q0 * dd)) by (nonlinear_arith);
            assert(a == -nn);
        } else {
            assert(q * d == (-q0) * (-dd)) by (nonlinear_arith)
                requires
                    q == -q0,
                    d == -dd,
            ;
            assert((-q0) * (-dd) == q0 * dd) by (nonlinear_arith);
        }
    }
    assert(0 <= nn - dd * q0 < dd);
    assert(dd * q0 == q0 * dd) by (nonlinear_arith);
}

/// Round-to-nearest division for a positive divisor, ties away from
/// zero: the rounding used when a normal is normalized.
pub open spec fn round_div_spec(a: int, d: int) -> int {
    trunc_div(2 * a + (if a < 0 { -d } else { d }), 2 * d)
}

/// The rounded quotient is within half a divisor of exact:
/// `|round_div_spec(a, d) * d - a| <= d / 2`.
pub proof fn lemma_round_div_err(a: int, d: int)
    requires
        d > 0,
    ensures
        2 * abs_i(round_div_spec(a, d) * d - a) <= d,
{
    if a >= 0 {
        let m = 2 * a + d;
        let q = m / (2 * d);
        lemma_div_pos_is_pos(m, 2 * d);
        assert(round_div_spec(a, d) == q);
        lemma_fundamental_div_mod(m, 2 * d);
        lemma_mod_bound(m, 2 * d);
        assert(2 * (q * d) == (2 * d) * q) by (nonlinear_arith);
        assert(2 * (q * d - a) == d - m % (2 * d));
    } else {
        let m = -2 * a + d;
        let q = m / (2 * d);
        lemma_div_pos_is_pos(m, 2 * d);
        assert(abs_i(2 * a - d) == m);
        assert(round_div_spec(a, d) == -q);
        lemma_fundamental_div_mod(m, 2 * d);
        lemma_mod_bound(m, 2 * d);
        assert(2 * (q * d) == (2 * d) * q) by (nonlinear_arith);
        assert(2 * (q * d + a) == d - m % (2 * d));
        assert((-q) * d == -(q * d)) by (nonlinear_arith);
    }
}

/// The rounded quotient keeps the numerator's sign.
pub proof fn lemma_round_div_sign(a: int, d: int)
    requires
        d > 0,
    ensures
        a >= 0 ==> round_div_spec(a, d) >= 0,
        a < 0 ==> round_div_spec(a, d) <= 0,
{
    if a >= 0 {
        lemma_trunc_div_sign(2 * a + d, 2 * d);
    } else {
        lemma_trunc_div_sign(2 * a - d, 2 * d);
    }
}

/// Executable round-to-nearest division, ties away from zero.
pub fn round_div(a: i128, d: i128) -> (q: i128)
    requires
        0 < d <= 100_000_000_000_000_000_000_000_000,
        -100_000_000_000_000_000_000_000_000 <= a <= 100_000_000_000_000_000_000_000_000,
    ensures
        q == round_div_spec(a as int, d as int),
{
    let adj: i128 = if a < 0 {
        -d
    } else {
        d
    };
    div_trunc(2 * a + adj, 2 * d)
}

/// The sum of magnitudes of three values is bounded through the sum of
/// their squares: `(|x| + |y| + |z|)^2 <= 3 * (x^2 + y^2 + z^2)`.
pub proof fn lemma_sum_abs_sq(x: int, y: int, z: int)
    ensures
        (abs_i(x) + abs_i(y) + abs_i(z)) * (abs_i(x) + abs_i(y) + abs_i(z)) <= 3 * (x * x + y * y
            + z * z),
{
    let px = abs_i(x);
    let py = abs_i(y);
    let pz = abs_i(z);
    assert((px + py + pz) * (px + py + pz) <= 3 * (px * px + py * py + pz * pz))
        by (nonlinear_arith);
    assert(px * px == x * x && py * py == y * y && pz * pz == z * z) by (nonlinear_arith)
        requires
            px == abs_i(x) && py == abs_i(y) && pz == abs_i(z),
    ;
}

/// `r` is the floor of the square root of `n`.
pub open spec fn is_sqrt_floor(n: int, r: int) -> bool {
    0 <= r && r * r <= n && n < (r + 1) * (r + 1)
}

/// The floor of the square root of a non-negative integer.
pub open spec fn sqrt_floor(n: int) -> int {
    choose|r: int| is_sqrt_floor(n, r)
}

proof fn lemma_sqrt_floor_exists(n: nat)
    ensures
        exists|r: int| is_sqrt_floor(n as int, r),
    decreases n,
{
    if n == 0 {
        assert(is_sqrt_floor(0, 0)) by (nonlinear_arith);
    } else {
        lemma_sqrt_floor_exists((n - 1) as nat);
        let r = choose|r: int| #[trigger] is_sqrt_floor(n - 1, r);
        if n < (r + 1) * (r + 1) {
            assert(is_sqrt_floor(n as int, r));
        } else {
            assert(is_sqrt_floor(n as int, r + 1)) by (nonlinear_arith)
                requires
                    0 <= r,
                    r * r <= n - 1,
                    n - 1 < (r + 1) * (r + 1),
                    n >= (r + 1) * (r + 1),
            ;
        }
    }
}

pub proof fn lemma_sqrt_floor_unique(n: int, r1: int, r2: int)
    requires
        is_sqrt_floor(n, r1),
        is_sqrt_floor(n, r2),
    ensures
        r1 == r2,
{
    assert(r1 == r2) by (nonlinear_arith)
        requires
            0 <= r1 && r1 * r1 <= n && n < (r1 + 1) * (r1 + 1),
            0 <= r2 && r2 * r2 <= n && n < (r2 + 1) * (r2 + 1),
    ;
}

/// `sqrt_floor` meets its defining property on non-negative inputs.
pub proof fn lemma_sqrt_floor_props(n: int)
    requires
        0 <= n,
    ensures
        is_sqrt_floor(n, sqrt_floor(n)),
{
    lemma_sqrt_floor_exists(n as nat);
}

/// Floor of the square root, by bisection.
pub fn isqrt(n: u128) -> (r: u64)
    ensures
        r == sqrt_floor(n as int),
        is_sqrt_floor(n as int, r as int),
{
    let mut lo: u128 = 0;
    let mut hi: u128 = 0x1_0000_0000_0000_0000;
    proof {
        assert((hi as int) * (hi as int) > u128::MAX as int) by (nonlinear_arith)
            requires
                hi as int == 0x1_0000_0000_0000_0000int,
        ;
    }
    while lo + 1 < hi
        invariant
            lo < hi,
            hi <= 0x1_0000_0000_0000_0000u128,
            (lo as int) * (lo as int) <= n as int,
            (n as int) < (hi as int) * (hi as int),
        decreases hi - lo,
    {
        let mid: u128 = lo + (hi - lo) / 2;
        proof {
            assert((mid as int) * (mid as int) <= u128::MAX as int) by (nonlinear_arith)
                requires
                    0 <= mid as int <= 0xFFFF_FFFF_FFFF_FFFFint,
            ;
        }
        if mid * mid <= n {
            lo = mid;
        } else {
            hi = mid;
        }
    }
    proof {
        assert(hi == lo + 1);
        assert(is_sqrt_floor(n as int, lo as int));
        lemma_sqrt_floor_props(n as int);
        lemma_sqrt_floor_unique(n as int, lo as int, sqrt_floor(n as int));
    }
    lo as u64
}

} // verus!
