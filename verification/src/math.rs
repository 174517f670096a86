//! Shared numeric groundwork: the fixed-point constants, truncating division,
//! and an integer square root with its floor specification.

use vstd::prelude::*;
use vstd::arithmetic::div_mod::lemma_div_is_ordered;
use vstd::arithmetic::div_mod::lemma_div_basics_1;
use vstd::math::abs;

verus! {

/// Number of fixed-point steps per millisecond. Positions, heights, errors
/// and round-trip times are all `i64` counts of steps, so one step is a
/// nanosecond. Dimensionless factors use the same scale, making `ONE` stand
/// for the real number 1.0.
pub const ONE: i64 = 1_000_000;

/// Validity bound on every coordinate component, height and error: 2^50
/// steps, about thirteen days of latency. A value outside `[-MAX_COORD,
/// MAX_COORD]` is treated the way the floating-point formulation of Vivaldi
/// treats NaN or infinity: it is invalid and gets healed.
pub const MAX_COORD: i64 = 1_125_899_906_842_624;

/// Largest supported dimension of the Euclidean part of a coordinate.
pub const MAX_DIM: usize = 1024;

/// Upper bound on the Euclidean norm of any in-range coordinate vector:
/// 2^55, which is at least sqrt(MAX_DIM * MAX_COORD * MAX_COORD).
pub const MAX_NORM: i64 = 36_028_797_018_963_968;

/// Upper bound on the height-vector length of any valid coordinate:
/// MAX_NORM plus a height of at most MAX_COORD, rounded up to 2^56.
pub const MAX_LEN: i64 = 72_057_594_037_927_936;

/// Upper bound on the argument of the integer square root: 2^110, which is
/// MAX_DIM * MAX_COORD * MAX_COORD.
pub const MAX_SUM_SQUARES: u128 = 1_298_074_214_633_706_907_132_624_082_305_024;

/// Division truncating toward zero (the `/` of Rust's integer types), defined
/// for positive divisors. Spec-level `/` alone is Euclidean and differs on
/// negative dividends.
pub open spec fn tdiv(a: int, b: int) -> int {
    if a >= 0 {
        a / b
    } else {
        -((-a) / b)
    }
}

/// Floor of the square root of `s` (0 for negative `s`).
pub open spec fn sqrt_floor(s: int) -> int
    decreases s,
{
    if s <= 0 {
        0
    } else {
        let r = sqrt_floor(s - 1);
        if (r + 1) * (r + 1) <= s {
            r + 1
        } else {
            r
        }
    }
}

/// `sqrt_floor(s)` is the unique `r >= 0` with `r * r <= s < (r + 1) * (r + 1)`.
pub proof fn lemma_sqrt_floor_bounds(s: int)
    requires
        s >= 0,
    ensures
        0 <= sqrt_floor(s),
        sqrt_floor(s) * sqrt_floor(s) <= s,
        s < (sqrt_floor(s) + 1) * (sqrt_floor(s) + 1),
    decreases s,
{
    if s == 0 {
    } else {
        lemma_sqrt_floor_bounds(s - 1);
        let r = sqrt_floor(s - 1);
        if (r + 1) * (r + 1) <= s {
            assert(s < (r + 2) * (r + 2)) by (nonlinear_arith)
                requires
                    r >= 0,
                    s <= (r + 1) * (r + 1),
            ;
        }
    }
}

/// Any `r >= 0` squeezed by `r * r <= s < (r + 1) * (r + 1)` is `sqrt_floor(s)`.
pub proof fn lemma_sqrt_floor_unique(s: int, r: int)
    requires
        s >= 0,
        r >= 0,
        r * r <= s,
        s < (r + 1) * (r + 1),
    ensures
        r == sqrt_floor(s),
{
    lemma_sqrt_floor_bounds(s);
    let q = sqrt_floor(s);
    assert(r == q) by (nonlinear_arith)
        requires
            r >= 0,
            q >= 0,
            r * r <= s,
            s < (r + 1) * (r + 1),
            q * q <= s,
            s < (q + 1) * (q + 1),
    ;
}

/// The square root floor is monotone.
pub proof fn lemma_sqrt_floor_monotone(s1: int, s2: int)
    requires
        0 <= s1 <= s2,
    ensures
        sqrt_floor(s1) <= sqrt_floor(s2),
{
    lemma_sqrt_floor_bounds(s1);
    lemma_sqrt_floor_bounds(s2);
    let r1 = sqrt_floor(s1);
    let r2 = sqrt_floor(s2);
    assert(r1 <= r2) by (nonlinear_arith)
        requires
            r1 >= 0,
            r2 >= 0,
            r1 * r1 <= s1,
            s1 <= s2,
            s2 < (r2 + 1) * (r2 + 1),
    ;
}

/// The square root floor of a perfect square is the absolute value of its root.
pub proof fn lemma_sqrt_floor_of_square(c: int)
    ensures
        c >= 0 ==> sqrt_floor(c * c) == c,
        c < 0 ==> sqrt_floor(c * c) == -c,
{
    let a = if c >= 0 { c } else { -c };
    assert(a * a == c * c && a * a <= a * a && a * a < (a + 1) * (a + 1)) by (nonlinear_arith)
        requires
            a >= 0,
            a == if c >= 0 { c } else { -c },
    ;
    lemma_sqrt_floor_unique(c * c, a);
}

/// Scaling `c` by `ONE / l` with truncation: the `l`-scaled square of the
/// result never exceeds the exact square `(c * ONE)^2`, and falls short of
/// it by at most `2 * l * ONE * |c|` — one truncation step of at most `l`,
/// weighted by the magnitudes involved.
pub proof fn lemma_tdiv_square_bounds(c: int, l: int)
    requires
        l >= 1,
    ensures
        (l * tdiv(c * ONE, l)) * (l * tdiv(c * ONE, l)) <= (c * ONE) * (c * ONE),
        (l * tdiv(c * ONE, l)) * (l * tdiv(c * ONE, l))
            >= (c * ONE) * (c * ONE) - 2 * l * ONE * abs(c),
{
    let k = ONE as int;
    let ac = abs(c) as int;
    let a = ac * k;
    let q = a / l;
    assert(a >= 0) by (nonlinear_arith)
        requires
            ac >= 0,
            k >= 1,
            a == ac * k,
    ;
    vstd::arithmetic::div_mod::lemma_fundamental_div_mod(a, l);
    vstd::arithmetic::div_mod::lemma_mod_bound(a, l);
    assert(l * q <= a && l * q >= a - l + 1);
    vstd::arithmetic::div_mod::lemma_div_pos_is_pos(a, l);
    let t = tdiv(c * k, l);
    if c >= 0 {
        assert(c * k == a);
        assert(t == q);
    } else {
        assert(c * k == -a && c * k < 0) by (nonlinear_arith)
            requires
                a == ac * k,
                ac == -c,
                c < 0,
                k >= 1,
        ;
        assert(t == -((-(c * k)) / l));
        assert(t == -q);
    }
    assert((l * t) * (l * t) == (l * q) * (l * q) && (c * k) * (c * k) == a * a)
        by (nonlinear_arith)
        requires
            t == q || t == -q,
            c * k == a || c * k == -a,
    ;
    assert((l * q) * (l * q) <= a * a) by (nonlinear_arith)
        requires
            0 <= l * q <= a,
    ;
    if a >= l {
        assert((l * q) * (l * q) >= a * a - 2 * l * a) by (nonlinear_arith)
            requires
                0 <= a - l,
                l * q >= a - l + 1,
        ;
    } else {
        vstd::arithmetic::div_mod::lemma_basic_div(a, l);
        assert(q == 0);
        assert((l * q) * (l * q) >= a * a - 2 * l * a) by (nonlinear_arith)
            requires
                q == 0,
                0 <= a < l,
                l >= 1,
        ;
    }
    assert(2 * l * a == 2 * l * ONE * abs(c)) by (nonlinear_arith)
        requires
            a == ac * k,
            ac == abs(c),
            k == ONE as int,
    ;
}

/// Truncating division keeps the magnitude bound `b` when `|a| <= b * d`.
pub proof fn lemma_tdiv_bound(a: int, d: int, b: int)
    requires
        d > 0,
        b >= 0,
        -(b * d) <= a <= b * d,
    ensures
        -b <= tdiv(a, d) <= b,
{
    if a >= 0 {
        lemma_div_is_ordered(a, b * d, d);
        vstd::arithmetic::div_mod::lemma_div_multiples_vanish(b, d);
        assert(b * d == d * b) by (nonlinear_arith);
        vstd::arithmetic::div_mod::lemma_div_pos_is_pos(a, d);
    } else {
        lemma_div_is_ordered(-a, b * d, d);
        vstd::arithmetic::div_mod::lemma_div_multiples_vanish(b, d);
        assert(b * d == d * b) by (nonlinear_arith);
        vstd::arithmetic::div_mod::lemma_div_pos_is_pos(-a, d);
    }
}

/// Truncating division of an `i128` by a positive divisor.
pub fn tdiv_i128(a: i128, b: i128) -> (q: i128)
    requires
        b > 0,
        a > i128::MIN,
    ensures
        q == tdiv(a as int, b as int),
{
    if a >= 0 {
        let q = (a as u128) / (b as u128);
        proof {
            lemma_div_is_ordered(a as int, a as int, b as int);
            lemma_div_basics_1(a as int);
            assert(a as int / b as int <= a as int / 1int) by {
                vstd::arithmetic::div_mod::lemma_div_is_ordered_by_denominator(a as int, 1, b as int);
            }
        }
        q as i128
    } else {
        let n = (-a) as u128;
        let m = n / (b as u128);
        proof {
            assert(n as int / b as int <= n as int / 1int) by {
                vstd::arithmetic::div_mod::lemma_div_is_ordered_by_denominator(n as int, 1, b as int);
            }
            lemma_div_basics_1(n as int);
        }
        -(m as i128)
    }
}

/// Floor of the square root, as executable code: binary search over the
/// invariant `lo * lo <= s < hi * hi`.
pub fn isqrt_u128(s: u128) -> (r: u64)
    requires
        s <= MAX_SUM_SQUARES,
    ensures
        r == sqrt_floor(s as int),
        r <= MAX_NORM as u64,
{
    let mut lo: u128 = 0;
    let mut hi: u128 = 0x200_0000_0000_0000;  // 2^57, whose square exceeds MAX_SUM_SQUARES
    proof {
        assert(0x200_0000_0000_0000u128 * 0x200_0000_0000_0000u128 > MAX_SUM_SQUARES);
    }
    while hi - lo > 1
        invariant
            0 <= lo < hi <= 0x200_0000_0000_0000u128,
            lo * lo <= s,
            s < hi * hi,
        decreases hi - lo,
    {
        let mid = lo + (hi - lo) / 2;
        assert(lo < mid < hi);
        proof {
            assert(mid * mid <= u128::MAX) by (nonlinear_arith)
                requires
                    0 < mid <= 0x200_0000_0000_0000u128,
            ;
        }
        let sq = mid * mid;
        if sq <= s {
            lo = mid;
        } else {
            hi = mid;
        }
    }
    proof {
        assert((lo + 1) * (lo + 1) >= hi * hi) by (nonlinear_arith)
            requires
                lo + 1 >= hi > 0,
        ;
        lemma_sqrt_floor_unique(s as int, lo as int);
        assert(lo <= MAX_NORM as u128) by (nonlinear_arith)
            requires
                lo * lo <= MAX_SUM_SQUARES,
                MAX_SUM_SQUARES == 1_298_074_214_633_706_907_132_624_082_305_024u128,
                MAX_NORM == 36_028_797_018_963_968i64,
        ;
    }
    lo as u64
}

} // verus!
