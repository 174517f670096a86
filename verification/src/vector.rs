//! A minimal Euclidean vector over fixed-point components.
//!
//! Components are `i64` counts of fixed-point steps (see [`crate::math`]).
//! Arithmetic is exact; an operation whose exact result would leave
//! `[-MAX_COORD, MAX_COORD]` reports that instead of wrapping, which is the
//! integer counterpart of a floating-point operation producing a non-finite
//! component. Detecting and healing such results is the caller's concern,
//! one layer up in [`crate::height_vector`].

use vstd::prelude::*;
use crate::math::{ONE, MAX_COORD, MAX_DIM, MAX_NORM, MAX_SUM_SQUARES};
use crate::math::{tdiv, sqrt_floor, tdiv_i128, isqrt_u128};
use crate::math::{lemma_sqrt_floor_bounds, lemma_sqrt_floor_unique, lemma_sqrt_floor_monotone};

verus! {

/// All entries lie within the validity bound.
pub open spec fn coords_in_range(s: Seq<int>) -> bool {
    forall|i: int| 0 <= i < s.len() ==> -MAX_COORD <= #[trigger] s[i] <= MAX_COORD
}

/// Component-wise sum.
pub open spec fn seq_add(a: Seq<int>, b: Seq<int>) -> Seq<int> {
    Seq::new(a.len(), |i: int| a[i] + b[i])
}

/// Component-wise difference.
pub open spec fn seq_sub(a: Seq<int>, b: Seq<int>) -> Seq<int> {
    Seq::new(a.len(), |i: int| a[i] - b[i])
}

/// Component-wise product with the fixed-point scalar `s` (truncating).
pub open spec fn seq_scale(a: Seq<int>, s: int) -> Seq<int> {
    Seq::new(a.len(), |i: int| tdiv(a[i] * s, ONE as int))
}

/// Component-wise quotient by the fixed-point scalar `d` (truncating).
pub open spec fn seq_div_scale(a: Seq<int>, d: int) -> Seq<int> {
    Seq::new(a.len(), |i: int| tdiv(a[i] * ONE, d))
}

/// Component-wise negation.
pub open spec fn seq_neg(a: Seq<int>) -> Seq<int> {
    Seq::new(a.len(), |i: int| -a[i])
}

/// Sum of the squares of the entries.
pub open spec fn sum_sq(s: Seq<int>) -> int
    decreases s.len(),
{
    if s.len() == 0 {
        0
    } else {
        sum_sq(s.drop_last()) + s.last() * s.last()
    }
}

/// Each entry's square is bounded by the whole sum of squares.
pub proof fn lemma_sum_sq_element(s: Seq<int>, i: int)
    requires
        0 <= i < s.len(),
    ensures
        s[i] * s[i] <= sum_sq(s),
        sum_sq(s) >= 0,
    decreases s.len(),
{
    let t = s.drop_last();
    lemma_sum_sq_nonneg(s);
    lemma_sum_sq_nonneg(t);
    if i == s.len() - 1 {
        assert(s.last() == s[i]);
    } else {
        lemma_sum_sq_element(t, i);
        assert(t[i] == s[i]);
        assert(s.last() * s.last() >= 0) by (nonlinear_arith);
    }
}

/// The sum of squares is never negative.
pub proof fn lemma_sum_sq_nonneg(s: Seq<int>)
    ensures
        sum_sq(s) >= 0,
    decreases s.len(),
{
    if s.len() == 0 {
    } else {
        lemma_sum_sq_nonneg(s.drop_last());
        assert(s.last() * s.last() >= 0) by (nonlinear_arith);
    }
}

/// The sum of squares of an all-zero sequence is zero.
pub proof fn lemma_sum_sq_zero(s: Seq<int>)
    requires
        forall|i: int| 0 <= i < s.len() ==> #[trigger] s[i] == 0,
    ensures
        sum_sq(s) == 0,
    decreases s.len(),
{
    if s.len() == 0 {
    } else {
        let t = s.drop_last();
        assert(forall|i: int| 0 <= i < t.len() ==> #[trigger] t[i] == s[i]);
        lemma_sum_sq_zero(t);
        assert(s.last() == 0);
    }
}

/// Bounds on the sum of squares after every entry is scaled by `ONE / l`
/// with truncation, for entries of magnitude at most `m`: the `l`-scaled
/// scaled sum never exceeds the exact scaled sum, and falls short of it by
/// at most `2 * l * ONE * m` per entry.
pub proof fn lemma_div_scale_sum_sq(pos: Seq<int>, l: int, m: int)
    requires
        l >= 1,
        m >= 0,
        forall|i: int| 0 <= i < pos.len() ==> -m <= #[trigger] pos[i] <= m,
    ensures
        l * l * sum_sq(seq_div_scale(pos, l)) <= (ONE as int) * ONE * sum_sq(pos),
        l * l * sum_sq(seq_div_scale(pos, l))
            >= (ONE as int) * ONE * sum_sq(pos) - 2 * l * ONE * (pos.len() as int) * m,
    decreases pos.len(),
{
    let k = ONE as int;
    let rs = seq_div_scale(pos, l);
    if pos.len() == 0 {
        assert(rs.len() == 0);
        assert(l * l * 0 == 0 && k * k * 0 == 0) by (nonlinear_arith);
        assert(2 * l * ONE * 0 * m == 0) by (nonlinear_arith);
    } else {
        let t = pos.drop_last();
        let rt = seq_div_scale(t, l);
        assert(forall|i: int| 0 <= i < t.len() ==> #[trigger] t[i] == pos[i]);
        lemma_div_scale_sum_sq(t, l, m);
        assert(rs.drop_last() =~= rt);
        let cl = pos.last();
        let rl = rs.last();
        assert(rl == tdiv(cl * ONE, l));
        crate::math::lemma_tdiv_square_bounds(cl, l);
        assert(vstd::math::abs(cl) <= m);
        assert(sum_sq(rs) == sum_sq(rt) + rl * rl);
        assert(sum_sq(pos) == sum_sq(t) + cl * cl);
        // ring identities, so the remaining chaining is linear over the
        // named product terms
        assert(l * l * (rl * rl) == (l * rl) * (l * rl)) by (nonlinear_arith);
        assert(k * k * (cl * cl) == (cl * ONE) * (cl * ONE)) by (nonlinear_arith)
            requires
                k == ONE as int,
        ;
        assert(l * l * sum_sq(rs) == l * l * sum_sq(rt) + l * l * (rl * rl)) by (nonlinear_arith)
            requires
                sum_sq(rs) == sum_sq(rt) + rl * rl,
        ;
        assert(k * k * sum_sq(pos) == k * k * sum_sq(t) + k * k * (cl * cl)) by (nonlinear_arith)
            requires
                sum_sq(pos) == sum_sq(t) + cl * cl,
        ;
        assert(2 * l * ONE * (pos.len() as int) * m
            == 2 * l * ONE * (t.len() as int) * m + 2 * l * ONE * m) by (nonlinear_arith)
            requires
                t.len() as int + 1 == pos.len() as int,
        ;
        assert(2 * l * ONE * vstd::math::abs(cl) <= 2 * l * ONE * m) by (nonlinear_arith)
            requires
                vstd::math::abs(cl) <= m,
                l >= 1,
                ONE as int >= 1,
        ;
    }
}

/// Extending a prefix by one entry adds that entry's square.
proof fn lemma_sum_sq_take_step(s: Seq<int>, i: int)
    requires
        0 <= i < s.len(),
    ensures
        sum_sq(s.take(i + 1)) == sum_sq(s.take(i)) + s[i] * s[i],
{
    assert(s.take(i + 1).drop_last() =~= s.take(i));
    assert(s.take(i + 1).last() == s[i]);
}

/// A fixed-dimension Euclidean vector: `N` fixed-point components.
///
/// The `coords` vector always holds exactly `N` entries in any value built
/// through this module; the contracts carry that fact as `self@.len() == N`.
#[derive(Clone, Debug)]
pub struct Vector<const N: usize> {
    /// The components, in fixed-point steps.
    pub coords: Vec<i64>,
}

impl<const N: usize> View for Vector<N> {
    type V = Seq<int>;

    open spec fn view(&self) -> Seq<int> {
        self.coords@.map_values(|c: i64| c as int)
    }
}

impl<const N: usize> Vector<N> {
    /// Wrap components verbatim; validation happens one layer up.
    pub fn from(coords: Vec<i64>) -> (r: Self)
        requires
            coords@.len() == N,
        ensures
            r@.len() == N,
            forall|i: int| 0 <= i < N ==> r@[i] == coords@[i],
    {
        Vector { coords }
    }

    /// Read one component.
    pub fn index(&self, i: usize) -> (r: i64)
        requires
            i < self@.len(),
        ensures
            r == self@[i as int],
    {
        self.coords[i]
    }

    /// True when some component lies outside the validity bound, the
    /// counterpart of a NaN or infinite float component.
    pub fn is_invalid(&self) -> (r: bool)
        ensures
            r == !coords_in_range(self@),
    {
        let n = self.coords.len();
        let mut i: usize = 0;
        while i < n
            invariant
                i <= n,
                n == self@.len(),
                coords_in_range(self@.take(i as int)),
            decreases n - i,
        {
            let c = self.coords[i];
            if c < -MAX_COORD || c > MAX_COORD {
                assert(!(-MAX_COORD <= self@[i as int] <= MAX_COORD));
                return true;
            }
            assert(coords_in_range(self@.take(i + 1))) by {
                let t = self@.take(i + 1);
                assert(forall|j: int| 0 <= j < i ==> #[trigger] t[j] == self@.take(i as int)[j]);
                assert(t[i as int] == self@[i as int]);
            }
            i = i + 1;
        }
        assert(self@.take(n as int) =~= self@);
        false
    }

    /// Euclidean norm: the floor of the square root of the sum of squares.
    pub fn len(&self) -> (r: i64)
        requires
            self@.len() == N,
            1 <= N <= MAX_DIM,
            coords_in_range(self@),
        ensures
            r == sqrt_floor(sum_sq(self@)),
            0 <= r <= MAX_NORM,
    {
        let n = self.coords.len();
        let mut acc: u128 = 0;
        let mut i: usize = 0;
        while i < n
            invariant
                i <= n,
                n == self@.len(),
                n == N,
                N <= MAX_DIM,
                coords_in_range(self@),
                acc == sum_sq(self@.take(i as int)),
                acc <= (i as int) * (MAX_COORD as int) * (MAX_COORD as int),
            decreases n - i,
        {
            let c = self.coords[i];
            let ci = c as i128;
            proof {
                assert(self@[i as int] == c as int);
                assert(-MAX_COORD <= self@[i as int] <= MAX_COORD);
                assert(ci * ci <= (MAX_COORD as int) * (MAX_COORD as int) && ci * ci >= 0)
                    by (nonlinear_arith)
                    requires
                        -(MAX_COORD as int) <= ci <= MAX_COORD as int,
                        MAX_COORD > 0,
                ;
                assert((i as int + 1) * (MAX_COORD as int) * (MAX_COORD as int)
                    <= (MAX_DIM as int) * (MAX_COORD as int) * (MAX_COORD as int))
                    by (nonlinear_arith)
                    requires
                        i as int + 1 <= MAX_DIM as int,
                        MAX_COORD > 0,
                ;
                assert((MAX_DIM as int) * (MAX_COORD as int) * (MAX_COORD as int)
                    == MAX_SUM_SQUARES);
                assert((i as int) * (MAX_COORD as int) * (MAX_COORD as int)
                    + (MAX_COORD as int) * (MAX_COORD as int)
                    == (i as int + 1) * (MAX_COORD as int) * (MAX_COORD as int))
                    by (nonlinear_arith)
                ;
                lemma_sum_sq_take_step(self@, i as int);
            }
            let sq = (ci * ci) as u128;
            acc = acc + sq;
            i = i + 1;
        }
        proof {
            assert(self@.take(n as int) =~= self@);
            assert((n as int) * (MAX_COORD as int) * (MAX_COORD as int)
                <= (MAX_DIM as int) * (MAX_COORD as int) * (MAX_COORD as int))
                by (nonlinear_arith)
                requires
                    0 <= n as int <= MAX_DIM as int,
                    MAX_COORD > 0,
            ;
            assert((MAX_DIM as int) * (MAX_COORD as int) * (MAX_COORD as int)
                == MAX_SUM_SQUARES);
        }
        let r = isqrt_u128(acc);
        r as i64
    }

    /// Component-wise sum. `None` reports an exact result out of range.
    pub fn add(&self, rhs: &Self) -> (r: Option<Self>)
        requires
            self@.len() == N,
            rhs@.len() == N,
        ensures
            r is Some <==> coords_in_range(seq_add(self@, rhs@)),
            r matches Some(v) ==> v@ == seq_add(self@, rhs@),
    {
        let ghost goal = seq_add(self@, rhs@);
        let n = self.coords.len();
        let mut out: Vec<i64> = Vec::new();
        let mut i: usize = 0;
        while i < n
            invariant
                i <= n,
                n == self@.len(),
                n == N,
                rhs@.len() == N,
                goal == seq_add(self@, rhs@),
                out@.len() == i,
                forall|j: int| 0 <= j < i ==> #[trigger] out@[j] as int == goal[j],
                forall|j: int| 0 <= j < i ==> -MAX_COORD <= #[trigger] goal[j] <= MAX_COORD,
            decreases n - i,
        {
            let s = self.coords[i] as i128 + rhs.coords[i] as i128;
            if s < -(MAX_COORD as i128) || s > MAX_COORD as i128 {
                assert(goal[i as int] == self@[i as int] + rhs@[i as int]);
                assert(!(-MAX_COORD <= goal[i as int] <= MAX_COORD));
                return None;
            }
            out.push(s as i64);
            i = i + 1;
        }
        let result = Vector { coords: out };
        proof {
            assert(result@ =~= goal);
        }
        Some(result)
    }

    /// Component-wise difference. `None` reports an exact result out of range.
    pub fn sub(&self, rhs: &Self) -> (r: Option<Self>)
        requires
            self@.len() == N,
            rhs@.len() == N,
        ensures
            r is Some <==> coords_in_range(seq_sub(self@, rhs@)),
            r matches Some(v) ==> v@ == seq_sub(self@, rhs@),
    {
        let ghost goal = seq_sub(self@, rhs@);
        let n = self.coords.len();
        let mut out: Vec<i64> = Vec::new();
        let mut i: usize = 0;
        while i < n
            invariant
                i <= n,
                n == self@.len(),
                n == N,
                rhs@.len() == N,
                goal == seq_sub(self@, rhs@),
                out@.len() == i,
                forall|j: int| 0 <= j < i ==> #[trigger] out@[j] as int == goal[j],
                forall|j: int| 0 <= j < i ==> -MAX_COORD <= #[trigger] goal[j] <= MAX_COORD,
            decreases n - i,
        {
            let s = self.coords[i] as i128 - rhs.coords[i] as i128;
            if s < -(MAX_COORD as i128) || s > MAX_COORD as i128 {
                assert(goal[i as int] == self@[i as int] - rhs@[i as int]);
                assert(!(-MAX_COORD <= goal[i as int] <= MAX_COORD));
                return None;
            }
            out.push(s as i64);
            i = i + 1;
        }
        let result = Vector { coords: out };
        proof {
            assert(result@ =~= goal);
        }
        Some(result)
    }

    /// Scale by the fixed-point scalar `s` (so `s == ONE` is the identity,
    /// up to truncation). `None` reports an exact result out of range.
    pub fn mul(&self, s: i64) -> (r: Option<Self>)
        requires
            self@.len() == N,
        ensures
            r is Some <==> coords_in_range(seq_scale(self@, s as int)),
            r matches Some(v) ==> v@ == seq_scale(self@, s as int),
    {
        let ghost goal = seq_scale(self@, s as int);
        let n = self.coords.len();
        let mut out: Vec<i64> = Vec::new();
        let mut i: usize = 0;
        while i < n
            invariant
                i <= n,
                n == self@.len(),
                n == N,
                goal == seq_scale(self@, s as int),
                out@.len() == i,
                forall|j: int| 0 <= j < i ==> #[trigger] out@[j] as int == goal[j],
                forall|j: int| 0 <= j < i ==> -MAX_COORD <= #[trigger] goal[j] <= MAX_COORD,
            decreases n - i,
        {
            let c = self.coords[i] as i128;
            proof {
                assert(c * (s as i128) < i128::MAX && c * (s as i128) > i128::MIN)
                    by (nonlinear_arith)
                    requires
                        i64::MIN <= c <= i64::MAX,
                        i64::MIN <= s as i128 <= i64::MAX,
                ;
            }
            let p = c * (s as i128);
            let q = tdiv_i128(p, ONE as i128);
            if q < -(MAX_COORD as i128) || q > MAX_COORD as i128 {
                assert(goal[i as int] == tdiv(self@[i as int] * s, ONE as int));
                assert(!(-MAX_COORD <= goal[i as int] <= MAX_COORD));
                return None;
            }
            out.push(q as i64);
            i = i + 1;
        }
        let result = Vector { coords: out };
        proof {
            assert(result@ =~= goal);
        }
        Some(result)
    }

    /// Divide by the fixed-point scalar `d`, truncating toward zero (for a
    /// negative divisor the quotient of each component equals that of the
    /// negated component by `-d`). Division by zero cannot produce a value,
    /// the integer counterpart of the non-finite components it yields in
    /// floating point, so it reports `None`, as does an exact result out of
    /// range.
    pub fn div(&self, d: i64) -> (r: Option<Self>)
        requires
            self@.len() == N,
        ensures
            d == 0 ==> r is None,
            d > 0 ==> (r is Some <==> coords_in_range(seq_div_scale(self@, d as int))),
            r matches Some(v) ==> d > 0 ==> v@ == seq_div_scale(self@, d as int),
            d < 0 ==> (r is Some <==> coords_in_range(
                seq_div_scale(seq_neg(self@), -(d as int)))),
            r matches Some(v) ==> d < 0 ==> v@ == seq_div_scale(seq_neg(self@), -(d as int)),
    {
        if d == 0 {
            return None;
        }
        let ghost goal = if d > 0 {
            seq_div_scale(self@, d as int)
        } else {
            seq_div_scale(seq_neg(self@), -(d as int))
        };
        let dd: i128 = if d > 0 {
            d as i128
        } else {
            -(d as i128)
        };
        let n = self.coords.len();
        let mut out: Vec<i64> = Vec::new();
        let mut i: usize = 0;
        while i < n
            invariant
                i <= n,
                n == self@.len(),
                n == N,
                d != 0,
                dd == if d > 0 { d as int } else { -(d as int) },
                dd >= 1,
                goal == if d > 0 {
                    seq_div_scale(self@, d as int)
                } else {
                    seq_div_scale(seq_neg(self@), -(d as int))
                },
                out@.len() == i,
                forall|j: int| 0 <= j < i ==> #[trigger] out@[j] as int == goal[j],
                forall|j: int| 0 <= j < i ==> -MAX_COORD <= #[trigger] goal[j] <= MAX_COORD,
            decreases n - i,
        {
            let c = self.coords[i] as i128;
            let cs: i128 = if d > 0 {
                c
            } else {
                -c
            };
            proof {
                assert(cs * (ONE as i128) < i128::MAX && cs * (ONE as i128) > i128::MIN)
                    by (nonlinear_arith)
                    requires
                        -(i64::MAX as i128) - 1 <= cs <= (i64::MAX as i128) + 1,
                        1 <= ONE as i128 <= i64::MAX as i128,
                ;
            }
            let p = cs * (ONE as i128);
            let q = tdiv_i128(p, dd);
            if q < -(MAX_COORD as i128) || q > MAX_COORD as i128 {
                proof {
                    if d > 0 {
                        assert(goal[i as int] == tdiv(self@[i as int] * ONE, d as int));
                    } else {
                        assert(seq_neg(self@)[i as int] == -self@[i as int]);
                        assert(goal[i as int] == tdiv(-self@[i as int] * ONE, -(d as int)));
                    }
                    assert(!(-MAX_COORD <= goal[i as int] <= MAX_COORD));
                }
                return None;
            }
            out.push(q as i64);
            i = i + 1;
        }
        let result = Vector { coords: out };
        proof {
            assert(result@ =~= goal);
        }
        Some(result)
    }
}

impl<const N: usize> Default for Vector<N> {
    /// The all-zero vector.
    fn default() -> (r: Self)
        ensures
            r@.len() == N,
            forall|i: int| 0 <= i < N ==> r@[i] == 0,
    {
        let mut coords: Vec<i64> = Vec::new();
        let mut i: usize = 0;
        while i < N
            invariant
                i <= N,
                coords@.len() == i,
                forall|j: int| 0 <= j < i ==> #[trigger] coords@[j] == 0i64,
            decreases N - i,
        {
            coords.push(0);
            i = i + 1;
        }
        Vector { coords }
    }
}

impl<const N: usize> PartialEq for Vector<N> {
    /// Two vectors are equal when their component sequences are.
    fn eq(&self, other: &Self) -> (r: bool) {
        if self.coords.len() != other.coords.len() {
            assert(self.coords@ != other.coords@);
            return false;
        }
        let n = self.coords.len();
        let mut i: usize = 0;
        while i < n
            invariant
                i <= n,
                n == self.coords@.len(),
                n == other.coords@.len(),
                forall|j: int| 0 <= j < i ==> #[trigger] self.coords@[j] == other.coords@[j],
            decreases n - i,
        {
            if self.coords[i] != other.coords[i] {
                assert(self.coords@ != other.coords@);
                return false;
            }
            i = i + 1;
        }
        proof {
            assert(self.coords@ =~= other.coords@);
        }
        true
    }
}

impl<const N: usize> vstd::std_specs::cmp::PartialEqSpecImpl for Vector<N> {
    open spec fn obeys_eq_spec() -> bool {
        true
    }

    open spec fn eq_spec(&self, other: &Self) -> bool {
        self.coords@ == other.coords@
    }
}

} // verus!
