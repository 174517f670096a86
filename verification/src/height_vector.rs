//! The Vivaldi height vector: an `N`-dimensional Euclidean position plus a
//! non-negative height.
//!
//! The height models the "stem" latency from a node to the network core, so
//! the distance between two height vectors is the Euclidean distance between
//! the positions *plus both heights*; consequently subtraction sums the
//! heights, and the magnitude of a height vector is the norm of its position
//! plus its height.
//!
//! Every publicly observable height vector is valid: components within
//! [`MAX_COORD`], height in `[0, MAX_COORD]`. An arithmetic result that
//! leaves that range — the integer counterpart of a NaN or infinite float —
//! is healed by substituting a freshly drawn random unit vector, at the cost
//! of occasionally discarding a legitimate but degenerate update. The
//! contracts below say exactly when the exact result is kept.

use vstd::prelude::*;
use crate::math::{ONE, MAX_COORD, MAX_DIM, MAX_NORM, MAX_LEN};
use crate::math::{tdiv, sqrt_floor, tdiv_i128};
use crate::math::{lemma_sqrt_floor_of_square, lemma_sqrt_floor_monotone, lemma_tdiv_bound};
use crate::vector::{Vector, coords_in_range, seq_add, seq_sub, seq_scale, seq_div_scale, sum_sq};
use crate::vector::{lemma_sum_sq_element, lemma_sum_sq_nonneg};

verus! {

/// Relies on `rand::Rng::gen_range` over the half-open integer range
/// `lo..hi`: the result lies in the range; the call panics only on an empty
/// range, which the precondition rules out.
#[verifier::external_body]
fn sample_in_range(lo: i64, hi: i64) -> (r: i64)
    requires
        lo < hi,
    ensures
        lo <= r < hi,
{
    let mut rng = rand::thread_rng();
    rand::Rng::gen_range(&mut rng, lo..hi)
}

/// The height-vector magnitude: Euclidean norm of the position plus the
/// height. The height is additive, not a geometric dimension.
pub open spec fn hv_len(pos: Seq<int>, h: int) -> int {
    sqrt_floor(sum_sq(pos)) + h
}

/// Normalizing an in-range vector with non-negative height and positive
/// magnitude yields components within one fixed-point unit and a height in
/// `[0, ONE]`; in particular the exact normalized value is always valid.
pub proof fn lemma_unit_bounds(pos: Seq<int>, h: int)
    requires
        coords_in_range(pos),
        0 <= h,
        hv_len(pos, h) > 0,
    ensures
        forall|i: int| 0 <= i < pos.len() ==>
            -(ONE as int) <= #[trigger] seq_div_scale(pos, hv_len(pos, h))[i] <= ONE as int,
        0 <= tdiv(h * ONE, hv_len(pos, h)) <= ONE as int,
{
    let l = hv_len(pos, h);
    lemma_sum_sq_nonneg(pos);
    crate::math::lemma_sqrt_floor_bounds(sum_sq(pos));
    assert forall|i: int| 0 <= i < pos.len() implies
        -(ONE as int) <= #[trigger] seq_div_scale(pos, l)[i] <= ONE as int by {
        let c = pos[i];
        lemma_sum_sq_element(pos, i);
        lemma_sqrt_floor_of_square(c);
        lemma_sqrt_floor_monotone(c * c, sum_sq(pos));
        assert(-l <= c <= l);
        assert(-(ONE as int * l) <= c * ONE <= ONE as int * l) by (nonlinear_arith)
            requires
                -l <= c <= l,
                l > 0,
                ONE as int > 0,
        ;
        lemma_tdiv_bound(c * ONE, l, ONE as int);
        assert(seq_div_scale(pos, l)[i] == tdiv(c * ONE, l));
    }
    assert(h <= l);
    assert(-(ONE as int * l) <= h * ONE <= ONE as int * l) by (nonlinear_arith)
        requires
            0 <= h <= l,
            l > 0,
            ONE as int > 0,
    ;
    lemma_tdiv_bound(h * ONE, l, ONE as int);
    assert(h * ONE >= 0) by (nonlinear_arith)
        requires
            h >= 0,
            ONE as int > 0,
    ;
    vstd::arithmetic::div_mod::lemma_div_pos_is_pos(h * ONE, l);
}

/// The magnitude of an exactly normalized vector sits in the truncation band
/// of one unit: with `n` components, the `n` component truncations and the
/// two square-root floors (before and after scaling) cost at most `2n + 2`
/// steps below `ONE`, while the sub-step remainder of the original magnitude
/// `l`, scaled up by `ONE / l`, adds strictly less than one further unit —
/// at most one step once `l` reaches half a unit, and nothing from one unit
/// up.
pub proof fn lemma_normalized_near_unit(pos: Seq<int>, h: int)
    requires
        0 <= h,
        hv_len(pos, h) > 0,
    ensures
        ONE - 2 * (pos.len() as int) - 2
            <= hv_len(seq_div_scale(pos, hv_len(pos, h)), tdiv(h * ONE, hv_len(pos, h))),
        hv_len(seq_div_scale(pos, hv_len(pos, h)), tdiv(h * ONE, hv_len(pos, h))) < 2 * ONE,
        2 * hv_len(pos, h) >= ONE ==> hv_len(
            seq_div_scale(pos, hv_len(pos, h)),
            tdiv(h * ONE, hv_len(pos, h)),
        ) <= ONE + 1,
        hv_len(pos, h) >= ONE ==> hv_len(
            seq_div_scale(pos, hv_len(pos, h)),
            tdiv(h * ONE, hv_len(pos, h)),
        ) <= ONE as int,
{
    let k = ONE as int;
    let n = pos.len() as int;
    let ssp = sum_sq(pos);
    let sf = sqrt_floor(ssp);
    let l = hv_len(pos, h);
    let rs = seq_div_scale(pos, l);
    let ssr = sum_sq(rs);
    let s2 = sqrt_floor(ssr);
    let rh = tdiv(h * ONE, l);
    lemma_sum_sq_nonneg(pos);
    crate::math::lemma_sqrt_floor_bounds(ssp);
    assert forall|i: int| 0 <= i < pos.len() implies -sf <= #[trigger] pos[i] <= sf by {
        lemma_sum_sq_element(pos, i);
        lemma_sqrt_floor_of_square(pos[i]);
        lemma_sqrt_floor_monotone(pos[i] * pos[i], ssp);
    }
    crate::vector::lemma_div_scale_sum_sq(pos, l, sf);
    lemma_sum_sq_nonneg(rs);
    crate::math::lemma_sqrt_floor_bounds(ssr);
    // The height scales to l*rh within [h*k - l + 1, h*k].
    assert(h * k >= 0) by (nonlinear_arith)
        requires
            h >= 0,
            k >= 1,
    ;
    assert(rh == (h * k) / l);
    vstd::arithmetic::div_mod::lemma_fundamental_div_mod(h * k, l);
    vstd::arithmetic::div_mod::lemma_mod_bound(h * k, l);
    assert(l * rh <= h * k && l * rh >= h * k - l + 1);
    vstd::arithmetic::div_mod::lemma_div_pos_is_pos(h * k, l);
    assert(k * sf + h * k == k * l) by (nonlinear_arith)
        requires
            l == sf + h,
    ;
    // Upper bound: l * s2 <= k*sf + k - 1, hence the magnitude stays under
    // two units.
    assert((l * s2) * (l * s2) == l * l * (s2 * s2)) by (nonlinear_arith);
    assert(l * l * (s2 * s2) <= l * l * ssr) by (nonlinear_arith)
        requires
            s2 * s2 <= ssr,
            l >= 1,
    ;
    assert(k * k * ssp <= (k * (sf + 1)) * (k * (sf + 1)) - 1) by (nonlinear_arith)
        requires
            ssp <= (sf + 1) * (sf + 1) - 1,
            k >= 1,
    ;
    assert(l * s2 < k * (sf + 1)) by (nonlinear_arith)
        requires
            (l * s2) * (l * s2) < (k * (sf + 1)) * (k * (sf + 1)),
            l * s2 >= 0,
            k * (sf + 1) >= 0,
    ;
    assert(k * (sf + 1) == k * sf + k) by (nonlinear_arith);
    assert(l * (s2 + rh) == l * s2 + l * rh) by (nonlinear_arith);
    assert(l * (s2 + rh) <= k * l + k - 1) by (nonlinear_arith)
        requires
            l * s2 <= k * sf + k - 1,
            l * rh <= h * k,
            k * sf + h * k == k * l,
            l * (s2 + rh) == l * s2 + l * rh,
    ;
    assert(k * l + k - 1 <= l * (2 * k - 1)) by (nonlinear_arith)
        requires
            l >= 1,
            k >= 1,
    ;
    assert(s2 + rh < 2 * k) by (nonlinear_arith)
        requires
            l * (s2 + rh) <= l * (2 * k - 1),
            l >= 1,
    ;
    if 2 * l >= k {
        assert(s2 + rh <= k + 1) by (nonlinear_arith)
            requires
                l * (s2 + rh) <= k * l + k - 1,
                2 * l >= k,
                l >= 1,
        ;
    }
    if l >= k {
        assert(s2 + rh <= k) by (nonlinear_arith)
            requires
                l * (s2 + rh) <= k * l + k - 1,
                l >= k,
                k >= 1,
        ;
    }
    // Lower bound: l * s2 >= k*sf - 2*l*n - l + 1, hence the magnitude loses
    // at most 2n + 2 steps.
    let d = k * sf - 2 * l * n;
    assert(k * k * ssp >= (k * sf) * (k * sf)) by (nonlinear_arith)
        requires
            ssp >= sf * sf,
            k >= 1,
    ;
    assert(2 * l * ONE * n * sf == 2 * l * k * n * sf) by (nonlinear_arith)
        requires
            k == ONE as int,
    ;
    if d >= 0 {
        assert((k * sf) * (k * sf) - 2 * l * k * n * sf == d * d + 2 * l * n * d)
            by (nonlinear_arith)
            requires
                d == k * sf - 2 * l * n,
        ;
        assert(2 * l * n * d >= 0) by (nonlinear_arith)
            requires
                l >= 0,
                n >= 0,
                d >= 0,
        ;
        assert((l * (s2 + 1)) * (l * (s2 + 1)) == l * l * ((s2 + 1) * (s2 + 1)))
            by (nonlinear_arith);
        assert(l * l * ((s2 + 1) * (s2 + 1)) >= l * l * (ssr + 1)) by (nonlinear_arith)
            requires
                (s2 + 1) * (s2 + 1) >= ssr + 1,
                l >= 1,
        ;
        assert(l * l * (ssr + 1) == l * l * ssr + l * l) by (nonlinear_arith);
        assert(l * l >= 1) by (nonlinear_arith)
            requires
                l >= 1,
        ;
        assert(l * (s2 + 1) > d) by (nonlinear_arith)
            requires
                (l * (s2 + 1)) * (l * (s2 + 1)) > d * d,
                l * (s2 + 1) >= 0,
                d >= 0,
        ;
        assert(l * (s2 + 1) == l * s2 + l) by (nonlinear_arith);
        assert(l * s2 >= d - l + 1);
    } else {
        assert(l * s2 >= 0) by (nonlinear_arith)
            requires
                l >= 1,
                s2 >= 0,
        ;
        assert(l * s2 >= d - l + 1);
    }
    assert(l * (s2 + rh) >= l * (k - 2 * n - 2) + 2) by (nonlinear_arith)
        requires
            l * rh >= h * k - l + 1,
            k * sf + h * k == k * l,
            l * (s2 + rh) == l * s2 + l * rh,
            d == k * sf - 2 * l * n,
            l * s2 >= d - l + 1,
    ;
    assert(s2 + rh >= k - 2 * n - 2) by (nonlinear_arith)
        requires
            l * (s2 + rh) >= l * (k - 2 * n - 2) + 2,
            l >= 1,
    ;
}

/// A Euclidean position together with a non-negative height.
#[derive(Clone, Debug)]
pub struct HeightVector<const N: usize> {
    /// Position in the network's latency space.
    pub position: Vector<N>,
    /// Stem latency: the time to get from the node into the network core.
    pub height: i64,
}

impl<const N: usize> HeightVector<N> {
    /// The dimension is representable and the position really has `N`
    /// components.
    pub open spec fn dims_ok(self) -> bool {
        &&& 1 <= N <= MAX_DIM
        &&& self.position@.len() == N
    }

    /// Validity: dimensions as declared, every component within the bound,
    /// height finite-range and non-negative.
    pub open spec fn is_valid_spec(self) -> bool {
        &&& self.dims_ok()
        &&& coords_in_range(self.position@)
        &&& 0 <= self.height <= MAX_COORD
    }

    /// Magnitude of this height vector.
    pub open spec fn len_spec(self) -> int {
        hv_len(self.position@, self.height as int)
    }

    /// Magnitude within the truncation band of one unit, which every fresh
    /// random vector, every healed result, and every normalized vector lies
    /// in: normalization rounds each of the `N` components and the two
    /// square roots down (at most `2N + 2` steps below `ONE`), and overshoots
    /// by at most one step (a magnitude below one unit is normalized twice,
    /// which brings the overshoot of the first pass back down).
    pub open spec fn near_unit(self) -> bool {
        ONE - 2 * (N as int) - 2 <= self.len_spec() <= ONE + 1
    }

    /// The exact sum stays representable.
    pub open spec fn add_ok(self, rhs: Self) -> bool {
        &&& coords_in_range(seq_add(self.position@, rhs.position@))
        &&& 0 <= self.height + rhs.height <= MAX_COORD
    }

    /// The exact difference stays representable (heights still sum).
    pub open spec fn sub_ok(self, rhs: Self) -> bool {
        &&& coords_in_range(seq_sub(self.position@, rhs.position@))
        &&& 0 <= self.height + rhs.height <= MAX_COORD
    }

    /// The exact scaling stays representable and the exact height product is
    /// non-negative. A negative factor on a positive height always fails
    /// this and heals into a fresh random vector, exactly as a negative
    /// height does elsewhere.
    pub open spec fn mul_ok(self, s: int) -> bool {
        &&& coords_in_range(seq_scale(self.position@, s))
        &&& self.height * s >= 0
        &&& tdiv(self.height * s, ONE as int) <= MAX_COORD
    }

    /// A new height vector is a random unit-length vector.
    pub fn new() -> (r: Self)
        requires
            1 <= N <= MAX_DIM,
        ensures
            r.is_valid_spec(),
            r.near_unit(),
    {
        Self::random()
    }

    /// A random unit-length height vector: each position component drawn
    /// uniformly from half a unit on either side of zero, the height drawn
    /// non-negative below one unit, and the draw normalized. This is the
    /// universal fallback whenever validity cannot be established.
    pub fn random() -> (r: Self)
        requires
            1 <= N <= MAX_DIM,
        ensures
            r.is_valid_spec(),
            r.near_unit(),
    {
        Self::fresh_random()
    }

    /// The body of `random`, kept separate so that `normalized` can fall
    /// back to it without forming a call cycle.
    fn fresh_random() -> (r: Self)
        requires
            1 <= N <= MAX_DIM,
        ensures
            r.is_valid_spec(),
            r.near_unit(),
    {
        let mut coords: Vec<i64> = Vec::new();
        let mut i: usize = 0;
        while i < N
            invariant
                i <= N,
                coords@.len() == i,
                forall|j: int| 0 <= j < i ==> -500_000 <= #[trigger] coords@[j] <= 500_000,
            decreases N - i,
        {
            coords.push(sample_in_range(-500_000, 500_000));
            i = i + 1;
        }
        let position = Vector::from(coords);
        let height = sample_in_range(0, ONE);
        let candidate = HeightVector { position, height };
        proof {
            assert forall|j: int| 0 <= j < N implies
                -MAX_COORD <= #[trigger] candidate.position@[j] <= MAX_COORD by {
                assert(candidate.position@[j] == coords@[j]);
            }
        }
        let l = candidate.len();
        if l == 0 {
            // A degenerate draw (all zeroes) cannot be normalized; fall back
            // to the unit vector that is pure height.
            let r = HeightVector { position: Vector::default(), height: ONE };
            proof {
                assert forall|j: int| 0 <= j < N implies
                    -MAX_COORD <= #[trigger] r.position@[j] <= MAX_COORD by {}
                crate::vector::lemma_sum_sq_zero(r.position@);
                assert(sqrt_floor(0) == 0);
                assert(r.len_spec() == ONE);
            }
            r
        } else {
            candidate.unit_of()
        }
    }

    /// Magnitude: norm of the position plus the height.
    pub fn len(&self) -> (r: i64)
        requires
            self.is_valid_spec(),
        ensures
            r == self.len_spec(),
            0 <= r <= MAX_LEN,
    {
        let n = self.position.len();
        assert(MAX_NORM + MAX_COORD <= MAX_LEN);
        n + self.height
    }

    /// Scale position and height by the reciprocal of the magnitude, in one
    /// exact pass, for a vector already known valid with positive magnitude.
    /// The result is proved valid, so no healing is needed on this path; its
    /// magnitude loses at most `2N + 2` truncation steps below one unit, and
    /// exceeds one unit by at most one step once the input magnitude reaches
    /// half a unit — and not at all from one unit up.
    fn normalized_positive(&self) -> (r: Self)
        requires
            self.is_valid_spec(),
            self.len_spec() > 0,
        ensures
            r.is_valid_spec(),
            r.position@ == seq_div_scale(self.position@, self.len_spec()),
            r.height == tdiv(self.height * ONE, self.len_spec()),
            ONE - 2 * (N as int) - 2 <= r.len_spec() < 2 * ONE,
            2 * self.len_spec() >= ONE ==> r.len_spec() <= ONE + 1,
            self.len_spec() >= ONE ==> r.len_spec() <= ONE as int,
    {
        let l = self.len();
        let ghost pos = self.position@;
        let ghost li = l as int;
        proof {
            lemma_unit_bounds(pos, self.height as int);
            lemma_normalized_near_unit(pos, self.height as int);
            assert(forall|i: int| 0 <= i < pos.len() ==>
                -MAX_COORD <= #[trigger] seq_div_scale(pos, li)[i] <= MAX_COORD);
            assert((self.height as i128) * (ONE as i128) <= i128::MAX
                && (self.height as i128) * (ONE as i128) > i128::MIN) by (nonlinear_arith)
                requires
                    0 <= self.height as i128 <= MAX_COORD as i128,
                    ONE as i128 == 1_000_000,
            ;
        }
        let p = match self.position.div(l) {
            Some(p) => p,
            None => vstd::pervasive::unreached(),
        };
        let h = tdiv_i128((self.height as i128) * (ONE as i128), l as i128);
        HeightVector { position: p, height: h as i64 }
    }

    /// Scale a valid vector of positive magnitude to unit length. A
    /// magnitude of at least one unit carries enough steps that a single
    /// exact pass lands in the unit band; below one unit the first pass can
    /// overshoot (its truncation error is magnified by `ONE / l`), so the
    /// result is normalized a second time, which brings it into the band.
    fn unit_of(&self) -> (r: Self)
        requires
            self.is_valid_spec(),
            self.len_spec() > 0,
        ensures
            r.is_valid_spec(),
            r.near_unit(),
            self.len_spec() >= ONE ==> {
                &&& r.position@ == seq_div_scale(self.position@, self.len_spec())
                &&& r.height == tdiv(self.height * ONE, self.len_spec())
            },
    {
        let l = self.len();
        let r1 = self.normalized_positive();
        if l >= ONE {
            r1
        } else {
            proof {
                assert(2 * r1.len_spec() >= ONE);
            }
            r1.normalized_positive()
        }
    }

    /// A normalized height vector: the vector scaled by the reciprocal of
    /// its magnitude, landing within the unit band; a magnitude below one
    /// unit is scaled twice, since one truncating pass would overshoot. A
    /// vector with zero magnitude, or an invalid one, normalizes to a fresh
    /// random unit vector instead.
    pub fn normalized(&self) -> (r: Self)
        requires
            1 <= N <= MAX_DIM,
        ensures
            r.is_valid_spec(),
            r.near_unit(),
            self.is_valid_spec() && self.len_spec() >= ONE ==> {
                &&& r.position@ == seq_div_scale(self.position@, self.len_spec())
                &&& r.height == tdiv(self.height * ONE, self.len_spec())
            },
    {
        if !self.is_valid() {
            return Self::fresh_random();
        }
        let l = self.len();
        if l == 0 {
            Self::fresh_random()
        } else {
            self.unit_of()
        }
    }

    /// True when this height vector is valid.
    pub fn is_valid(&self) -> (r: bool)
        ensures
            r == self.is_valid_spec(),
    {
        !self.is_invalid()
    }

    /// True when this height vector is invalid: wrong dimension, a component
    /// out of range, or a height that is negative or out of range.
    pub fn is_invalid(&self) -> (r: bool)
        ensures
            r == !self.is_valid_spec(),
    {
        if N < 1 || N > MAX_DIM || self.position.coords.len() != N {
            return true;
        }
        if self.position.is_invalid() {
            return true;
        }
        self.height < 0 || self.height > MAX_COORD
    }

    /// Build from raw components and height, revalidating: an invalid input
    /// is replaced by a fresh random unit vector, exactly like an invalid
    /// arithmetic result.
    pub fn from(position: Vec<i64>, height: i64) -> (r: Self)
        requires
            position@.len() == N,
            1 <= N <= MAX_DIM,
        ensures
            r.is_valid_spec(),
            ((forall|i: int| 0 <= i < N ==> -MAX_COORD <= #[trigger] position@[i] <= MAX_COORD)
                && 0 <= height <= MAX_COORD) ==> {
                &&& r.height == height
                &&& forall|i: int| 0 <= i < N ==> r.position@[i] == position@[i]
            },
            !((forall|i: int| 0 <= i < N ==> -MAX_COORD <= #[trigger] position@[i] <= MAX_COORD)
                && 0 <= height <= MAX_COORD) ==> r.near_unit(),
    {
        let ghost raw = position@;
        let v = Vector::from(position);
        let candidate = HeightVector { position: v, height };
        proof {
            assert(forall|i: int| 0 <= i < N ==> candidate.position@[i] == raw[i]);
        }
        if candidate.is_valid() {
            proof {
                assert forall|i: int| 0 <= i < N implies
                    -MAX_COORD <= #[trigger] raw[i] <= MAX_COORD by {
                    assert(candidate.position@[i] == raw[i]);
                }
            }
            candidate
        } else {
            proof {
                if (forall|i: int| 0 <= i < N ==> -MAX_COORD <= #[trigger] raw[i] <= MAX_COORD)
                    && 0 <= height <= MAX_COORD {
                    assert forall|i: int| 0 <= i < candidate.position@.len() implies
                        -MAX_COORD <= #[trigger] candidate.position@[i] <= MAX_COORD by {
                        assert(candidate.position@[i] == raw[i]);
                    }
                    assert(candidate.is_valid_spec());
                }
            }
            Self::fresh_random()
        }
    }

    /// Height-vector addition: positions and heights both add. A result out
    /// of range is healed into a fresh random unit vector.
    pub fn add(&self, rhs: &Self) -> (r: Self)
        requires
            self.dims_ok(),
            rhs.dims_ok(),
        ensures
            r.is_valid_spec(),
            self.add_ok(*rhs) ==> {
                &&& r.position@ == seq_add(self.position@, rhs.position@)
                &&& r.height == self.height + rhs.height
            },
            !self.add_ok(*rhs) ==> r.near_unit(),
    {
        let p = self.position.add(&rhs.position);
        let hs = (self.height as i128) + (rhs.height as i128);
        match p {
            Some(p) if hs >= 0 && hs <= MAX_COORD as i128 => {
                HeightVector { position: p, height: hs as i64 }
            },
            _ => Self::fresh_random(),
        }
    }

    /// Height-vector subtraction: positions subtract but heights still sum —
    /// a packet must traverse both endpoints' access links in either
    /// direction. A result out of range is healed into a fresh random unit
    /// vector.
    pub fn sub(&self, rhs: &Self) -> (r: Self)
        requires
            self.dims_ok(),
            rhs.dims_ok(),
        ensures
            r.is_valid_spec(),
            self.sub_ok(*rhs) ==> {
                &&& r.position@ == seq_sub(self.position@, rhs.position@)
                &&& r.height == self.height + rhs.height
            },
            !self.sub_ok(*rhs) ==> r.near_unit(),
    {
        let p = self.position.sub(&rhs.position);
        let hs = (self.height as i128) + (rhs.height as i128);
        match p {
            Some(p) if hs >= 0 && hs <= MAX_COORD as i128 => {
                HeightVector { position: p, height: hs as i64 }
            },
            _ => Self::fresh_random(),
        }
    }

    /// Scale by the fixed-point factor `s`: position and height both scale.
    /// A result out of range — in particular any negative factor applied to
    /// a positive height, whose exact height product turns negative — is
    /// healed into a fresh random unit vector.
    pub fn mul(&self, s: i64) -> (r: Self)
        requires
            self.dims_ok(),
        ensures
            r.is_valid_spec(),
            self.mul_ok(s as int) ==> {
                &&& r.position@ == seq_scale(self.position@, s as int)
                &&& r.height == tdiv(self.height * s, ONE as int)
            },
            !self.mul_ok(s as int) ==> r.near_unit(),
    {
        let p = self.position.mul(s);
        proof {
            assert((self.height as i128) * (s as i128) <= i128::MAX
                && (self.height as i128) * (s as i128) > i128::MIN) by (nonlinear_arith)
                requires
                    i64::MIN <= self.height as i128 <= i64::MAX,
                    i64::MIN <= s as i128 <= i64::MAX,
            ;
        }
        let hp = (self.height as i128) * (s as i128);
        let hm = tdiv_i128(hp, ONE as i128);
        proof {
            if hp >= 0 {
                vstd::arithmetic::div_mod::lemma_div_pos_is_pos(hp as int, ONE as int);
            }
        }
        match p {
            Some(p) if hp >= 0 && hm <= MAX_COORD as i128 => {
                HeightVector { position: p, height: hm as i64 }
            },
            _ => Self::fresh_random(),
        }
    }
}

impl<const N: usize> Default for HeightVector<N> {
    /// The zero height vector: zero position, zero height.
    fn default() -> (r: Self)
        ensures
            r.height == 0,
            r.position@.len() == N,
            forall|i: int| 0 <= i < N ==> r.position@[i] == 0,
            1 <= N <= MAX_DIM ==> r.is_valid_spec(),
    {
        HeightVector { position: Vector::default(), height: 0 }
    }
}

} // verus!
