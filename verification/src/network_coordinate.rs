//! One node's Vivaldi network coordinate: a height vector plus a confidence
//! value, with round-trip-time estimation and the Vivaldi update rule.
//!
//! The `error` field is the node's self-assessed uncertainty (larger means
//! less certain), kept in `[MIN_ERROR, MAX_ERROR]`: the floor prevents the
//! sample weight of future updates from degenerating, the cap is the machine
//! bound of the fixed-point range. `update` ingests one `(remote coordinate,
//! measured rtt)` sample at a time; samples with non-positive round-trip
//! times are rejected without touching any state — negative ones are
//! physically impossible and indicate a caller bug, and a zero sample admits
//! no relative error, so the chosen policy is to skip it rather than divide
//! by zero.

use vstd::prelude::*;
use crate::math::{ONE, MAX_COORD, MAX_DIM, MAX_LEN, tdiv};
use crate::vector::{coords_in_range, seq_add, seq_sub, seq_scale, seq_div_scale};
use crate::vector::{lemma_sum_sq_zero};
use crate::height_vector::{HeightVector, hv_len, lemma_unit_bounds};
use vstd::arithmetic::div_mod::{lemma_div_is_ordered, lemma_div_pos_is_pos,
    lemma_div_multiples_vanish};

verus! {

/// Floor of the error value: one fixed-point step. The error never reaches
/// zero, so the sample weight `error / (error + remote_error)` stays in
/// (0, 1).
pub const MIN_ERROR: i64 = 1;

/// Cap of the error value: the fixed-point validity bound.
pub const MAX_ERROR: i64 = MAX_COORD;

/// Error of a freshly created coordinate: 200 milliseconds, representing
/// maximal initial uncertainty.
pub const DEFAULT_ERROR: i64 = 200_000_000;

/// Clamp a computed error into `[MIN_ERROR, MAX_ERROR]`.
pub open spec fn clamp_error(e: int) -> int {
    if e < MIN_ERROR {
        MIN_ERROR as int
    } else if e > MAX_ERROR {
        MAX_ERROR as int
    } else {
        e
    }
}

/// The error moving average after one sample, clamped. With `s = ei + ej`
/// and `ad = |rtt - est|` this is the fixed-point counterpart of
/// `es*ce*w + ei*(1 - ce*w)` from the Vivaldi paper, where the sample weight
/// is `w = ei/s`, the relative sample error is `es = ad/rtt` (dimensionless,
/// so `es` carries the fixed-point scale `ONE`), and the tuning constant is
/// `ce = 1/4`; each quantity is truncated after its division:
///   `es = (ad * ONE) / rtt`, `t1 = (es * ei) / (4*s)`,
///   `t2 = (ei * (4*s - ei)) / (4*s)`.
pub open spec fn next_error(ei: int, ej: int, est: int, rtt: int) -> int {
    let s = ei + ej;
    let ad = if rtt >= est {
        rtt - est
    } else {
        est - rtt
    };
    let es = (ad * ONE) / rtt;
    let t1 = (es * ei) / (4 * s);
    let t2 = (ei * (4 * s - ei)) / (4 * s);
    clamp_error(t1 + t2)
}

/// The fixed-point motion factor `δ = cc * w`, with sample weight
/// `w = ei / (ei + ej)` and tuning constant `cc = 1/4`.
pub open spec fn delta_fp(ei: int, ej: int) -> int {
    (ei * ONE) / (4 * (ei + ej))
}

/// Error floor: whatever the sample, the error after an update never
/// reaches zero or below.
pub proof fn lemma_error_floor(ei: int, ej: int, est: int, rtt: int)
    ensures
        next_error(ei, ej, est, rtt) >= MIN_ERROR,
{
}

/// The motion factor lies in `[0, ONE/4]` for positive errors.
pub proof fn lemma_delta_bound(ei: int, ej: int)
    requires
        ei >= 1,
        ej >= 1,
    ensures
        0 <= delta_fp(ei, ej) <= ONE as int / 4,
{
    let s = ei + ej;
    assert(ei * ONE <= s * ONE) by (nonlinear_arith)
        requires
            0 <= ei <= s,
            ONE as int > 0,
    ;
    lemma_div_is_ordered(ei * ONE, s * ONE, 4 * s);
    assert(s * ONE == (4 * s) * (ONE as int / 4)) by (nonlinear_arith)
        requires
            ONE == 1_000_000i64,
    ;
    lemma_div_multiples_vanish(ONE as int / 4, 4 * s);
    assert(ei * ONE >= 0) by (nonlinear_arith)
        requires
            ei >= 0,
            ONE as int > 0,
    ;
    lemma_div_pos_is_pos(ei * ONE, 4 * s);
}

/// A node's network coordinate: its estimated position in latency space and
/// its confidence in that estimate.
#[derive(Clone, Debug)]
pub struct NetworkCoordinate<const N: usize> {
    /// The node's position, as a Vivaldi height vector.
    pub heightvec: HeightVector<N>,
    /// The node's error estimate, in `[MIN_ERROR, MAX_ERROR]`.
    pub error: i64,
}

/// A two-dimensional network coordinate.
pub type NetworkCoordinate2D = NetworkCoordinate<2>;

/// A three-dimensional network coordinate.
pub type NetworkCoordinate3D = NetworkCoordinate<3>;

impl<const N: usize> NetworkCoordinate<N> {
    /// Well-formedness: the position is a valid height vector and the error
    /// sits within its floor and cap. Every constructor establishes this and
    /// `update` preserves it.
    pub open spec fn wf(self) -> bool {
        &&& self.heightvec.is_valid_spec()
        &&& MIN_ERROR <= self.error <= MAX_ERROR
    }

    /// Height-vector distance between the two coordinates — the estimated
    /// round-trip time — for the exact difference.
    pub open spec fn est_spec(self, rhs: Self) -> int {
        hv_len(
            seq_sub(self.heightvec.position@, rhs.heightvec.position@),
            self.heightvec.height + rhs.heightvec.height,
        )
    }

    /// Position of the unit vector pointing from `rhs` to `self`.
    pub open spec fn unit_pos(self, rhs: Self) -> Seq<int> {
        seq_div_scale(
            seq_sub(self.heightvec.position@, rhs.heightvec.position@),
            self.est_spec(rhs),
        )
    }

    /// Height of the unit vector pointing from `rhs` to `self`.
    pub open spec fn unit_height(self, rhs: Self) -> int {
        tdiv((self.heightvec.height + rhs.heightvec.height) * ONE, self.est_spec(rhs))
    }

    /// Position of the displacement applied by one update: the unit
    /// direction scaled by the motion factor and then by the signed sample
    /// error `rtt - est`.
    pub open spec fn step_pos(self, rhs: Self, rtt: int) -> Seq<int> {
        seq_scale(
            seq_scale(self.unit_pos(rhs), delta_fp(self.error as int, rhs.error as int)),
            rtt - self.est_spec(rhs),
        )
    }

    /// Height of the displacement applied by one update.
    pub open spec fn step_height(self, rhs: Self, rtt: int) -> int {
        tdiv(
            tdiv(self.unit_height(rhs) * delta_fp(self.error as int, rhs.error as int), ONE as int)
                * (rtt - self.est_spec(rhs)),
            ONE as int,
        )
    }

    /// Position after one update, on the exact path.
    pub open spec fn new_pos(self, rhs: Self, rtt: int) -> Seq<int> {
        seq_add(self.heightvec.position@, self.step_pos(rhs, rtt))
    }

    /// Height after one update, on the exact path.
    pub open spec fn new_height(self, rhs: Self, rtt: int) -> int {
        self.heightvec.height + self.step_height(rhs, rtt)
    }

    /// The update's position computation stays exact: the difference is
    /// representable, its magnitude at least one unit (below that the unit
    /// direction is renormalized rather than given by the single exact
    /// quotient), and neither the displacement nor the moved position leaves
    /// the valid range. Outside these conditions some intermediate is healed
    /// into a random unit vector and the final position is only known to be
    /// a valid displacement or a fresh near-unit vector. In particular a
    /// negative sample error `rtt - est` flips the displacement's exact
    /// height product negative whenever the scaled unit direction has
    /// positive height, so such updates move the position by a random unit
    /// step instead — a documented consequence of healing every invalid
    /// intermediate.
    pub open spec fn step_exact(self, rhs: Self, rtt: int) -> bool {
        &&& self.heightvec.sub_ok(rhs.heightvec)
        &&& self.est_spec(rhs) >= ONE
        &&& coords_in_range(self.step_pos(rhs, rtt))
        &&& tdiv(self.unit_height(rhs) * delta_fp(self.error as int, rhs.error as int),
            ONE as int) * (rtt - self.est_spec(rhs)) >= 0
        &&& self.step_height(rhs, rtt) <= MAX_COORD
        &&& coords_in_range(self.new_pos(rhs, rtt))
        &&& self.new_height(rhs, rtt) <= MAX_COORD
    }

    /// A new coordinate: a random unit-length position with the default
    /// (maximal) error.
    pub fn new() -> (r: Self)
        requires
            1 <= N <= MAX_DIM,
        ensures
            r.wf(),
            r.heightvec.near_unit(),
            r.error == DEFAULT_ERROR,
    {
        Self::default()
    }

    /// Estimate the round-trip time to `rhs`: the height-vector distance
    /// between the two coordinates, in fixed-point steps (nanoseconds).
    pub fn estimated_rtt(&self, rhs: &Self) -> (r: i64)
        requires
            self.heightvec.dims_ok(),
            rhs.heightvec.dims_ok(),
        ensures
            0 <= r <= MAX_LEN,
            self.heightvec.sub_ok(rhs.heightvec) ==> r == self.est_spec(*rhs),
            !self.heightvec.sub_ok(rhs.heightvec) ==> ONE - 2 * (N as int) - 2 <= r <= ONE + 1,
    {
        let diff = self.heightvec.sub(&rhs.heightvec);
        diff.len()
    }

    /// Ingest one sample: the measured round-trip time to the node whose
    /// coordinate is `rhs`. Returns whether the sample was applied; samples
    /// with `rtt <= 0` are rejected and change nothing. On the exact path
    /// the error becomes `next_error` and the position moves by `step_pos` /
    /// `step_height`; whenever an intermediate leaves the valid range it is
    /// healed into a random unit vector. On every applied sample the final
    /// position is either the old one moved by a valid displacement (its
    /// height never shrinking) or a fresh near-unit vector.
    pub fn update(&mut self, rhs: &Self, rtt: i64) -> (applied: bool)
        requires
            old(self).wf(),
            rhs.wf(),
        ensures
            final(self).wf(),
            final(self).error >= MIN_ERROR,
            rtt <= 0 ==> *final(self) == *old(self) && !applied,
            rtt > 0 ==> applied,
            rtt > 0 && old(self).heightvec.sub_ok(rhs.heightvec) ==> final(self).error
                == next_error(old(self).error as int, rhs.error as int,
                    old(self).est_spec(*rhs), rtt as int),
            rtt > 0 && !old(self).heightvec.sub_ok(rhs.heightvec) ==> exists|e: int|
                0 <= e <= MAX_LEN && final(self).error == #[trigger] next_error(
                    old(self).error as int, rhs.error as int, e, rtt as int),
            rtt > 0 && old(self).step_exact(*rhs, rtt as int) ==> {
                &&& final(self).heightvec.position@ == old(self).new_pos(*rhs, rtt as int)
                &&& final(self).heightvec.height == old(self).new_height(*rhs, rtt as int)
            },
            rtt > 0 ==> (final(self).heightvec.near_unit() || (coords_in_range(
                seq_sub(final(self).heightvec.position@, old(self).heightvec.position@))
                && 0 <= final(self).heightvec.height - old(self).heightvec.height
                    <= MAX_COORD)),
    {
        if rtt <= 0 {
            return false;
        }
        let ghost a = *self;
        let est = self.estimated_rtt(rhs);
        let ei = self.error;
        let ej = rhs.error;
        let s = (ei as i128) + (ej as i128);

        // Error moving average, computed exactly in 128 bits.
        let dlt = rtt - est;
        let ad: u128 = if dlt >= 0 {
            dlt as u128
        } else {
            (-(dlt as i128)) as u128
        };
        proof {
            assert((ad as int) * (ONE as int) <= u128::MAX) by (nonlinear_arith)
                requires
                    0 <= ad as int <= i64::MAX + MAX_LEN,
                    ONE == 1_000_000i64,
                    MAX_LEN == 72_057_594_037_927_936i64,
            ;
        }
        // The relative sample error es = |rtt - est| / rtt, in fixed point.
        let es_fp = (ad * (ONE as u128)) / (rtt as u128);
        proof {
            let adi = ad as int;
            let o = ONE as int;
            if dlt >= 0 {
                // ad = rtt - est <= rtt, so es stays at or below 1.0
                assert(adi * o <= (rtt as int) * o) by (nonlinear_arith)
                    requires
                        0 <= adi <= rtt as int,
                        o > 0,
                ;
                lemma_div_is_ordered(adi * o, (rtt as int) * o, rtt as int);
                lemma_div_multiples_vanish(o, rtt as int);
                assert(es_fp as int <= o);
                assert(o <= (MAX_LEN as int) * o) by (nonlinear_arith)
                    requires
                        o >= 1,
                        MAX_LEN as int >= 1,
                ;
            } else {
                // ad = est - rtt <= est, and estimates are bounded by MAX_LEN
                assert(adi <= MAX_LEN as int);
                assert(adi * o <= (MAX_LEN as int) * o) by (nonlinear_arith)
                    requires
                        0 <= adi <= MAX_LEN as int,
                        o > 0,
                ;
                vstd::arithmetic::div_mod::lemma_div_is_ordered_by_denominator(adi * o, 1,
                    rtt as int);
                vstd::arithmetic::div_mod::lemma_div_basics_1(adi * o);
                lemma_div_is_ordered(adi * o, (MAX_LEN as int) * o, 1);
                assert(es_fp as int <= (MAX_LEN as int) * o);
            }
            assert((es_fp as int) * (ei as int) <= u128::MAX) by (nonlinear_arith)
                requires
                    0 <= es_fp as int <= (MAX_LEN as int) * (ONE as int),
                    0 <= ei as int <= MAX_ERROR as int,
                    MAX_ERROR == MAX_COORD,
                    MAX_COORD == 1_125_899_906_842_624i64,
                    MAX_LEN == 72_057_594_037_927_936i64,
                    ONE == 1_000_000i64,
            ;
            assert((ei as int) * (4 * (s as int) - ei as int) <= u128::MAX
                && 4 * (s as int) - ei as int > 0) by (nonlinear_arith)
                requires
                    1 <= ei as int <= s as int,
                    s as int <= 2 * (MAX_ERROR as int),
                    MAX_ERROR == MAX_COORD,
                    MAX_COORD == 1_125_899_906_842_624i64,
            ;
        }
        let den2 = 4u128 * (s as u128);
        let t1 = (es_fp * (ei as u128)) / den2;
        let t2 = ((ei as u128) * (den2 - (ei as u128))) / den2;
        proof {
            let num1 = es_fp as int * ei as int;
            let num2 = ei as int * (den2 as int - ei as int);
            lemma_div_pos_is_pos(num1, den2 as int);
            lemma_div_pos_is_pos(num2, den2 as int);
            vstd::arithmetic::div_mod::lemma_div_is_ordered_by_denominator(num1, 1, den2 as int);
            vstd::arithmetic::div_mod::lemma_div_basics_1(num1);
            vstd::arithmetic::div_mod::lemma_div_is_ordered_by_denominator(num2, 1, den2 as int);
            vstd::arithmetic::div_mod::lemma_div_basics_1(num2);
            assert(num1 + num2 <= u128::MAX) by (nonlinear_arith)
                requires
                    0 <= es_fp as int <= (MAX_LEN as int) * (ONE as int),
                    1 <= ei as int <= MAX_ERROR as int,
                    0 < den2 as int - ei as int,
                    den2 as int <= 8 * (MAX_ERROR as int),
                    MAX_ERROR == MAX_COORD,
                    MAX_COORD == 1_125_899_906_842_624i64,
                    MAX_LEN == 72_057_594_037_927_936i64,
                    ONE == 1_000_000i64,
                    num1 == es_fp as int * ei as int,
                    num2 == ei as int * (den2 as int - ei as int),
            ;
        }
        let sum = t1 + t2;
        let new_error: i64 = if sum < MIN_ERROR as u128 {
            MIN_ERROR
        } else if sum > MAX_ERROR as u128 {
            MAX_ERROR
        } else {
            sum as i64
        };
        proof {
            assert(new_error == clamp_error(t1 as int + t2 as int));
            assert(new_error == next_error(ei as int, ej as int, est as int, rtt as int));
        }

        // Motion factor δ = cc * w.
        proof {
            assert((ei as int) * (ONE as int) <= u128::MAX) by (nonlinear_arith)
                requires
                    0 <= ei as int <= MAX_ERROR as int,
                    MAX_ERROR == MAX_COORD,
                    MAX_COORD == 1_125_899_906_842_624i64,
                    ONE == 1_000_000i64,
            ;
        }
        let delta_w = ((ei as u128) * (ONE as u128)) / den2;
        proof {
            lemma_delta_bound(ei as int, ej as int);
            assert(delta_w as int == delta_fp(ei as int, ej as int));
        }
        let delta = delta_w as i64;

        // Move along the unit direction from rhs to self, scaled by δ and by
        // the signed sample error.
        let diff = self.heightvec.sub(&rhs.heightvec);
        let unit = diff.normalized();
        let m1 = unit.mul(delta);
        let m2 = m1.mul(dlt);
        let moved = self.heightvec.add(&m2);
        self.heightvec = moved;
        self.error = new_error;

        proof {
            if a.heightvec.sub_ok(rhs.heightvec) {
                assert(est == a.est_spec(*rhs));
                if a.step_exact(*rhs, rtt as int) {
                    let dpos = seq_sub(a.heightvec.position@, rhs.heightvec.position@);
                    let dh = a.heightvec.height + rhs.heightvec.height;
                    assert(diff.position@ == dpos && diff.height == dh);
                    assert(diff.len_spec() == a.est_spec(*rhs));
                    assert(diff.is_valid_spec() && diff.len_spec() >= ONE);
                    assert(unit.position@ == a.unit_pos(*rhs));
                    assert(unit.height == a.unit_height(*rhs));
                    lemma_unit_bounds(dpos, dh);
                    // unit.mul(delta) stays exact: components at most ONE/4.
                    let df = delta_fp(ei as int, ej as int);
                    assert forall|i: int| 0 <= i < unit.position@.len() implies
                        -MAX_COORD <= #[trigger] seq_scale(unit.position@, df)[i] <= MAX_COORD by {
                        let u = unit.position@[i];
                        assert(-(ONE as int) <= u <= ONE as int);
                        assert(-((ONE as int / 4) * (ONE as int)) <= u * df
                            <= (ONE as int / 4) * (ONE as int)) by (nonlinear_arith)
                            requires
                                -(ONE as int) <= u <= ONE as int,
                                0 <= df <= ONE as int / 4,
                                ONE == 1_000_000i64,
                        ;
                        crate::math::lemma_tdiv_bound(u * df, ONE as int, ONE as int / 4);
                    }
                    assert(0 <= tdiv(unit.height * df, ONE as int) <= MAX_COORD) by {
                        assert(-((ONE as int / 4) * (ONE as int)) <= unit.height * df
                            <= (ONE as int / 4) * (ONE as int)) by (nonlinear_arith)
                            requires
                                0 <= unit.height <= ONE as int,
                                0 <= df <= ONE as int / 4,
                                ONE == 1_000_000i64,
                        ;
                        crate::math::lemma_tdiv_bound(unit.height * df, ONE as int, ONE as int / 4);
                        assert(unit.height * df >= 0) by (nonlinear_arith)
                            requires
                                unit.height >= 0,
                                df >= 0,
                        ;
                        lemma_div_pos_is_pos(unit.height * df, ONE as int);
                    }
                    assert(unit.height * df >= 0) by (nonlinear_arith)
                        requires
                            unit.height >= 0,
                            df >= 0,
                    ;
                    assert(unit.mul_ok(df));
                    assert(m1.position@ == seq_scale(a.unit_pos(*rhs), df));
                    assert(m1.height == tdiv(a.unit_height(*rhs) * df, ONE as int));
                    // m1.mul(dlt) stays exact by the step_exact conditions.
                    assert(seq_scale(m1.position@, dlt as int) =~= a.step_pos(*rhs, rtt as int));
                    assert(tdiv(m1.height * dlt, ONE as int) == a.step_height(*rhs, rtt as int));
                    assert(m1.height * dlt >= 0);
                    assert(m1.mul_ok(dlt as int));
                    assert(m2.position@ == a.step_pos(*rhs, rtt as int));
                    assert(m2.height == a.step_height(*rhs, rtt as int));
                    assert(m2.height >= 0) by {
                        lemma_div_pos_is_pos(m1.height * dlt, ONE as int);
                    }
                    // the final addition stays exact likewise.
                    assert(seq_add(a.heightvec.position@, m2.position@)
                        =~= a.new_pos(*rhs, rtt as int));
                    assert(a.heightvec.add_ok(m2));
                    assert(moved.position@ == a.new_pos(*rhs, rtt as int));
                    assert(moved.height == a.new_height(*rhs, rtt as int));
                }
            } else {
                assert(0 <= est as int <= MAX_LEN
                    && final(self).error == next_error(ei as int, ej as int, est as int,
                        rtt as int));
            }
            // Whatever came back from the chain, the final position either
            // moved from the old one by a valid displacement (with the
            // height never shrinking) or was healed into a fresh near-unit
            // vector.
            if a.heightvec.add_ok(m2) {
                assert(seq_sub(self.heightvec.position@, a.heightvec.position@)
                    =~= m2.position@);
            } else {
                assert(self.heightvec.near_unit());
            }
        }
        true
    }

    /// Read this coordinate's error estimate.
    pub fn error(&self) -> (r: i64)
        ensures
            r == self.error,
    {
        self.error
    }

    /// Build a coordinate from its three logical parts — position
    /// components, height, error — revalidating each: an invalid position
    /// or height is healed into a fresh random unit vector exactly as the
    /// height-vector layer does, and the error is clamped into
    /// `[MIN_ERROR, MAX_ERROR]`. Well-formed parts are taken verbatim.
    pub fn from_parts(position: Vec<i64>, height: i64, error: i64) -> (r: Self)
        requires
            position@.len() == N,
            1 <= N <= MAX_DIM,
        ensures
            r.wf(),
            ((forall|i: int| 0 <= i < N ==> -MAX_COORD <= #[trigger] position@[i] <= MAX_COORD)
                && 0 <= height <= MAX_COORD) ==> {
                &&& r.heightvec.height == height
                &&& forall|i: int| 0 <= i < N ==> r.heightvec.position@[i] == position@[i]
            },
            !((forall|i: int| 0 <= i < N ==> -MAX_COORD <= #[trigger] position@[i] <= MAX_COORD)
                && 0 <= height <= MAX_COORD) ==> r.heightvec.near_unit(),
            r.error == clamp_error(error as int),
    {
        let hv = HeightVector::from(position, height);
        let e = if error < MIN_ERROR {
            MIN_ERROR
        } else if error > MAX_ERROR {
            MAX_ERROR
        } else {
            error
        };
        NetworkCoordinate { heightvec: hv, error: e }
    }

    /// Self-distance: the estimated round-trip time from a coordinate to
    /// itself is exactly twice its height — a packet traverses the access
    /// link at both ends even between coinciding positions — and hence zero
    /// exactly when the height is zero.
    pub proof fn lemma_self_estimate(a: Self)
        requires
            a.wf(),
            2 * a.heightvec.height <= MAX_COORD,
        ensures
            a.heightvec.sub_ok(a.heightvec),
            a.est_spec(a) == 2 * a.heightvec.height,
            a.heightvec.height == 0 ==> a.est_spec(a) == 0,
    {
        let z = seq_sub(a.heightvec.position@, a.heightvec.position@);
        assert(forall|i: int| 0 <= i < z.len() ==> #[trigger] z[i] == 0);
        lemma_sum_sq_zero(z);
        assert(crate::math::sqrt_floor(0) == 0);
    }

    /// Validation accepts every well-formed coordinate's parts unchanged:
    /// the position components and height of a well-formed coordinate pass
    /// revalidation, and its error is a fixed point of the clamp — so
    /// rebuilding a coordinate from its own parts reproduces it exactly.
    pub proof fn lemma_parts_of_wf_accepted(c: Self)
        requires
            c.wf(),
        ensures
            forall|i: int| 0 <= i < N ==>
                -MAX_COORD <= #[trigger] c.heightvec.position@[i] <= MAX_COORD,
            0 <= c.heightvec.height <= MAX_COORD,
            clamp_error(c.error as int) == c.error,
    {
    }
}

impl<const N: usize> Default for NetworkCoordinate<N> {
    /// A default coordinate has a random unit position and the default
    /// error. (For an unrepresentable dimension, which no caller of the
    /// verified interface can reach, it degrades to a zero position.)
    fn default() -> (r: Self)
        ensures
            1 <= N <= MAX_DIM ==> r.wf() && r.heightvec.near_unit(),
            r.error == DEFAULT_ERROR,
    {
        if N >= 1 && N <= MAX_DIM {
            NetworkCoordinate { heightvec: HeightVector::random(), error: DEFAULT_ERROR }
        } else {
            NetworkCoordinate { heightvec: HeightVector::default(), error: DEFAULT_ERROR }
        }
    }
}

} // verus!
