//! Tests of the coordinate layer: convergence of the Vivaldi update rule,
//! round-trip-time estimation, sample rejection and the error floor. One
//! millisecond is 1_000_000 fixed-point steps (i.e. one step per nanosecond).

use vivaldi_nc::NetworkCoordinate;

const MS: i64 = 1_000_000;

#[test]
fn test_convergence() {
    let mut a = NetworkCoordinate::<3>::new();
    let mut b = NetworkCoordinate::<3>::new();
    let t: i64 = 250 * MS;
    for _ in 0..20 {
        a.update(&b, t);
        b.update(&a, t);
    }
    let rtt = a.estimated_rtt(&b);
    assert!(
        (rtt - 250 * MS).abs() <= MS,
        "expected about 250 ms, got {rtt}"
    );
}

#[test]
fn test_mini_network() {
    // a little network:
    //
    // slc has 80ms stem time to core entry Seattle
    // nyc has 30ms stem time to core entry Virginia
    // lax has 15ms stem time to core entry Los Angeles
    // mad has 60ms stem time to core entry London
    //
    // core RTTs (ms): Seattle-Virginia 52, Seattle-LA 20, Seattle-London 102,
    // Virginia-LA 50, Virginia-London 78, LA-London 116.
    //
    // routes (stem + core + stem, in ms):
    // slc-nyc = 80 + 52 + 30 = 162
    // slc-lax = 80 + 20 + 15 = 115
    // slc-mad = 80 + 102 + 60 = 242
    // nyc-lax = 30 + 50 + 15 = 95
    // nyc-mad = 30 + 78 + 60 = 168
    // lax-mad = 15 + 116 + 60 = 192
    let mut slc = NetworkCoordinate::<2>::new();
    let mut nyc = NetworkCoordinate::<2>::new();
    let mut lax = NetworkCoordinate::<2>::new();
    let mut mad = NetworkCoordinate::<2>::new();

    // verify the initial error: each starts at 200 ms
    let ms = |x: i64| x as f64 / MS as f64;
    let error = ms(slc.error()).hypot(ms(nyc.error()).hypot(ms(lax.error()).hypot(ms(mad.error()))));
    assert!((error - 400.0).abs() < 1e-6);

    // iterate plenty of times to converge and minimize error
    for _ in 0..20 {
        slc.update(&nyc, 162 * MS);
        nyc.update(&slc, 162 * MS);

        slc.update(&lax, 115 * MS);
        lax.update(&slc, 115 * MS);

        slc.update(&mad, 242 * MS);
        mad.update(&slc, 242 * MS);

        nyc.update(&lax, 95 * MS);
        lax.update(&nyc, 95 * MS);

        nyc.update(&mad, 168 * MS);
        mad.update(&nyc, 168 * MS);

        lax.update(&mad, 192 * MS);
        mad.update(&lax, 192 * MS);
    }

    // the summed error should have dropped well below 5 ms
    let error = slc.error() + nyc.error() + lax.error() + mad.error();
    assert!(error < 5 * MS, "summed error still {error}");
}

#[test]
fn test_estimated_rtt() {
    // positions 1.5/0.5/2.0 ms and -1.5/-0.5/-2.0 ms, heights 25 ms and
    // 50 ms: distance = sqrt(26) + 75 = 80.099019... ms
    let a =
        NetworkCoordinate::<3>::from_parts(vec![1_500_000, 500_000, 2_000_000], 25 * MS, 1 * MS);
    let b = NetworkCoordinate::<3>::from_parts(
        vec![-1_500_000, -500_000, -2_000_000],
        50 * MS,
        1 * MS,
    );
    let estimate = a.estimated_rtt(&b);
    assert_eq!(estimate, 80_099_019);
}

#[test]
fn test_error_getter() {
    let a =
        NetworkCoordinate::<3>::from_parts(vec![1_500_000, 500_000, 2_000_000], 25 * MS, 1 * MS);
    assert_eq!(a.error(), 1 * MS);
}

#[test]
fn test_parts_round_trip() {
    // the values of the interchange encoding {"position":[1.5,0.5,2.0],
    // "height":0.1,"error":1.0}: rebuilding a coordinate from its own three
    // logical parts reproduces every field exactly
    let a = NetworkCoordinate::<3>::from_parts(vec![1_500_000, 500_000, 2_000_000], 100_000, 1 * MS);
    assert_eq!(a.heightvec.len(), 2_649_509);
    assert_eq!(a.error(), 1 * MS);
    assert_eq!(a.estimated_rtt(&a) / MS, 0);

    let b = NetworkCoordinate::<3>::from_parts(
        vec![
            a.heightvec.position.index(0),
            a.heightvec.position.index(1),
            a.heightvec.position.index(2),
        ],
        a.heightvec.height,
        a.error(),
    );
    assert_eq!(b.heightvec.position, a.heightvec.position);
    assert_eq!(b.heightvec.height, a.heightvec.height);
    assert_eq!(b.error(), a.error());
}

#[test]
fn test_self_distance() {
    // with zero height, the estimated rtt from a coordinate to itself is
    // exactly zero
    let a = NetworkCoordinate::<2>::from_parts(vec![7 * MS, -3 * MS], 0, 5 * MS);
    assert_eq!(a.estimated_rtt(&a), 0);

    // with a positive height it is exactly twice the height: the packet
    // traverses the access link at both ends
    let b = NetworkCoordinate::<2>::from_parts(vec![7 * MS, -3 * MS], 25 * MS, 5 * MS);
    assert_eq!(b.estimated_rtt(&b), 50 * MS);
}

#[test]
fn test_negative_rtt_rejected() {
    let mut a =
        NetworkCoordinate::<3>::from_parts(vec![1_500_000, 500_000, 2_000_000], 25 * MS, 1 * MS);
    let b = NetworkCoordinate::<3>::new();
    let pos_before = a.heightvec.position.clone();
    let height_before = a.heightvec.height;
    let error_before = a.error();

    let applied = a.update(&b, -5);
    assert!(!applied);
    assert_eq!(a.heightvec.position, pos_before);
    assert_eq!(a.heightvec.height, height_before);
    assert_eq!(a.error(), error_before);
}

#[test]
fn test_zero_rtt_skipped() {
    // a zero sample admits no relative error; the chosen policy skips it
    let mut a =
        NetworkCoordinate::<3>::from_parts(vec![1_500_000, 500_000, 2_000_000], 25 * MS, 1 * MS);
    let b = NetworkCoordinate::<3>::new();
    let pos_before = a.heightvec.position.clone();
    let error_before = a.error();

    let applied = a.update(&b, 0);
    assert!(!applied);
    assert_eq!(a.heightvec.position, pos_before);
    assert_eq!(a.error(), error_before);
}

#[test]
fn test_error_floor() {
    // however many consistent samples arrive, the error never reaches zero
    let mut a = NetworkCoordinate::<2>::new();
    let mut b = NetworkCoordinate::<2>::new();
    for _ in 0..200 {
        a.update(&b, 100 * MS);
        b.update(&a, 100 * MS);
        assert!(a.error() > 0);
        assert!(b.error() > 0);
    }
    // and an error handed in below the floor is clamped up to it
    let c = NetworkCoordinate::<2>::from_parts(vec![0, 0], 0, -7);
    assert!(c.error() > 0);
}

#[test]
fn test_update_exact_values() {
    // one-dimensional exact case: both nodes at position 0, local height 1 ms
    // and remote height 0, both errors 200 ms, measured rtt 2 ms.
    //
    // estimate = 1 ms, so the sample error is +1 ms and es = 0.5;
    // w = 0.5, so the new error is 0.5*0.25*0.5 + 200*(1 - 0.25*0.5)
    // = 175.0625 ms, and the position moves by the unit direction (pure
    // height) times 0.25*0.5*1 ms = 0.125 ms.
    let mut a = NetworkCoordinate::<1>::from_parts(vec![0], 1 * MS, 200 * MS);
    let b = NetworkCoordinate::<1>::from_parts(vec![0], 0, 200 * MS);
    let applied = a.update(&b, 2 * MS);
    assert!(applied);
    assert_eq!(a.error(), 175_062_500);
    assert_eq!(a.heightvec.position.index(0), 0);
    assert_eq!(a.heightvec.height, 1_125_000);
}

#[test]
fn test_parts_healed() {
    // an out-of-range component is healed into a random unit vector, and an
    // out-of-range error is clamped
    let big: i64 = 1_125_899_906_842_625; // MAX_COORD + 1
    let a = NetworkCoordinate::<2>::from_parts(vec![big, 0], 100_000, 3_000_000_000_000_000_000);
    assert!(a.heightvec.is_valid());
    let l = a.heightvec.len();
    // the verified band for a healed 2-dimensional vector
    assert!(MS - 6 <= l && l <= MS + 1, "expected a unit fallback, got {l}");
    assert_eq!(a.error(), 1_125_899_906_842_624); // clamped to MAX_ERROR
}

#[test]
fn test_new_defaults() {
    let a = NetworkCoordinate::<3>::new();
    assert_eq!(a.error(), 200 * MS);
    assert!(a.heightvec.is_valid());
    let l = a.heightvec.len();
    // the verified band for a fresh 3-dimensional vector
    assert!(MS - 8 <= l && l <= MS + 1, "expected a unit start, got {l}");
}
