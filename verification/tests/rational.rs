use seqterm::rational::{gcd, lcm, lcm_grid_den, step_to_beats, subdivide, RationalTime, Resolution, Tuplet};

fn r(n: i64, d: i64) -> RationalTime {
    RationalTime::new(n, d)
}

#[test]
fn reduces_on_construct() {
    let x = r(2, 4);
    assert_eq!((x.num(), x.den()), (1, 2));
    let y = r(6, 3);
    assert_eq!((y.num(), y.den()), (2, 1));
}

#[test]
fn sign_carried_in_numerator() {
    let x = r(1, -2);
    assert_eq!((x.num(), x.den()), (-1, 2));
    assert!(x.is_negative());
}

#[test]
fn zero_canonical() {
    let x = r(0, 5);
    assert_eq!((x.num(), x.den()), (0, 1));
    assert!(x.is_zero());
    assert_eq!(RationalTime::zero(), x);
}

#[test]
fn zero_denominator_does_not_panic() {
    let x = r(3, 0);
    assert_eq!(x.den(), 1);
}

#[test]
fn arithmetic_exact() {
    assert_eq!(r(1, 3) + r(1, 6), r(1, 2));
    assert_eq!(r(1, 2) - r(1, 3), r(1, 6));
    assert_eq!(r(2, 3) * r(3, 4), r(1, 2));
    assert_eq!(r(1, 2) / r(1, 4), r(2, 1));
    assert_eq!(r(1, 7) * 3, r(3, 7));
    assert_eq!(r(3, 7) / 3, r(1, 7));
    assert_eq!(-r(1, 4), r(-1, 4));
}

#[test]
fn ordering_odd_denominators() {
    assert!(r(1, 7) < r(1, 6));
    assert!(r(5, 7) > r(2, 3));
    assert!(r(11, 8) > r(1, 1));
    let mut v = vec![r(1, 3), r(1, 7), r(1, 2), r(5, 7), r(1, 1)];
    v.sort_by(|a, b| a.partial_cmp(b).unwrap());
    assert_eq!(v, vec![r(1, 7), r(1, 3), r(1, 2), r(5, 7), r(1, 1)]);
}

#[test]
fn no_drift_over_million_ops() {
    let mut acc = RationalTime::zero();
    for _ in 0..1_000_000 {
        acc = acc + r(1, 7);
    }
    assert_eq!(acc, r(1_000_000, 7));
    for _ in 0..1_000_000 {
        acc = acc - r(1, 7);
    }
    assert!(acc.is_zero());
}

#[test]
fn floor_and_frac() {
    assert_eq!(r(7, 2).floor(), 3);
    assert_eq!(r(7, 2).frac(), r(1, 2));
    assert_eq!(r(-7, 2).floor(), -4);
    assert_eq!(r(-7, 2).frac(), r(1, 2));
    assert_eq!(r(4, 1).floor(), 4);
    assert!(r(4, 1).frac().is_zero());
}

#[test]
fn rem_euclid_wraps() {
    assert_eq!(r(11, 2).rem_euclid(r(4, 1)), r(3, 2));
    assert_eq!(r(-1, 2).rem_euclid(r(4, 1)), r(7, 2));
    assert_eq!(r(8, 1).rem_euclid(r(4, 1)), RationalTime::zero());
}

#[test]
fn div_floor_counts_steps() {
    assert_eq!(r(7, 4).div_floor(r(1, 4)), 7);
    assert_eq!(r(15, 8).div_floor(r(1, 4)), 7);
    assert_eq!(r(7, 8).div_floor(r(1, 4)), 3);
    assert_eq!(r(1, 1).div_floor(r(0, 1)), 0);
}

#[test]
fn gcd_lcm_basics() {
    assert_eq!(gcd(12, 18), 6);
    assert_eq!(gcd(7, 13), 1);
    assert_eq!(lcm(4, 6), 12);
    assert_eq!(lcm(0, 5), 0);
}

#[test]
fn resolution_step_beats() {
    assert_eq!(Resolution::Whole(4).step_beats(), r(1, 1));
    assert_eq!(Resolution::Whole(16).step_beats(), r(1, 4));
    assert_eq!(Resolution::Whole(8).step_beats(), r(1, 2));
    assert_eq!(Resolution::Whole(7).step_beats(), r(4, 7));
    assert_eq!(Resolution::default_edit().step_beats(), r(1, 4));
}

#[test]
fn tuplet_scale_triplet() {
    let t = Tuplet::new(3, 2);
    assert_eq!(t.scale(), r(2, 3));
    let base = Resolution::Whole(8).step_beats();
    let span = base * t.scale() * 3;
    assert_eq!(span, r(1, 1));
    assert!(!t.is_none());
    assert!(Tuplet::none().is_none());
    assert_eq!(Tuplet::new(0, 5), Tuplet::none());
}

#[test]
fn step_to_beats_straight_and_tuplet() {
    assert_eq!(
        step_to_beats(RationalTime::zero(), 4, Resolution::Whole(16), Tuplet::none()),
        r(1, 1)
    );
    assert_eq!(
        step_to_beats(RationalTime::zero(), 3, Resolution::Whole(8), Tuplet::new(3, 2)),
        r(1, 1)
    );
    assert_eq!(step_to_beats(r(2, 1), 2, Resolution::Whole(16), Tuplet::none()), r(5, 2));
}

#[test]
fn subdivide_seven() {
    let parts = subdivide(RationalTime::zero(), r(4, 1), 7);
    assert_eq!(parts.len(), 7);
    assert_eq!(parts[0], RationalTime::zero());
    assert_eq!(parts[1], r(4, 7));
    assert_eq!(parts[6], r(24, 7));
    for w in parts.windows(2) {
        assert_eq!(w[1] - w[0], r(4, 7));
    }
}

#[test]
fn polyrhythm_lcm_grid() {
    assert_eq!(lcm_grid_den(&[4, 5, 7]), 140);
    assert_eq!(lcm_grid_den(&[3, 4]), 12);
    assert_eq!(lcm_grid_den(&[11, 13]), 143);
    let grid = lcm_grid_den(&[4, 5]);
    let a = r(1, 4);
    let b = r(1, 5);
    assert_eq!(a.den() * (grid / a.den()), grid);
    assert_eq!(b.den() * (grid / b.den()), grid);
}

#[test]
fn lcm_saturates_and_ignores_sign() {
    assert_eq!(lcm(-4, 6), 12);
    assert_eq!(lcm(i64::MAX, i64::MAX - 1), i64::MAX);
    assert_eq!(lcm_grid_den(&[0, 0]), 1);
    assert_eq!(lcm_grid_den(&[]), 1);
}

#[test]
fn add_then_sub_returns_original() {
    let a = r(5, 7);
    let b = r(-3, 11);
    assert_eq!((a + b) - b, a);
}

#[test]
fn rem_euclid_nonpositive_modulus_is_identity() {
    assert_eq!(r(5, 3).rem_euclid(r(0, 1)), r(5, 3));
    assert_eq!(r(5, 3).rem_euclid(r(-2, 1)), r(5, 3));
    assert_eq!(r(1, 3).rem_euclid(r(1, 2)), r(1, 3));
}

#[test]
fn div_floor_negative_rounds_down() {
    assert_eq!(r(-1, 8).div_floor(r(1, 4)), -1);
    assert_eq!(r(1, 1).div_floor(r(-1, 4)), 0);
}

#[test]
fn abs_and_default() {
    assert_eq!(r(-3, 4).abs(), r(3, 4));
    assert_eq!(RationalTime::default(), RationalTime::zero());
    assert_eq!(Resolution::default(), Resolution::Whole(16));
    assert_eq!(Tuplet::default(), Tuplet::none());
    assert_eq!(Resolution::Custom(-5).den(), 1);
}
