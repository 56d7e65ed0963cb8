use pathtracer::rank::{from_bits, to_bits, FRACTION, INFINITE, SIGN};

fn rank(x: f64) -> Option<i64> {
    from_bits(x.to_bits())
}

fn unrank(k: i64) -> f64 {
    f64::from_bits(to_bits(k).unwrap())
}

#[test]
fn constants_are_the_parts_of_a_double() {
    assert_eq!(SIGN, (-0.0f64).to_bits());
    assert_eq!(INFINITE, f64::INFINITY.to_bits());
    assert_eq!(FRACTION, 1u64 << 52);
    assert_eq!(FRACTION, f64::MIN_POSITIVE.to_bits());
}

#[test]
fn ranks_of_landmarks() {
    assert_eq!(rank(0.0), Some(0));
    assert_eq!(rank(-0.0), Some(0));
    assert_eq!(rank(1.0), Some(4607182418800017408));
    assert_eq!(rank(-1.0), Some(-4607182418800017408));
    assert_eq!(rank(5e-324), Some(1));
    assert_eq!(rank(-5e-324), Some(-1));
    assert_eq!(rank(f64::MAX), Some(9218868437227405311));
    assert_eq!(rank(f64::MIN), Some(-9218868437227405311));
    assert_eq!(rank(f64::INFINITY), Some(i64::MAX));
    assert_eq!(rank(f64::NEG_INFINITY), Some(i64::MIN));
}

#[test]
fn not_a_number_has_no_rank() {
    assert_eq!(rank(f64::NAN), None);
    assert_eq!(rank(-f64::NAN), None);
    assert_eq!(from_bits(INFINITE + 1), None);
    assert_eq!(from_bits(u64::MAX), None);
    assert_eq!(from_bits(SIGN + INFINITE + 1), None);
}

#[test]
fn ranks_run_in_the_order_of_the_reals() {
    let reals = [
        f64::NEG_INFINITY,
        f64::MIN,
        -1.0e300,
        -2.5,
        -1.0,
        -0.001,
        -1.0e-300,
        -5e-324,
        0.0,
        5e-324,
        2.2250738585072014e-308,
        1.0e-300,
        0.001,
        0.5,
        1.0,
        1.0000000000000002,
        1.5,
        2.0,
        1.0e300,
        f64::MAX,
        f64::INFINITY,
    ];
    for i in 0..reals.len() {
        for j in 0..reals.len() {
            let (a, b) = (rank(reals[i]).unwrap(), rank(reals[j]).unwrap());
            assert_eq!(a < b, reals[i] < reals[j], "{} and {}", reals[i], reals[j]);
            assert_eq!(a == b, reals[i] == reals[j], "{} and {}", reals[i], reals[j]);
        }
    }
}

#[test]
fn ranks_come_back_as_the_double_they_came_from() {
    for x in [0.0, 1.0, -1.0, 0.001, -123.456, 5e-324, f64::MAX, f64::MIN] {
        assert_eq!(unrank(rank(x).unwrap()), x);
        assert_eq!(unrank(rank(x).unwrap()).to_bits(), x.to_bits());
    }
    assert_eq!(unrank(i64::MAX), f64::INFINITY);
    assert_eq!(unrank(i64::MIN), f64::NEG_INFINITY);
    assert_eq!(unrank(rank(-0.0).unwrap()).to_bits(), 0);
}

#[test]
fn to_bits_of_landmarks() {
    assert_eq!(to_bits(0), Some(0));
    assert_eq!(to_bits(1), Some(1));
    assert_eq!(to_bits(-1), Some(SIGN + 1));
    assert_eq!(to_bits(4607182418800017408), Some(0x3ff0_0000_0000_0000));
    assert_eq!(to_bits(-4607182418800017408), Some(0xbff0_0000_0000_0000));
    assert_eq!(to_bits(i64::MAX), Some(INFINITE));
    assert_eq!(to_bits(i64::MIN), Some(SIGN + INFINITE));
}

#[test]
fn integers_between_the_finite_ranks_and_the_ends_are_no_ranks() {
    assert_eq!(to_bits(INFINITE as i64), None);
    assert_eq!(to_bits(-(INFINITE as i64)), None);
    assert_eq!(to_bits(i64::MAX - 1), None);
    assert_eq!(to_bits(i64::MIN + 1), None);
    assert_eq!(to_bits(INFINITE as i64 - 1), Some(f64::MAX.to_bits()));
    assert_eq!(to_bits(-(INFINITE as i64) + 1), Some(f64::MIN.to_bits()));
}
