use gpuflux::binary64::sort::sorted;
use gpuflux::binary64::F64;

fn soft(x: f64) -> F64 {
    F64 { bits: x.to_bits() }
}

fn hard(x: F64) -> f64 {
    f64::from_bits(x.bits)
}

/// The same number, or both not a number.
fn same(a: F64, b: f64) -> bool {
    (hard(a).is_nan() && b.is_nan()) || a.bits == b.to_bits()
}

/// Numbers of every kind, and many pseudo-random bit patterns.
fn samples() -> Vec<f64> {
    let mut v = vec![
        0.0,
        -0.0,
        1.0,
        -1.0,
        0.1,
        0.3,
        2.5,
        1e300,
        -1e300,
        1e-300,
        5e-324,
        -5e-324,
        f64::MIN_POSITIVE,
        f64::MAX,
        f64::MIN,
        f64::INFINITY,
        f64::NEG_INFINITY,
        f64::NAN,
        4503599627370496.0,
        9007199254740993.0,
        1.7976931348623155e308,
        2.2250738585072011e-308,
    ];
    let mut s: u64 = 88172645463325252;
    for i in 0..300u64 {
        let bits = gpuflux::util::xorshift64(&mut s);
        v.push(f64::from_bits(bits));
        // Numbers of like size, whose sums cancel.
        v.push(f64::from_bits((bits & 0x800f_ffff_ffff_ffff) | ((1020 + i % 8) << 52)));
        v.push((bits % 100_000) as f64 / 7.0);
    }
    v
}

#[test]
fn arithmetic_is_that_of_the_machine() {
    let v = samples();
    for (i, &a) in v.iter().enumerate() {
        for &b in v.iter().skip(i % 7).step_by(7) {
            let (x, y) = (soft(a), soft(b));
            assert!(same(x.plus(y), a + b), "{a:e} + {b:e}");
            assert!(same(x.minus(y), a - b), "{a:e} - {b:e}");
            assert!(same(x.times(y), a * b), "{a:e} * {b:e}");
            assert!(same(x.over(y), a / b), "{a:e} / {b:e}");
        }
    }
}

#[test]
fn comparisons_are_those_of_the_machine() {
    let v = samples();
    for (i, &a) in v.iter().enumerate() {
        for &b in v.iter().skip(i % 5).step_by(5) {
            let (x, y) = (soft(a), soft(b));
            assert_eq!(x.less(y), a < b);
            assert_eq!(x.at_most(y), a <= b);
            assert_eq!(x.total_before(y), a.total_cmp(&b).is_lt());
            assert!(hard(x.max(y)) == a.max(b) || (a.is_nan() && b.is_nan()));
            assert!(hard(x.min(y)) == a.min(b) || (a.is_nan() && b.is_nan()));
        }
    }
}

#[test]
fn roots_and_conversions_are_those_of_the_machine() {
    for a in samples() {
        let x = soft(a);
        assert!(same(x.sqrt(), a.sqrt()), "sqrt {a:e}");
        assert_eq!(x.to_u64(), a as u64, "{a:e} as u64");
        assert_eq!(x.round_to_u64(), a.round() as u64, "{a:e} rounded");
        assert!(same(x.abs(), a.abs()));
        assert!(same(x.negated(), -a));
    }
    for n in [0u64, 1, 2, 3, 9007199254740993, u64::MAX, u64::MAX - 1024, 1 << 63] {
        assert_eq!(F64::from_u64(n).bits, (n as f64).to_bits());
    }
}

#[test]
fn named_numbers() {
    assert_eq!(hard(F64::zero()), 0.0);
    assert_eq!(hard(F64::one()), 1.0);
    assert_eq!(hard(F64::infinity()), f64::INFINITY);
    assert!(hard(F64::nan()).is_nan());
    assert_eq!(hard(soft(3.0).clamp(soft(0.2), soft(1.0))), 1.0);
    assert_eq!(hard(soft(0.1).clamp(soft(0.2), soft(1.0))), 0.2);
}

#[test]
fn sorting_is_by_the_total_order() {
    let mut v = samples();
    let s: Vec<F64> = v.iter().map(|x| soft(*x)).collect();
    let r = sorted(&s);
    v.sort_by(f64::total_cmp);
    let expected: Vec<u64> = v.iter().map(|x| x.to_bits()).collect();
    let got: Vec<u64> = r.iter().map(|x| x.bits).collect();
    assert_eq!(got, expected);
}

#[test]
fn doubling_and_rounding_keep_order() {
    for n in [1u64, 3, 9007199254740993, (1 << 62) + 12345] {
        let x = F64::from_u64(n);
        assert_eq!(x.plus(x).bits, F64::from_u64(2 * n).bits);
        assert!(F64::from_u64(n).at_most(F64::from_u64(n + 1)));
    }
}
