use std::time::Duration;

use stayawake::double::{seconds_of, Double, Number};
use stayawake::fixed::read_number;
use stayawake::text::chars_of;

fn num(x: f64) -> Number {
    Number::from_bits(x.to_bits())
}

fn double(x: f64) -> Double {
    match num(x) {
        Number::Signed { negative: false, size } => size,
        other => panic!("{:?}", other),
    }
}

/// Some numbers of every kind, the extremes among them.
const SAMPLES: [f64; 22] = [
    0.0,
    5e-324,
    1.5e-310,
    2.2250738585072014e-308,
    1e-9,
    0.000001,
    0.1,
    0.3,
    0.35,
    0.5,
    1.0,
    1.5,
    3.0,
    10.0,
    1024.0,
    12345.678,
    4503599627370496.5,
    9007199254740991.0,
    9007199254740994.0,
    1e22,
    1.7976931348623157e308,
    f64::INFINITY,
];

#[test]
fn texts_read_as_the_nearest_double() {
    let texts = [
        "0", "-0", "0.1", "0.2", "0.3", "5.0", "5.0500000000001", "0.0001", "1e-9", "1e22", "1e23",
        "9007199254740993", "9007199254740992.999", "4503599627370496.5", "0.5e1", ".5", "5.",
        "+7.25", "-2.5", "1e400", "-1e400", "1e308", "1.7976931348623157e308",
        "1.7976931348623158e308", "1.7976931348623159e308", "4.9e-324", "2.4703282292062327e-324",
        "2.4703282292062328e-324", "2.2250738585072011e-308", "1e-400", "-1e-400", "0e999999999999",
        "1e99999999999999999999999999999999999999999", "1e-99999999999999999999999999999999999999999",
        "123456789012345678901234567890", "0.000000000000000000000000000001", "inf", "-inf",
        "Infinity", "-iNf",
    ];
    for t in texts {
        let want = num(t.parse::<f64>().unwrap());
        assert_eq!(read_number(&chars_of(t)), Some(want), "{}", t);
    }
    assert_eq!(read_number(&chars_of("NaN")), Some(Number::Nan));
    for t in ["", "+", ".", "e5", "1e", "1e+", "0x10", "1_000", " 1", "1 ", "half", "infin"] {
        assert!(t.parse::<f64>().is_err(), "{}", t);
        assert_eq!(read_number(&chars_of(t)), None, "{}", t);
    }
}

#[test]
fn numbers_are_shown_like_doubles() {
    let texts = [
        "0.15", "0.05", "0.25", "0.35", "0.45", "0.75", "5.0", "1e-9", "0.95", "99.95", "2.5", "0.5",
        "1.5", "-0.15", "-0", "-1e-20", "0", "123456789.25", "1e20", "123456789012345678.9", "1e26",
        "1e300", "-1e300", "5e-324", "inf", "-inf", "nan", "4503599627370496.5", "9007199254740993",
        "5.0500000000001", "0.0005", "0.0625", "0.3125", "1e400",
    ];
    for t in texts {
        let x = t.parse::<f64>().unwrap();
        let n = read_number(&chars_of(t)).unwrap();
        assert_eq!(n.show(0), format!("{:.0}", x), "{}", t);
        assert_eq!(n.show(1), format!("{:.1}", x), "{}", t);
        assert_eq!(n.show(2), format!("{:.2}", x), "{}", t);
        assert_eq!(n.show(3), format!("{:.3}", x), "{}", t);
    }
    for n in 0..400u32 {
        let t = format!("{}.{:03}", n / 40, n % 40 * 25);
        let want = format!("{:.1}", t.parse::<f64>().unwrap());
        assert_eq!(read_number(&chars_of(&t)).unwrap().show(1), want, "{}", t);
    }
}

#[test]
fn arithmetic_is_that_of_doubles() {
    for a in SAMPLES {
        for b in SAMPLES {
            let (x, y) = (double(a), double(b));
            assert_eq!(x.plus(y), double(a + b), "{} + {}", a, b);
            assert_eq!(x.less(y), a < b, "{} < {}", a, b);
            if !(a - b).is_nan() {
                assert_eq!(x.minus(y), double((a - b).max(0.0)), "{} - {}", a, b);
            }
            if !(a / b).is_nan() {
                assert_eq!(x.over(y), double(a / b), "{} / {}", a, b);
            }
        }
        assert_eq!(double(a).times(100), double(a * 100.0), "{} * 100", a);
        assert_eq!(double(a).is_nothing(), a == 0.0);
    }
}

#[test]
fn whole_numbers_and_quotients_become_doubles() {
    for n in [0, 1, 1024, 9007199254740991, 9007199254740993, u64::MAX, u64::MAX - 1024] {
        assert_eq!(Double::whole(n), double(n as f64), "{}", n);
    }
    assert_eq!(Double::ratio(1, 10), double(0.1));
    assert_eq!(Double::ratio(1, 1_000_000), double(1e-6));
    assert_eq!(Double::ratio(1, 10_000), double(0.0001));
    assert_eq!(Double::zero(), double(0.0));
}

#[test]
fn times_become_seconds() {
    for nanos in [
        0,
        1,
        299_999_999,
        300_000_000,
        350_000_000,
        999_999_999,
        1_000_000_001,
        20_000_000_000,
        8_388_608_999_999_999,
        u64::MAX,
    ] {
        let want = Duration::from_nanos(nanos).as_secs_f64();
        assert_eq!(seconds_of(nanos), double(want), "{}", nanos);
    }
    assert_eq!(seconds_of(350_000_000).show(1), "0.3");
    assert_eq!(seconds_of(450_000_000).show(1), "0.5");
}

#[test]
fn signed_numbers_compare_like_doubles() {
    let all = [0.0, -0.0, 1e-7, 0.1, 0.5, -0.5, 2.0, f64::INFINITY, f64::NEG_INFINITY, f64::NAN];
    for a in all {
        for b in [0.0, 1e-6, 0.1, 1.0, f64::INFINITY] {
            assert_eq!(num(a).is_at_least(double(b)), a >= b, "{} {}", a, b);
        }
        for b in [1e-6, 0.1, 1.0] {
            assert_eq!(num(a).floored(double(b)), double(a.max(b)), "{} {}", a, b);
        }
        assert_eq!(num(a).is_below_zero(), a < 0.0, "{}", a);
    }
}
