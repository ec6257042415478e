use hydra_engine::decimals::{fixed, percent};
use hydra_engine::number::Number;

fn number(x: f64) -> Number {
    Number::from_bits(x.to_bits())
}

fn value_of(x: Number) -> f64 {
    f64::from_bits(x.to_bits())
}

/// Numbers at the edges of the format and ordinary ones.
fn samples() -> Vec<f64> {
    let mut list = vec![
        0.0,
        -0.0,
        1.0,
        -1.0,
        0.1,
        0.2,
        0.5,
        -0.75,
        1.0 / 3.0,
        2.5,
        3.5,
        60.0,
        100.0,
        1e15,
        9007199254740991.0,
        9007199254740992.0,
        9007199254740994.0,
        -9007199254740993.0,
        1e22,
        1e23,
        1.7976931348623157e308,
        -1.7976931348623157e308,
        1e308,
        2.2250738585072014e-308,
        2.225073858507201e-308,
        4.9406564584124654e-324,
        -4.9406564584124654e-324,
        1e-310,
        1e-300,
        1.0000000000000002,
        0.9999999999999999,
        f64::INFINITY,
        f64::NEG_INFINITY,
        f64::NAN,
    ];
    let mut seed: u64 = 0x9e37_79b9_7f4a_7c15;
    for i in 0..60u64 {
        seed = seed.wrapping_mul(6364136223846793005).wrapping_add(1442695040888963407);
        let bits = if i % 2 == 0 {
            // Anything at all.
            seed
        } else {
            // Numbers near one.
            (seed & 0x800f_ffff_ffff_ffff) | ((1000 + seed % 50) << 52)
        };
        list.push(f64::from_bits(bits));
    }
    list
}

fn agree(ours: Number, theirs: f64, what: &str) {
    if theirs.is_nan() {
        assert!(ours.is_nan(), "{what}: expected no number, got {}", value_of(ours));
    } else {
        assert_eq!(ours.to_bits(), theirs.to_bits(), "{what}: expected {theirs:e}, got {:e}", value_of(ours));
    }
}

#[test]
fn sums_and_differences_are_those_of_the_machine() {
    for &x in &samples() {
        for &y in &samples() {
            agree(number(x).plus(number(y)), x + y, &format!("{x:e} + {y:e}"));
            agree(number(x).minus(number(y)), x - y, &format!("{x:e} - {y:e}"));
        }
    }
}

#[test]
fn products_and_quotients_are_those_of_the_machine() {
    for &x in &samples() {
        for &y in &samples() {
            agree(number(x).times(number(y)), x * y, &format!("{x:e} * {y:e}"));
            agree(number(x).over(number(y)), x / y, &format!("{x:e} / {y:e}"));
        }
    }
}

#[test]
fn roots_are_those_of_the_machine() {
    for &x in &samples() {
        agree(number(x).square_root(), x.sqrt(), &format!("root of {x:e}"));
        agree(number(x.abs()).square_root(), x.abs().sqrt(), &format!("root of {:e}", x.abs()));
    }
    for n in 0..2000u64 {
        let x = n as f64;
        agree(number(x).square_root(), x.sqrt(), &format!("root of {x}"));
        agree(number(x * x).square_root(), x, &format!("root of the square of {x}"));
    }
}

#[test]
fn comparisons_are_those_of_the_machine() {
    for &x in &samples() {
        for &y in &samples() {
            assert_eq!(number(x).lt(number(y)), x < y, "{x:e} < {y:e}");
            assert_eq!(number(x).le(number(y)), x <= y, "{x:e} <= {y:e}");
            assert_eq!(number(x).same(number(y)), x == y, "{x:e} == {y:e}");
        }
        assert_eq!(number(x).is_nan(), x.is_nan());
        if !x.is_nan() {
            agree(number(x).absolute(), x.abs(), "absolute");
        }
    }
}

#[test]
fn the_greater_and_the_lesser_leave_out_what_is_no_number() {
    assert_eq!(value_of(number(f64::NAN).at_least(number(1.0))), 1.0);
    assert_eq!(value_of(number(0.25).at_least(number(1.0))), 1.0);
    assert_eq!(value_of(number(9.0).at_least(number(1.0))), 9.0);
    assert_eq!(value_of(number(f64::NAN).at_most(number(1.0))), 1.0);
    assert_eq!(value_of(number(0.25).at_most(number(1.0))), 0.25);
    assert_eq!(value_of(number(9.0).at_most(number(1.0))), 1.0);
}

#[test]
fn whole_numbers_become_the_nearest() {
    for n in [0, 1, 2, 3, 10, 1 << 52, (1 << 53) - 1, 1 << 53, (1 << 53) + 1, (1 << 53) + 3, u64::MAX, u64::MAX - 1023] {
        assert_eq!(Number::from_nat(n).to_bits(), (n as f64).to_bits(), "{n}");
    }
    for n in [0, 1, -1, i64::MIN, i64::MAX, -9007199254740993, 9007199254740993] {
        assert_eq!(Number::from_int(n).to_bits(), (n as f64).to_bits(), "{n}");
    }
}

#[test]
fn truncation_cuts_off_what_stands_behind_the_point() {
    for &x in &samples() {
        assert_eq!(number(x).truncate(), x as u64, "{x:e}");
    }
    assert_eq!(number(7.999).truncate(), 7);
    assert_eq!(number(18446744073709551616.0).truncate(), u64::MAX);
    assert_eq!(number(9223372036854775808.0).truncate(), 9223372036854775808);
}

#[test]
fn whole_values_are_recognised() {
    assert_eq!(number(3.0).as_whole(), Some(3));
    assert_eq!(number(-3.0).as_whole(), Some(-3));
    assert_eq!(number(0.5).as_whole(), None);
    assert_eq!(number(9007199254740994.0).as_whole(), Some(9007199254740994));
    assert_eq!(number(f64::NAN).as_whole(), None);
    assert_eq!(number(f64::INFINITY).as_whole(), None);
    assert_eq!(number(1e300).as_whole(), None);
    assert_eq!(number(-9223372036854775808.0).as_whole(), Some(i64::MIN as i128));
    assert_eq!(number(9223372036854775808.0).as_whole(), Some(9223372036854775808));
}

#[test]
fn parts_are_at_most_one() {
    assert_eq!(value_of(Number::quotient(3, 3)), 1.0);
    assert_eq!(value_of(Number::quotient(2, 3)), 2.0 / 3.0);
    assert_eq!(value_of(Number::quotient(0, 3)), 0.0);
    assert_eq!(value_of(Number::quotient(u64::MAX - 1, u64::MAX)), 1.0);
    assert_eq!(value_of(Number::quotient(1, u64::MAX)), 1.0 / u64::MAX as f64);
    assert_eq!(value_of(Number::quotient(7, 2)), 3.5);
}

#[test]
fn decimals_are_those_of_the_formatter() {
    for &x in &samples() {
        assert_eq!(fixed(number(x), 0), format!("{x:.0}"));
        assert_eq!(fixed(number(x), 1), format!("{x:.1}"));
        assert_eq!(fixed(number(x), 2), format!("{x:.2}"));
        assert_eq!(fixed(number(x), 3), format!("{x:.3}"));
    }
}

#[test]
fn ties_are_rounded_as_the_formatter_does() {
    for n in 0..400 {
        let x = n as f64 / 8.0;
        assert_eq!(fixed(number(x), 0), format!("{x:.0}"));
        assert_eq!(fixed(number(x), 1), format!("{x:.1}"));
        assert_eq!(fixed(number(x), 2), format!("{x:.2}"));
    }
}

#[test]
fn percents_are_those_of_the_formatter() {
    for a in 0..40u64 {
        for b in 1..40u64 {
            let x = a as f64 / b as f64;
            assert_eq!(percent(Number::quotient(a, b), 0), format!("{:.0}", x * 100.0));
            assert_eq!(percent(Number::quotient(a, b), 1), format!("{:.1}", x * 100.0));
        }
    }
    assert_eq!(percent(number(0.125), 0), "12");
    assert_eq!(percent(number(2.0 / 3.0), 1), "66.7");
}
