//! Arithmetic on bit patterns against the machine's own.

use wave::binary::{Binary32, Binary64};
use wave::decimal::push_two_decimals;

struct Patterns {
    state: u64,
}

impl Patterns {
    fn next(&mut self) -> u64 {
        self.state ^= self.state << 13;
        self.state ^= self.state >> 7;
        self.state ^= self.state << 17;
        self.state
    }

    fn double(&mut self) -> f64 {
        let word = self.next();
        match word % 5 {
            0 => f64::from_bits(self.next()),
            1 => f64::from_bits(0x3f00_0000_0000_0000 | (self.next() >> 8)),
            2 => (self.next() % 100_000) as f64 / 64.0 - 700.0,
            3 => f64::from_bits(self.next() >> 12),
            _ => {
                let special = [
                    0.0,
                    -0.0,
                    1.0,
                    -1.0,
                    0.5,
                    f64::INFINITY,
                    f64::NEG_INFINITY,
                    f64::NAN,
                    f64::MAX,
                    f64::MIN_POSITIVE,
                    5.0e-324,
                    9_007_199_254_740_993.0,
                ];
                special[(self.next() % 12) as usize]
            }
        }
    }

    fn single(&mut self) -> f32 {
        let word = self.next();
        match word % 5 {
            0 => f32::from_bits(self.next() as u32),
            1 => f32::from_bits(0x3f00_0000 | (self.next() as u32 >> 8)),
            2 => (self.next() % 100_000) as f32 / 64.0 - 700.0,
            3 => f32::from_bits(self.next() as u32 >> 9),
            _ => {
                let special = [
                    0.0,
                    -0.0,
                    1.0,
                    -1.0,
                    0.5,
                    f32::INFINITY,
                    f32::NEG_INFINITY,
                    f32::NAN,
                    f32::MAX,
                    f32::MIN_POSITIVE,
                    1.0e-45,
                    16_777_217.0,
                ];
                special[(self.next() % 12) as usize]
            }
        }
    }
}

fn double(value: f64) -> Binary64 {
    Binary64::from_bits(value.to_bits())
}

fn single(value: f32) -> Binary32 {
    Binary32::from_bits(value.to_bits())
}

fn same_double(ours: Binary64, theirs: f64, what: &str) {
    if theirs.is_nan() {
        assert!(ours.is_nan(), "{what}: {ours:?} is a number");
    } else {
        assert_eq!(ours.bits, theirs.to_bits(), "{what}");
    }
}

fn same_single(ours: Binary32, theirs: f32, what: &str) {
    if theirs.is_nan() {
        assert!(ours.is_nan(), "{what}: {ours:?} is a number");
    } else {
        assert_eq!(ours.bits, theirs.to_bits(), "{what}");
    }
}

#[test]
fn double_precision_operations_round_as_the_machine_does() {
    let mut patterns = Patterns {
        state: 0x9e37_79b9_7f4a_7c15,
    };
    for _ in 0..20_000 {
        let a = patterns.double();
        let b = patterns.double();
        let what = format!("{a:e} and {b:e}");
        same_double(double(a).add(double(b)), a + b, &what);
        same_double(double(a).sub(double(b)), a - b, &what);
        same_double(double(a).mul(double(b)), a * b, &what);
        same_double(double(a).div(double(b)), a / b, &what);
        same_double(double(a).neg(), -a, &what);
        same_double(double(a).abs(), a.abs(), &what);
        same_double(double(a).floor(), a.floor(), &what);
        same_double(double(a).ceil(), a.ceil(), &what);
        same_double(double(a).round(), a.round(), &what);
        assert_eq!(double(a).lt(double(b)), a < b, "{what}");
        assert_eq!(double(a).le(double(b)), a <= b, "{what}");
        assert_eq!(double(a).is_finite(), a.is_finite(), "{what}");
        assert_eq!(double(a).is_nan(), a.is_nan(), "{what}");
        assert_eq!(double(a).to_usize(), a as usize, "{what}");
        assert_eq!(double(a).to_i64(), a as i64, "{what}");
        same_single(double(a).to_single(), a as f32, &what);
    }
}

#[test]
fn single_precision_operations_round_as_the_machine_does() {
    let mut patterns = Patterns {
        state: 0x2545_f491_4f6c_dd1d,
    };
    for _ in 0..20_000 {
        let a = patterns.single();
        let b = patterns.single();
        let what = format!("{a:e} and {b:e}");
        same_single(single(a).add(single(b)), a + b, &what);
        same_single(single(a).sub(single(b)), a - b, &what);
        same_single(single(a).mul(single(b)), a * b, &what);
        same_single(single(a).div(single(b)), a / b, &what);
        same_single(single(a).neg(), -a, &what);
        same_single(single(a).abs(), a.abs(), &what);
        assert_eq!(single(a).lt(single(b)), a < b, "{what}");
        assert_eq!(single(a).le(single(b)), a <= b, "{what}");
        same_double(single(a).to_double(), f64::from(a), &what);
    }
}

#[test]
fn remainders_are_euclidean() {
    let mut patterns = Patterns {
        state: 0x1234_5678_9abc_def1,
    };
    for _ in 0..5_000 {
        let a = patterns.double();
        for b in [1.0, 2.0, 4.0, 8.0, 0.3, patterns.double()] {
            same_double(
                double(a).rem_euclid(double(b)),
                a.rem_euclid(b),
                &format!("{a:e} by {b:e}"),
            );
        }
        let c = patterns.single();
        same_single(
            single(c).rem_euclid(single(1.0)),
            c.rem_euclid(1.0),
            &format!("{c:e} by 1"),
        );
    }
}

#[test]
fn integers_become_the_nearest_numbers() {
    let mut patterns = Patterns {
        state: 0xdead_beef_cafe_f00d,
    };
    for _ in 0..5_000 {
        let shift = patterns.next() % 64;
        let whole = patterns.next() >> shift;
        same_double(Binary64::from_whole(whole), whole as f64, "double");
        same_single(Binary32::from_whole(whole), whole as f32, "single");
        let signed = whole as i64;
        same_double(Binary64::from_integer(signed), signed as f64, "signed");
    }
    same_double(Binary64::from_integer(i64::MIN), i64::MIN as f64, "least");
    same_double(Binary64::from_whole(u64::MAX), u64::MAX as f64, "greatest");
}

#[test]
fn bounds_and_choices_follow_the_order_of_numbers() {
    assert_eq!(double(2.0).max(double(3.0)), double(3.0));
    assert_eq!(double(2.0).min(double(3.0)), double(2.0));
    assert_eq!(double(f64::NAN).max(double(1.0)), double(1.0));
    assert_eq!(double(1.0).min(double(f64::NAN)), double(1.0));
    assert_eq!(single(2.0).clamp(single(-1.0), single(1.0)), single(1.0));
    assert_eq!(single(-2.0).clamp(single(-1.0), single(1.0)), single(-1.0));
    assert_eq!(single(0.25).clamp(single(-1.0), single(1.0)), single(0.25));
    assert!(single(f32::NAN)
        .clamp(single(-1.0), single(1.0))
        .is_nan());
    assert_eq!(double(2.25).cover(10), Some(3));
    assert_eq!(double(2.25).cover(2), None);
    assert_eq!(double(1.0e300).cover(usize::MAX), None);
    assert_eq!(double(-2.25).floor_integer(), Some(-3));
    assert_eq!(double(-9_223_372_036_854_775_808.0).floor_integer(), Some(i64::MIN));
    assert_eq!(double(9_223_372_036_854_775_808.0).floor_integer(), None);
}

#[test]
fn two_decimals_are_written_as_the_machine_writes_them() {
    let mut patterns = Patterns {
        state: 0x0bad_5eed_0bad_5eed,
    };
    let mut numbers = vec![
        0.0,
        0.004,
        0.005,
        0.015,
        0.125,
        0.135,
        1.0,
        250.0,
        272.11,
        99.995,
        1.0e15 + 0.125,
        1.0e22,
        f64::MAX,
        5.0e-324,
        f64::INFINITY,
    ];
    for _ in 0..2_000 {
        let number = patterns.double().abs();
        if !number.is_nan() {
            numbers.push(number);
        }
    }
    for number in numbers {
        let mut text = String::from("[");
        push_two_decimals(&mut text, double(number));
        assert_eq!(text, format!("[{number:.2}"));
    }
}
