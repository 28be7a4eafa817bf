//! Single-precision numbers against the machine's own.

use bnksound::number::Number;

fn n(v: f32) -> Number {
    Number { bits: v.to_bits() }
}

/// The same number, or both none.
fn same(got: Number, want: f32) -> bool {
    got.bits == want.to_bits() || (f32::from_bits(got.bits).is_nan() && want.is_nan())
}

/// Numbers of every size and sign, the same in every run.
fn numbers() -> Vec<f32> {
    let mut out = vec![
        0.0,
        f32::from_bits(1),
        f32::MIN_POSITIVE,
        1e-30,
        0.25,
        0.5,
        0.99999994,
        1.0,
        1.0000001,
        1.5,
        2.5,
        8388607.5,
        8388608.0,
        16777216.0,
        16777217.0,
        2147483520.0,
        2147483648.0,
        4294967040.0,
        4294967296.0,
        1e20,
        f32::MAX,
        f32::INFINITY,
        f32::NAN,
    ];
    let mut seed: u32 = 0x1234_5679;
    for _ in 0..200 {
        seed ^= seed << 13;
        seed ^= seed >> 17;
        seed ^= seed << 5;
        out.push(f32::from_bits(seed));
        // Around the sizes that pixels have.
        out.push((seed % 100_000) as f32 / 64.0);
        out.push((seed % 1000) as f32 * 1.1);
    }
    let minus: Vec<f32> = out.iter().map(|v| -v).collect();
    out.extend(minus);
    out
}

#[test]
fn sums_and_differences_are_those_of_single_precision() {
    for a in numbers() {
        for b in numbers() {
            assert!(same(n(a).plus(n(b)), a + b), "{a:e} + {b:e}");
            assert!(same(n(a).less_by(n(b)), a - b), "{a:e} - {b:e}");
        }
    }
}

#[test]
fn order_is_that_of_single_precision() {
    for a in numbers() {
        for b in numbers() {
            assert_eq!(n(a).is_less(n(b)), a < b, "{a:e} < {b:e}");
            assert_eq!(n(a).is_same(n(b)), a == b, "{a:e} == {b:e}");
            let (low, high) = (f32::from_bits(n(a).or_less(n(b)).bits), f32::from_bits(n(a).or_more(n(b)).bits));
            assert!(low == a.min(b) || (low.is_nan() && a.min(b).is_nan()));
            assert!(high == a.max(b) || (high.is_nan() && a.max(b).is_nan()));
        }
    }
}

#[test]
fn products_and_quotients_go_through() {
    for a in numbers().into_iter().step_by(7) {
        for b in numbers().into_iter().step_by(5) {
            assert!(same(n(a).times(n(b)), a * b), "{a:e} * {b:e}");
            assert!(same(n(a).over(n(b)), a / b), "{a:e} / {b:e}");
        }
    }
}

#[test]
fn roots_are_those_of_single_precision() {
    for a in numbers() {
        assert!(same(n(a).to_root(), a.sqrt()), "{a:e}");
    }
    for i in 0..20_000u32 {
        let a = f32::from_bits(0x3f00_0000 + i * 3001);
        assert!(same(n(a).to_root(), a.sqrt()), "{a:e}");
    }
    assert!(same(n(2.0).to_root(), std::f32::consts::SQRT_2));
}

#[test]
fn whole_numbers_come_and_go() {
    for a in numbers() {
        assert_eq!(n(a).to_whole(), a as i32, "{a:e}");
        assert_eq!(n(a).to_count(), a as u32, "{a:e}");
        assert!(same(n(a).to_nearest(), a.round()), "{a:e} rounded");
        let up = f32::from_bits(n(a).to_ceiling().bits);
        assert!(up == a.ceil() || (up.is_nan() && a.is_nan()), "{a:e} raised");
        assert!(same(n(a).unsigned(), a.abs()));
        assert!(same(n(a).minus(), -a));
        assert!(same(n(a).between(n(0.0), n(1.0)), a.clamp(0.0, 1.0)) || a == 0.0);
    }
    for v in [0, 1, -1, 255, 16_777_217, -16_777_219, i32::MAX, i32::MIN] {
        assert!(same(Number::of_whole(v), v as f32), "{v}");
    }
}
