//! Arithmetic on gains against the machine's single precision.

use bnksound::domain::Gain;
use bnksound::gain::{cubic_to_linear, is_above, is_greater, limit, over, times};

fn g(v: f32) -> Gain {
    Gain { bits: v.to_bits() }
}

/// Gains of every size, the same in every run.
fn gains() -> Vec<f32> {
    let mut out = vec![
        0.0,
        f32::from_bits(1),
        f32::from_bits(0x7f_ffff),
        f32::MIN_POSITIVE,
        1e-30,
        1e-12,
        1e-6,
        0.1,
        0.3,
        0.5,
        1.0,
        1.0000001,
        1.1,
        1.5,
        3.0,
        1e6,
        1e20,
        f32::MAX,
    ];
    let mut seed: u32 = 0x2545_f491;
    for _ in 0..300 {
        seed ^= seed << 13;
        seed ^= seed >> 17;
        seed ^= seed << 5;
        out.push(f32::from_bits(seed % 0x7f80_0000));
    }
    out
}

#[test]
fn products_are_those_of_single_precision() {
    for a in gains() {
        for b in gains() {
            assert_eq!(times(g(a), g(b)).bits, (a * b).to_bits(), "{a:e} * {b:e}");
        }
    }
}

#[test]
fn quotients_are_those_of_single_precision() {
    for a in gains() {
        for b in gains() {
            if b > 0.0 {
                assert_eq!(over(g(a), g(b)).bits, (a / b).to_bits(), "{a:e} / {b:e}");
            }
        }
    }
}

#[test]
fn cubes_are_those_of_single_precision() {
    for a in gains() {
        assert_eq!(cubic_to_linear(g(a)).bits, (a * a * a).to_bits(), "{a:e}");
    }
    assert_eq!(cubic_to_linear(g(0.5)), g(0.125));
    assert_eq!(cubic_to_linear(g(1.0)), g(1.0));
}

#[test]
fn nothing_is_louder_than_the_loudest() {
    assert_eq!(limit(g(9.0)), g(1.5));
    assert_eq!(limit(g(1.5)), g(1.5));
    assert_eq!(limit(g(0.2)), g(0.2));
}

#[test]
fn unity_changes_nothing() {
    for a in gains() {
        assert_eq!(times(g(a), g(1.0)), g(a));
        if a >= f32::MIN_POSITIVE {
            assert_eq!(over(g(a), g(a)), g(1.0));
        }
    }
}

/// Numbers of either sign, the endless ones and none at all.
fn odd_numbers() -> Vec<f32> {
    let mut out = vec![f32::INFINITY, f32::NEG_INFINITY, f32::NAN, -0.0];
    for v in gains().into_iter().take(60) {
        out.push(v);
        out.push(-v);
    }
    out
}

/// The same number, or both none.
fn same(got: Gain, want: f32) -> bool {
    got.bits == want.to_bits() || (f32::from_bits(got.bits).is_nan() && want.is_nan())
}

#[test]
fn signs_and_endless_numbers_multiply_as_in_single_precision() {
    for a in odd_numbers() {
        for b in odd_numbers() {
            assert!(same(times(g(a), g(b)), a * b), "{a:e} * {b:e}");
            assert!(same(over(g(a), g(b)), a / b), "{a:e} / {b:e}");
        }
    }
}

#[test]
fn limiting_is_a_clamp() {
    for a in odd_numbers() {
        assert!(same(limit(g(a)), a.clamp(0.0, 1.5)), "{a:e}");
    }
    assert_eq!(limit(g(-3.0)), g(0.0));
    assert_eq!(limit(g(f32::NEG_INFINITY)), g(0.0));
    assert_eq!(limit(g(f32::INFINITY)), g(1.5));
    assert!(f32::from_bits(limit(g(f32::NAN)).bits).is_nan());
}

#[test]
fn only_numbers_are_above_others() {
    for a in odd_numbers() {
        assert_eq!(is_above(g(a), 1.0f32.to_bits()), a > 1.0, "{a:e}");
    }
}

#[test]
fn gains_order_as_single_precision_does() {
    for a in odd_numbers() {
        for b in odd_numbers() {
            assert_eq!(is_greater(g(a), g(b)), a > b, "{a:e} > {b:e}");
        }
    }
}
