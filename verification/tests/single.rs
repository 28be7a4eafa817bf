//! The integer arithmetic against the machine's single precision.

use bnksound::domain::Gain;
use bnksound::single::{
    faded_by, gain_for, lift_of, part_of, percent_of, share_of, to_device, to_logical, to_single,
    Scale,
};

fn g(v: f32) -> Gain {
    Gain { bits: v.to_bits() }
}

fn scale(v: f32) -> Scale {
    Scale { bits: v.to_bits() }
}

/// Numbers all over the range, the same in every run.
fn numbers(count: usize, most: u32) -> Vec<u32> {
    let mut seed: u64 = 0x9e37_79b9_7f4a_7c15;
    let mut out = vec![0, 1, 2, 3, most / 2, most - 1, most];
    for _ in 0..count {
        seed ^= seed << 13;
        seed ^= seed >> 7;
        seed ^= seed << 17;
        out.push((seed % (most as u64 + 1)) as u32);
    }
    out
}

#[test]
fn whole_numbers_round_to_24_bits() {
    for n in numbers(2000, u32::MAX) {
        assert_eq!(to_single(n as u128), (n as f32) as u128, "{n}");
    }
    assert_eq!(to_single(16_777_217), 16_777_216);
    assert_eq!(to_single(16_777_219), 16_777_220);
}

#[test]
fn shares_are_those_of_single_precision() {
    let ns = numbers(60, 5000);
    for n in &ns {
        for a in numbers(20, 3000) {
            for b in [1, 2, 3, 7, 530, 2999, 3001] {
                let want = (*n as f32 * (a as f32 / b as f32)).round() as i32;
                assert_eq!(share_of(*n, a, b), want, "{n} * {a} / {b}");
            }
        }
    }
    assert_eq!(share_of(300, 0, 7), 0);
    assert_eq!(share_of(300, 7, 7), 300);
}

#[test]
fn a_fader_stands_where_single_precision_puts_it() {
    for h in [1u32, 40, 130, 140, 531, 1000] {
        for k in 0..=300 {
            let cubic = k as f32 / 200.0;
            let want = (h as f32 * (cubic / 1.5).clamp(0.0, 1.0)) as i32;
            assert_eq!(lift_of(h, g(cubic)), want, "{cubic} of {h}");
        }
    }
    assert_eq!(lift_of(100, g(9.0)), 100);
    assert_eq!(lift_of(100, g(0.0)), 0);
    assert_eq!(lift_of(100, g(-0.5)), 0);
    assert_eq!(lift_of(100, g(f32::NAN)), 0);
    assert_eq!(lift_of(100, g(f32::INFINITY)), 100);
}

#[test]
fn a_fader_reads_what_single_precision_reads() {
    for h in [1u32, 40, 130, 140, 531, 1000] {
        for above in -3..=(h as i32 + 3) {
            let want = (above as f32 / h as f32).clamp(0.0, 1.0) * 1.5;
            assert_eq!(gain_for(above, h).bits, want.to_bits(), "{above} of {h}");
        }
    }
}

#[test]
fn a_fading_level_is_multiplied_as_single_precision_does() {
    let c = 16_575_889u32;
    let factor = c as f32 / 16_777_216.0;
    for k in 1..=2000 {
        let v = k as f32 / 1000.0;
        assert_eq!(faded_by(g(v), c).bits, (v * factor).to_bits(), "{v}");
    }
}

#[test]
fn parts_are_cut() {
    for n in numbers(500, 1_000_000) {
        for c in [0u32, 1, 0x80_0000, 11_744_051, 0xff_ffff] {
            let want = (n as f32 * (c as f32 / 16_777_216.0)) as i64;
            assert_eq!(part_of(n, c), want, "{n} {c}");
        }
    }
}

#[test]
fn coordinates_scale_as_single_precision_does() {
    for s in [1.0f32, 1.25, 1.3333334, 1.5, 1.75, 2.0, 2.5, 3.0, 0.5] {
        for v in -400..400 {
            let want = (v as f32 * s).round() as i32;
            assert_eq!(to_device(v, scale(s)), want, "{v} at {s}");
        }
        for v in 0..800 {
            let want = (v as f32 / s).round() as i32;
            assert_eq!(to_logical(v, scale(s)), want, "{v} at {s}");
        }
    }
}

#[test]
fn percent_is_that_of_single_precision() {
    for k in 0..=3000 {
        let v = k as f32 / 2000.0;
        assert_eq!(percent_of(g(v)), (v * 100.0).round() as i32, "{v}");
    }
    assert_eq!(percent_of(g(0.005)), 1);
    assert_eq!(percent_of(g(1.5)), 150);
    assert_eq!(percent_of(g(f32::INFINITY)), i32::MAX);
    assert_eq!(percent_of(g(f32::NAN)), 0);
    for v in [-0.0, -0.001, -0.005, -0.5, -1.25, -9e6, -3e7, -1e30, f32::NEG_INFINITY] {
        assert_eq!(percent_of(g(v)), (v * 100.0).round() as i32, "{v}");
    }
}
