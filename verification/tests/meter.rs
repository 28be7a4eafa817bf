//! The level meters.

use bnksound::domain::Gain;
use bnksound::ui::layout::RowId;
use bnksound::ui::meter::{
    bar_count, segment_coverage, segment_tier, segments_for, MeterState, Tier, CELL_PITCH,
    DECAY_FLOOR, PEAK_DECAY,
};

fn peaks(v: &[f32]) -> Vec<Gain> {
    v.iter().map(|p| Gain { bits: p.to_bits() }).collect()
}

/// What a row's bars read.
fn levels(m: &MeterState, row: &RowId) -> Vec<f32> {
    m.channels(row).iter().map(|g| f32::from_bits(g.bits)).collect()
}


#[test]
fn cells_tile_a_meter_without_a_fractional_pitch() {
    // Whatever height a window gives the strip, the cells divide it in
    // whole pixels, which is what keeps every rung the same and sharp.
    for height in [40, 80, 140, 141, 300, 721] {
        let n = segments_for(height);
        assert!(n >= 1, "a meter always has at least one cell");
        assert!(
            n * CELL_PITCH <= height,
            "{n} cells of {CELL_PITCH} must fit within {height}",
        );
        // The leftover is smaller than a cell, so nothing visible is lost.
        assert!(height - n * CELL_PITCH < CELL_PITCH);
    }
}

#[test]
fn a_row_with_no_readings_is_drawn_as_stereo() {
    assert_eq!(bar_count(0), 2, "assumed rather than collapsed to one bar");
}

#[test]
fn reported_channels_always_win_over_the_assumption() {
    assert_eq!(bar_count(1), 1, "a mono stream stays mono");
    assert_eq!(bar_count(2), 2);
    assert_eq!(bar_count(6), 6, "surround is drawn as it comes");
}

#[test]
fn segment_tiers_step_up_toward_the_top() {
    let n = segments_for(144);
    assert_eq!(segment_tier(0, n), Tier::Neutral);
    assert_eq!(segment_tier(n - 1, n), Tier::Red);
    // Boundaries at 55 / 70 / 90 percent.
    assert_eq!(segment_tier((n as f32 * 0.55) as i32, n), Tier::Green);
    assert_eq!(segment_tier((n as f32 * 0.70) as i32, n), Tier::Amber);
    assert_eq!(segment_tier((n as f32 * 0.90) as i32, n), Tier::Red);
}


#[test]
fn apply_keeps_the_louder_and_decay_eases_down() {
    let mut m = MeterState::new();
    let row = RowId::Sink(1);
    assert!(m.apply(&row, &peaks(&[0.5, 0.2])));
    assert!(m.apply(&row, &peaks(&[0.3, 0.9]))); // max-fold per channel
    assert_eq!(levels(&m, &row), [0.5, 0.9]);
    assert!(m.decay());
    let after = levels(&m, &row);
    assert!(after[0] < 0.5 && after[0] > 0.0);
    assert!(after[1] < 0.9 && after[1] > 0.0);
}

#[test]
fn decay_snaps_a_tiny_value_to_zero() {
    let mut m = MeterState::new();
    let row = RowId::Source(2);
    m.apply(&row, &peaks(&[f32::from_bits(DECAY_FLOOR) / 2.0]));
    assert!(m.decay());
    assert_eq!(levels(&m, &row), [0.0]);
}

#[test]
fn apply_resizes_on_channel_count_change() {
    let mut m = MeterState::new();
    let row = RowId::AppGroup("app:x".into());
    m.apply(&row, &peaks(&[0.5, 0.5]));
    m.apply(&row, &peaks(&[0.4])); // mono now

    assert_eq!(m.channels(&row).len(), 1);
}

#[test]
fn retain_drops_vanished_rows() {
    let mut m = MeterState::new();
    m.apply(&RowId::Sink(1), &peaks(&[0.5]));
    m.apply(&RowId::Sink(2), &peaks(&[0.5]));
    m.retain(&vec![RowId::Sink(1)]);
    assert!(!m.channels(&RowId::Sink(1)).is_empty());
    assert!(m.channels(&RowId::Sink(2)).is_empty());
}

/// One step of decay is one multiplication, rounded as the hardware rounds it.
#[test]
fn decay_multiplies_as_single_precision_does() {
    let factor = PEAK_DECAY as f32 / 16_777_216.0;
    let floor = f32::from_bits(DECAY_FLOOR);
    let row = RowId::Sink(9);
    let mut v = 1.0f32;
    let mut m = MeterState::new();
    m.apply(&row, &peaks(&[v]));
    for _ in 0..600 {
        m.decay();
        v *= factor;
        if v < floor {
            v = 0.0;
        }
        assert_eq!(levels(&m, &row), [v]);
    }
}

#[test]
fn a_silent_meter_does_not_change() {
    let mut m = MeterState::new();
    assert!(!m.decay());
    assert!(m.channels(&RowId::Sink(1)).is_empty());
    m.apply(&RowId::Sink(1), &peaks(&[0.0]));
    assert!(!m.decay());
}

#[test]
fn segment_coverage_fills_below_and_partial_at_the_edge() {
    // lit halfway: lower segments full, upper empty, one partial at the edge.
    let total = 10;
    let lit = Gain { bits: 0.55f32.to_bits() }; // 5.5 segments lit
    assert_eq!(segment_coverage(lit, total, 0), 255);
    assert_eq!(segment_coverage(lit, total, 4), 255);
    let edge = segment_coverage(lit, total, 5) as f32 / 255.0;
    assert!((edge - 0.5).abs() < 0.5 / 255.0 + 1e-6, "edge was {edge}");
    assert_eq!(segment_coverage(lit, total, 6), 0);
}

/// Coverage is that of single-precision numbers, to the nearest 255th.
#[test]
fn coverage_agrees_with_single_precision() {
    for total in [1, 2, 3, 7, 10, 34, 75, 180] {
        for step in 0..=1000u32 {
            let lit = (step as f32 / 1000.0).powi(2);
            for from_bottom in [0, total / 3, total / 2, total - 1] {
                let cov = (lit * total as f32 - from_bottom as f32).clamp(0.0, 1.0);
                assert_eq!(
                    segment_coverage(Gain { bits: lit.to_bits() }, total, from_bottom),
                    (cov * 255.0).round() as u8,
                    "{lit} of {total} at {from_bottom}"
                );
            }
        }
    }
    let tiny = Gain { bits: 1 };
    assert_eq!(segment_coverage(tiny, 20, 0), 0);
    assert_eq!(segment_coverage(Gain { bits: 1.0f32.to_bits() }, 20, 19), 255);
}

#[test]
fn a_bar_keeps_the_greater_of_two_numbers() {
    let odd = [
        0.0, -0.0, -0.5, 0.5, 1.0, -2.0, 1e-40, -1e-40, 3.0, f32::INFINITY, f32::NEG_INFINITY,
        f32::NAN, -f32::NAN,
    ];
    for first in odd {
        for second in odd {
            let mut m = MeterState::new();
            let row = RowId::Sink(1);
            let mut bar = 0.0f32;
            assert!(m.apply(&row, &peaks(&[first])), "a new bar is a change");
            if first > bar {
                bar = first;
            }
            assert_eq!(m.channels(&row)[0].bits, bar.to_bits(), "{first:e}");
            assert_eq!(m.apply(&row, &peaks(&[second])), second > bar);
            if second > bar {
                bar = second;
            }
            assert_eq!(m.channels(&row)[0].bits, bar.to_bits(), "{first:e}, {second:e}");
        }
    }
}

#[test]
fn a_peak_below_nothing_leaves_a_bar_at_rest() {
    let mut m = MeterState::new();
    let row = RowId::Sink(1);
    m.apply(&row, &peaks(&[-0.5, f32::NAN]));
    assert_eq!(levels(&m, &row), [0.0, 0.0]);
    assert!(!m.decay());
    assert_eq!(levels(&m, &row), [0.0, 0.0]);
}
