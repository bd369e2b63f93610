//! Spacing-classifier tests, with advances given in 16.16 fixed point.

use fc_fontations::attributes::{AttributesToPattern, FC_DUAL, FC_MONO};

const THRESHOLD_FACTOR_DOWN: f64 = 1.0 - 1.0 / 33.0;
const THRESHOLD_FACTOR_UP: f64 = 1.0 + 1.0 / 33.0;

fn fx(v: f64) -> i64 {
    (v * 65536.0).round() as i64
}

fn assert_spacing(advances: &[f64], expectation: Option<i64>) {
    let fixed: Vec<i64> = advances.iter().map(|a| fx(*a)).collect();
    assert_eq!(AttributesToPattern::spacing_from_advances(&fixed), expectation);
}

#[test]
fn spacing_mono() {
    assert_spacing(&[10.0], Some(FC_MONO));

    assert_spacing(
        &[
            10.0,
            10.0,
            10.0,
            10.0 * THRESHOLD_FACTOR_UP,
            10.0 * THRESHOLD_FACTOR_DOWN,
        ],
        Some(FC_MONO),
    );
}

#[test]
fn spacing_proportional() {
    assert_spacing(&[10.0, 10.0 * THRESHOLD_FACTOR_UP + 0.01], None);

    assert_spacing(&[10.0, 10.0 * THRESHOLD_FACTOR_DOWN - 0.01], None);

    assert_spacing(&[10.0, 15.0], None);

    assert_spacing(&[10.0, 15.0, 20.0], None);
}

#[test]
fn advances_dual() {
    assert_spacing(&[10.0, 20.0], Some(FC_DUAL));

    assert_spacing(&[10.0, 20.0, 10.0, 20.0, 10.0, 20.0], Some(FC_DUAL));

    assert_spacing(
        &[
            10.0,
            20.0 * THRESHOLD_FACTOR_UP,
            10.0,
            20.0,
            10.0 * THRESHOLD_FACTOR_DOWN,
            20.0,
        ],
        Some(FC_DUAL),
    );
}

#[test]
fn spacing_empty_distribution() {
    assert_spacing(&[], None);
}
