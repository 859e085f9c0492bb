use polarity_sc_dark::arithmetic::Arithmetic;
use polarity_sc_dark::curve::{CurvePoint, MAX_THRESHOLD_CURVE_POINTS};
use polarity_sc_dark::free_fit::{fit_average_curve, solve_3x3};
use polarity_sc_dark::match_curve::{
    fit_average_curve_constrained, MatchCurveFit, MatchCurveMeter, MatchCurveResult,
    MatchCurveRuntime,
};
use polarity_sc_dark::match_level::{
    buffer_energy, calculate_match_output_gain, MatchMeter, MatchResult, MatchRuntime,
    MATCH_DURATION_SECONDS, OUTPUT_GAIN_MAX_DB, OUTPUT_GAIN_MIN_DB, SILENCE_FLOOR,
};
use polarity_sc_dark::match_state::{taken_outcome, MatchOutcome, MatchState};
use polarity_sc_dark::single::{double, single, Double, Single};

/// Computes with the machine's own floating-point unit.
struct Hardware;

fn s(value: f32) -> Single {
    single(value.to_bits())
}

fn f(value: Single) -> f32 {
    f32::from_bits(value.bits)
}

fn d(value: f64) -> Double {
    double(value.to_bits())
}

fn w(value: Double) -> f64 {
    f64::from_bits(value.bits)
}

impl Arithmetic for Hardware {
    fn sum(a: Single, b: Single) -> Single {
        s(f(a) + f(b))
    }

    fn difference(a: Single, b: Single) -> Single {
        s(f(a) - f(b))
    }

    fn product(a: Single, b: Single) -> Single {
        s(f(a) * f(b))
    }

    fn quotient(a: Single, b: Single) -> Single {
        s(f(a) / f(b))
    }

    fn square_root(a: Single) -> Single {
        s(f(a).sqrt())
    }

    fn natural_log(a: Single) -> Single {
        s(f(a).ln())
    }

    fn exponential(a: Single) -> Single {
        s(f(a).exp())
    }

    fn rounded(a: Single) -> Single {
        s(f(a).round())
    }

    fn floored(a: Single) -> Single {
        s(f(a).floor())
    }

    fn ceiled(a: Single) -> Single {
        s(f(a).ceil())
    }

    fn from_count(n: usize) -> Single {
        s(n as f32)
    }

    fn to_count(a: Single) -> u64 {
        f(a) as u64
    }

    fn magnitude(re: Single, im: Single) -> Single {
        s(f(re).hypot(f(im)))
    }

    fn gain_to_db(a: Single) -> Single {
        s(f(a).max(1e-5).log10() * 20.0)
    }

    fn gain_to_db_fast_epsilon(a: Single) -> Single {
        s(f(a).max(1e-5).ln() * (std::f32::consts::LOG10_E * 20.0))
    }

    fn db_to_gain(a: Single) -> Single {
        if f(a) > -100.0 {
            s(10.0f32.powf(f(a) * 0.05))
        } else {
            s(0.0)
        }
    }

    fn db_to_gain_fast(a: Single) -> Single {
        s((f(a) * (std::f32::consts::LN_10 / 20.0)).exp())
    }

    fn widened(a: Single) -> Double {
        d(f(a) as f64)
    }

    fn narrowed(a: Double) -> Single {
        s(w(a) as f32)
    }

    fn wide_count(n: u64) -> Double {
        d(n as f64)
    }

    fn wide_sum(a: Double, b: Double) -> Double {
        d(w(a) + w(b))
    }

    fn wide_difference(a: Double, b: Double) -> Double {
        d(w(a) - w(b))
    }

    fn wide_product(a: Double, b: Double) -> Double {
        d(w(a) * w(b))
    }

    fn wide_quotient(a: Double, b: Double) -> Double {
        d(w(a) / w(b))
    }

    fn wide_square_root(a: Double) -> Double {
        d(w(a).sqrt())
    }

    fn text(a: Single) -> String {
        format!("{}", f(a))
    }

    fn text_with_two_decimals(a: Single) -> String {
        format!("{:.2}", f(a))
    }

    fn text_with_sign(a: Single) -> String {
        format!("{:+.2}", f(a))
    }

    fn parsed(text: &str) -> Option<Single> {
        text.parse::<f32>().ok().map(s)
    }
}

#[test]
fn unity_match_gain() {
    let gain = f(calculate_match_output_gain::<Hardware>(d(2.0), d(2.0), 2).unwrap());

    assert!((gain - 1.0).abs() < 1.0e-6);
}

#[test]
fn six_db_match() {
    let gain = f(calculate_match_output_gain::<Hardware>(d(4.0), d(1.0), 4).unwrap());

    assert!((gain - 2.0).abs() < 1.0e-6);
}

#[test]
fn clamps_high() {
    let gain = f(calculate_match_output_gain::<Hardware>(d(1.0), d(1.0e-5), 1).unwrap());

    assert!((gain - f(Hardware::db_to_gain(single(OUTPUT_GAIN_MAX_DB)))).abs() < 1.0e-3);
}

#[test]
fn clamps_low() {
    let gain = f(calculate_match_output_gain::<Hardware>(d(1.0), d(1.0e5), 1).unwrap());

    assert!((gain - f(Hardware::db_to_gain(single(OUTPUT_GAIN_MIN_DB)))).abs() < 1.0e-6);
}

#[test]
fn silent_input() {
    assert_eq!(calculate_match_output_gain::<Hardware>(d(0.0), d(1.0), 1), None);
}

#[test]
fn silent_output() {
    assert_eq!(calculate_match_output_gain::<Hardware>(d(1.0), d(0.0), 1), None);
}

#[test]
fn nothing_measured_gives_no_gain() {
    assert_eq!(calculate_match_output_gain::<Hardware>(d(1.0), d(1.0), 0), None);
}

#[test]
fn invalid_measurements_give_no_gain() {
    for invalid in [f64::NAN, -f64::NAN, f64::INFINITY, f64::NEG_INFINITY] {
        assert_eq!(calculate_match_output_gain::<Hardware>(d(invalid), d(1.0), 1), None);
        assert_eq!(calculate_match_output_gain::<Hardware>(d(1.0), d(invalid), 1), None);
    }
    assert!(calculate_match_output_gain::<Hardware>(d(f64::MAX), d(f64::MAX), 1).is_some());
}

#[test]
fn limits_are_fifty_decibels() {
    assert_eq!(f(single(OUTPUT_GAIN_MIN_DB)), -50.0);
    assert_eq!(f(single(OUTPUT_GAIN_MAX_DB)), 50.0);
    assert_eq!(w(double(SILENCE_FLOOR)), 1.0e-12);
    assert_eq!(f(single(MATCH_DURATION_SECONDS)), 5.0);
}

#[test]
fn a_measurement_spans_five_seconds() {
    let mut meter = MatchMeter::new();
    assert!(!meter.is_active());
    assert_eq!(meter.frames_for_block(64), 0);

    meter.start::<Hardware>(s(10.0));
    assert!(meter.is_active());
    assert_eq!(meter.target_frames, 50);
    assert_eq!(meter.frames_for_block(64), 50);
    assert_eq!(meter.frames_for_block(48), 48);

    let input = vec![vec![s(0.5); 48], vec![s(0.5); 48]];
    let output = vec![vec![s(0.25); 48], vec![s(0.25); 48]];
    meter.measure_input::<Hardware>(&input, 48);
    assert_eq!(w(meter.input_energy), 24.0);
    assert_eq!(meter.measure_output_and_finish::<Hardware>(&output, 48), None);
    assert_eq!(meter.frames_for_block(48), 2);

    meter.measure_input::<Hardware>(&input, 2);
    let gain = meter.measure_output_and_finish::<Hardware>(&output, 2).unwrap().unwrap();
    assert!((f(gain) - 2.0).abs() < 1.0e-6);
    assert!(!meter.is_active());
    assert_eq!(meter.measure_output_and_finish::<Hardware>(&output, 2), None);
}

#[test]
fn only_the_requested_frames_have_energy() {
    let buffer = vec![vec![s(1.0), s(2.0), s(3.0)], vec![s(1.0), s(1.0), s(1.0)]];

    assert_eq!(w(buffer_energy::<Hardware>(&buffer, 2)), 7.0);
    assert_eq!(w(buffer_energy::<Hardware>(&buffer, 9)), 17.0);
    assert_eq!(w(buffer_energy::<Hardware>(&Vec::new(), 9)), 0.0);
}

#[test]
fn a_published_match_is_taken_once() {
    let runtime = MatchRuntime::new();
    assert_eq!(runtime.take_finished_result(), None);
    assert!(!runtime.begin_running_if_requested());

    runtime.request();
    assert_eq!(runtime.take_finished_result(), None);
    assert!(runtime.begin_running_if_requested());
    assert!(!runtime.begin_running_if_requested());

    runtime.publish_result(Some(s(1.5)));
    assert_eq!(runtime.take_finished_result(), Some(MatchResult::Matched(s(1.5))));
    assert_eq!(runtime.take_finished_result(), None);

    runtime.request();
    runtime.publish_result(None);
    assert_eq!(runtime.take_finished_result(), Some(MatchResult::Failed));
    assert_eq!(runtime.take_finished_result(), None);
}

#[test]
fn states_are_told_apart_by_their_codes() {
    let states = [
        MatchState::Idle,
        MatchState::Requested,
        MatchState::Running,
        MatchState::Ready,
        MatchState::Failed,
    ];
    for (code, state) in states.iter().enumerate() {
        assert_eq!(state.code() as usize, code);
        assert_eq!(MatchState::from_code(state.code()), Some(*state));
    }
    assert_eq!(MatchState::from_code(5), None);
    assert_eq!(taken_outcome(3, true), Some(MatchOutcome::Matched));
    assert_eq!(taken_outcome(4, true), Some(MatchOutcome::Failed));
    assert_eq!(taken_outcome(3, false), None);
    assert_eq!(taken_outcome(2, true), None);
}

fn ln_freqs_for_bins(num_bins: usize) -> Vec<Single> {
    (0..num_bins)
        .map(|bin_idx| {
            if bin_idx == 0 {
                s(0.0)
            } else {
                s(((bin_idx as f32 / (num_bins - 1) as f32) * 22_000.0).ln())
            }
        })
        .collect()
}

fn sums_from_db(ln_freqs: &[Single], make_db: impl Fn(f32) -> f32) -> Vec<Double> {
    ln_freqs
        .iter()
        .map(|&ln_freq| {
            if f(ln_freq) == 0.0 {
                d(0.0)
            } else {
                d(f(Hardware::db_to_gain(s(make_db(f(ln_freq))))) as f64)
            }
        })
        .collect()
}

#[test]
fn flat_spectrum_produces_flat_curve_without_nodes() {
    let ln_freqs = ln_freqs_for_bins(256);
    let sums = sums_from_db(&ln_freqs, |_| -18.0);

    let fit = fit_average_curve::<Hardware>(&ln_freqs, &sums, 1, s(0.0)).unwrap();

    assert!((f(fit.intercept) + 18.0).abs() < 1.0e-3);
    assert!(f(fit.slope).abs() < 1.0e-3);
    assert!(f(fit.curve).abs() < 1.0e-3);
    assert!(fit.points.iter().all(|point| !point.enabled));
}

#[test]
fn sloped_spectrum_is_represented_by_base_slope() {
    let ln_freqs = ln_freqs_for_bins(256);
    let center = 1_000.0f32.ln();
    let sums = sums_from_db(&ln_freqs, |ln_freq| -24.0 + ((ln_freq - center) * 4.0));

    let fit = fit_average_curve::<Hardware>(&ln_freqs, &sums, 1, s(0.0)).unwrap();

    assert!((f(fit.slope) - 4.0).abs() < 1.0e-3);
    assert!(fit.points.iter().all(|point| !point.enabled));
}

fn constrained(
    ln_freqs: &[Single],
    sums: &[Double],
    center_frequency: f32,
    slope: f32,
) -> MatchCurveFit {
    fit_average_curve_constrained::<Hardware>(
        ln_freqs,
        sums,
        1,
        s(0.0),
        s(center_frequency),
        s(slope),
    )
    .unwrap()
}

#[test]
fn constrained_fit_preserves_fixed_slope() {
    let ln_freqs = ln_freqs_for_bins(256);
    let center = 1_000.0f32;
    let sums = sums_from_db(&ln_freqs, |ln_freq| -24.0 + ((ln_freq - center.ln()) * 4.0));

    let fit = constrained(&ln_freqs, &sums, center, 1.5);

    assert!((f(fit.slope) - 1.5).abs() < 1.0e-6);
    assert!((f(fit.center_frequency) - center).abs() < 1.0e-3);
}

#[test]
fn constrained_fit_preserves_fixed_center_frequency() {
    let ln_freqs = ln_freqs_for_bins(256);
    let source_center = 2_000.0f32.ln();
    let fixed_center = 750.0f32;
    let sums = sums_from_db(&ln_freqs, |ln_freq| {
        let x = ln_freq - source_center;
        -21.0 + (2.0 * x) + (1.25 * x * x)
    });

    let fit = constrained(&ln_freqs, &sums, fixed_center, 2.0);

    assert!((f(fit.center_frequency) - fixed_center).abs() < 1.0e-3);
    assert!((f(fit.slope) - 2.0).abs() < 1.0e-6);
}

#[test]
fn constrained_fit_solves_intercept_and_curve() {
    let ln_freqs = ln_freqs_for_bins(256);
    let center = 1_200.0f32;
    let slope = -2.0f32;
    let curve = 1.75f32;
    let sums = sums_from_db(&ln_freqs, |ln_freq| {
        let x = ln_freq - center.ln();
        -18.0 + (slope * x) + (curve * x * x)
    });

    let fit = constrained(&ln_freqs, &sums, center, slope);

    assert!((f(fit.intercept) + 18.0).abs() < 1.0e-3);
    assert!((f(fit.curve) - curve).abs() < 1.0e-3);
    assert!(fit.points.iter().all(|point| !point.enabled));
}

#[test]
fn residual_peaks_add_limited_nodes() {
    let ln_freqs = ln_freqs_for_bins(512);
    let peak_a = 620.0f32.ln();
    let peak_b = 6_200.0f32.ln();
    let sums = sums_from_db(&ln_freqs, |ln_freq| {
        let a = if (ln_freq - peak_a).abs() < 0.035 { 12.0 } else { 0.0 };
        let b = if (ln_freq - peak_b).abs() < 0.035 { -10.0 } else { 0.0 };
        -30.0 + a + b
    });

    let fit = fit_average_curve::<Hardware>(&ln_freqs, &sums, 1, s(0.0)).unwrap();
    let enabled: Vec<_> = fit.points.iter().filter(|point| point.enabled).collect();

    assert!(!enabled.is_empty());
    assert!(enabled.len() <= MAX_THRESHOLD_CURVE_POINTS);
    assert!(enabled.iter().any(|point| (f(point.frequency).ln() - peak_a).abs() < 0.2));
}

#[test]
fn unused_point_slots_are_disabled() {
    let ln_freqs = ln_freqs_for_bins(128);
    let sums = sums_from_db(&ln_freqs, |ln_freq| {
        -20.0 + if (ln_freq - 2_000.0f32.ln()).abs() < 0.05 { 8.0 } else { 0.0 }
    });

    let fit = fit_average_curve::<Hardware>(&ln_freqs, &sums, 1, s(0.0)).unwrap();
    let first_disabled = fit
        .points
        .iter()
        .position(|point| !point.enabled)
        .unwrap_or(MAX_THRESHOLD_CURVE_POINTS);

    assert!(fit.points[first_disabled..].iter().all(|point| !point.enabled));
}

#[test]
fn silent_input_returns_failure() {
    let ln_freqs = ln_freqs_for_bins(128);
    let sums = vec![d(0.0); ln_freqs.len()];

    assert!(fit_average_curve::<Hardware>(&ln_freqs, &sums, 16, s(0.0)).is_none());
}

#[test]
fn accumulator_collects_duration_and_averages_channels() {
    let ln_freqs = ln_freqs_for_bins(64);
    let mut meter = MatchCurveMeter::new(64);
    meter.start::<Hardware>(s(10.0));
    meter.measure_magnitudes::<Hardware>(&[s(1.0); 64]);
    assert!(meter
        .advance_and_finish::<Hardware>(4, &ln_freqs, s(0.0), s(1_000.0), s(0.0))
        .is_none());

    meter.measure_magnitudes::<Hardware>(&[s(3.0); 64]);
    let fit = meter
        .advance_and_finish::<Hardware>(46, &ln_freqs, s(0.0), s(1_000.0), s(0.0))
        .unwrap()
        .unwrap();
    let expected_db = f(Hardware::gain_to_db(s(2.0)));

    assert!((f(fit.intercept) - expected_db).abs() < 1.0e-3);
}

#[test]
fn nothing_accumulated_returns_failure() {
    let ln_freqs = ln_freqs_for_bins(128);
    let sums = sums_from_db(&ln_freqs, |_| -18.0);

    assert!(fit_average_curve::<Hardware>(&ln_freqs, &sums, 0, s(0.0)).is_none());
    assert!(fit_average_curve_constrained::<Hardware>(
        &ln_freqs,
        &sums,
        0,
        s(0.0),
        s(1_000.0),
        s(0.0)
    )
    .is_none());
}

#[test]
fn the_downwards_offset_is_taken_out_of_the_fit() {
    let ln_freqs = ln_freqs_for_bins(256);
    let sums = sums_from_db(&ln_freqs, |_| -18.0);

    let fit = fit_average_curve::<Hardware>(&ln_freqs, &sums, 1, s(6.0)).unwrap();

    assert!((f(fit.intercept) + 24.0).abs() < 1.0e-3);
}

#[test]
fn meters_only_measure_while_they_run() {
    let mut meter = MatchCurveMeter::new(4);
    meter.measure_magnitudes::<Hardware>(&[s(1.0); 4]);
    assert_eq!(meter.spectrum_count, 0);
    assert!(meter.magnitude_sums.iter().all(|sum| w(*sum) == 0.0));

    meter.start::<Hardware>(s(10.0));
    meter.measure_magnitudes::<Hardware>(&[s(1.5), s(2.0)]);
    assert_eq!(meter.spectrum_count, 1);
    assert_eq!(w(meter.magnitude_sums[0]), 1.5);
    assert_eq!(w(meter.magnitude_sums[3]), 0.0);

    meter.resize(2);
    assert!(meter.is_active());
    assert_eq!(meter.magnitude_sums.len(), 2);
}

#[test]
fn equations_are_solved() {
    let equations = [
        [d(0.0), d(2.0), d(0.0), d(4.0)],
        [d(1.0), d(0.0), d(0.0), d(3.0)],
        [d(0.0), d(0.0), d(4.0), d(2.0)],
    ];
    let solution = solve_3x3::<Hardware>(equations).unwrap();
    assert_eq!([w(solution[0]), w(solution[1]), w(solution[2])], [3.0, 2.0, 0.5]);

    let singular = [
        [d(1.0), d(1.0), d(1.0), d(1.0)],
        [d(2.0), d(2.0), d(2.0), d(2.0)],
        [d(0.0), d(0.0), d(4.0), d(2.0)],
    ];
    assert!(solve_3x3::<Hardware>(singular).is_none());
}

#[test]
fn a_published_curve_is_taken_once() {
    let runtime = MatchCurveRuntime::new();
    assert!(runtime.take_finished_result().is_none());
    runtime.request();
    assert!(runtime.begin_running_if_requested());

    let mut fit = MatchCurveFit::default();
    fit.intercept = s(-9.0);
    fit.slope = s(1.25);
    fit.points[2] = CurvePoint { enabled: true, frequency: s(440.0), offset_db: s(3.0) };
    runtime.publish_result(Some(fit));
    assert_eq!(runtime.take_finished_result(), Some(MatchCurveResult::Matched(fit)));
    assert_eq!(runtime.take_finished_result(), None);

    runtime.request();
    runtime.publish_result(None);
    assert_eq!(runtime.take_finished_result(), Some(MatchCurveResult::Failed));
}

