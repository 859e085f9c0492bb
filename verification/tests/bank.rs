use polarity_sc_dark::analyzer::AnalyzerData;
use polarity_sc_dark::arithmetic::Arithmetic;
use polarity_sc_dark::compressor_bank::CompressorBank;
use polarity_sc_dark::dynamics::{
    compress_downwards, compress_upwards, downwards_soft_knee_coefficients, rolled_off_ratio,
    upwards_soft_knee_coefficients, TransferCurve,
};
use polarity_sc_dark::envelope::{
    channel_link, effective_sample_rate, faded_scale, follow, follower_timing, linked_magnitude,
    Bin,
};
use polarity_sc_dark::frozen_ir::FrozenIrData;
use polarity_sc_dark::match_curve::{MatchCurveResult, MatchCurveRuntime};
use polarity_sc_dark::params::{
    internal_threshold_slope, threshold_slope_from_display_value,
    threshold_slope_to_display_value, CompressorBankParams, CurvePointParam, GlobalParams,
    SpectralCompressorParams, ThresholdCurvePointParams, ThresholdMode, ThresholdParam,
    ThresholdParams,
};
use polarity_sc_dark::processing::hop_frames;
use polarity_sc_dark::single::{double, single, Double, Single};
use polarity_sc_dark::updates::{Direction, DueUpdates, ParameterChange, Updates};
use std::sync::Arc;
use triple_buffer::TripleBuffer;

/// Computes with the machine's own floating-point unit.
struct Hardware;

fn s(value: f32) -> Single {
    single(value.to_bits())
}

fn f(value: Single) -> f32 {
    f32::from_bits(value.bits)
}

fn d(value: f64) -> Double {
    double(value.to_bits())
}

fn w(value: Double) -> f64 {
    f64::from_bits(value.bits)
}

impl Arithmetic for Hardware {
    fn sum(a: Single, b: Single) -> Single {
        s(f(a) + f(b))
    }

    fn difference(a: Single, b: Single) -> Single {
        s(f(a) - f(b))
    }

    fn product(a: Single, b: Single) -> Single {
        s(f(a) * f(b))
    }

    fn quotient(a: Single, b: Single) -> Single {
        s(f(a) / f(b))
    }

    fn square_root(a: Single) -> Single {
        s(f(a).sqrt())
    }

    fn natural_log(a: Single) -> Single {
        s(f(a).ln())
    }

    fn exponential(a: Single) -> Single {
        s(f(a).exp())
    }

    fn rounded(a: Single) -> Single {
        s(f(a).round())
    }

    fn floored(a: Single) -> Single {
        s(f(a).floor())
    }

    fn ceiled(a: Single) -> Single {
        s(f(a).ceil())
    }

    fn from_count(n: usize) -> Single {
        s(n as f32)
    }

    fn to_count(a: Single) -> u64 {
        f(a) as u64
    }

    fn magnitude(re: Single, im: Single) -> Single {
        s(f(re).hypot(f(im)))
    }

    fn gain_to_db(a: Single) -> Single {
        s(f(a).max(1e-5).log10() * 20.0)
    }

    fn gain_to_db_fast_epsilon(a: Single) -> Single {
        s(f(a).max(1e-5).ln() * (std::f32::consts::LOG10_E * 20.0))
    }

    fn db_to_gain(a: Single) -> Single {
        if f(a) > -100.0 {
            s(10.0f32.powf(f(a) * 0.05))
        } else {
            s(0.0)
        }
    }

    fn db_to_gain_fast(a: Single) -> Single {
        s((f(a) * (std::f32::consts::LN_10 / 20.0)).exp())
    }

    fn widened(a: Single) -> Double {
        d(f(a) as f64)
    }

    fn narrowed(a: Double) -> Single {
        s(w(a) as f32)
    }

    fn wide_count(n: u64) -> Double {
        d(n as f64)
    }

    fn wide_sum(a: Double, b: Double) -> Double {
        d(w(a) + w(b))
    }

    fn wide_difference(a: Double, b: Double) -> Double {
        d(w(a) - w(b))
    }

    fn wide_product(a: Double, b: Double) -> Double {
        d(w(a) * w(b))
    }

    fn wide_quotient(a: Double, b: Double) -> Double {
        d(w(a) / w(b))
    }

    fn wide_square_root(a: Double) -> Double {
        d(w(a).sqrt())
    }

    fn text(a: Single) -> String {
        format!("{}", f(a))
    }

    fn text_with_two_decimals(a: Single) -> String {
        format!("{:.2}", f(a))
    }

    fn text_with_sign(a: Single) -> String {
        format!("{:+.2}", f(a))
    }

    fn parsed(text: &str) -> Option<Single> {
        text.parse::<f32>().ok().map(s)
    }
}

fn make_bank(
    num_channels: usize,
    window_size: usize,
) -> (CompressorBank, triple_buffer::Output<AnalyzerData>, triple_buffer::Output<FrozenIrData>) {
    let (analyzer_input_data, analyzer_output_data) =
        TripleBuffer::<AnalyzerData>::default().split();
    let (frozen_ir_input_data, frozen_ir_output_data) =
        TripleBuffer::<FrozenIrData>::default().split();
    let mut bank = CompressorBank::new(
        analyzer_input_data,
        frozen_ir_input_data,
        Arc::new(MatchCurveRuntime::new()),
        num_channels,
        window_size,
    );
    bank.update_capacity(num_channels, window_size);
    bank.resize::<Hardware>(s(48_000.0), window_size);
    (bank, analyzer_output_data, frozen_ir_output_data)
}

fn make_params() -> SpectralCompressorParams {
    SpectralCompressorParams {
        threshold: ThresholdParams::new(),
        compressors: CompressorBankParams::new(),
        global: GlobalParams {
            compressor_attack_ms: s(150.0),
            compressor_release_ms: s(300.0),
            compressor_freeze: false,
        },
        editor_open: false,
    }
}

fn make_bank_and_params(
    num_channels: usize,
    window_size: usize,
) -> (CompressorBank, SpectralCompressorParams, triple_buffer::Output<FrozenIrData>) {
    let (mut bank, _analyzer_output_data, frozen_ir_output_data) =
        make_bank(num_channels, window_size);
    configure_test_downwards_compression(&mut bank, -24.0, 4.0, 0.0);
    (bank, make_params(), frozen_ir_output_data)
}

fn configure_test_downwards_compression(
    bank: &mut CompressorBank,
    threshold_db: f32,
    ratio: f32,
    knee_width_db: f32,
) {
    let knee = downwards_soft_knee_coefficients::<Hardware>(
        s(threshold_db),
        s(knee_width_db),
        s(ratio),
    );

    bank.downwards.thresholds_db.fill(s(threshold_db));
    bank.downwards.ratios.fill(s(ratio));
    bank.downwards.knee_parabola_scale.fill(knee.scale);
    bank.downwards.knee_parabola_intercept.fill(knee.intercept);
    bank.upwards.thresholds_db.fill(s(0.0));
    bank.upwards.ratios.fill(s(1.0));
    bank.upwards.knee_parabola_scale.fill(s(0.0));
    bank.upwards.knee_parabola_intercept.fill(s(0.0));
}

fn make_complex_buffer(scale: f32, len: usize) -> Vec<Bin> {
    (0..len).map(|bin_idx| Bin { re: s(scale * (bin_idx as f32 + 1.0)), im: s(0.0) }).collect()
}

fn assert_snapshot_differs(lhs: &[Single], rhs: &[Single]) {
    assert!(
        lhs.iter().zip(rhs.iter()).any(|(left, right)| (f(*left) - f(*right)).abs() > 1.0e-4),
        "expected snapshots to differ"
    );
}

fn assert_slice_near(lhs: &[Single], rhs: &[Single]) {
    assert_eq!(lhs.len(), rhs.len());
    for (idx, (left, right)) in lhs.iter().zip(rhs).enumerate() {
        assert!(
            (f(*left) - f(*right)).abs() < 1.0e-5,
            "mismatch at {idx}: {} != {}",
            f(*left),
            f(*right)
        );
    }
}

#[test]
fn threshold_slope_default_displays_as_pink_noise_tilt() {
    assert_eq!(f(threshold_slope_to_display_value::<Hardware>(s(0.0))), 3.0);
    assert_eq!(f(threshold_slope_from_display_value::<Hardware>(s(3.0))), 0.0);
    assert_eq!(f(internal_threshold_slope::<Hardware>(s(0.0))), -3.0);
}

#[test]
fn threshold_slope_zero_display_maps_to_white_noise_tilt() {
    let stored_slope = threshold_slope_from_display_value::<Hardware>(s(0.0));

    assert_eq!(f(stored_slope), 3.0);
    assert_eq!(f(internal_threshold_slope::<Hardware>(stored_slope)), 0.0);
}

#[test]
fn gain_smoothing_zero_percent_is_unchanged() {
    let window_size = 32;
    let num_bins = window_size / 2 + 1;
    let (mut bank, _params, _frozen_ir_output_data) = make_bank_and_params(1, window_size);
    let raw: Vec<Single> =
        (0..num_bins).map(|bin_idx| s((bin_idx as f32 % 5.0) - 8.0)).collect();
    bank.raw_gain_difference_db[..num_bins].copy_from_slice(&raw);

    bank.smooth_gain_differences::<Hardware>(s(0.0), 1, num_bins);

    assert_slice_near(&bank.smoothed_gain_difference_db[..num_bins], &raw);
}

#[test]
fn gain_smoothing_reduces_isolated_bin_spikes() {
    let window_size = 64;
    let num_bins = window_size / 2 + 1;
    let (mut bank, _params, _frozen_ir_output_data) = make_bank_and_params(1, window_size);
    bank.raw_gain_difference_db[..num_bins].fill(s(0.0));
    bank.raw_gain_difference_db[16] = s(-24.0);

    bank.smooth_gain_differences::<Hardware>(s(1.0), 1, num_bins);

    assert!(f(bank.smoothed_gain_difference_db[16]) > -24.0);
    assert!(f(bank.smoothed_gain_difference_db[16]) < 0.0);
    assert!(f(bank.smoothed_gain_difference_db[15]) < 0.0);
    assert!(f(bank.smoothed_gain_difference_db[17]) < 0.0);
}

#[test]
fn gain_smoothing_preserves_constant_curves() {
    let window_size = 64;
    let num_bins = window_size / 2 + 1;
    let (mut bank, _params, _frozen_ir_output_data) = make_bank_and_params(1, window_size);
    bank.raw_gain_difference_db[..num_bins].fill(s(-6.0));

    bank.smooth_gain_differences::<Hardware>(s(1.0), 1, num_bins);

    for gain_db in &bank.smoothed_gain_difference_db[..num_bins] {
        assert!((f(*gain_db) + 6.0).abs() < 1.0e-5);
    }
}

#[test]
fn gain_smoothing_does_not_add_low_frequency_upwards_gain() {
    let window_size = 64;
    let num_bins = window_size / 2 + 1;
    let (mut bank, _params, _frozen_ir_output_data) = make_bank_and_params(1, window_size);
    bank.raw_gain_difference_db[..num_bins].fill(s(0.0));
    bank.raw_gain_difference_db[3] = s(18.0);
    bank.raw_gain_difference_db[4] = s(18.0);

    bank.smooth_gain_differences::<Hardware>(s(1.0), 4, num_bins);

    assert!(f(bank.smoothed_gain_difference_db[1]) <= 0.0);
    assert!(f(bank.smoothed_gain_difference_db[2]) <= 0.0);
    assert!(f(bank.smoothed_gain_difference_db[3]) <= 0.0);
    assert!(f(bank.smoothed_gain_difference_db[4]) > 0.0);
}

#[test]
fn freeze_captures_smoothed_gain_curve() {
    let window_size = 64;
    let num_bins = window_size / 2 + 1;
    let (mut bank, _params, _frozen_ir_output_data) = make_bank_and_params(1, window_size);
    bank.raw_gain_difference_db[..num_bins].fill(s(0.0));
    bank.raw_gain_difference_db[16] = s(-24.0);
    bank.smooth_gain_differences::<Hardware>(s(1.0), 1, num_bins);
    let smoothed_snapshot = bank.smoothed_gain_difference_db[..num_bins].to_vec();
    let mut buffer = make_complex_buffer(1.0, num_bins);

    bank.apply_gain_differences::<Hardware>(&mut buffer, 0, true, true);

    assert!(bank.frozen_gain_snapshot_valid[0]);
    assert_slice_near(&bank.frozen_gain_difference_db[0][..num_bins], &smoothed_snapshot);
    assert_ne!(f(bank.frozen_gain_difference_db[0][16]), f(bank.raw_gain_difference_db[16]));
}

#[test]
fn freeze_captures_snapshot_on_first_enabled_frame() {
    let window_size = 16;
    let num_bins = window_size / 2 + 1;
    let (mut bank, params, _frozen_ir_output_data) = make_bank_and_params(1, window_size);

    let mut warmup = make_complex_buffer(1.0, num_bins);
    bank.update_envelopes::<Hardware>(&warmup, 0, &params, 4);
    bank.compress::<Hardware>(&mut warmup, 0, &params, 1, false, true);
    assert!(!bank.frozen_gain_snapshot_valid[0]);

    bank.sync_freeze_state(true);
    let mut capture = make_complex_buffer(2.0, num_bins);
    bank.update_envelopes::<Hardware>(&capture, 0, &params, 4);
    bank.compress::<Hardware>(&mut capture, 0, &params, 1, true, true);

    assert!(bank.frozen_gain_snapshot_valid[0]);
    assert!(bank.frozen_gain_difference_db[0]
        .iter()
        .skip(1)
        .any(|gain| f(*gain).abs() > 1.0e-4));
}

#[test]
fn freeze_holds_snapshot_across_input_and_sidechain_changes() {
    let window_size = 16;
    let num_bins = window_size / 2 + 1;
    let (mut bank, params, _frozen_ir_output_data) = make_bank_and_params(1, window_size);

    let sidechain_a = make_complex_buffer(1.0, num_bins);
    bank.process_sidechain::<Hardware>(&sidechain_a, 0);
    bank.sync_freeze_state(true);
    let mut capture = make_complex_buffer(3.0, num_bins);
    bank.update_envelopes::<Hardware>(&capture, 0, &params, 4);
    bank.compress_sidechain_match::<Hardware>(&mut capture, 0, &params, 1, true, true);
    let frozen_snapshot = bank.frozen_gain_difference_db[0].clone();

    let sidechain_b = make_complex_buffer(0.1, num_bins);
    bank.process_sidechain::<Hardware>(&sidechain_b, 0);
    let input_before = make_complex_buffer(0.25, num_bins);
    let mut held = input_before.clone();
    bank.update_envelopes::<Hardware>(&held, 0, &params, 4);
    bank.compress_sidechain_match::<Hardware>(&mut held, 0, &params, 1, true, true);

    assert_eq!(bank.frozen_gain_difference_db[0], frozen_snapshot);
    let expected_gain = f(Hardware::db_to_gain_fast(frozen_snapshot[1]));
    let actual_gain = f(held[1].re) / f(input_before[1].re);
    assert!((actual_gain - expected_gain).abs() < 1.0e-4);
    assert_eq!(f(held[1].im), 0.0);
}

#[test]
fn freeze_recaptures_after_toggle_off_and_on() {
    let window_size = 16;
    let num_bins = window_size / 2 + 1;
    let (mut bank, params, mut frozen_ir_output_data) = make_bank_and_params(1, window_size);

    bank.sync_freeze_state(true);
    let mut first_capture = make_complex_buffer(2.0, num_bins);
    bank.update_envelopes::<Hardware>(&first_capture, 0, &params, 4);
    bank.compress::<Hardware>(&mut first_capture, 0, &params, 1, true, true);
    let snapshot_a = bank.frozen_gain_difference_db[0].clone();
    bank.publish_frozen_ir_snapshot(4);
    assert!(frozen_ir_output_data.read().valid);

    bank.sync_freeze_state(false);
    let mut live = make_complex_buffer(0.3, num_bins);
    bank.update_envelopes::<Hardware>(&live, 0, &params, 4);
    bank.compress::<Hardware>(&mut live, 0, &params, 1, false, true);
    assert!(!bank.frozen_gain_snapshot_valid[0]);
    assert!(!frozen_ir_output_data.read().valid);

    bank.sync_freeze_state(true);
    let mut second_capture = make_complex_buffer(6.0, num_bins);
    bank.update_envelopes::<Hardware>(&second_capture, 0, &params, 4);
    bank.compress::<Hardware>(&mut second_capture, 0, &params, 1, true, true);
    let snapshot_b = bank.frozen_gain_difference_db[0].clone();
    bank.publish_frozen_ir_snapshot(4);

    assert!(bank.frozen_gain_snapshot_valid[0]);
    assert_snapshot_differs(&snapshot_a, &snapshot_b);
    assert!(frozen_ir_output_data.read().valid);
}

#[test]
fn freeze_snapshot_is_cleared_on_reset_and_resize() {
    let window_size = 16;
    let num_bins = window_size / 2 + 1;
    let (mut bank, params, mut frozen_ir_output_data) = make_bank_and_params(1, window_size);

    bank.sync_freeze_state(true);
    let mut capture = make_complex_buffer(2.5, num_bins);
    bank.update_envelopes::<Hardware>(&capture, 0, &params, 4);
    bank.compress::<Hardware>(&mut capture, 0, &params, 1, true, true);
    assert!(bank.frozen_gain_snapshot_valid[0]);
    bank.publish_frozen_ir_snapshot(4);
    assert!(frozen_ir_output_data.read().valid);

    bank.reset();
    assert!(!bank.frozen_gain_snapshot_valid[0]);
    assert!(bank.frozen_gain_difference_db[0].iter().all(|gain| f(*gain) == 0.0));
    assert!(!frozen_ir_output_data.read().valid);

    bank.sync_freeze_state(true);
    let mut recapture = make_complex_buffer(4.0, num_bins);
    bank.update_envelopes::<Hardware>(&recapture, 0, &params, 4);
    bank.compress::<Hardware>(&mut recapture, 0, &params, 1, true, true);
    assert!(bank.frozen_gain_snapshot_valid[0]);
    bank.publish_frozen_ir_snapshot(4);
    assert!(frozen_ir_output_data.read().valid);

    bank.resize::<Hardware>(s(48_000.0), 32);
    assert!(!bank.frozen_gain_snapshot_valid[0]);
    assert!(bank.frozen_gain_difference_db[0].iter().all(|gain| f(*gain) == 0.0));
    let snapshot = frozen_ir_output_data.read().clone();
    assert!(!snapshot.valid);
    assert_eq!(snapshot.window_size, 32);
}

#[test]
fn freeze_publishes_export_snapshot_after_capture() {
    let window_size = 16;
    let num_bins = window_size / 2 + 1;
    let (mut bank, params, mut frozen_ir_output_data) = make_bank_and_params(1, window_size);

    bank.sync_freeze_state(true);
    let mut capture = make_complex_buffer(3.5, num_bins);
    bank.update_envelopes::<Hardware>(&capture, 0, &params, 4);
    bank.compress::<Hardware>(&mut capture, 0, &params, 1, true, true);
    bank.publish_frozen_ir_snapshot(4);

    let snapshot = frozen_ir_output_data.read().clone();
    assert!(snapshot.valid);
    assert_eq!(snapshot.window_size, window_size);
    assert_eq!(snapshot.overlap_times, 4);
    assert_eq!(snapshot.num_channels, 1);
    assert!(f(snapshot.gain_difference_db[0][1]).abs() > 1.0e-4);
}

#[test]
fn freeze_export_snapshot_clears_on_unsupported_mode() {
    let window_size = 16;
    let num_bins = window_size / 2 + 1;
    let (mut bank, params, mut frozen_ir_output_data) = make_bank_and_params(1, window_size);

    bank.sync_freeze_state(true);
    let mut capture = make_complex_buffer(3.0, num_bins);
    bank.update_envelopes::<Hardware>(&capture, 0, &params, 4);
    bank.compress::<Hardware>(&mut capture, 0, &params, 1, true, true);
    bank.publish_frozen_ir_snapshot(4);
    assert!(frozen_ir_output_data.read().valid);

    bank.sync_freeze_state(false);

    let snapshot = frozen_ir_output_data.read().clone();
    assert!(!snapshot.valid);
}

#[test]
fn resizing_computes_the_frequencies_of_the_bins() {
    let (bank, _analyzer, _frozen) = make_bank(2, 16);

    assert_eq!(bank.ln_freqs.len(), 9);
    assert_eq!(f(bank.ln_freqs[0]), 0.0);
    assert!((f(bank.ln_freqs[1]) - 3_000.0f32.ln()).abs() < 1.0e-4);
    assert!((f(bank.ln_freqs[8]) - 24_000.0f32.ln()).abs() < 1.0e-4);
    assert_eq!(bank.envelopes.len(), 2);
    assert_eq!(f(bank.sample_rate()), 48_000.0);
    assert_eq!(bank.gain_smoothing_prefix_db.len(), 10);
}

#[test]
fn frames_are_processed_and_published_for_the_analyzer() {
    let (mut bank, mut analyzer, _frozen) = make_bank(1, 16);
    let mut params = make_params();
    params.editor_open = true;
    params.compressors.downwards.ratio = s(4.0);
    let before = make_complex_buffer(2.0, 9);
    let mut bins = before.clone();

    bank.process::<Hardware>(&mut bins, 0, &params, 4, 1);
    bank.publish_analyzer_if_needed();

    let data = analyzer.read();
    assert_eq!(data.num_bins, 9);
    assert_eq!(f(data.envelope_followers[1]), 4.0);
    assert!(f(data.gain_difference_db[1]) < 0.0);
    let gain = f(Hardware::db_to_gain_fast(data.gain_difference_db[1]));
    assert!((f(bins[1].re) - f(before[1].re) * gain).abs() < 1.0e-4);
}

#[test]
fn a_closed_editor_gets_no_analyzer_data() {
    let (mut bank, mut analyzer, _frozen) = make_bank(1, 16);
    let params = make_params();
    let mut bins = make_complex_buffer(2.0, 9);

    bank.process::<Hardware>(&mut bins, 0, &params, 4, 1);
    bank.publish_analyzer_if_needed();

    assert_eq!(analyzer.read().num_bins, 0);
}

#[test]
fn a_requested_match_runs_and_is_published() {
    let (mut bank, _analyzer, _frozen) = make_bank(1, 1024);
    let params = make_params();
    bank.match_curve_runtime.request();
    let mut rounds = 0;

    // Five seconds at 48 kHz with hops of 256 samples
    while rounds < 937 {
        let mut bins = make_complex_buffer(0.1, 513);
        bank.process::<Hardware>(&mut bins, 0, &params, 4, 1);
        assert!(bank.match_curve_runtime.take_finished_result().is_none());
        rounds += 1;
    }
    let mut bins = make_complex_buffer(0.1, 513);
    bank.process::<Hardware>(&mut bins, 0, &params, 4, 1);

    let result = bank.match_curve_runtime.take_finished_result();
    assert!(matches!(result, Some(MatchCurveResult::Matched(_))));
}

#[test]
fn all_channels_together_are_published_once_frozen() {
    let (mut bank, _analyzer, mut frozen) = make_bank(2, 16);
    let mut params = make_params();
    params.global.compressor_freeze = true;

    let mut left = make_complex_buffer(2.0, 9);
    bank.process::<Hardware>(&mut left, 0, &params, 4, 1);
    assert!(!frozen.read().valid);

    let mut right = make_complex_buffer(3.0, 9);
    bank.process::<Hardware>(&mut right, 1, &params, 4, 1);
    let snapshot = frozen.read();
    assert!(snapshot.valid);
    assert_eq!(snapshot.num_channels, 2);
    assert_eq!(snapshot.gain_difference_db[1][..9], bank.frozen_gain_difference_db[1][..]);
    let kept = snapshot.gain_difference_db.clone();
    assert!(snapshot.gain_difference_db[1][9..].iter().all(|gain| f(*gain) == 0.0));

    let mut loud = make_complex_buffer(9.0, 9);
    bank.process::<Hardware>(&mut loud, 0, &params, 4, 1);
    assert!(frozen.read().valid);
    assert_eq!(frozen.read().gain_difference_db, kept);
}

#[test]
fn updates_are_due_once() {
    let (bank, _analyzer, _frozen) = make_bank(1, 16);
    let all = Updates { thresholds: true, ratios: true, knee_parabolas: true };
    let none = Updates { thresholds: false, ratios: false, knee_parabolas: false };

    assert_eq!(bank.update_requests.take(), DueUpdates { downwards: all, upwards: all });
    assert_eq!(bank.update_requests.take(), DueUpdates { downwards: none, upwards: none });

    let handle = bank.update_requests.handle();
    handle.request(ParameterChange::Ratios(Direction::Upwards).updates());
    assert_eq!(
        bank.update_requests.take(),
        DueUpdates {
            downwards: none,
            upwards: Updates { thresholds: false, ratios: true, knee_parabolas: true },
        }
    );
    handle.request(ParameterChange::Curve.updates());
    assert_eq!(
        bank.update_requests.take().downwards,
        Updates { thresholds: true, ratios: false, knee_parabolas: true }
    );
    handle.request(ParameterChange::Nothing.updates());
    assert_eq!(bank.update_requests.take(), DueUpdates { downwards: none, upwards: none });
    handle.request_all();
    assert_eq!(bank.update_requests.take(), DueUpdates { downwards: all, upwards: all });
}

#[test]
fn a_resize_makes_all_updates_due() {
    let (mut bank, _analyzer, _frozen) = make_bank(1, 16);
    let all = Updates { thresholds: true, ratios: true, knee_parabolas: true };
    bank.update_requests.take();
    bank.resize::<Hardware>(s(44_100.0), 32);

    assert_eq!(bank.update_requests.take(), DueUpdates { downwards: all, upwards: all });
}

#[test]
fn changed_curve_parameters_raise_four_flags() {
    let (bank, _analyzer, _frozen) = make_bank(1, 16);
    let curve = Updates { thresholds: true, ratios: false, knee_parabolas: true };
    for change in [
        ThresholdParam::ThresholdDb.setting().change,
        ThresholdParam::CenterFrequency.setting().change,
        ThresholdParam::CurveSlope.setting().change,
        ThresholdParam::CurveCurve.setting().change,
        ThresholdParams::mode_change(),
        ThresholdCurvePointParams::enabled_change(),
        CurvePointParam::Frequency.setting().change,
        CurvePointParam::OffsetDb.setting().change,
    ] {
        bank.update_requests.take();
        bank.update_requests.parameter_changed(change);
        assert_eq!(bank.update_requests.take(), DueUpdates { downwards: curve, upwards: curve });
    }
}

#[test]
fn raised_flags_are_applied_and_lowered() {
    let (mut bank, _analyzer, _frozen) = make_bank(1, 16);
    bank.resize::<Hardware>(s(16_000.0), 16);
    let params = make_params();
    let none = Updates { thresholds: false, ratios: false, knee_parabolas: false };
    bank.update_if_needed::<Hardware>(&params);

    // The second bin lies at the default center
    assert!((f(bank.downwards.thresholds_db[1]) + 12.0).abs() < 1.0e-4);
    assert!((f(bank.upwards.thresholds_db[1]) + 12.0).abs() < 1.0e-4);
    assert!((f(bank.downwards.knee_parabola_intercept[1]) - 15.0).abs() < 1.0e-4);
    assert!((f(bank.upwards.knee_parabola_intercept[1]) - 9.0).abs() < 1.0e-4);
    assert_eq!(bank.update_requests.take(), DueUpdates { downwards: none, upwards: none });

    // Nothing is recomputed as long as no flag is raised
    let mut other = make_params();
    other.threshold.threshold_db = s(-30.0);
    bank.update_if_needed::<Hardware>(&other);
    assert!((f(bank.downwards.thresholds_db[1]) + 12.0).abs() < 1.0e-4);
    bank.update_requests.parameter_changed(ParameterChange::Thresholds(Direction::Upwards));
    bank.update_if_needed::<Hardware>(&other);
    assert!((f(bank.downwards.thresholds_db[1]) + 12.0).abs() < 1.0e-4);
    assert!((f(bank.upwards.thresholds_db[1]) + 30.0).abs() < 1.0e-4);
}

#[test]
fn updates_compute_thresholds_ratios_and_knees() {
    let (mut bank, _analyzer, _frozen) = make_bank(1, 16);
    let mut params = make_params();
    params.threshold.curve_slope = s(3.0);
    params.threshold.threshold_db = s(-20.0);
    params.compressors.downwards.threshold_offset_db = s(2.0);
    params.compressors.downwards.ratio = s(4.0);
    params.compressors.downwards.high_freq_ratio_rolloff = s(0.0);
    params.compressors.downwards.knee_width_db = s(6.0);

    bank.update_if_needed::<Hardware>(&params);

    assert!((f(bank.downwards.thresholds_db[1]) + 18.0).abs() < 1.0e-4);
    assert!((f(bank.downwards.ratios[1]) - 4.0).abs() < 1.0e-6);
    assert!(f(bank.downwards.knee_parabola_scale[1]) != 0.0);
}

#[test]
fn sidechains_are_linked() {
    let spectra = vec![vec![s(2.0)], vec![s(4.0)], vec![s(6.0)]];
    let unlinked = channel_link::<Hardware>(s(0.0), 3);
    assert_eq!(f(linked_magnitude::<Hardware>(&spectra, 1, unlinked, 0)), 4.0);

    let linked = channel_link::<Hardware>(s(1.0), 3);
    assert!((f(linked_magnitude::<Hardware>(&spectra, 1, linked, 0)) - 4.0).abs() < 1.0e-5);
    assert!((f(linked_magnitude::<Hardware>(&spectra, 0, linked, 0)) - 4.0).abs() < 1.0e-5);
}

#[test]
fn envelopes_follow_at_once_after_a_reset() {
    let (mut bank, params, _frozen) = make_bank_and_params(1, 16);
    bank.reset();
    let loud = make_complex_buffer(2.0, 9);
    bank.update_envelopes::<Hardware>(&loud, 0, &params, 4);
    assert_eq!(f(bank.envelopes[0][1]), 4.0);

    let quiet = make_complex_buffer(0.0, 9);
    bank.envelope_followers_timing_scale = s(1.0);
    bank.update_envelopes::<Hardware>(&quiet, 0, &params, 4);
    assert!(f(bank.envelopes[0][1]) > 3.9);
    assert!(f(bank.envelopes[0][1]) < 4.0);
}

#[test]
fn compression_has_exact_values_outside_of_the_knee() {
    let curve = TransferCurve {
        threshold_db: s(-20.0),
        ratio: s(4.0),
        knee_width_db: s(0.0),
        knee: downwards_soft_knee_coefficients::<Hardware>(s(-20.0), s(0.0), s(4.0)),
    };
    assert_eq!(f(compress_downwards::<Hardware>(s(-40.0), curve)), -40.0);
    assert_eq!(f(compress_downwards::<Hardware>(s(0.0), curve)), -15.0);
    assert_eq!(f(compress_upwards::<Hardware>(s(-40.0), curve)), -25.0);
    assert_eq!(f(compress_upwards::<Hardware>(s(0.0), curve)), 0.0);
}

#[test]
fn windows_hop_by_their_overlap() {
    assert_eq!(hop_frames(2048, 4), 512);
    assert_eq!(hop_frames(2, 4), 1);
}

#[test]
fn knees_and_ratios_have_exact_values() {
    let down = downwards_soft_knee_coefficients::<Hardware>(s(-20.0), s(6.0), s(4.0));
    assert!((f(down.scale) + 0.0625).abs() < 1.0e-7);
    assert_eq!(f(down.intercept), 23.0);
    let up = upwards_soft_knee_coefficients::<Hardware>(s(-20.0), s(6.0), s(4.0));
    assert!((f(up.scale) - 0.0625).abs() < 1.0e-7);
    assert_eq!(f(up.intercept), 17.0);
    let hard = upwards_soft_knee_coefficients::<Hardware>(s(-20.0), s(0.0), s(4.0));
    assert_eq!((f(hard.scale), f(hard.intercept)), (1.0, 20.0));

    // At the threshold the knee has reached a quarter of its bend
    let curve =
        TransferCurve { threshold_db: s(-20.0), ratio: s(4.0), knee_width_db: s(6.0), knee: down };
    assert!((f(compress_downwards::<Hardware>(s(-20.0), curve)) + 20.5625).abs() < 1.0e-5);

    // At 22,050 Hz all of the rolloff applies
    let rolled_off = rolled_off_ratio::<Hardware>(s(0.25), s(0.5), s(10.001068));
    assert!((f(rolled_off) - 1.6).abs() < 1.0e-5);
    let below_one_hertz = rolled_off_ratio::<Hardware>(s(0.25), s(0.5), s(-3.0));
    assert_eq!(f(below_one_hertz), 4.0);
}

#[test]
fn followers_have_exact_timings() {
    let rate = effective_sample_rate::<Hardware>(s(48_000.0), 2048, 4);
    assert_eq!(f(rate), 93.75);
    let timing = follower_timing::<Hardware>(s(100.0), s(0.0), s(1.0), s(10.0));
    assert!((f(timing.attack.old_t) - (-1.0f32).exp()).abs() < 1.0e-6);
    assert_eq!((f(timing.release.old_t), f(timing.release.new_t)), (0.0, 1.0));
    assert_eq!(f(follow::<Hardware>(timing, s(2.0), s(1.0))), 1.0);
    let attacked = f(follow::<Hardware>(timing, s(1.0), s(2.0)));
    assert!((attacked - (2.0 - (-1.0f32).exp())).abs() < 1.0e-6);
    // A tenth of a second of 0.15 seconds at 10 windows per second
    assert!((f(faded_scale::<Hardware>(s(0.0), s(10.0))) - 2.0 / 3.0).abs() < 1.0e-6);
    assert_eq!(f(faded_scale::<Hardware>(s(0.9), s(10.0))), 1.0);
}

#[test]
fn sidechain_magnitudes_move_the_thresholds() {
    let (mut bank, params, _frozen) = make_bank_and_params(1, 16);
    bank.envelopes[0].fill(s(1.0));
    bank.process_sidechain::<Hardware>(&vec![Bin { re: s(0.0), im: s(10.0) }; 9], 0);
    let mut bins = make_complex_buffer(1.0, 9);
    bank.compress_sidechain_match::<Hardware>(&mut bins, 0, &params, 1, false, false);

    // A threshold of -24 dB is moved up by 20 dB: 0 dB become -4 + 4 / 4 dB
    assert!((f(bank.raw_gain_difference_db[1]) + 3.0).abs() < 1.0e-3);
    assert!((f(bank.linked_sidechain_magnitudes[1]) - 10.0).abs() < 1.0e-5);

    bank.process_sidechain::<Hardware>(&vec![Bin { re: s(0.0), im: s(0.0) }; 9], 0);
    bank.compress_sidechain_match::<Hardware>(&mut bins, 0, &params, 1, false, false);
    assert_eq!(f(bank.linked_sidechain_magnitudes[1]), f32::EPSILON);
    // The threshold never goes below -100 dB
    assert!((f(bank.raw_gain_difference_db[1]) + 75.0).abs() < 1.0e-3);
}

#[test]
fn upwards_compression_spares_the_lowest_bins_and_silence() {
    let (mut bank, params, _frozen) = make_bank_and_params(1, 16);
    bank.downwards.ratios.fill(s(1.0));
    bank.upwards.thresholds_db.fill(s(0.0));
    bank.upwards.ratios.fill(s(2.0));
    bank.envelopes[0].fill(s(0.1));
    bank.envelopes[0][5] = s(0.0);
    let mut bins = make_complex_buffer(1.0, 9);
    bank.compress::<Hardware>(&mut bins, 0, &params, 3, false, false);

    assert!(f(bank.raw_gain_difference_db[2]).abs() < 1.0e-4);
    assert!((f(bank.raw_gain_difference_db[3]) - 10.0).abs() < 1.0e-3);
    assert!(f(bank.raw_gain_difference_db[5]).abs() < 1.0e-3);
}

#[test]
fn sidechain_compression_follows_the_sidechain() {
    let (mut bank, mut params, _frozen) = make_bank_and_params(2, 16);
    params.threshold.mode = ThresholdMode::SidechainCompress;
    params.threshold.sc_channel_link = s(1.0);
    bank.reset();
    bank.process_sidechain::<Hardware>(&make_complex_buffer(1.0, 9), 0);
    bank.process_sidechain::<Hardware>(&make_complex_buffer(3.0, 9), 1);
    bank.update_envelopes_sidechain::<Hardware>(0, &params, 4);

    assert!((f(bank.envelopes[0][0]) - 2.0).abs() < 1.0e-5);
    assert!((f(bank.envelopes[0][3]) - 8.0).abs() < 1.0e-5);
}

#[test]
fn downwards_compression_keeps_the_order_of_levels() {
    for knee_width in [0.0f32, 6.0] {
        let curve = TransferCurve {
            threshold_db: s(-20.0),
            ratio: s(4.0),
            knee_width_db: s(knee_width),
            knee: downwards_soft_knee_coefficients::<Hardware>(s(-20.0), s(knee_width), s(4.0)),
        };
        let mut last = f32::NEG_INFINITY;
        for step in 0..=240 {
            let input = -60.0 + step as f32 * 0.25;
            let output = f(compress_downwards::<Hardware>(s(input), curve));
            assert!(last <= output);
            assert!(output <= input);
            last = output;
        }
    }

    // The knee starts where the levels below it end
    let knee = downwards_soft_knee_coefficients::<Hardware>(s(-20.0), s(6.0), s(4.0));
    assert!(f(knee.scale) < 0.0);
    assert_eq!(-23.0 + f(knee.intercept), 0.0);
}
