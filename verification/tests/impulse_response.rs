use polarity_sc_dark::arithmetic::Arithmetic;
use polarity_sc_dark::envelope::Bin;
use polarity_sc_dark::frozen_ir::{
    check_signal, exported_channels, first_non_dc_bin_idx, impulse_channels, interleaved,
    process_signal_with_snapshot, render_frozen_ir, shape_bins, validate_snapshot, wav_layout,
    window_gain, FrozenIrData, FrozenIrError, WindowPass,
};
use polarity_sc_dark::single::{double, single, Double, Single};
use std::f32::consts::TAU;

/// Computes with the machine's own floating-point unit.
struct Hardware;

fn s(value: f32) -> Single {
    single(value.to_bits())
}

fn f(value: Single) -> f32 {
    f32::from_bits(value.bits)
}

fn d(value: f64) -> Double {
    double(value.to_bits())
}

fn w(value: Double) -> f64 {
    f64::from_bits(value.bits)
}

impl Arithmetic for Hardware {
    fn sum(a: Single, b: Single) -> Single {
        s(f(a) + f(b))
    }

    fn difference(a: Single, b: Single) -> Single {
        s(f(a) - f(b))
    }

    fn product(a: Single, b: Single) -> Single {
        s(f(a) * f(b))
    }

    fn quotient(a: Single, b: Single) -> Single {
        s(f(a) / f(b))
    }

    fn square_root(a: Single) -> Single {
        s(f(a).sqrt())
    }

    fn natural_log(a: Single) -> Single {
        s(f(a).ln())
    }

    fn exponential(a: Single) -> Single {
        s(f(a).exp())
    }

    fn rounded(a: Single) -> Single {
        s(f(a).round())
    }

    fn floored(a: Single) -> Single {
        s(f(a).floor())
    }

    fn ceiled(a: Single) -> Single {
        s(f(a).ceil())
    }

    fn from_count(n: usize) -> Single {
        s(n as f32)
    }

    fn to_count(a: Single) -> u64 {
        f(a) as u64
    }

    fn magnitude(re: Single, im: Single) -> Single {
        s(f(re).hypot(f(im)))
    }

    fn gain_to_db(a: Single) -> Single {
        s(f(a).max(1e-5).log10() * 20.0)
    }

    fn gain_to_db_fast_epsilon(a: Single) -> Single {
        s(f(a).max(1e-5).ln() * (std::f32::consts::LOG10_E * 20.0))
    }

    fn db_to_gain(a: Single) -> Single {
        if f(a) > -100.0 {
            s(10.0f32.powf(f(a) * 0.05))
        } else {
            s(0.0)
        }
    }

    fn db_to_gain_fast(a: Single) -> Single {
        s((f(a) * (std::f32::consts::LN_10 / 20.0)).exp())
    }

    fn widened(a: Single) -> Double {
        d(f(a) as f64)
    }

    fn narrowed(a: Double) -> Single {
        s(w(a) as f32)
    }

    fn wide_count(n: u64) -> Double {
        d(n as f64)
    }

    fn wide_sum(a: Double, b: Double) -> Double {
        d(w(a) + w(b))
    }

    fn wide_difference(a: Double, b: Double) -> Double {
        d(w(a) - w(b))
    }

    fn wide_product(a: Double, b: Double) -> Double {
        d(w(a) * w(b))
    }

    fn wide_quotient(a: Double, b: Double) -> Double {
        d(w(a) / w(b))
    }

    fn wide_square_root(a: Double) -> Double {
        d(w(a).sqrt())
    }

    fn text(a: Single) -> String {
        format!("{}", f(a))
    }

    fn text_with_two_decimals(a: Single) -> String {
        format!("{:.2}", f(a))
    }

    fn text_with_sign(a: Single) -> String {
        format!("{:+.2}", f(a))
    }

    fn parsed(text: &str) -> Option<Single> {
        text.parse::<f32>().ok().map(s)
    }
}

fn hann(window_size: usize) -> Vec<Single> {
    (0..window_size)
        .map(|i| s(0.5 - 0.5 * (TAU * i as f32 / (window_size - 1) as f32).cos()))
        .collect()
}

/// Runs a pass over all windows of a channel and adds up what comes out, one window later.
fn overlap_add(pass: &WindowPass, channel: Vec<Single>) -> Result<Vec<Single>, FrozenIrError> {
    let window_size = pass.window.len();
    let len = channel.len();
    let mut planner = realfft::RealFftPlanner::<f32>::new();
    let forward = planner.plan_fft_forward(window_size);
    let inverse = planner.plan_fft_inverse(window_size);
    let hop = window_size / pass.overlap_times;

    let mut output = vec![0.0f32; len + window_size];
    let mut end = hop;
    while end <= len {
        let block: Vec<Single> = (0..window_size)
            .map(|i| if end + i < window_size { s(0.0) } else { channel[end + i - window_size] })
            .collect();
        let rendered = pass.render::<Hardware, _, _>(
            block,
            |samples| {
                let mut real: Vec<f32> = samples.iter().map(|sample| f(*sample)).collect();
                let mut spectrum = forward.make_output_vec();
                forward.process(&mut real, &mut spectrum).map_err(|err| err.to_string())?;
                Ok(spectrum.iter().map(|bin| Bin { re: s(bin.re), im: s(bin.im) }).collect())
            },
            |bins| {
                let mut spectrum = inverse.make_input_vec();
                for (target, bin) in spectrum.iter_mut().zip(&bins) {
                    target.re = f(bin.re);
                    target.im = f(bin.im);
                }
                let mut real = inverse.make_output_vec();
                inverse.process(&mut spectrum, &mut real).map_err(|err| err.to_string())?;
                Ok(real.iter().map(|sample| s(*sample)).collect())
            },
        )?;
        for (i, sample) in rendered.iter().enumerate() {
            output[end + i] += f(*sample);
        }
        end += hop;
    }
    Ok(output[..len].iter().map(|sample| s(*sample)).collect())
}

fn render(snapshot: &FrozenIrData) -> Result<Vec<Vec<Single>>, FrozenIrError> {
    render_frozen_ir::<Hardware, _>(snapshot, &hann(snapshot.window_size.min(512)), overlap_add)
}

fn make_snapshot(window_size: usize, overlap_times: usize, num_channels: usize) -> FrozenIrData {
    let num_bins = window_size / 2 + 1;
    let mut snapshot = FrozenIrData {
        valid: true,
        sample_rate: s(48_000.0),
        window_size,
        overlap_times,
        num_channels,
        ..FrozenIrData::default()
    };

    for channel_idx in 0..num_channels {
        snapshot.gain_difference_db[channel_idx][..num_bins].fill(s(0.0));
    }

    snapshot
}

fn transfer_function_db(ir: &[Single], fft_size: usize, bin_idx: usize) -> f32 {
    let mut re = 0.0f32;
    let mut im = 0.0f32;
    for (sample_idx, sample) in ir.iter().enumerate() {
        let phase = -TAU * bin_idx as f32 * sample_idx as f32 / fft_size as f32;
        re += phase.cos() * f(*sample);
        im += phase.sin() * f(*sample);
    }

    f(Hardware::gain_to_db(s(re.hypot(im).max(f32::EPSILON))))
}

fn stable_bin_range(snapshot: &FrozenIrData) -> std::ops::Range<usize> {
    let start = first_non_dc_bin_idx::<Hardware>(snapshot.sample_rate, snapshot.num_bins())
        .max(64)
        .min(snapshot.num_bins());
    let end = snapshot.num_bins().saturating_sub(8).max(start);
    start..end
}

#[test]
fn unity_renders_to_near_delta() {
    let snapshot = make_snapshot(512, 4, 1);
    let rendered = render(&snapshot).unwrap();
    let ir = &rendered[0];

    assert_eq!(ir.len(), snapshot.exported_len());
    for bin_idx in stable_bin_range(&snapshot) {
        let actual_db = transfer_function_db(ir, snapshot.window_size, bin_idx);
        assert!(actual_db.abs() < 1.0);
    }
}

#[test]
fn shaped_matches_target_bin_gains() {
    let mut snapshot = make_snapshot(512, 4, 1);
    for bin_idx in 1..snapshot.num_bins() {
        let position = bin_idx as f32 / (snapshot.num_bins() - 1) as f32;
        snapshot.gain_difference_db[0][bin_idx] = s(-7.5 + position * 10.0);
    }

    let rendered = render(&snapshot).unwrap();
    let ir = &rendered[0];
    for bin_idx in stable_bin_range(&snapshot) {
        let actual_db = transfer_function_db(ir, snapshot.window_size, bin_idx);
        let expected_db = f(snapshot.gain_difference_db[0][bin_idx]);
        assert!((actual_db - expected_db).abs() < 2.0);
    }
}

#[test]
fn stereo_keeps_per_channel_curves() {
    let mut snapshot = make_snapshot(512, 4, 2);
    for bin_idx in 1..snapshot.num_bins() {
        snapshot.gain_difference_db[0][bin_idx] = s(-6.0);
        snapshot.gain_difference_db[1][bin_idx] = s(3.0);
    }

    let rendered = render(&snapshot).unwrap();
    assert_eq!(rendered.len(), 2);
    assert_ne!(rendered[0], rendered[1]);

    let probe_bin = stable_bin_range(&snapshot).start + 12;
    let left_db = transfer_function_db(&rendered[0], snapshot.window_size, probe_bin);
    let right_db = transfer_function_db(&rendered[1], snapshot.window_size, probe_bin);
    assert!((left_db + 6.0).abs() < 1.0);
    assert!((right_db - 3.0).abs() < 1.0);
}

#[test]
fn snapshots_that_cannot_be_rendered_are_refused() {
    let good = make_snapshot(512, 4, 1);
    assert_eq!(validate_snapshot(&good), Ok(()));

    let problems = [
        (FrozenIrData { valid: false, ..good.clone() }, "snapshot not ready"),
        (FrozenIrData { num_channels: 0, ..good.clone() }, "bad channel count: 0"),
        (FrozenIrData { num_channels: 3, ..good.clone() }, "bad channel count: 3"),
        (FrozenIrData { window_size: 0, ..good.clone() }, "bad window size: 0"),
        (FrozenIrData { window_size: 65_536, ..good.clone() }, "bad window size: 65536"),
        (FrozenIrData { overlap_times: 0, ..good.clone() }, "overlap must be non-zero"),
        (FrozenIrData { sample_rate: s(-1.5), ..good.clone() }, "bad sample rate: -1.5"),
    ];
    for (snapshot, message) in problems {
        let problem = validate_snapshot(&snapshot).unwrap_err();
        assert_eq!(problem.message::<Hardware>(), message);
        assert_eq!(render(&snapshot), Err(problem));
    }
}

#[test]
fn signals_must_fit_their_snapshots() {
    let snapshot = make_snapshot(8, 4, 2);
    let one = vec![vec![s(0.0); 4]];
    let uneven = vec![vec![s(0.0); 4], vec![s(0.0); 5]];
    let even = vec![vec![s(0.0); 4], vec![s(0.0); 4]];

    assert_eq!(check_signal(&snapshot, &one), Err(FrozenIrError::ChannelCountMismatch(2, 1)));
    assert_eq!(check_signal(&snapshot, &uneven), Err(FrozenIrError::UnequalLengths));
    assert_eq!(check_signal(&snapshot, &even), Ok(4));
    assert_eq!(
        FrozenIrError::ChannelCountMismatch(2, 1).message::<Hardware>(),
        "channel count mismatch: 2 vs 1"
    );
    assert_eq!(
        FrozenIrError::NoChannels.message::<Hardware>(),
        "need at least one channel"
    );
    assert_eq!(
        FrozenIrError::UnequalLengths.message::<Hardware>(),
        "channels must have equal length"
    );
    assert_eq!(
        FrozenIrError::ForwardFft("x".to_string()).message::<Hardware>(),
        "forward FFT failed: x"
    );
    assert_eq!(
        FrozenIrError::InverseFft("x".to_string()).message::<Hardware>(),
        "inverse FFT failed: x"
    );
}

#[test]
fn failures_while_rendering_are_handed_on() {
    let snapshot = make_snapshot(8, 4, 1);
    let failed = render_frozen_ir::<Hardware, _>(&snapshot, &hann(8), |_, _| {
        Err(FrozenIrError::ForwardFft("length".to_string()))
    });

    assert_eq!(failed, Err(FrozenIrError::ForwardFft("length".to_string())));

    let pass = WindowPass::new::<Hardware>(&snapshot, 0, &vec![s(1.0); 8]);
    let bins = vec![Bin { re: s(1.0), im: s(0.0) }; 5];
    let failed = pass.render::<Hardware, _, _>(
        vec![s(1.0); 8],
        |_| Err("forward".to_string()),
        |_| Ok(Vec::new()),
    );
    assert_eq!(failed, Err(FrozenIrError::ForwardFft("forward".to_string())));
    let failed = pass.render::<Hardware, _, _>(
        vec![s(1.0); 8],
        |_| Ok(bins),
        |_| Err("inverse".to_string()),
    );
    assert_eq!(failed, Err(FrozenIrError::InverseFft("inverse".to_string())));
}

#[test]
fn windows_are_scaled_on_both_sides_of_the_gains() {
    let mut snapshot = make_snapshot(8, 4, 2);
    snapshot.gain_difference_db[0] = vec![s(-20.0); 5];
    snapshot.gain_difference_db[1] = vec![s(20.0); 5];
    let pass = WindowPass::new::<Hardware>(&snapshot, 1, &vec![s(2.0); 8]);
    // Both applications of the window give 2 / sqrt(12)
    let rendered = pass
        .render::<Hardware, _, _>(
            vec![s(3.0); 8],
            |samples| Ok(samples.iter().map(|sample| Bin { re: *sample, im: s(0.0) }).collect()),
            |bins| Ok(bins.iter().map(|bin| bin.re).collect()),
        )
        .unwrap();

    assert_eq!(pass.first_non_dc_bin, 1);
    assert_eq!(f(rendered[0]), 0.0);
    assert!((f(rendered[1]) - 10.0).abs() < 1.0e-3);
    assert!((f(rendered[7]) - 1.0).abs() < 1.0e-4);
}

#[test]
fn signals_that_do_not_fit_are_not_processed() {
    let snapshot = make_snapshot(8, 4, 2);
    let one = vec![vec![s(0.0); 16]];
    let refused = process_signal_with_snapshot::<Hardware, _>(
        &snapshot,
        &one,
        &hann(8),
        |_, channel| Ok(channel),
    );
    assert_eq!(refused, Err(FrozenIrError::ChannelCountMismatch(2, 1)));

    let two = vec![vec![s(1.0); 16], vec![s(2.0); 16]];
    let processed = process_signal_with_snapshot::<Hardware, _>(
        &snapshot,
        &two,
        &hann(8),
        |pass, channel| {
            assert_eq!(pass.window.len(), 8);
            Ok(channel)
        },
    );
    assert_eq!(processed, Ok(two));
}

#[test]
fn channels_are_processed_apart() {
    let mut snapshot = make_snapshot(8, 4, 2);
    snapshot.gain_difference_db[0] = vec![s(6.0); 5];
    snapshot.gain_difference_db[1] = vec![s(-6.0); 5];
    let wave: Vec<Single> = (0..32).map(|i| s((i as f32).sin())).collect();
    let process = |snapshot: &FrozenIrData, channels: Vec<Vec<Single>>| {
        process_signal_with_snapshot::<Hardware, _>(snapshot, &channels, &hann(8), overlap_add)
            .unwrap()
    };
    let before = process(&snapshot, vec![wave.clone(), wave.clone()]);
    assert_ne!(before[0], before[1]);

    snapshot.gain_difference_db[1] = vec![s(3.0); 5];
    let after = process(&snapshot, vec![wave, vec![s(0.5); 32]]);
    assert_eq!(after[0], before[0]);
    assert_ne!(after[1], before[1]);

    // The first channel that fails ends it
    let failed = process_signal_with_snapshot::<Hardware, _>(
        &snapshot,
        &vec![vec![s(1.0); 16], vec![s(2.0); 16]],
        &hann(8),
        |pass, channel| {
            if f(channel[0]) == 2.0 {
                Err(FrozenIrError::InverseFft(f(pass.gain_difference_db[0]).to_string()))
            } else {
                Ok(channel)
            }
        },
    );
    assert_eq!(failed, Err(FrozenIrError::InverseFft("3".to_string())));
}

#[test]
fn an_impulse_is_rendered_and_exported_after_its_latency() {
    let snapshot = make_snapshot(4, 4, 1);
    let channels = impulse_channels(&snapshot);
    assert_eq!(channels.len(), 1);
    assert_eq!(channels[0].len(), 16);
    assert_eq!(f(channels[0][4]), 1.0);
    assert_eq!(channels[0].iter().filter(|sample| f(**sample) != 0.0).count(), 1);

    let rendered = vec![(0..16).map(|i| s(i as f32)).collect::<Vec<_>>()];
    let exported = exported_channels(&snapshot, &rendered);
    assert_eq!(exported[0].len(), 8);
    assert_eq!(f(exported[0][0]), 8.0);
    assert_eq!(f(exported[0][7]), 15.0);
}

#[test]
fn files_are_interleaved_and_named_by_their_rate() {
    let snapshot = FrozenIrData { sample_rate: s(44_100.4), ..make_snapshot(8, 4, 2) };
    let layout = wav_layout::<Hardware>(&snapshot);
    assert_eq!(layout.channels, 2);
    assert_eq!(layout.sample_rate, 44_100);
    assert_eq!(layout.bits_per_sample, 32);

    let slow = FrozenIrData { sample_rate: s(0.25), ..make_snapshot(8, 4, 1) };
    assert_eq!(wav_layout::<Hardware>(&slow).sample_rate, 1);

    let samples = interleaved(&vec![vec![s(1.0), s(2.0)], vec![s(3.0), s(4.0)]]);
    let values: Vec<f32> = samples.iter().map(|sample| f(*sample)).collect();
    assert_eq!(values, vec![1.0, 3.0, 2.0, 4.0]);
}

#[test]
fn windows_are_compensated_for_their_overlap() {
    // (4 / 4 * 1.5)^-1 / 512, spread over both windows
    let gain = f(window_gain::<Hardware>(4, 512));
    assert!((gain * gain - 1.0 / 768.0).abs() < 1.0e-7);

    assert_eq!(first_non_dc_bin_idx::<Hardware>(s(48_000.0), 257), 1);
    assert_eq!(first_non_dc_bin_idx::<Hardware>(s(44_100.0), 8_193), 8);
}

#[test]
fn bins_are_scaled_by_their_gains() {
    let bin = Bin { re: s(1.0), im: s(-2.0) };
    let mut bins = vec![bin, bin, bin, bin];
    shape_bins::<Hardware>(&mut bins, &vec![s(0.0), s(20.0), s(-20.0)], 1);

    assert_eq!((f(bins[0].re), f(bins[0].im)), (0.0, -0.0));
    assert!((f(bins[1].re) - 10.0).abs() < 1.0e-4);
    assert!((f(bins[2].im) + 0.2).abs() < 1.0e-5);
    assert_eq!(bins[3], bin);
}

#[test]
fn default_snapshots_are_flat_and_not_ready() {
    let snapshot = FrozenIrData::default();

    assert!(!snapshot.valid);
    assert_eq!(f(snapshot.sample_rate), 1.0);
    assert_eq!(snapshot.num_bins(), 1);
    assert_eq!(snapshot.gain_difference_db[1].len(), 16_385);
    assert!(snapshot.gain_difference_db[1].iter().all(|gain| f(*gain) == 0.0));
}

