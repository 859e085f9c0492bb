//! A bank of compressors so each FFT bin can be compressed individually.

use vstd::prelude::*;

use crate::analyzer::{pad, padded, AnalyzerData};
use crate::arithmetic::{counts, natural_logs, products, quotients, Arithmetic};
use crate::compressors::Compressors;
use crate::envelope::ENVELOPE_INIT_VALUE;
use crate::exact::{
    is_exact, lemma_cancel, lemma_sign_of_product, lemma_three_factors, logs_follow,
};
use crate::frozen_ir::{FrozenIrData, MAX_IR_CHANNELS};
use crate::handoff::{publish_snapshot, published_snapshot, snapshot_buffer};
use crate::lists::{
    all_have_len, any_set, are_cleared, are_resized, clear_lists, is_recounted, lower_all,
    recount_lists, reserve_values, resize_lists, resize_values, resized, zeros,
};
use crate::match_curve::{MatchCurveMeter, MatchCurveRuntime};
use crate::match_level::WIDE_ZERO;
use crate::single::{double, single, Single, ONE, ZERO};
use crate::updates::{all_updates, UpdateRequests};

use std::sync::Arc;

verus! {

/// A bank of compressors. This is stored as a struct of arrays to make SIMD-ing easier.
pub struct CompressorBank {
    /// Which of the precomputed values should be updated on the next processing cycle. Can be set
    /// from a parameter value change listener, and is also set when calling
    /// [`CompressorBank::resize()`].
    pub update_requests: UpdateRequests,
    /// For each compressor bin, `ln(freq)` where `freq` is the frequency associated with that
    /// compressor. This is precomputed since all update functions need it.
    pub ln_freqs: Vec<Single>,
    /// The downwards compressors.
    pub downwards: Compressors,
    /// The upwards compressors.
    pub upwards: Compressors,
    /// The current envelope value for each bin, in linear space. Indexed by
    /// `[channel_idx][compressor_idx]`.
    pub envelopes: Vec<Vec<Single>>,
    /// A scaling factor for the envelope follower timings. This is set to 0 and then slowly brought
    /// back up to 1 after [`CompressorBank::reset()`] has been called to allow the envelope
    /// followers to settle back in.
    pub envelope_followers_timing_scale: Single,
    /// The magnitudes that the envelopes of the current channel follow.
    pub followed_magnitudes: Vec<Single>,
    /// When sidechaining is enabled, this contains the per-channel frequency spectrum magnitudes
    /// for the current block.
    pub sidechain_spectrum_magnitudes: Vec<Vec<Single>>,
    /// Per-bin channel-linked sidechain magnitudes for the current block.
    pub linked_sidechain_magnitudes: Vec<Single>,
    /// Per-bin gain differences before spectral smoothing.
    pub raw_gain_difference_db: Vec<Single>,
    /// The per-bin gain differences that will be applied.
    pub smoothed_gain_difference_db: Vec<Single>,
    /// Prefix sums for smoothing the gain curve without per-bin inner summing.
    pub gain_smoothing_prefix_db: Vec<Single>,
    /// The frozen per-bin gain difference snapshot for each channel. When freeze is enabled these
    /// values are captured once and then reused until freeze is disabled or invalidated.
    pub frozen_gain_difference_db: Vec<Vec<Single>>,
    /// Whether the frozen gain difference snapshot for a channel has already been captured.
    pub frozen_gain_snapshot_valid: Vec<bool>,
    /// Tracks whether freeze was active in the previous compressor processing pass.
    pub freeze_was_active: bool,
    /// Tracks whether the current frozen snapshot has already been published for IR export.
    pub frozen_ir_snapshot_published: bool,
    /// The window size this compressor bank was configured for.
    pub window_size: usize,
    /// The sample rate this compressor bank was configured for.
    pub sample_rate: Single,
    /// The input data for the spectrum analyzer.
    pub analyzer_input_data: triple_buffer::Input<AnalyzerData>,
    /// The exact frozen compressor gain curve shared with the editor for IR export.
    pub frozen_ir_input_data: triple_buffer::Input<FrozenIrData>,
    /// Set to `true` when analyzer data has been fully prepared and is ready to publish.
    pub analyzer_needs_publish: bool,
    /// Request/result handoff for editor-triggered threshold curve matching.
    pub match_curve_runtime: Arc<MatchCurveRuntime>,
    /// Audio-thread local accumulator for threshold curve matching.
    pub match_curve_meter: MatchCurveMeter,
}

/// How many bins the largest window has.
pub const MAX_NUM_BINS: usize = 16_385;

/// `r` is the logarithm of the frequency of a bin.
pub open spec fn is_bin_ln<A: Arithmetic>(
    bin: usize,
    window_size: usize,
    sample_rate: Single,
    r: Single,
) -> bool {
    exists|n: Single, size: Single, share: Single, frequency: Single| #[trigger]
        counts::<A>(bin, n) && #[trigger] counts::<A>(window_size, size)
            && #[trigger] quotients::<A>(n, size, share) && #[trigger] products::<A>(
            share,
            sample_rate,
            frequency,
        ) && natural_logs::<A>(frequency, r)
}

fn bin_ln<A: Arithmetic>(bin: usize, window_size: usize, sample_rate: Single) -> (r: Single)
    ensures
        is_bin_ln::<A>(bin, window_size, sample_rate, r),
{
    let n = A::from_count(bin);
    let size = A::from_count(window_size);
    let share = A::quotient(n, size);
    let frequency = A::product(share, sample_rate);
    A::natural_log(frequency)
}

/// `ln_freqs` are the logarithms of the frequencies of the bins. The first one is always zero, as
/// the frequency of DC has no logarithm.
pub open spec fn are_bin_lns<A: Arithmetic>(
    window_size: usize,
    sample_rate: Single,
    ln_freqs: Seq<Single>,
) -> bool {
    &&& ln_freqs.len() == window_size / 2 + 1
    &&& ln_freqs[0] == single(ZERO)
    &&& forall|i: int|
        1 <= i < ln_freqs.len() ==> is_bin_ln::<A>(
            i as usize,
            window_size,
            sample_rate,
            #[trigger] ln_freqs[i],
        )
}

/// Writes the first `count` gains, and zeros up to the number of bins of the largest window.
fn store_gains(target: &mut Vec<Single>, gains: &Vec<Single>, count: usize)
    requires
        count <= gains@.len(),
    ensures
        final(target)@ == padded(gains@.take(count as int), MAX_NUM_BINS as nat),
{
    target.clear();
    while target.len() < count
        invariant
            count <= gains@.len(),
            target@.len() <= count,
            forall|i: int| 0 <= i < target@.len() ==> target@[i] == gains@[i],
        decreases count - target.len(),
    {
        target.push(gains[target.len()]);
    }
    assert(target@ =~= gains@.take(count as int));
    pad(target, MAX_NUM_BINS);
}

/// The number of channels of a snapshot.
#[verifier::allow_in_spec]
pub fn snapshot_channels(num_channels: usize) -> usize
    returns
        (if num_channels < MAX_IR_CHANNELS {
            num_channels
        } else {
            MAX_IR_CHANNELS
        }),
{
    if num_channels < MAX_IR_CHANNELS {
        num_channels
    } else {
        MAX_IR_CHANNELS
    }
}

impl CompressorBank {
    /// How many bins there are.
    pub open spec fn num_bins(self) -> nat {
        self.ln_freqs@.len()
    }

    /// How many channels there are.
    pub open spec fn num_channels(self) -> nat {
        self.envelopes@.len()
    }

    /// All lists agree on how many channels there are, and the first bin is DC.
    pub open spec fn wf(self) -> bool {
        &&& self.sidechain_spectrum_magnitudes@.len() == self.num_channels()
        &&& self.frozen_gain_difference_db@.len() == self.num_channels()
        &&& self.frozen_gain_snapshot_valid@.len() == self.num_channels()
        &&& self.num_bins() > 0 ==> self.ln_freqs@[0] == single(ZERO)
    }

    /// All lists also agree on how many bins there are. This is what [`CompressorBank::resize()`]
    /// brings about.
    pub open spec fn is_sized(self) -> bool {
        &&& self.wf()
        &&& self.num_bins() == self.window_size / 2 + 1
        &&& self.downwards.has_bins(self.num_bins())
        &&& self.upwards.has_bins(self.num_bins())
        &&& all_have_len(self.envelopes@, self.num_bins())
        &&& self.followed_magnitudes@.len() == self.num_bins()
        &&& all_have_len(self.sidechain_spectrum_magnitudes@, self.num_bins())
        &&& self.linked_sidechain_magnitudes@.len() == self.num_bins()
        &&& self.raw_gain_difference_db@.len() == self.num_bins()
        &&& self.smoothed_gain_difference_db@.len() == self.num_bins()
        &&& self.gain_smoothing_prefix_db@.len() == self.num_bins() + 1
        &&& all_have_len(self.frozen_gain_difference_db@, self.num_bins())
    }

    /// Set up the compressor for the given channel count and maximum FFT window size. The
    /// compressors won't be initialized yet.
    pub fn new(
        analyzer_input_data: triple_buffer::Input<AnalyzerData>,
        frozen_ir_input_data: triple_buffer::Input<FrozenIrData>,
        match_curve_runtime: Arc<MatchCurveRuntime>,
        num_channels: usize,
        max_window_size: usize,
    ) -> (bank: CompressorBank)
        ensures
            bank.wf(),
            bank.update_requests.is_new(),
            bank.num_bins() == 0,
            bank.num_channels() == num_channels,
            bank.downwards.has_bins(0),
            bank.upwards.has_bins(0),
            all_have_len(bank.envelopes@, 0),
            bank.envelope_followers_timing_scale == single(ZERO),
            bank.followed_magnitudes@.len() == 0,
            all_have_len(bank.sidechain_spectrum_magnitudes@, 0),
            bank.linked_sidechain_magnitudes@.len() == 0,
            bank.raw_gain_difference_db@.len() == 0,
            bank.smoothed_gain_difference_db@.len() == 0,
            bank.gain_smoothing_prefix_db@.len() == 0,
            all_have_len(bank.frozen_gain_difference_db@, 0),
            forall|i: int| 0 <= i < num_channels ==> !bank.frozen_gain_snapshot_valid@[i],
            !bank.freeze_was_active,
            !bank.frozen_ir_snapshot_published,
            bank.window_size == 0,
            bank.sample_rate == single(ONE),
            bank.analyzer_input_data == analyzer_input_data,
            bank.frozen_ir_input_data == frozen_ir_input_data,
            !bank.analyzer_needs_publish,
            bank.match_curve_runtime == match_curve_runtime,
            bank.match_curve_meter.magnitude_sums@ == Seq::new(
                (max_window_size / 2 + 1) as nat,
                |i: int| double(WIDE_ZERO),
            ),
            bank.match_curve_meter.spectrum_count == 0,
            bank.match_curve_meter.measured_frames == 0,
            bank.match_curve_meter.target_frames == 0,
            !bank.match_curve_meter.is_active(),
    {
        let complex_buffer_len: usize = max_window_size / 2 + 1;
        let mut envelopes: Vec<Vec<Single>> = Vec::new();
        recount_lists(&mut envelopes, num_channels, complex_buffer_len);
        let mut sidechain_spectrum_magnitudes: Vec<Vec<Single>> = Vec::new();
        recount_lists(&mut sidechain_spectrum_magnitudes, num_channels, complex_buffer_len);
        let mut frozen_gain_difference_db: Vec<Vec<Single>> = Vec::new();
        recount_lists(&mut frozen_gain_difference_db, num_channels, complex_buffer_len);
        let mut frozen_gain_snapshot_valid: Vec<bool> = Vec::new();
        frozen_gain_snapshot_valid.resize(num_channels, false);
        CompressorBank {
            update_requests: UpdateRequests::new(),
            ln_freqs: Vec::with_capacity(complex_buffer_len),
            downwards: Compressors::new(complex_buffer_len),
            upwards: Compressors::new(complex_buffer_len),
            envelopes,
            envelope_followers_timing_scale: single(ZERO),
            followed_magnitudes: Vec::with_capacity(complex_buffer_len),
            sidechain_spectrum_magnitudes,
            linked_sidechain_magnitudes: Vec::with_capacity(complex_buffer_len),
            raw_gain_difference_db: Vec::with_capacity(complex_buffer_len),
            smoothed_gain_difference_db: Vec::with_capacity(complex_buffer_len),
            gain_smoothing_prefix_db: Vec::with_capacity(complex_buffer_len + 1),
            frozen_gain_difference_db,
            frozen_gain_snapshot_valid,
            freeze_was_active: false,
            frozen_ir_snapshot_published: false,
            window_size: 0,
            sample_rate: single(ONE),
            analyzer_input_data,
            frozen_ir_input_data,
            analyzer_needs_publish: false,
            match_curve_runtime,
            match_curve_meter: MatchCurveMeter::new(complex_buffer_len),
        }
    }

    /// `after` has other channels, and lists of the same values for those that it keeps.
    pub open spec fn has_capacity_updated(
        self,
        num_channels: nat,
        num_bins: nat,
        after: CompressorBank,
    ) -> bool {
        &&& after == (CompressorBank {
            ln_freqs: after.ln_freqs,
            downwards: after.downwards,
            upwards: after.upwards,
            envelopes: after.envelopes,
            followed_magnitudes: after.followed_magnitudes,
            sidechain_spectrum_magnitudes: after.sidechain_spectrum_magnitudes,
            linked_sidechain_magnitudes: after.linked_sidechain_magnitudes,
            raw_gain_difference_db: after.raw_gain_difference_db,
            smoothed_gain_difference_db: after.smoothed_gain_difference_db,
            gain_smoothing_prefix_db: after.gain_smoothing_prefix_db,
            frozen_gain_difference_db: after.frozen_gain_difference_db,
            frozen_gain_snapshot_valid: after.frozen_gain_snapshot_valid,
            match_curve_meter: after.match_curve_meter,
            ..self
        })
        &&& after.ln_freqs@ == self.ln_freqs@
        &&& after.downwards.same_as(self.downwards)
        &&& after.upwards.same_as(self.upwards)
        &&& is_recounted(self.envelopes@, num_channels, after.envelopes@)
        &&& after.followed_magnitudes@ == self.followed_magnitudes@
        &&& is_recounted(
            self.sidechain_spectrum_magnitudes@,
            num_channels,
            after.sidechain_spectrum_magnitudes@,
        )
        &&& after.linked_sidechain_magnitudes@ == self.linked_sidechain_magnitudes@
        &&& after.raw_gain_difference_db@ == self.raw_gain_difference_db@
        &&& after.smoothed_gain_difference_db@ == self.smoothed_gain_difference_db@
        &&& after.gain_smoothing_prefix_db@ == self.gain_smoothing_prefix_db@
        &&& is_recounted(
            self.frozen_gain_difference_db@,
            num_channels,
            after.frozen_gain_difference_db@,
        )
        &&& after.frozen_gain_snapshot_valid@ == Seq::new(
            num_channels,
            |i: int|
                i < self.frozen_gain_snapshot_valid@.len() && self.frozen_gain_snapshot_valid@[i],
        )
        &&& self.match_curve_meter.is_resized(num_bins, after.match_curve_meter)
    }

    /// Change the capacities of the internal buffers to fit new parameters.
    ///
    /// After calling this, callers must invoke [`Self::resize()`] before the next processing pass.
    /// `update_capacity()` only reserves storage and does not make per-bin vectors safe to index
    /// for the active FFT size.
    pub fn update_capacity(&mut self, num_channels: usize, max_window_size: usize)
        requires
            old(self).wf(),
        ensures
            final(self).wf(),
            old(self).has_capacity_updated(
                num_channels as nat,
                (max_window_size / 2 + 1) as nat,
                *final(self),
            ),
    {
        let complex_buffer_len: usize = max_window_size / 2 + 1;
        reserve_values(&mut self.ln_freqs, complex_buffer_len);
        self.downwards.reserve(complex_buffer_len);
        self.upwards.reserve(complex_buffer_len);
        recount_lists(&mut self.envelopes, num_channels, complex_buffer_len);
        reserve_values(&mut self.followed_magnitudes, complex_buffer_len);
        recount_lists(&mut self.sidechain_spectrum_magnitudes, num_channels, complex_buffer_len);
        reserve_values(&mut self.linked_sidechain_magnitudes, complex_buffer_len);
        reserve_values(&mut self.raw_gain_difference_db, complex_buffer_len);
        reserve_values(&mut self.smoothed_gain_difference_db, complex_buffer_len);
        reserve_values(&mut self.gain_smoothing_prefix_db, complex_buffer_len + 1);
        self.match_curve_meter.resize(complex_buffer_len);
        recount_lists(&mut self.frozen_gain_difference_db, num_channels, complex_buffer_len);
        self.frozen_gain_snapshot_valid.resize(num_channels, false);
        assert(self.frozen_gain_snapshot_valid@ =~= Seq::new(
            num_channels as nat,
            |i: int|
                i < old(self).frozen_gain_snapshot_valid@.len() && old(
                    self,
                ).frozen_gain_snapshot_valid@[i],
        ));
    }

    /// `snapshot` says that there is nothing to export.
    pub open spec fn is_unavailable(self, snapshot: FrozenIrData) -> bool {
        &&& !snapshot.valid
        &&& snapshot.sample_rate == self.sample_rate
        &&& snapshot.window_size == self.window_size
        &&& snapshot.overlap_times == 0
        &&& snapshot.num_channels == snapshot_channels(self.num_channels() as usize)
        &&& forall|c: int|
            0 <= c < MAX_IR_CHANNELS ==> (#[trigger] snapshot.gain_difference_db@[c])@ == zeros(
                MAX_NUM_BINS as nat,
            )
    }

    /// `snapshot` holds the frozen gains.
    pub open spec fn is_frozen_snapshot(self, overlap_times: usize, snapshot: FrozenIrData) -> bool {
        &&& snapshot.valid
        &&& snapshot.sample_rate == self.sample_rate
        &&& snapshot.window_size == self.window_size
        &&& snapshot.overlap_times == overlap_times
        &&& snapshot.num_channels == snapshot_channels(self.num_channels() as usize)
        &&& forall|c: int|
            0 <= c < MAX_IR_CHANNELS ==> (#[trigger] snapshot.gain_difference_db@[c])@ == if c
                < snapshot.num_channels {
                padded(self.frozen_gain_difference_db@[c]@, MAX_NUM_BINS as nat)
            } else {
                zeros(MAX_NUM_BINS as nat)
            }
    }

    /// Publishes the frozen gains for IR export.
    pub fn publish_frozen_ir_snapshot(&mut self, overlap_times: usize)
        requires
            old(self).is_sized(),
        ensures
            final(self).is_sized(),
            *final(self) == (CompressorBank {
                frozen_ir_input_data: final(self).frozen_ir_input_data,
                ..*old(self)
            }),
            old(self).is_frozen_snapshot(
                overlap_times,
                published_snapshot(final(self).frozen_ir_input_data),
            ),
    {
        let num_channels: usize = snapshot_channels(self.envelopes.len());
        let num_bins: usize = self.window_size / 2 + 1;
        write_snapshot(
            snapshot_buffer(&mut self.frozen_ir_input_data),
            true,
            self.sample_rate,
            self.window_size,
            overlap_times,
            num_channels,
            &self.frozen_gain_difference_db,
            num_bins,
        );
        publish_snapshot(&mut self.frozen_ir_input_data);
        proof {
            let snapshot = published_snapshot(self.frozen_ir_input_data);
            assert forall|c: int| 0 <= c < MAX_IR_CHANNELS implies (
            #[trigger] snapshot.gain_difference_db@[c])@ == if c < snapshot.num_channels {
                padded(old(self).frozen_gain_difference_db@[c]@, MAX_NUM_BINS as nat)
            } else {
                zeros(MAX_NUM_BINS as nat)
            } by {
                if c < snapshot.num_channels {
                    let gains = old(self).frozen_gain_difference_db@[c]@;
                    assert(gains.take(num_bins as int) =~= gains);
                }
            }
        }
    }

    /// Tells the editor that there are no frozen gains to export.
    pub fn publish_frozen_ir_unavailable(&mut self)
        requires
            old(self).wf(),
        ensures
            *final(self) == (CompressorBank {
                frozen_ir_input_data: final(self).frozen_ir_input_data,
                ..*old(self)
            }),
            old(self).is_unavailable(published_snapshot(final(self).frozen_ir_input_data)),
    {
        let num_channels: usize = snapshot_channels(self.envelopes.len());
        write_snapshot(
            snapshot_buffer(&mut self.frozen_ir_input_data),
            false,
            self.sample_rate,
            self.window_size,
            0,
            num_channels,
            &self.frozen_gain_difference_db,
            0,
        );
        publish_snapshot(&mut self.frozen_ir_input_data);
        proof {
            let snapshot = published_snapshot(self.frozen_ir_input_data);
            assert forall|c: int| 0 <= c < MAX_IR_CHANNELS implies (
            #[trigger] snapshot.gain_difference_db@[c])@ == zeros(MAX_NUM_BINS as nat) by {
                if c < snapshot.num_channels {
                    let gains = old(self).frozen_gain_difference_db@[c]@;
                    assert(padded(gains.take(0), MAX_NUM_BINS as nat) =~= zeros(
                        MAX_NUM_BINS as nat,
                    ));
                }
            }
        }
    }

    /// Get the sample rate this compressor bank was configured for.
    #[verifier::allow_in_spec]
    pub fn sample_rate(&self) -> Single
        returns
            self.sample_rate,
    {
        self.sample_rate
    }

    /// `after` is the bank without frozen gains, which the editor was told.
    pub open spec fn has_snapshots_cleared(
        self,
        freeze_active: bool,
        after: CompressorBank,
    ) -> bool {
        &&& after == (CompressorBank {
            frozen_gain_difference_db: after.frozen_gain_difference_db,
            frozen_gain_snapshot_valid: after.frozen_gain_snapshot_valid,
            freeze_was_active: freeze_active,
            frozen_ir_snapshot_published: false,
            frozen_ir_input_data: after.frozen_ir_input_data,
            ..self
        })
        &&& are_cleared(self.frozen_gain_difference_db@, after.frozen_gain_difference_db@)
        &&& after.frozen_gain_snapshot_valid@ == Seq::new(
            self.frozen_gain_snapshot_valid@.len(),
            |i: int| false,
        )
        &&& self.is_unavailable(published_snapshot(after.frozen_ir_input_data))
    }

    /// Discards the frozen gains.
    pub fn clear_frozen_gain_snapshots(&mut self, freeze_active: bool)
        requires
            old(self).wf(),
        ensures
            final(self).wf(),
            old(self).is_sized() ==> final(self).is_sized(),
            old(self).has_snapshots_cleared(freeze_active, *final(self)),
    {
        clear_lists(&mut self.frozen_gain_difference_db);
        lower_all(&mut self.frozen_gain_snapshot_valid);
        self.freeze_was_active = freeze_active;
        self.frozen_ir_snapshot_published = false;
        self.publish_frozen_ir_unavailable();
    }

    /// Any channel's gains are frozen.
    pub open spec fn has_frozen_gains(self) -> bool {
        exists|i: int|
            0 <= i < self.frozen_gain_snapshot_valid@.len() && self.frozen_gain_snapshot_valid@[i]
    }

    /// `after` is the bank once it knows whether freeze is enabled: earlier gains are discarded when
    /// freeze becomes enabled, and when it is no longer enabled.
    pub open spec fn has_freeze_synced(self, freeze_enabled: bool, after: CompressorBank) -> bool {
        if freeze_enabled && !self.freeze_was_active {
            self.has_snapshots_cleared(true, after)
        } else if !freeze_enabled && (self.freeze_was_active || self.has_frozen_gains()) {
            self.has_snapshots_cleared(false, after)
        } else {
            after == self
        }
    }

    /// Follows the state of the freeze parameter.
    pub fn sync_freeze_state(&mut self, freeze_enabled: bool)
        requires
            old(self).wf(),
        ensures
            final(self).wf(),
            old(self).is_sized() ==> final(self).is_sized(),
            old(self).has_freeze_synced(freeze_enabled, *final(self)),
    {
        if freeze_enabled {
            if !self.freeze_was_active {
                self.clear_frozen_gain_snapshots(true);
            }
        } else if self.freeze_was_active || any_set(&self.frozen_gain_snapshot_valid) {
            self.clear_frozen_gain_snapshots(false);
        }
    }

    /// Clear out the envelope followers. This makes the timings instant for the first iteration
    /// after a reset and then slowly fades the timings back to their intended values so the envelope
    /// followers can settle in. Sidechain data doesn't need to be reset as it will be overwritten
    /// immediately before use.
    pub fn reset(&mut self)
        requires
            old(self).wf(),
        ensures
            final(self).wf(),
            old(self).is_sized() ==> final(self).is_sized(),
            (CompressorBank {
                envelope_followers_timing_scale: single(ZERO),
                ..*old(self)
            }).has_snapshots_cleared(true, *final(self)),
    {
        self.envelope_followers_timing_scale = single(ZERO);
        self.clear_frozen_gain_snapshots(true);
    }

    /// `after` is the bank for another window size or sample rate.
    pub open spec fn has_been_resized<A: Arithmetic>(
        self,
        sample_rate: Single,
        window_size: usize,
        after: CompressorBank,
    ) -> bool {
        let len = (window_size / 2 + 1) as nat;
        &&& after.update_requests == self.update_requests
        &&& self.update_requests.are_raised_for(all_updates())
        &&& are_bin_lns::<A>(window_size, sample_rate, after.ln_freqs@)
        &&& self.downwards.is_resized(len, after.downwards)
        &&& self.upwards.is_resized(len, after.upwards)
        &&& are_resized(self.envelopes@, len, single(ENVELOPE_INIT_VALUE), after.envelopes@)
        &&& after.envelope_followers_timing_scale == self.envelope_followers_timing_scale
        &&& after.followed_magnitudes@ == resized(self.followed_magnitudes@, len, single(ZERO))
        &&& are_resized(
            self.sidechain_spectrum_magnitudes@,
            len,
            single(ZERO),
            after.sidechain_spectrum_magnitudes@,
        )
        &&& after.linked_sidechain_magnitudes@ == resized(
            self.linked_sidechain_magnitudes@,
            len,
            single(ZERO),
        )
        &&& after.raw_gain_difference_db@ == resized(
            self.raw_gain_difference_db@,
            len,
            single(ZERO),
        )
        &&& after.smoothed_gain_difference_db@ == resized(
            self.smoothed_gain_difference_db@,
            len,
            single(ZERO),
        )
        &&& after.gain_smoothing_prefix_db@ == resized(
            self.gain_smoothing_prefix_db@,
            len + 1,
            single(ZERO),
        )
        &&& after.frozen_gain_difference_db@.len() == self.frozen_gain_difference_db@.len()
        &&& forall|c: int|
            0 <= c < after.frozen_gain_difference_db@.len() ==> (
            #[trigger] after.frozen_gain_difference_db@[c])@ == zeros(len)
        &&& after.frozen_gain_snapshot_valid@ == Seq::new(
            self.frozen_gain_snapshot_valid@.len(),
            |i: int| false,
        )
        &&& !after.freeze_was_active
        &&& !after.frozen_ir_snapshot_published
        &&& after.window_size == window_size
        &&& after.sample_rate == sample_rate
        &&& after.analyzer_input_data == self.analyzer_input_data
        &&& after.is_unavailable(published_snapshot(after.frozen_ir_input_data))
        &&& after.analyzer_needs_publish == self.analyzer_needs_publish
        &&& after.match_curve_runtime == self.match_curve_runtime
        &&& self.match_curve_meter.is_resized(len, after.match_curve_meter)
    }

    /// Resize the number of compressors to match the current window size. Also precomputes the
    /// logarithms of the frequencies for each bin. The compressors are updated on the next
    /// processing cycle.
    ///
    /// If the window size is larger than the maximum window size, then this will allocate.
    pub fn resize<A: Arithmetic>(&mut self, sample_rate: Single, window_size: usize)
        requires
            old(self).wf(),
        ensures
            final(self).is_sized(),
            old(self).has_been_resized::<A>(sample_rate, window_size, *final(self)),
    {
        let complex_buffer_len: usize = window_size / 2 + 1;
        self.ln_freqs.resize(complex_buffer_len, single(ZERO));
        let mut bin: usize = 1;
        while bin < complex_buffer_len
            invariant
                complex_buffer_len == window_size / 2 + 1,
                1 <= bin <= complex_buffer_len,
                *self == (CompressorBank { ln_freqs: self.ln_freqs, ..*old(self) }),
                self.ln_freqs@.len() == complex_buffer_len,
                self.ln_freqs@[0] == single(ZERO),
                forall|i: int|
                    1 <= i < bin ==> is_bin_ln::<A>(
                        i as usize,
                        window_size,
                        sample_rate,
                        #[trigger] self.ln_freqs@[i],
                    ),
            decreases complex_buffer_len - bin,
        {
            self.ln_freqs[bin] = bin_ln::<A>(bin, window_size, sample_rate);
            bin += 1;
        }
        self.downwards.resize(complex_buffer_len);
        self.upwards.resize(complex_buffer_len);
        resize_lists(&mut self.envelopes, complex_buffer_len, single(ENVELOPE_INIT_VALUE));
        resize_values(&mut self.followed_magnitudes, complex_buffer_len, single(ZERO));
        resize_lists(&mut self.sidechain_spectrum_magnitudes, complex_buffer_len, single(ZERO));
        resize_values(&mut self.linked_sidechain_magnitudes, complex_buffer_len, single(ZERO));
        resize_values(&mut self.raw_gain_difference_db, complex_buffer_len, single(ZERO));
        resize_values(&mut self.smoothed_gain_difference_db, complex_buffer_len, single(ZERO));
        resize_values(&mut self.gain_smoothing_prefix_db, complex_buffer_len + 1, single(ZERO));
        self.match_curve_meter.resize(complex_buffer_len);
        resize_lists(&mut self.frozen_gain_difference_db, complex_buffer_len, single(ZERO));
        clear_lists(&mut self.frozen_gain_difference_db);
        lower_all(&mut self.frozen_gain_snapshot_valid);
        self.freeze_was_active = false;
        self.frozen_ir_snapshot_published = false;
        self.window_size = window_size;
        self.sample_rate = sample_rate;
        self.publish_frozen_ir_unavailable();
        self.update_requests.request_all();
    }
}

/// Writes a snapshot with the first `num_bins` gains of each channel.
fn write_snapshot(
    snapshot: &mut FrozenIrData,
    valid: bool,
    sample_rate: Single,
    window_size: usize,
    overlap_times: usize,
    num_channels: usize,
    gains: &Vec<Vec<Single>>,
    num_bins: usize,
)
    requires
        num_channels <= MAX_IR_CHANNELS,
        num_channels <= gains@.len(),
        forall|c: int| 0 <= c < num_channels ==> num_bins <= (#[trigger] gains@[c])@.len(),
    ensures
        final(snapshot).valid == valid,
        final(snapshot).sample_rate == sample_rate,
        final(snapshot).window_size == window_size,
        final(snapshot).overlap_times == overlap_times,
        final(snapshot).num_channels == num_channels,
        forall|c: int|
            0 <= c < MAX_IR_CHANNELS ==> (#[trigger] final(snapshot).gain_difference_db@[c])@
                == if c < num_channels {
                padded(gains@[c]@.take(num_bins as int), MAX_NUM_BINS as nat)
            } else {
                zeros(MAX_NUM_BINS as nat)
            },
{
    snapshot.valid = valid;
    snapshot.sample_rate = sample_rate;
    snapshot.window_size = window_size;
    snapshot.overlap_times = overlap_times;
    snapshot.num_channels = num_channels;
    let nothing: Vec<Single> = Vec::new();
    if 0 < num_channels {
        store_gains(&mut snapshot.gain_difference_db[0], &gains[0], num_bins);
    } else {
        store_gains(&mut snapshot.gain_difference_db[0], &nothing, 0);
    }
    if 1 < num_channels {
        store_gains(&mut snapshot.gain_difference_db[1], &gains[1], num_bins);
    } else {
        store_gains(&mut snapshot.gain_difference_db[1], &nothing, 0);
    }
    assert(padded(nothing@.take(0), MAX_NUM_BINS as nat) =~= zeros(MAX_NUM_BINS as nat));
}

/// After a reset no gains are frozen, and the editor was told so.
pub proof fn law_reset_clears_frozen_gains(before: CompressorBank, after: CompressorBank)
    requires
        before.wf(),
        (CompressorBank {
            envelope_followers_timing_scale: single(ZERO),
            ..before
        }).has_snapshots_cleared(true, after),
    ensures
        !after.has_frozen_gains(),
        !published_snapshot(after.frozen_ir_input_data).valid,
        forall|c: int, i: int|
            0 <= c < after.frozen_gain_difference_db@.len() && 0 <= i
                < after.frozen_gain_difference_db@[c]@.len()
                ==> #[trigger] after.frozen_gain_difference_db@[c]@[i] == single(ZERO),
{
}

/// After the window size was changed no gains are frozen, and the editor was told so.
pub proof fn law_resize_clears_frozen_gains<A: Arithmetic>(
    before: CompressorBank,
    sample_rate: Single,
    window_size: usize,
    after: CompressorBank,
)
    requires
        before.wf(),
        before.has_been_resized::<A>(sample_rate, window_size, after),
    ensures
        !after.has_frozen_gains(),
        !published_snapshot(after.frozen_ir_input_data).valid,
        published_snapshot(after.frozen_ir_input_data).window_size == window_size,
{
}

/// Once freeze is no longer enabled, no gains are frozen, and the editor was told so if there had
/// been any.
pub proof fn law_disabling_freeze_clears_frozen_gains(
    before: CompressorBank,
    after: CompressorBank,
)
    requires
        before.wf(),
        before.has_freeze_synced(false, after),
    ensures
        !after.has_frozen_gains(),
        !after.freeze_was_active,
        before.freeze_was_active || before.has_frozen_gains() ==> !published_snapshot(
            after.frozen_ir_input_data,
        ).valid,
{
}

/// While freeze stays enabled, the frozen gains stay what they are.
pub proof fn law_enabled_freeze_keeps_frozen_gains(before: CompressorBank, after: CompressorBank)
    requires
        before.freeze_was_active,
        before.has_freeze_synced(true, after),
    ensures
        after == before,
{
}

/// The bins lie at multiples of the sample rate over the window size. `ln` gives the logarithms.
pub proof fn law_bins_are_spaced_evenly<A: Arithmetic>(
    ln: spec_fn(real) -> real,
    bin: usize,
    window_size: usize,
    sample_rate: Single,
    frequency: real,
    r: Single,
)
    requires
        is_exact::<A>(),
        logs_follow::<A>(ln),
        bin > 0,
        window_size > 0,
        sample_rate.is_finite(),
        sample_rate.value() > 0real,
        frequency * (window_size as int as real) == (bin as int as real) * sample_rate.value(),
        is_bin_ln::<A>(bin, window_size, sample_rate, r),
    ensures
        r.is_finite(),
        r.value() == ln(frequency),
{
    let (n, size, share, own_frequency) = choose|
        n: Single,
        size: Single,
        share: Single,
        frequency: Single,
    | #[trigger]
        counts::<A>(bin, n) && #[trigger] counts::<A>(window_size, size)
            && #[trigger] quotients::<A>(n, size, share) && #[trigger] products::<A>(
            share,
            sample_rate,
            frequency,
        ) && natural_logs::<A>(frequency, r);
    let (b, w, s, rate) = (n.value(), size.value(), share.value(), sample_rate.value());
    assert(s * w == b);
    lemma_sign_of_product(s, w);
    assert(s > 0real);
    lemma_sign_of_product(s, rate);
    lemma_three_factors(s, rate, w);
    lemma_cancel(own_frequency.value(), frequency, w);
}

} // verus!
