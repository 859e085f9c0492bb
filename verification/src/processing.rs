//! How the compressor bank processes a channel's bins.

use vstd::prelude::*;

use crate::analyzer::{pad, padded, AnalyzerData};
use crate::arithmetic::{magnitudes, natural_logs, sums, Arithmetic};
use crate::compressor_bank::CompressorBank;
use crate::compressors::{is_threshold, law_thresholds_lie_over_the_curve_by_the_offset};
use crate::curve::{Curve, CurveParams};
use crate::dynamics::{
    bin_gain, is_bin_gain, is_compressed_downwards, is_compressed_upwards, is_sidechain_bin_gain,
    law_bin_gain_is_what_both_compressors_change, sidechain_bin_gain, TransferCurve,
};
use crate::envelope::{
    are_linked_magnitudes, are_magnitudes, channel_link, effective_sample_rate, faded_scale,
    follow, follower_timing, is_channel_link, is_effective_sample_rate, is_faded_scale,
    is_followed, is_linked_sum, is_timing, law_linking_moves_towards_the_mean,
    law_no_time_keeps_nothing, law_steps_keep_a_share_of_the_distance, law_timings_fade_in,
    law_windows_overlap, linked_magnitude, total_at, Bin, ChannelLink, FollowerTiming,
    ENVELOPE_FOLLOWER_TIMING_FADE_SECONDS,
};
use crate::exact::{
    is_exact, lemma_cancel, lemma_constants, lemma_order_is_by_value, lemma_regroup,
    lemma_selections, lemma_sign_of_product, level_gains_follow, levels_follow,
};
use crate::frozen_ir::{is_bin_scaled, scale_bin};
use crate::gain_smoothing::{is_smoothing, smooth_gains};
use crate::handoff::{analysis_buffer, pending_analysis, published_analysis};
use crate::lists::all_have_len;
use crate::match_curve::{is_matched_curve, is_spectrum_added, MatchCurveFit};
use crate::params::{effective_slope, is_effective_slope, SpectralCompressorParams};
use crate::single::{single, Single, EPSILON, ONE, ZERO};
use crate::updates::{Direction, DueUpdates};

verus! {

impl CompressorBank {
    /// `after` has the values that are due recomputed.
    pub open spec fn has_updates<A: Arithmetic>(
        self,
        params: SpectralCompressorParams,
        due: DueUpdates,
        after: CompressorBank,
    ) -> bool {
        &&& after == (CompressorBank {
            downwards: after.downwards,
            upwards: after.upwards,
            ..self
        })
        &&& exists|curve_params: CurveParams, ln_center: Single|
            {
                &&& #[trigger] params.threshold.are_curve_params::<A>(curve_params)
                &&& #[trigger] natural_logs::<A>(curve_params.center_frequency, ln_center)
                &&& self.downwards.is_updated::<A>(
                    Direction::Downwards,
                    params.compressors.downwards,
                    Curve { params: &curve_params, ln_center_frequency: ln_center },
                    due.downwards,
                    self.ln_freqs@,
                    after.downwards,
                )
                &&& self.upwards.is_updated::<A>(
                    Direction::Upwards,
                    params.compressors.upwards,
                    Curve { params: &curve_params, ln_center_frequency: ln_center },
                    due.upwards,
                    self.ln_freqs@,
                    after.upwards,
                )
            }
    }

    /// Recomputes the values that are due.
    pub fn update<A: Arithmetic>(&mut self, params: &SpectralCompressorParams, due: DueUpdates)
        requires
            old(self).is_sized(),
        ensures
            final(self).is_sized(),
            old(self).has_updates::<A>(*params, due, *final(self)),
    {
        // The threshold curve is a polynomial in log-log (decibels-octaves) space
        let curve_params = params.threshold.curve_params::<A>();
        let curve = Curve::new::<A>(&curve_params);
        self.downwards.update::<A>(
            Direction::Downwards,
            params.compressors.downwards,
            &curve,
            due.downwards,
            &self.ln_freqs,
        );
        self.upwards.update::<A>(
            Direction::Upwards,
            params.compressors.upwards,
            &curve,
            due.upwards,
            &self.ln_freqs,
        );
        assert(natural_logs::<A>(curve_params.center_frequency, curve.ln_center_frequency));
    }

    /// Update the compressors if needed. This is called just before processing, and the compressors
    /// are updated in accordance to the flags that were raised, which are lowered.
    pub fn update_if_needed<A: Arithmetic>(&mut self, params: &SpectralCompressorParams)
        requires
            old(self).is_sized(),
        ensures
            final(self).is_sized(),
            exists|due: DueUpdates| #[trigger]
                old(self).update_requests.is_taken(due) && old(self).has_updates::<A>(
                    *params,
                    due,
                    *final(self),
                ),
    {
        let due = self.update_requests.take();
        self.update::<A>(params, due);
    }

    /// `after` holds the magnitudes of the sidechain's bins for a channel.
    pub open spec fn has_sidechain<A: Arithmetic>(
        self,
        bins: Seq<Bin>,
        channel_idx: usize,
        after: CompressorBank,
    ) -> bool {
        &&& after == (CompressorBank {
            sidechain_spectrum_magnitudes: after.sidechain_spectrum_magnitudes,
            ..self
        })
        &&& after.sidechain_spectrum_magnitudes@.len() == self.sidechain_spectrum_magnitudes@.len()
        &&& forall|c: int|
            0 <= c < self.sidechain_spectrum_magnitudes@.len() && c != channel_idx
                ==> #[trigger] after.sidechain_spectrum_magnitudes@[c]
                == self.sidechain_spectrum_magnitudes@[c]
        &&& are_magnitudes::<A>(bins, after.sidechain_spectrum_magnitudes@[channel_idx as int]@)
    }

    /// Set the sidechain frequency spectrum magnitudes just before a [`process()`][Self::process()]
    /// call. These will be multiplied with the existing compressor thresholds and knee values to
    /// get the effective values for use with sidechaining.
    pub fn process_sidechain<A: Arithmetic>(&mut self, sc_buffer: &Vec<Bin>, channel_idx: usize)
        requires
            old(self).is_sized(),
            sc_buffer@.len() == old(self).num_bins(),
            channel_idx < old(self).num_channels(),
        ensures
            final(self).is_sized(),
            old(self).has_sidechain::<A>(sc_buffer@, channel_idx, *final(self)),
    {
        take_magnitudes::<A>(sc_buffer, &mut self.sidechain_spectrum_magnitudes[channel_idx]);
    }

    /// `after` has the timing scale moved on, and the envelopes of a channel follow
    /// `after.followed_magnitudes`.
    pub open spec fn has_followed<A: Arithmetic>(
        self,
        channel_idx: usize,
        params: SpectralCompressorParams,
        overlap_times: usize,
        after: CompressorBank,
    ) -> bool {
        &&& after == (CompressorBank {
            envelopes: after.envelopes,
            envelope_followers_timing_scale: after.envelope_followers_timing_scale,
            ..self
        })
        &&& after.envelopes@.len() == self.envelopes@.len()
        &&& forall|c: int|
            0 <= c < self.envelopes@.len() && c != channel_idx ==> #[trigger] after.envelopes@[c]
                == self.envelopes@[c]
        &&& exists|rate: Single, timing: FollowerTiming|
            {
                &&& #[trigger] is_effective_sample_rate::<A>(
                    self.sample_rate,
                    self.window_size,
                    overlap_times,
                    rate,
                )
                &&& #[trigger] is_timing::<A>(
                    params.global.compressor_attack_ms,
                    params.global.compressor_release_ms,
                    self.envelope_followers_timing_scale,
                    rate,
                    timing,
                )
                &&& if self.envelope_followers_timing_scale.below(single(ONE)) && channel_idx
                    == self.num_channels() - 1 {
                    is_faded_scale::<A>(
                        self.envelope_followers_timing_scale,
                        rate,
                        after.envelope_followers_timing_scale,
                    )
                } else {
                    after.envelope_followers_timing_scale == self.envelope_followers_timing_scale
                }
                &&& are_followed::<A>(
                    timing,
                    self.envelopes@[channel_idx as int]@,
                    self.followed_magnitudes@,
                    after.envelopes@[channel_idx as int]@,
                )
            }
    }

    fn follow_magnitudes<A: Arithmetic>(
        &mut self,
        channel_idx: usize,
        params: &SpectralCompressorParams,
        overlap_times: usize,
    )
        requires
            old(self).is_sized(),
            channel_idx < old(self).num_channels(),
        ensures
            final(self).is_sized(),
            old(self).has_followed::<A>(channel_idx, *params, overlap_times, *final(self)),
    {
        let rate = effective_sample_rate::<A>(self.sample_rate, self.window_size, overlap_times);
        let scale = self.envelope_followers_timing_scale;
        let timing = follower_timing::<A>(
            params.global.compressor_attack_ms,
            params.global.compressor_release_ms,
            scale,
            rate,
        );
        // This needs to gradually fade from 0.0 back to 1.0 after a reset
        if scale.below(single(ONE)) && channel_idx == self.envelopes.len() - 1 {
            self.envelope_followers_timing_scale = faded_scale::<A>(scale, rate);
        }
        follow_all::<A>(timing, &self.followed_magnitudes, &mut self.envelopes[channel_idx]);
    }

    /// Update the envelope followers based on the bin magnitudes.
    pub fn update_envelopes<A: Arithmetic>(
        &mut self,
        buffer: &Vec<Bin>,
        channel_idx: usize,
        params: &SpectralCompressorParams,
        overlap_times: usize,
    )
        requires
            old(self).is_sized(),
            buffer@.len() == old(self).num_bins(),
            channel_idx < old(self).num_channels(),
        ensures
            final(self).is_sized(),
            are_magnitudes::<A>(buffer@, final(self).followed_magnitudes@),
            (CompressorBank {
                followed_magnitudes: final(self).followed_magnitudes,
                ..*old(self)
            }).has_followed::<A>(channel_idx, *params, overlap_times, *final(self)),
    {
        take_magnitudes::<A>(buffer, &mut self.followed_magnitudes);
        self.follow_magnitudes::<A>(channel_idx, params, overlap_times);
    }

    /// `values` are the magnitudes of the sidechain at each bin, the channels linked as the
    /// parameters say.
    pub open spec fn are_linked<A: Arithmetic>(
        self,
        channel_idx: usize,
        params: SpectralCompressorParams,
        values: Seq<Single>,
    ) -> bool {
        exists|link: ChannelLink| #[trigger]
            is_channel_link::<A>(
                params.threshold.sc_channel_link,
                self.num_channels() as usize,
                link,
            ) && are_linked_magnitudes::<A>(
                self.sidechain_spectrum_magnitudes@,
                channel_idx,
                link,
                values,
            )
    }

    /// The same as [`update_envelopes()`][Self::update_envelopes()], but based on the previously
    /// set sidechain bin magnitudes. This allows for channel linking.
    /// [`process_sidechain()`][Self::process_sidechain()] needs to be called for all channels
    /// before this function can be used to set the magnitude spectra.
    pub fn update_envelopes_sidechain<A: Arithmetic>(
        &mut self,
        channel_idx: usize,
        params: &SpectralCompressorParams,
        overlap_times: usize,
    )
        requires
            old(self).is_sized(),
            channel_idx < old(self).num_channels(),
        ensures
            final(self).is_sized(),
            old(self).are_linked::<A>(
                channel_idx,
                *params,
                final(self).followed_magnitudes@,
            ),
            (CompressorBank {
                followed_magnitudes: final(self).followed_magnitudes,
                ..*old(self)
            }).has_followed::<A>(channel_idx, *params, overlap_times, *final(self)),
    {
        let link = channel_link::<A>(
            params.threshold.sc_channel_link,
            self.sidechain_spectrum_magnitudes.len(),
        );
        assert(is_channel_link::<A>(
            params.threshold.sc_channel_link,
            old(self).num_channels() as usize,
            link,
        ));
        take_linked::<A>(
            &self.sidechain_spectrum_magnitudes,
            channel_idx,
            link,
            &mut self.followed_magnitudes,
        );
        self.follow_magnitudes::<A>(channel_idx, params, overlap_times);
    }

    /// What a running match measures of a channel: nothing where none runs. The measurement moves
    /// on with the last channel, and `result` is what it comes to at its end.
    pub open spec fn has_measured<A: Arithmetic>(
        self,
        channel_idx: usize,
        params: SpectralCompressorParams,
        overlap_times: usize,
        after: CompressorBank,
        result: Option<Option<MatchCurveFit>>,
    ) -> bool {
        &&& after == (CompressorBank { match_curve_meter: after.match_curve_meter, ..self })
        &&& if !self.match_curve_meter.is_active() {
            &&& after.match_curve_meter == self.match_curve_meter
            &&& result is None
        } else {
            let frames = hop_frames(self.window_size, overlap_times);
            let measured = vstd::math::min(
                self.match_curve_meter.measured_frames + frames,
                self.match_curve_meter.target_frames as int,
            );
            &&& is_spectrum_added::<A>(
                self.match_curve_meter.magnitude_sums@,
                self.followed_magnitudes@,
                after.match_curve_meter.magnitude_sums@,
            )
            &&& after.match_curve_meter.spectrum_count == self.match_curve_meter.spectrum_count + 1
            &&& if channel_idx != self.num_channels() - 1 {
                &&& after.match_curve_meter.measured_frames
                    == self.match_curve_meter.measured_frames
                &&& after.match_curve_meter.target_frames == self.match_curve_meter.target_frames
                &&& result is None
            } else if measured < self.match_curve_meter.target_frames {
                &&& after.match_curve_meter.measured_frames == measured
                &&& after.match_curve_meter.target_frames == self.match_curve_meter.target_frames
                &&& result is None
            } else {
                &&& after.match_curve_meter.measured_frames == measured
                &&& after.match_curve_meter.target_frames == 0
                &&& result matches Some(fit) && exists|slope: Single| #[trigger]
                    is_effective_slope::<A>(
                        params.threshold.mode,
                        params.threshold.curve_slope,
                        slope,
                    ) && is_matched_curve::<A>(
                        self.ln_freqs@,
                        after.match_curve_meter.magnitude_sums@,
                        after.match_curve_meter.spectrum_count,
                        params.compressors.downwards.threshold_offset_db,
                        params.threshold.center_frequency,
                        slope,
                        fit,
                    )
            }
        }
    }

    /// Adds the magnitudes that the envelopes follow to a running match, and finishes it when its
    /// time is over.
    pub fn measure_match_curve<A: Arithmetic>(
        &mut self,
        channel_idx: usize,
        params: &SpectralCompressorParams,
        overlap_times: usize,
    ) -> (result: Option<Option<MatchCurveFit>>)
        requires
            old(self).is_sized(),
            channel_idx < old(self).num_channels(),
            overlap_times > 0,
            old(self).match_curve_meter.spectrum_count < u64::MAX,
        ensures
            final(self).is_sized(),
            old(self).has_measured::<A>(channel_idx, *params, overlap_times, *final(self), result),
    {
        if !self.match_curve_meter.is_active() {
            return None;
        }
        self.match_curve_meter.measure_magnitudes::<A>(self.followed_magnitudes.as_slice());
        self.finish_match_curve_channel_if_needed::<A>(channel_idx, params, overlap_times)
    }

    fn finish_match_curve_channel_if_needed<A: Arithmetic>(
        &mut self,
        channel_idx: usize,
        params: &SpectralCompressorParams,
        overlap_times: usize,
    ) -> (result: Option<Option<MatchCurveFit>>)
        requires
            old(self).is_sized(),
            channel_idx < old(self).num_channels(),
            overlap_times > 0,
            old(self).match_curve_meter.is_active(),
        ensures
            final(self).is_sized(),
            *final(self) == (CompressorBank {
                match_curve_meter: final(self).match_curve_meter,
                ..*old(self)
            }),
            final(self).match_curve_meter.magnitude_sums == old(
                self,
            ).match_curve_meter.magnitude_sums,
            final(self).match_curve_meter.spectrum_count == old(
                self,
            ).match_curve_meter.spectrum_count,
            ({
                let before = old(self).match_curve_meter;
                let after = final(self).match_curve_meter;
                let frames = hop_frames(old(self).window_size, overlap_times);
                let measured = vstd::math::min(
                    before.measured_frames + frames,
                    before.target_frames as int,
                );
                if channel_idx != old(self).num_channels() - 1 {
                    &&& after == before
                    &&& result is None
                } else if measured < before.target_frames {
                    &&& after.measured_frames == measured
                    &&& after.target_frames == before.target_frames
                    &&& result is None
                } else {
                    &&& after.measured_frames == measured
                    &&& after.target_frames == 0
                    &&& result matches Some(fit) && exists|slope: Single| #[trigger]
                        is_effective_slope::<A>(
                            params.threshold.mode,
                            params.threshold.curve_slope,
                            slope,
                        ) && is_matched_curve::<A>(
                            old(self).ln_freqs@,
                            after.magnitude_sums@,
                            after.spectrum_count,
                            params.compressors.downwards.threshold_offset_db,
                            params.threshold.center_frequency,
                            slope,
                            fit,
                        )
                }
            }),
    {
        if channel_idx != self.sidechain_spectrum_magnitudes.len() - 1 {
            return None;
        }
        let frames: usize = hop_frames(self.window_size, overlap_times);
        let fixed_slope = effective_slope::<A>(
            params.threshold.mode,
            params.threshold.curve_slope,
        );
        self.match_curve_meter.advance_and_finish::<A>(
            frames,
            self.ln_freqs.as_slice(),
            params.compressors.downwards.threshold_offset_db,
            params.threshold.center_frequency,
            fixed_slope,
        )
    }

    /// `raw` are the gains that the compressors give for the envelopes of a channel.
    pub open spec fn are_raw_gains<A: Arithmetic>(
        self,
        channel_idx: usize,
        params: SpectralCompressorParams,
        first_non_dc_bin: usize,
        count: int,
        raw: Seq<Single>,
    ) -> bool {
        forall|i: int|
            0 <= i < count ==> is_bin_gain::<A>(
                i as usize,
                first_non_dc_bin,
                self.envelopes@[channel_idx as int]@[i],
                self.downwards.transfer_at(i, params.compressors.downwards.knee_width_db),
                self.upwards.transfer_at(i, params.compressors.upwards.knee_width_db),
                #[trigger] raw[i],
            )
    }

    /// `raw` are the gains that the compressors give for the envelopes of a channel, with their
    /// thresholds scaled by the linked magnitudes.
    pub open spec fn are_raw_sidechain_gains<A: Arithmetic>(
        self,
        channel_idx: usize,
        params: SpectralCompressorParams,
        first_non_dc_bin: usize,
        count: int,
        raw: Seq<Single>,
    ) -> bool {
        forall|i: int|
            0 <= i < count ==> is_sidechain_bin_gain::<A>(
                i as usize,
                first_non_dc_bin,
                self.envelopes@[channel_idx as int]@[i],
                self.linked_sidechain_magnitudes@[i],
                self.downwards.transfer_at(i, params.compressors.downwards.knee_width_db),
                self.upwards.transfer_at(i, params.compressors.upwards.knee_width_db),
                #[trigger] raw[i],
            )
    }

    /// `after` has its gains smoothed.
    pub open spec fn has_smoothed<A: Arithmetic>(
        self,
        smoothing_amount: Single,
        first_non_dc_bin: usize,
        num_bins: usize,
        after: CompressorBank,
    ) -> bool {
        &&& after == (CompressorBank {
            smoothed_gain_difference_db: after.smoothed_gain_difference_db,
            gain_smoothing_prefix_db: after.gain_smoothing_prefix_db,
            ..self
        })
        &&& is_smoothing::<A>(
            self.ln_freqs@,
            self.raw_gain_difference_db@,
            smoothing_amount,
            first_non_dc_bin,
            num_bins,
            self.gain_smoothing_prefix_db@,
            after.gain_smoothing_prefix_db@,
            self.smoothed_gain_difference_db@,
            after.smoothed_gain_difference_db@,
        )
    }

    /// Smooths the gains of the first `num_bins` bins.
    pub fn smooth_gain_differences<A: Arithmetic>(
        &mut self,
        smoothing_amount: Single,
        first_non_dc_bin: usize,
        num_bins: usize,
    )
        requires
            old(self).is_sized(),
            num_bins <= old(self).num_bins(),
        ensures
            final(self).is_sized(),
            old(self).has_smoothed::<A>(
                smoothing_amount,
                first_non_dc_bin,
                num_bins,
                *final(self),
            ),
    {
        smooth_gains::<A>(
            &self.ln_freqs,
            &self.raw_gain_difference_db,
            &mut self.gain_smoothing_prefix_db,
            &mut self.smoothed_gain_difference_db,
            smoothing_amount,
            first_non_dc_bin,
            num_bins,
        );
    }

    /// The gains that are applied to a channel: with freeze enabled those that were frozen.
    pub open spec fn applied_gains(self, channel_idx: usize, freeze_enabled: bool) -> Seq<Single> {
        if freeze_enabled {
            self.frozen_gain_difference_db@[channel_idx as int]@
        } else {
            self.smoothed_gain_difference_db@
        }
    }

    /// `after` has a channel's gains frozen, if freeze is enabled and they were not frozen before.
    pub open spec fn has_captured(
        self,
        channel_idx: usize,
        freeze_enabled: bool,
        after: CompressorBank,
    ) -> bool {
        if freeze_enabled && !self.frozen_gain_snapshot_valid@[channel_idx as int] {
            &&& after == (CompressorBank {
                frozen_gain_difference_db: after.frozen_gain_difference_db,
                frozen_gain_snapshot_valid: after.frozen_gain_snapshot_valid,
                ..self
            })
            &&& after.frozen_gain_difference_db@.len() == self.frozen_gain_difference_db@.len()
            &&& forall|c: int|
                0 <= c < self.frozen_gain_difference_db@.len() && c != channel_idx
                    ==> #[trigger] after.frozen_gain_difference_db@[c]
                    == self.frozen_gain_difference_db@[c]
            &&& after.frozen_gain_difference_db@[channel_idx as int]@
                == self.smoothed_gain_difference_db@
            &&& after.frozen_gain_snapshot_valid@ == self.frozen_gain_snapshot_valid@.update(
                channel_idx as int,
                true,
            )
        } else {
            after == self
        }
    }

    fn capture_gains(&mut self, channel_idx: usize, freeze_enabled: bool)
        requires
            old(self).is_sized(),
            channel_idx < old(self).num_channels(),
        ensures
            final(self).is_sized(),
            old(self).has_captured(channel_idx, freeze_enabled, *final(self)),
    {
        if freeze_enabled && !self.frozen_gain_snapshot_valid[channel_idx] {
            copy_values(
                &self.smoothed_gain_difference_db,
                &mut self.frozen_gain_difference_db[channel_idx],
            );
            self.frozen_gain_snapshot_valid[channel_idx] = true;
        }
    }

    /// `after` has a channel's gains captured and told to the analyzer, and `out` are the bins with
    /// the gains applied.
    pub open spec fn has_applied<A: Arithmetic>(
        self,
        bins: Seq<Bin>,
        channel_idx: usize,
        freeze_enabled: bool,
        should_update_analyzer_data: bool,
        after: CompressorBank,
        out: Seq<Bin>,
    ) -> bool {
        &&& exists|captured: CompressorBank|
            {
                &&& #[trigger] self.has_captured(channel_idx, freeze_enabled, captured)
                &&& after == (CompressorBank {
                    analyzer_input_data: after.analyzer_input_data,
                    ..captured
                })
                &&& if should_update_analyzer_data {
                    are_gains_added::<A>(
                        pending_analysis(self.analyzer_input_data),
                        captured.applied_gains(channel_idx, freeze_enabled),
                        pending_analysis(after.analyzer_input_data),
                    )
                } else {
                    after.analyzer_input_data == self.analyzer_input_data
                }
                &&& are_bins_scaled::<A>(
                    bins,
                    captured.applied_gains(channel_idx, freeze_enabled),
                    out,
                )
            }
        &&& published_analysis(after.analyzer_input_data) == published_analysis(
            self.analyzer_input_data,
        )
    }

    /// Applies the smoothed or the frozen gains to a channel's bins.
    pub fn apply_gain_differences<A: Arithmetic>(
        &mut self,
        buffer: &mut Vec<Bin>,
        channel_idx: usize,
        freeze_enabled: bool,
        should_update_analyzer_data: bool,
    )
        requires
            old(self).is_sized(),
            old(buffer)@.len() == old(self).num_bins(),
            channel_idx < old(self).num_channels(),
        ensures
            final(self).is_sized(),
            old(self).has_applied::<A>(
                old(buffer)@,
                channel_idx,
                freeze_enabled,
                should_update_analyzer_data,
                *final(self),
                final(buffer)@,
            ),
    {
        self.capture_gains(channel_idx, freeze_enabled);
        let ghost captured = *self;
        let applied = if freeze_enabled {
            &self.frozen_gain_difference_db[channel_idx]
        } else {
            &self.smoothed_gain_difference_db
        };
        assert(applied@ == captured.applied_gains(channel_idx, freeze_enabled));
        // The gain reduction values are accumulated in the analyzer's data. This makes it possible
        // to visualize the gain reduction without a lot of conditionals.
        if should_update_analyzer_data {
            add_gains::<A>(analysis_buffer(&mut self.analyzer_input_data), applied);
        }
        scale_bins::<A>(buffer, applied);
    }

    /// What compressing a channel does once its envelopes are known.
    pub open spec fn has_compressed<A: Arithmetic>(
        self,
        bins: Seq<Bin>,
        channel_idx: usize,
        params: SpectralCompressorParams,
        first_non_dc_bin: usize,
        freeze_enabled: bool,
        should_update_analyzer_data: bool,
        after: CompressorBank,
        out: Seq<Bin>,
    ) -> bool {
        exists|raw: CompressorBank, smoothed: CompressorBank|
            {
                &&& raw == (CompressorBank {
                    raw_gain_difference_db: raw.raw_gain_difference_db,
                    ..self
                })
                &&& raw.is_sized()
                &&& self.are_raw_gains::<A>(
                    channel_idx,
                    params,
                    first_non_dc_bin,
                    bins.len() as int,
                    raw.raw_gain_difference_db@,
                )
                &&& #[trigger] raw.has_smoothed::<A>(
                    params.threshold.gain_smoothing,
                    first_non_dc_bin,
                    bins.len() as usize,
                    smoothed,
                )
                &&& smoothed.has_applied::<A>(
                    bins,
                    channel_idx,
                    freeze_enabled,
                    should_update_analyzer_data,
                    after,
                    out,
                )
            }
    }

    /// Actually do the thing. [`Self::update_envelopes()`] or
    /// [`Self::update_envelopes_sidechain()`] must have been called before calling this.
    pub fn compress<A: Arithmetic>(
        &mut self,
        buffer: &mut Vec<Bin>,
        channel_idx: usize,
        params: &SpectralCompressorParams,
        first_non_dc_bin: usize,
        freeze_enabled: bool,
        should_update_analyzer_data: bool,
    )
        requires
            old(self).is_sized(),
            old(buffer)@.len() == old(self).num_bins(),
            channel_idx < old(self).num_channels(),
        ensures
            final(self).is_sized(),
            old(self).has_compressed::<A>(
                old(buffer)@,
                channel_idx,
                *params,
                first_non_dc_bin,
                freeze_enabled,
                should_update_analyzer_data,
                *final(self),
                final(buffer)@,
            ),
    {
        self.fill_raw_gains::<A>(channel_idx, params, first_non_dc_bin);
        let ghost raw = *self;
        self.smooth_gain_differences::<A>(
            params.threshold.gain_smoothing,
            first_non_dc_bin,
            buffer.len(),
        );
        let ghost smoothed = *self;
        self.apply_gain_differences::<A>(
            buffer,
            channel_idx,
            freeze_enabled,
            should_update_analyzer_data,
        );
        assert(raw.has_smoothed::<A>(
            params.threshold.gain_smoothing,
            first_non_dc_bin,
            old(buffer)@.len() as usize,
            smoothed,
        ));
    }

    fn fill_raw_gains<A: Arithmetic>(
        &mut self,
        channel_idx: usize,
        params: &SpectralCompressorParams,
        first_non_dc_bin: usize,
    )
        requires
            old(self).is_sized(),
            channel_idx < old(self).num_channels(),
        ensures
            final(self).is_sized(),
            *final(self) == (CompressorBank {
                raw_gain_difference_db: final(self).raw_gain_difference_db,
                ..*old(self)
            }),
            old(self).are_raw_gains::<A>(
                channel_idx,
                *params,
                first_non_dc_bin,
                old(self).num_bins() as int,
                final(self).raw_gain_difference_db@,
            ),
    {
        let mut bin: usize = 0;
        while bin < self.ln_freqs.len()
            invariant
                bin <= self.ln_freqs@.len(),
                old(self).is_sized(),
                channel_idx < old(self).num_channels(),
                *self == (CompressorBank {
                    raw_gain_difference_db: self.raw_gain_difference_db,
                    ..*old(self)
                }),
                self.raw_gain_difference_db@.len() == self.ln_freqs@.len(),
                old(self).are_raw_gains::<A>(
                    channel_idx,
                    *params,
                    first_non_dc_bin,
                    bin as int,
                    self.raw_gain_difference_db@,
                ),
            decreases self.ln_freqs.len() - bin,
        {
            assert(self.envelopes@[channel_idx as int]@.len() == self.num_bins());
            assert(self.downwards.has_bins(self.num_bins()));
            assert(self.upwards.has_bins(self.num_bins()));
            // The transfer curve is applied to the envelope signal, and the complex bin is then
            // scaled by the gain difference
            self.raw_gain_difference_db[bin] = bin_gain::<A>(
                bin,
                first_non_dc_bin,
                self.envelopes[channel_idx][bin],
                self.downwards.transfer(bin, params.compressors.downwards.knee_width_db),
                self.upwards.transfer(bin, params.compressors.upwards.knee_width_db),
            );
            bin += 1;
        }
    }

    /// `after` has the linked magnitudes of the sidechain for a channel, none of which is zero as
    /// they are used in divisions.
    pub open spec fn has_linked<A: Arithmetic>(
        self,
        channel_idx: usize,
        params: SpectralCompressorParams,
        after: CompressorBank,
    ) -> bool {
        &&& after == (CompressorBank {
            linked_sidechain_magnitudes: after.linked_sidechain_magnitudes,
            ..self
        })
        &&& exists|values: Seq<Single>|
            {
                &&& values.len() == self.num_bins()
                &&& #[trigger] self.are_linked::<A>(channel_idx, params, values)
                &&& after.linked_sidechain_magnitudes@ == Seq::new(
                    self.num_bins(),
                    |i: int| values[i].larger(single(EPSILON)),
                )
            }
    }

    fn link_sidechain<A: Arithmetic>(
        &mut self,
        channel_idx: usize,
        params: &SpectralCompressorParams,
    )
        requires
            old(self).is_sized(),
            channel_idx < old(self).num_channels(),
        ensures
            final(self).is_sized(),
            old(self).has_linked::<A>(channel_idx, *params, *final(self)),
    {
        let link = channel_link::<A>(
            params.threshold.sc_channel_link,
            self.sidechain_spectrum_magnitudes.len(),
        );
        assert(is_channel_link::<A>(
            params.threshold.sc_channel_link,
            old(self).num_channels() as usize,
            link,
        ));
        take_linked::<A>(
            &self.sidechain_spectrum_magnitudes,
            channel_idx,
            link,
            &mut self.linked_sidechain_magnitudes,
        );
        let ghost values = self.linked_sidechain_magnitudes@;
        assert(old(self).are_linked::<A>(channel_idx, *params, values));
        raise_values(&mut self.linked_sidechain_magnitudes, single(EPSILON));
        assert(self.linked_sidechain_magnitudes@ =~= Seq::new(
            old(self).num_bins(),
            |i: int| values[i].larger(single(EPSILON)),
        ));
    }

    fn fill_raw_sidechain_gains<A: Arithmetic>(
        &mut self,
        channel_idx: usize,
        params: &SpectralCompressorParams,
        first_non_dc_bin: usize,
    )
        requires
            old(self).is_sized(),
            channel_idx < old(self).num_channels(),
        ensures
            final(self).is_sized(),
            *final(self) == (CompressorBank {
                raw_gain_difference_db: final(self).raw_gain_difference_db,
                ..*old(self)
            }),
            old(self).are_raw_sidechain_gains::<A>(
                channel_idx,
                *params,
                first_non_dc_bin,
                old(self).num_bins() as int,
                final(self).raw_gain_difference_db@,
            ),
    {
        let mut bin: usize = 0;
        while bin < self.ln_freqs.len()
            invariant
                bin <= self.ln_freqs@.len(),
                old(self).is_sized(),
                channel_idx < old(self).num_channels(),
                *self == (CompressorBank {
                    raw_gain_difference_db: self.raw_gain_difference_db,
                    ..*old(self)
                }),
                self.raw_gain_difference_db@.len() == self.ln_freqs@.len(),
                old(self).are_raw_sidechain_gains::<A>(
                    channel_idx,
                    *params,
                    first_non_dc_bin,
                    bin as int,
                    self.raw_gain_difference_db@,
                ),
            decreases self.ln_freqs.len() - bin,
        {
            assert(self.envelopes@[channel_idx as int]@.len() == self.num_bins());
            assert(self.downwards.has_bins(self.num_bins()));
            assert(self.upwards.has_bins(self.num_bins()));
            self.raw_gain_difference_db[bin] = sidechain_bin_gain::<A>(
                bin,
                first_non_dc_bin,
                self.envelopes[channel_idx][bin],
                self.linked_sidechain_magnitudes[bin],
                self.downwards.transfer(bin, params.compressors.downwards.knee_width_db),
                self.upwards.transfer(bin, params.compressors.upwards.knee_width_db),
            );
            bin += 1;
        }
    }

    /// [`Self::has_compressed()`], but with the thresholds scaled by the sidechain.
    pub open spec fn has_compressed_sidechain<A: Arithmetic>(
        self,
        bins: Seq<Bin>,
        channel_idx: usize,
        params: SpectralCompressorParams,
        first_non_dc_bin: usize,
        freeze_enabled: bool,
        should_update_analyzer_data: bool,
        after: CompressorBank,
        out: Seq<Bin>,
    ) -> bool {
        exists|linked: CompressorBank, raw: CompressorBank, smoothed: CompressorBank|
            {
                &&& #[trigger] self.has_linked::<A>(channel_idx, params, linked)
                &&& raw == (CompressorBank {
                    raw_gain_difference_db: raw.raw_gain_difference_db,
                    ..linked
                })
                &&& raw.is_sized()
                &&& linked.are_raw_sidechain_gains::<A>(
                    channel_idx,
                    params,
                    first_non_dc_bin,
                    bins.len() as int,
                    raw.raw_gain_difference_db@,
                )
                &&& #[trigger] raw.has_smoothed::<A>(
                    params.threshold.gain_smoothing,
                    first_non_dc_bin,
                    bins.len() as usize,
                    smoothed,
                )
                &&& smoothed.has_applied::<A>(
                    bins,
                    channel_idx,
                    freeze_enabled,
                    should_update_analyzer_data,
                    after,
                    out,
                )
            }
    }

    /// The same as [`compress()`][Self::compress()], but multiplying the threshold and knee values
    /// with the sidechain gains.
    pub fn compress_sidechain_match<A: Arithmetic>(
        &mut self,
        buffer: &mut Vec<Bin>,
        channel_idx: usize,
        params: &SpectralCompressorParams,
        first_non_dc_bin: usize,
        freeze_enabled: bool,
        should_update_analyzer_data: bool,
    )
        requires
            old(self).is_sized(),
            old(buffer)@.len() == old(self).num_bins(),
            channel_idx < old(self).num_channels(),
        ensures
            final(self).is_sized(),
            old(self).has_compressed_sidechain::<A>(
                old(buffer)@,
                channel_idx,
                *params,
                first_non_dc_bin,
                freeze_enabled,
                should_update_analyzer_data,
                *final(self),
                final(buffer)@,
            ),
    {
        self.link_sidechain::<A>(channel_idx, params);
        let ghost linked = *self;
        self.fill_raw_sidechain_gains::<A>(channel_idx, params, first_non_dc_bin);
        let ghost raw = *self;
        self.smooth_gain_differences::<A>(
            params.threshold.gain_smoothing,
            first_non_dc_bin,
            buffer.len(),
        );
        let ghost smoothed = *self;
        self.apply_gain_differences::<A>(
            buffer,
            channel_idx,
            freeze_enabled,
            should_update_analyzer_data,
        );
        assert(old(self).has_linked::<A>(channel_idx, *params, linked));
        assert(raw.has_smoothed::<A>(
            params.threshold.gain_smoothing,
            first_non_dc_bin,
            old(buffer)@.len() as usize,
            smoothed,
        ));
    }
}

/// How many frames there are between two windows.
#[verifier::allow_in_spec]
pub fn hop_frames(window_size: usize, overlap_times: usize) -> usize
    requires
        overlap_times > 0,
    returns
        (if window_size / overlap_times < 1 {
            1usize
        } else {
            window_size / overlap_times
        }),
{
    if window_size / overlap_times < 1 {
        1
    } else {
        window_size / overlap_times
    }
}

fn take_magnitudes<A: Arithmetic>(bins: &Vec<Bin>, values: &mut Vec<Single>)
    requires
        bins@.len() == old(values)@.len(),
    ensures
        are_magnitudes::<A>(bins@, final(values)@),
{
    let mut index: usize = 0;
    while index < bins.len()
        invariant
            index <= bins@.len(),
            bins@.len() == values@.len(),
            forall|i: int|
                0 <= i < index ==> magnitudes::<A>(
                    bins@[i].re,
                    bins@[i].im,
                    #[trigger] values@[i],
                ),
        decreases bins.len() - index,
    {
        values[index] = A::magnitude(bins[index].re, bins[index].im);
        index += 1;
    }
}

fn take_linked<A: Arithmetic>(
    spectra: &Vec<Vec<Single>>,
    channel_idx: usize,
    link: ChannelLink,
    values: &mut Vec<Single>,
)
    requires
        all_have_len(spectra@, old(values)@.len()),
    ensures
        final(values)@.len() == old(values)@.len(),
        are_linked_magnitudes::<A>(spectra@, channel_idx, link, final(values)@),
{
    let mut index: usize = 0;
    while index < values.len()
        invariant
            index <= values@.len(),
            values@.len() == old(values)@.len(),
            all_have_len(spectra@, values@.len()),
            forall|i: int|
                0 <= i < index ==> is_linked_sum::<A>(
                    spectra@,
                    channel_idx,
                    link,
                    i,
                    spectra@.len(),
                    #[trigger] values@[i],
                ),
        decreases values.len() - index,
    {
        values[index] = linked_magnitude::<A>(spectra, channel_idx, link, index);
        index += 1;
    }
}

fn raise_values(values: &mut Vec<Single>, least: Single)
    ensures
        final(values)@.len() == old(values)@.len(),
        forall|i: int|
            0 <= i < final(values)@.len() ==> #[trigger] final(values)@[i] == old(
                values,
            )@[i].larger(least),
{
    let mut index: usize = 0;
    while index < values.len()
        invariant
            index <= values@.len(),
            values@.len() == old(values)@.len(),
            forall|i: int|
                0 <= i < index ==> #[trigger] values@[i] == old(values)@[i].larger(least),
            forall|i: int| index <= i < values@.len() ==> values@[i] == old(values)@[i],
        decreases values.len() - index,
    {
        values[index] = values[index].larger(least);
        index += 1;
    }
}

fn copy_values(from: &Vec<Single>, to: &mut Vec<Single>)
    requires
        from@.len() == old(to)@.len(),
    ensures
        final(to)@ == from@,
{
    let mut index: usize = 0;
    while index < from.len()
        invariant
            index <= from@.len(),
            from@.len() == to@.len(),
            forall|i: int| 0 <= i < index ==> to@[i] == from@[i],
        decreases from.len() - index,
    {
        to[index] = from[index];
        index += 1;
    }
    assert(to@ =~= from@);
}

/// `after` are the envelopes `before`, moved towards the magnitudes.
pub open spec fn are_followed<A: Arithmetic>(
    timing: FollowerTiming,
    before: Seq<Single>,
    values: Seq<Single>,
    after: Seq<Single>,
) -> bool {
    &&& after.len() == before.len()
    &&& forall|i: int|
        0 <= i < after.len() ==> is_followed::<A>(timing, before[i], values[i], #[trigger] after[i])
}

fn follow_all<A: Arithmetic>(
    timing: FollowerTiming,
    values: &Vec<Single>,
    envelopes: &mut Vec<Single>,
)
    requires
        values@.len() == old(envelopes)@.len(),
    ensures
        are_followed::<A>(timing, old(envelopes)@, values@, final(envelopes)@),
{
    let mut index: usize = 0;
    while index < values.len()
        invariant
            index <= values@.len(),
            values@.len() == envelopes@.len(),
            envelopes@.len() == old(envelopes)@.len(),
            forall|i: int|
                0 <= i < index ==> is_followed::<A>(
                    timing,
                    old(envelopes)@[i],
                    values@[i],
                    #[trigger] envelopes@[i],
                ),
            forall|i: int| index <= i < envelopes@.len() ==> envelopes@[i] == old(envelopes)@[i],
        decreases values.len() - index,
    {
        envelopes[index] = follow::<A>(timing, envelopes[index], values[index]);
        index += 1;
    }
}

/// `after` is the analyzer data with a channel's gains added.
pub open spec fn are_gains_added<A: Arithmetic>(
    before: AnalyzerData,
    gains: Seq<Single>,
    after: AnalyzerData,
) -> bool {
    let earlier = padded(before.gain_difference_db@, gains.len());
    &&& after == (AnalyzerData { gain_difference_db: after.gain_difference_db, ..before })
    &&& after.gain_difference_db@.len() == earlier.len()
    &&& forall|i: int|
        0 <= i < earlier.len() ==> if i < gains.len() {
            sums::<A>(earlier[i], gains[i], #[trigger] after.gain_difference_db@[i])
        } else {
            after.gain_difference_db@[i] == earlier[i]
        }
}

fn add_gains<A: Arithmetic>(data: &mut AnalyzerData, gains: &Vec<Single>)
    ensures
        are_gains_added::<A>(*old(data), gains@, *final(data)),
{
    let ghost earlier = padded(old(data).gain_difference_db@, gains@.len());
    pad(&mut data.gain_difference_db, gains.len());
    let mut index: usize = 0;
    while index < gains.len()
        invariant
            index <= gains@.len(),
            earlier == padded(old(data).gain_difference_db@, gains@.len()),
            *data == (AnalyzerData { gain_difference_db: data.gain_difference_db, ..*old(data) }),
            data.gain_difference_db@.len() == earlier.len(),
            gains@.len() <= earlier.len(),
            forall|i: int|
                0 <= i < index ==> sums::<A>(
                    earlier[i],
                    gains@[i],
                    #[trigger] data.gain_difference_db@[i],
                ),
            forall|i: int|
                index <= i < earlier.len() ==> #[trigger] data.gain_difference_db@[i]
                    == earlier[i],
        decreases gains.len() - index,
    {
        let sum = A::sum(data.gain_difference_db[index], gains[index]);
        assert(sums::<A>(earlier[index as int], gains@[index as int], sum));
        data.gain_difference_db[index] = sum;
        index += 1;
    }
}

/// `after` are the bins with the gains applied.
pub open spec fn are_bins_scaled<A: Arithmetic>(
    before: Seq<Bin>,
    gains: Seq<Single>,
    after: Seq<Bin>,
) -> bool {
    &&& after.len() == before.len()
    &&& forall|i: int|
        0 <= i < after.len() ==> is_bin_scaled::<A>(before[i], gains[i], #[trigger] after[i])
}

fn scale_bins<A: Arithmetic>(bins: &mut Vec<Bin>, gains: &Vec<Single>)
    requires
        old(bins)@.len() <= gains@.len(),
    ensures
        are_bins_scaled::<A>(old(bins)@, gains@, final(bins)@),
{
    let mut index: usize = 0;
    while index < bins.len()
        invariant
            index <= bins@.len(),
            bins@.len() == old(bins)@.len(),
            bins@.len() <= gains@.len(),
            forall|i: int|
                0 <= i < index ==> is_bin_scaled::<A>(
                    old(bins)@[i],
                    gains@[i],
                    #[trigger] bins@[i],
                ),
            forall|i: int| index <= i < bins@.len() ==> bins@[i] == old(bins)@[i],
        decreases bins.len() - index,
    {
        bins[index] = scale_bin::<A>(bins[index], gains[index]);
        index += 1;
    }
}

/// Where no other thread accesses the flags, the values that are recomputed are exactly those whose
/// flags were raised: `held` are the updates that they stood for.
pub proof fn law_raised_flags_are_applied<A: Arithmetic>(
    before: CompressorBank,
    params: SpectralCompressorParams,
    held: DueUpdates,
    due: DueUpdates,
    after: CompressorBank,
)
    requires
        before.update_requests.are_taken_alone(held, due),
        before.has_updates::<A>(params, due, after),
    ensures
        before.update_requests.is_taken(held),
        before.has_updates::<A>(params, held, after),
{
    assert(due == held);
}

/// The analyzer's gains add up over the channels.
pub proof fn law_analyzer_gains_add_up<A: Arithmetic>(
    before: AnalyzerData,
    gains: Seq<Single>,
    after: AnalyzerData,
    bin: int,
)
    requires
        is_exact::<A>(),
        are_gains_added::<A>(before, gains, after),
        0 <= bin < gains.len(),
        bin < before.gain_difference_db@.len(),
        before.gain_difference_db@[bin].is_finite() && gains[bin].is_finite(),
    ensures
        after.gain_difference_db@[bin].is_finite(),
        after.gain_difference_db@[bin].value() - before.gain_difference_db@[bin].value()
            == gains[bin].value(),
{
    let earlier = padded(before.gain_difference_db@, gains.len());
    assert(earlier[bin] == before.gain_difference_db@[bin]);
    assert(sums::<A>(earlier[bin], gains[bin], after.gain_difference_db@[bin]));
}

/// Without smoothing and freezing, the gains that are applied are the raw ones.
proof fn lemma_live_gains<A: Arithmetic>(
    raw: CompressorBank,
    smoothed: CompressorBank,
    smoothing_amount: Single,
    first_non_dc_bin: usize,
    bins: Seq<Bin>,
    channel_idx: usize,
    should_update_analyzer_data: bool,
    after: CompressorBank,
    out: Seq<Bin>,
    bin: int,
)
    requires
        smoothing_amount == single(ZERO),
        raw.has_smoothed::<A>(smoothing_amount, first_non_dc_bin, bins.len() as usize, smoothed),
        smoothed.has_applied::<A>(
            bins,
            channel_idx,
            false,
            should_update_analyzer_data,
            after,
            out,
        ),
        0 <= bin < bins.len() <= usize::MAX,
    ensures
        is_bin_scaled::<A>(bins[bin], raw.raw_gain_difference_db@[bin], out[bin]),
{
    assert(smoothed.smoothed_gain_difference_db@[bin] == raw.raw_gain_difference_db@[bin]);
    let captured = choose|captured: CompressorBank|
        {
            &&& #[trigger] smoothed.has_captured(channel_idx, false, captured)
            &&& after == (CompressorBank {
                analyzer_input_data: after.analyzer_input_data,
                ..captured
            })
            &&& if should_update_analyzer_data {
                are_gains_added::<A>(
                    pending_analysis(smoothed.analyzer_input_data),
                    captured.applied_gains(channel_idx, false),
                    pending_analysis(after.analyzer_input_data),
                )
            } else {
                after.analyzer_input_data == smoothed.analyzer_input_data
            }
            &&& are_bins_scaled::<A>(bins, captured.applied_gains(channel_idx, false), out)
        };
    assert(is_bin_scaled::<A>(
        bins[bin],
        captured.applied_gains(channel_idx, false)[bin],
        out[bin],
    ));
}

/// Without smoothing and freezing, each bin of a channel comes out with the gain that the two
/// compressors of that bin give the channel's envelope at it: both parts are multiplied by the
/// factor for what the level is lowered and raised by. `exp` gives the factors and `db` the levels.
pub proof fn law_bins_get_what_their_compressors_change<A: Arithmetic>(
    exp: spec_fn(real) -> real,
    db: spec_fn(real) -> real,
    bank: CompressorBank,
    bins: Seq<Bin>,
    channel_idx: usize,
    params: SpectralCompressorParams,
    first_non_dc_bin: usize,
    should_update_analyzer_data: bool,
    after: CompressorBank,
    out: Seq<Bin>,
    bin: int,
    downwards: TransferCurve,
    upwards: TransferCurve,
) -> (levels: (Single, Single, Single))
    requires
        is_exact::<A>(),
        level_gains_follow::<A>(exp),
        levels_follow::<A>(db),
        bank.has_compressed::<A>(
            bins,
            channel_idx,
            params,
            first_non_dc_bin,
            false,
            should_update_analyzer_data,
            after,
            out,
        ),
        params.threshold.gain_smoothing == single(ZERO),
        0 <= bin < bins.len() <= usize::MAX,
        bins[bin].re.is_finite() && bins[bin].im.is_finite(),
        bank.envelopes@[channel_idx as int]@[bin].is_finite(),
        downwards.threshold_db == bank.downwards.thresholds_db@[bin],
        downwards.ratio == bank.downwards.ratios@[bin],
        downwards.knee_width_db == params.compressors.downwards.knee_width_db,
        downwards.knee.scale == bank.downwards.knee_parabola_scale@[bin],
        downwards.knee.intercept == bank.downwards.knee_parabola_intercept@[bin],
        upwards.threshold_db == bank.upwards.thresholds_db@[bin],
        upwards.ratio == bank.upwards.ratios@[bin],
        upwards.knee_width_db == params.compressors.upwards.knee_width_db,
        upwards.knee.scale == bank.upwards.knee_parabola_scale@[bin],
        upwards.knee.intercept == bank.upwards.knee_parabola_intercept@[bin],
        upwards.ratio.is_finite(),
        forall|level: Single, r: Single|
            level.is_finite() && #[trigger] is_compressed_downwards::<A>(level, downwards, r)
                ==> r.is_finite(),
        forall|level: Single, r: Single|
            level.is_finite() && #[trigger] is_compressed_upwards::<A>(level, upwards, r)
                ==> r.is_finite(),
    ensures
        ({
            let (level, lowered, raised) = levels;
            let gain = (lowered.value() - level.value()) + (raised.value() - level.value());
            &&& level.value() == db(bank.envelopes@[channel_idx as int]@[bin].value())
            &&& is_compressed_downwards::<A>(level, downwards, lowered)
            &&& if bin >= first_non_dc_bin && upwards.ratio.value() != 1real && level.value()
                > -100real {
                is_compressed_upwards::<A>(level, upwards, raised)
            } else {
                raised.value() == level.value()
            }
            &&& out[bin].re.value() == bins[bin].re.value() * exp(gain)
            &&& out[bin].im.value() == bins[bin].im.value() * exp(gain)
        }),
{
    let (raw, smoothed) = choose|raw: CompressorBank, smoothed: CompressorBank|
        {
            &&& raw == (CompressorBank {
                raw_gain_difference_db: raw.raw_gain_difference_db,
                ..bank
            })
            &&& raw.is_sized()
            &&& bank.are_raw_gains::<A>(
                channel_idx,
                params,
                first_non_dc_bin,
                bins.len() as int,
                raw.raw_gain_difference_db@,
            )
            &&& #[trigger] raw.has_smoothed::<A>(
                params.threshold.gain_smoothing,
                first_non_dc_bin,
                bins.len() as usize,
                smoothed,
            )
            &&& smoothed.has_applied::<A>(
                bins,
                channel_idx,
                false,
                should_update_analyzer_data,
                after,
                out,
            )
        };
    lemma_live_gains::<A>(
        raw,
        smoothed,
        params.threshold.gain_smoothing,
        first_non_dc_bin,
        bins,
        channel_idx,
        should_update_analyzer_data,
        after,
        out,
        bin,
    );
    let gain_db = raw.raw_gain_difference_db@[bin];
    let envelope = bank.envelopes@[channel_idx as int]@[bin];
    let down = bank.downwards.transfer_at(bin, params.compressors.downwards.knee_width_db);
    let up = bank.upwards.transfer_at(bin, params.compressors.upwards.knee_width_db);
    assert(down == downwards && up == upwards);
    assert(is_bin_gain::<A>(bin as usize, first_non_dc_bin, envelope, down, up, gain_db));
    let levels = law_bin_gain_is_what_both_compressors_change::<A>(
        db,
        bin as usize,
        first_non_dc_bin,
        envelope,
        downwards,
        upwards,
        gain_db,
    );
    levels
}

/// Where the sidechain sets the thresholds, each bin of a channel comes out with the gain that its
/// compressors give the channel's envelope with their thresholds moved by the linked sidechain at
/// that bin: the channel's own, moved towards the mean of all channels, but not silent.
pub proof fn law_bins_get_what_their_moved_compressors_change<A: Arithmetic>(
    exp: spec_fn(real) -> real,
    bank: CompressorBank,
    bins: Seq<Bin>,
    channel_idx: usize,
    params: SpectralCompressorParams,
    first_non_dc_bin: usize,
    should_update_analyzer_data: bool,
    after: CompressorBank,
    out: Seq<Bin>,
    bin: int,
    mix: real,
) -> (r: (Single, Single))
    requires
        is_exact::<A>(),
        level_gains_follow::<A>(exp),
        bank.is_sized(),
        bank.has_compressed_sidechain::<A>(
            bins,
            channel_idx,
            params,
            first_non_dc_bin,
            false,
            should_update_analyzer_data,
            after,
            out,
        ),
        params.threshold.gain_smoothing == single(ZERO),
        params.threshold.sc_channel_link.is_finite(),
        channel_idx < bank.sidechain_spectrum_magnitudes@.len() <= usize::MAX,
        0 <= bin < bins.len() <= usize::MAX,
        bins.len() == bank.num_bins(),
        bins[bin].re.is_finite() && bins[bin].im.is_finite(),
        forall|c: int|
            0 <= c < bank.sidechain_spectrum_magnitudes@.len() ==> (
            #[trigger] bank.sidechain_spectrum_magnitudes@[c])@[bin].is_finite(),
        ({
            let spectra = bank.sidechain_spectrum_magnitudes@;
            let own = spectra[channel_idx as int]@[bin].value();
            let n = spectra.len() as int as real;
            n * (mix - own) == params.threshold.sc_channel_link.value() * (total_at(
                spectra,
                bin,
                spectra.len(),
            ) - n * own)
        }),
        forall|gain_db: Single, sidechain: Single| #[trigger]
            is_sidechain_bin_gain::<A>(
                bin as usize,
                first_non_dc_bin,
                bank.envelopes@[channel_idx as int]@[bin],
                sidechain,
                bank.downwards.transfer_at(bin, params.compressors.downwards.knee_width_db),
                bank.upwards.transfer_at(bin, params.compressors.upwards.knee_width_db),
                gain_db,
            ) ==> gain_db.is_finite(),
    ensures
        ({
            let (sidechain, gain_db) = r;
            &&& sidechain.is_finite()
            &&& sidechain.value() == if mix < single(EPSILON).value() {
                single(EPSILON).value()
            } else {
                mix
            }
            &&& is_sidechain_bin_gain::<A>(
                bin as usize,
                first_non_dc_bin,
                bank.envelopes@[channel_idx as int]@[bin],
                sidechain,
                bank.downwards.transfer_at(bin, params.compressors.downwards.knee_width_db),
                bank.upwards.transfer_at(bin, params.compressors.upwards.knee_width_db),
                gain_db,
            )
            &&& out[bin].re.value() == bins[bin].re.value() * exp(gain_db.value())
            &&& out[bin].im.value() == bins[bin].im.value() * exp(gain_db.value())
        }),
{
    let (linked, raw, smoothed) = choose|
        linked: CompressorBank,
        raw: CompressorBank,
        smoothed: CompressorBank,
    |
        {
            &&& #[trigger] bank.has_linked::<A>(channel_idx, params, linked)
            &&& raw == (CompressorBank {
                raw_gain_difference_db: raw.raw_gain_difference_db,
                ..linked
            })
            &&& raw.is_sized()
            &&& linked.are_raw_sidechain_gains::<A>(
                channel_idx,
                params,
                first_non_dc_bin,
                bins.len() as int,
                raw.raw_gain_difference_db@,
            )
            &&& #[trigger] raw.has_smoothed::<A>(
                params.threshold.gain_smoothing,
                first_non_dc_bin,
                bins.len() as usize,
                smoothed,
            )
            &&& smoothed.has_applied::<A>(
                bins,
                channel_idx,
                false,
                should_update_analyzer_data,
                after,
                out,
            )
        };
    lemma_live_gains::<A>(
        raw,
        smoothed,
        params.threshold.gain_smoothing,
        first_non_dc_bin,
        bins,
        channel_idx,
        should_update_analyzer_data,
        after,
        out,
        bin,
    );
    let values = choose|values: Seq<Single>|
        {
            &&& values.len() == bank.num_bins()
            &&& #[trigger] bank.are_linked::<A>(channel_idx, params, values)
            &&& linked.linked_sidechain_magnitudes@ == Seq::new(
                bank.num_bins(),
                |i: int| values[i].larger(single(EPSILON)),
            )
        };
    let spectra = bank.sidechain_spectrum_magnitudes@;
    let link = choose|link: ChannelLink| #[trigger]
        is_channel_link::<A>(
            params.threshold.sc_channel_link,
            bank.num_channels() as usize,
            link,
        ) && are_linked_magnitudes::<A>(spectra, channel_idx, link, values);
    assert(is_linked_sum::<A>(spectra, channel_idx, link, bin, spectra.len(), values[bin]));
    law_linking_moves_towards_the_mean::<A>(
        spectra,
        channel_idx,
        params.threshold.sc_channel_link,
        link,
        bin,
        values[bin],
    );
    let n = spectra.len() as int as real;
    let own = spectra[channel_idx as int]@[bin].value();
    lemma_regroup(n, values[bin].value() - own, 0real);
    lemma_regroup(n, mix - own, 0real);
    lemma_cancel(values[bin].value() - own, mix - own, n);
    let sidechain = linked.linked_sidechain_magnitudes@[bin];
    assert(sidechain == values[bin].larger(single(EPSILON)));
    assert(single(EPSILON).is_finite());
    lemma_selections(values[bin], single(EPSILON), single(EPSILON));
    let gain_db = raw.raw_gain_difference_db@[bin];
    assert(is_sidechain_bin_gain::<A>(
        bin as usize,
        first_non_dc_bin,
        bank.envelopes@[channel_idx as int]@[bin],
        sidechain,
        bank.downwards.transfer_at(bin, params.compressors.downwards.knee_width_db),
        bank.upwards.transfer_at(bin, params.compressors.upwards.knee_width_db),
        gain_db,
    ));
    (sidechain, gain_db)
}

/// The thresholds of each direction lie over the curve by the offset of that direction, where both
/// are recomputed. `level` is what the curve has at the bin.
pub proof fn law_thresholds_have_the_offsets_of_their_direction<A: Arithmetic>(
    before: CompressorBank,
    params: SpectralCompressorParams,
    due: DueUpdates,
    after: CompressorBank,
    bin: int,
    level: real,
)
    requires
        is_exact::<A>(),
        before.has_updates::<A>(params, due, after),
        due.downwards.thresholds && due.upwards.thresholds,
        0 <= bin < before.ln_freqs@.len(),
        params.compressors.downwards.threshold_offset_db.is_finite(),
        params.compressors.upwards.threshold_offset_db.is_finite(),
        forall|curve_params: CurveParams, ln_center: Single, l: Single|
            #![trigger params.threshold.are_curve_params::<A>(curve_params), (Curve {
                params: &curve_params,
                ln_center_frequency: ln_center,
            }).is_level::<A>(before.ln_freqs@[bin], l)]
            params.threshold.are_curve_params::<A>(curve_params) && natural_logs::<A>(
                curve_params.center_frequency,
                ln_center,
            ) && (Curve {
                params: &curve_params,
                ln_center_frequency: ln_center,
            }).is_level::<A>(before.ln_freqs@[bin], l) ==> l.is_finite() && l.value() == level,
    ensures
        after.downwards.thresholds_db@[bin].value() - level
            == params.compressors.downwards.threshold_offset_db.value(),
        after.upwards.thresholds_db@[bin].value() - level
            == params.compressors.upwards.threshold_offset_db.value(),
{
    let (curve_params, ln_center) = choose|curve_params: CurveParams, ln_center: Single|
        {
            &&& #[trigger] params.threshold.are_curve_params::<A>(curve_params)
            &&& #[trigger] natural_logs::<A>(curve_params.center_frequency, ln_center)
            &&& before.downwards.is_updated::<A>(
                Direction::Downwards,
                params.compressors.downwards,
                Curve { params: &curve_params, ln_center_frequency: ln_center },
                due.downwards,
                before.ln_freqs@,
                after.downwards,
            )
            &&& before.upwards.is_updated::<A>(
                Direction::Upwards,
                params.compressors.upwards,
                Curve { params: &curve_params, ln_center_frequency: ln_center },
                due.upwards,
                before.ln_freqs@,
                after.upwards,
            )
        };
    let curve = Curve { params: &curve_params, ln_center_frequency: ln_center };
    let ln_freq = before.ln_freqs@[bin];
    let down = params.compressors.downwards.threshold_offset_db;
    let up = params.compressors.upwards.threshold_offset_db;
    assert(is_threshold::<A>(curve, down, ln_freq, after.downwards.thresholds_db@[bin]));
    assert(is_threshold::<A>(curve, up, ln_freq, after.upwards.thresholds_db@[bin]));
    law_thresholds_lie_over_the_curve_by_the_offset::<A>(
        curve,
        down,
        ln_freq,
        level,
        after.downwards.thresholds_db@[bin],
    );
    law_thresholds_lie_over_the_curve_by_the_offset::<A>(
        curve,
        up,
        ln_freq,
        level,
        after.upwards.thresholds_db@[bin],
    );
}

/// As many hops as windows overlap fit into a window, and one hop more does not.
pub proof fn law_hops_fill_the_window(window_size: usize, overlap_times: usize)
    requires
        0 < overlap_times <= window_size,
    ensures
        hop_frames(window_size, overlap_times) * overlap_times <= window_size,
        window_size < (hop_frames(window_size, overlap_times) + 1) * overlap_times,
{
    let (w, o) = (window_size as int, overlap_times as int);
    vstd::arithmetic::div_mod::lemma_fundamental_div_mod(w, o);
    vstd::arithmetic::div_mod::lemma_div_non_zero(w, o);
    let q = w / o;
    vstd::arithmetic::mul::lemma_mul_is_commutative(o, q);
    vstd::arithmetic::mul::lemma_mul_is_distributive_add_other_way(o, q, 1);
}

/// The timings fade in once for each window: only the last channel moves their scale, and only until
/// it is one.
pub proof fn law_timings_fade_once_per_window<A: Arithmetic>(
    before: CompressorBank,
    channel_idx: usize,
    params: SpectralCompressorParams,
    overlap_times: usize,
    after: CompressorBank,
)
    requires
        is_exact::<A>(),
        before.has_followed::<A>(channel_idx, params, overlap_times, after),
        before.window_size > 0 && overlap_times > 0,
        before.sample_rate.is_finite() && before.sample_rate.value() > 0real,
        before.envelope_followers_timing_scale.is_finite(),
        channel_idx < before.num_channels(),
    ensures
        channel_idx + 1 < before.num_channels() ==> after.envelope_followers_timing_scale
            == before.envelope_followers_timing_scale,
        before.envelope_followers_timing_scale.value() >= 1real
            ==> after.envelope_followers_timing_scale == before.envelope_followers_timing_scale,
        channel_idx + 1 == before.num_channels() && before.envelope_followers_timing_scale.value()
            < 1real ==> {
            &&& before.envelope_followers_timing_scale.value()
                < after.envelope_followers_timing_scale.value()
            &&& after.envelope_followers_timing_scale.value() <= 1real
        },
{
    lemma_constants();
    let scale = before.envelope_followers_timing_scale;
    lemma_order_is_by_value(scale, single(ONE));
    if channel_idx + 1 == before.num_channels() && scale.value() < 1real {
        let (rate, timing) = choose|rate: Single, timing: FollowerTiming|
            {
                &&& #[trigger] is_effective_sample_rate::<A>(
                    before.sample_rate,
                    before.window_size,
                    overlap_times,
                    rate,
                )
                &&& #[trigger] is_timing::<A>(
                    params.global.compressor_attack_ms,
                    params.global.compressor_release_ms,
                    before.envelope_followers_timing_scale,
                    rate,
                    timing,
                )
                &&& is_faded_scale::<A>(scale, rate, after.envelope_followers_timing_scale)
                &&& are_followed::<A>(
                    timing,
                    before.envelopes@[channel_idx as int]@,
                    before.followed_magnitudes@,
                    after.envelopes@[channel_idx as int]@,
                )
            };
        law_windows_overlap::<A>(before.sample_rate, before.window_size, overlap_times, rate);
        let (w, o) = (before.window_size as int as real, overlap_times as int as real);
        lemma_sign_of_product(before.sample_rate.value(), o);
        lemma_sign_of_product(rate.value(), w);
        law_timings_fade_in::<A>(scale, rate, after.envelope_followers_timing_scale);
        let moved = after.envelope_followers_timing_scale.value() - scale.value();
        let fade = single(ENVELOPE_FOLLOWER_TIMING_FADE_SECONDS).value();
        lemma_sign_of_product(moved, rate.value());
        lemma_sign_of_product(moved * rate.value(), fade);
    }
}

/// Without attack and release times, an envelope is the magnitude that its own channel has at its own
/// bin, and the envelopes of the other channels stay as they are.
pub proof fn law_instant_envelopes_are_the_magnitudes<A: Arithmetic>(
    before: CompressorBank,
    channel_idx: usize,
    params: SpectralCompressorParams,
    overlap_times: usize,
    after: CompressorBank,
    bin: int,
    other: int,
)
    requires
        is_exact::<A>(),
        before.has_followed::<A>(channel_idx, params, overlap_times, after),
        channel_idx < before.envelopes@.len(),
        0 <= bin < before.envelopes@[channel_idx as int]@.len(),
        0 <= other < before.envelopes@.len(),
        other != channel_idx,
        before.envelopes@[channel_idx as int]@[bin].is_finite(),
        before.followed_magnitudes@[bin].is_finite(),
        before.envelope_followers_timing_scale.is_finite(),
        params.global.compressor_attack_ms == single(ZERO),
        params.global.compressor_release_ms == single(ZERO),
    ensures
        after.envelopes@[channel_idx as int]@[bin].value()
            == before.followed_magnitudes@[bin].value(),
        after.envelopes@[other] == before.envelopes@[other],
{
    lemma_constants();
    let (rate, timing) = choose|rate: Single, timing: FollowerTiming|
        {
            &&& #[trigger] is_effective_sample_rate::<A>(
                before.sample_rate,
                before.window_size,
                overlap_times,
                rate,
            )
            &&& #[trigger] is_timing::<A>(
                params.global.compressor_attack_ms,
                params.global.compressor_release_ms,
                before.envelope_followers_timing_scale,
                rate,
                timing,
            )
            &&& are_followed::<A>(
                timing,
                before.envelopes@[channel_idx as int]@,
                before.followed_magnitudes@,
                after.envelopes@[channel_idx as int]@,
            )
        };
    let scale = before.envelope_followers_timing_scale;
    lemma_sign_of_product(0real, scale.value());
    law_no_time_keeps_nothing::<A>(single(ZERO), single(ZERO), scale, rate, timing);
    let envelope = before.envelopes@[channel_idx as int]@[bin];
    let magnitude = before.followed_magnitudes@[bin];
    let moved = after.envelopes@[channel_idx as int]@[bin];
    assert(is_followed::<A>(timing, envelope, magnitude, moved));
    law_steps_keep_a_share_of_the_distance::<A>(
        single(ZERO),
        single(ZERO),
        scale,
        rate,
        timing,
        envelope,
        magnitude,
        moved,
    );
    lemma_sign_of_product(0real, magnitude.value() - envelope.value());
    lemma_sign_of_product(0real, envelope.value() - magnitude.value());
}

/// While a match runs, each channel adds one spectrum, and the frames of a hop are counted once for
/// all channels. The match ends with the window in which its time is over, and not before.
pub proof fn law_matches_count_hops_and_spectra<A: Arithmetic>(
    before: CompressorBank,
    channel_idx: usize,
    params: SpectralCompressorParams,
    overlap_times: usize,
    after: CompressorBank,
    result: Option<Option<MatchCurveFit>>,
)
    requires
        before.has_measured::<A>(channel_idx, params, overlap_times, after, result),
        before.match_curve_meter.is_active(),
        overlap_times > 0,
        channel_idx < before.num_channels(),
    ensures
        after.match_curve_meter.spectrum_count - before.match_curve_meter.spectrum_count == 1,
        channel_idx + 1 < before.num_channels() ==> after.match_curve_meter.measured_frames
            == before.match_curve_meter.measured_frames && result is None,
        channel_idx + 1 == before.num_channels() ==> {
            let left = before.match_curve_meter.target_frames
                - before.match_curve_meter.measured_frames;
            &&& after.match_curve_meter.measured_frames - before.match_curve_meter.measured_frames
                <= left
            &&& result is Some <==> hop_frames(before.window_size, overlap_times) >= left
            &&& result is None ==> after.match_curve_meter.measured_frames
                - before.match_curve_meter.measured_frames == hop_frames(
                before.window_size,
                overlap_times,
            )
            &&& result is Some ==> !after.match_curve_meter.is_active()
        },
{
}

} // verus!
