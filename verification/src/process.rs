//! The processing of a channel from start to end.

use vstd::prelude::*;

use crate::analyzer::{pad, padded, AnalyzerData};
use crate::arithmetic::{counts, magnitudes, products, sums, Arithmetic};
use crate::compressor_bank::CompressorBank;
use crate::dynamics::{reciprocal, reciprocals};
use crate::envelope::{
    are_linked_magnitudes, are_magnitudes, is_channel_link, is_linked_sum,
    law_linking_moves_towards_the_mean, total_at, Bin, ChannelLink,
};
use crate::exact::{
    is_exact, lemma_constants, lemma_regroup, level_gains_follow, magnitudes_follow,
};
use crate::frozen_ir::{
    are_shaped, is_bin_scaled, law_snapshots_shape_the_bins_that_are_kept, FrozenIrData,
    MAX_IR_CHANNELS,
};
use crate::handoff::{
    analysis_buffer, pending_analysis, publish_analysis, published_analysis, published_snapshot,
};
use crate::lists::{all_have_len, all_set};
use crate::match_curve::{MatchCurveFit, MATCH_CURVE_DURATION_SECONDS};
use crate::match_level::{is_frame_count, WIDE_ZERO};
use crate::params::{SpectralCompressorParams, ThresholdMode};
use crate::single::{double, single, Single, ZERO};
use crate::updates::DueUpdates;

verus! {

/// `after` is the analyzer data with the gains of the first bins at zero.
pub open spec fn are_gains_reset(
    before: AnalyzerData,
    num_bins: nat,
    after: AnalyzerData,
) -> bool {
    let earlier = padded(before.gain_difference_db@, num_bins);
    &&& after == (AnalyzerData { gain_difference_db: after.gain_difference_db, ..before })
    &&& after.gain_difference_db@ == Seq::new(
        earlier.len(),
        |i: int|
            if i < num_bins {
                single(ZERO)
            } else {
                earlier[i]
            },
    )
}

fn reset_gains(data: &mut AnalyzerData, num_bins: usize)
    ensures
        are_gains_reset(*old(data), num_bins as nat, *final(data)),
{
    let ghost earlier = padded(old(data).gain_difference_db@, num_bins as nat);
    pad(&mut data.gain_difference_db, num_bins);
    let mut index: usize = 0;
    while index < num_bins
        invariant
            index <= num_bins,
            *data == (AnalyzerData { gain_difference_db: data.gain_difference_db, ..*old(data) }),
            data.gain_difference_db@.len() == earlier.len(),
            num_bins <= earlier.len(),
            forall|i: int| 0 <= i < index ==> data.gain_difference_db@[i] == single(ZERO),
            forall|i: int|
                index <= i < earlier.len() ==> data.gain_difference_db@[i] == earlier[i],
        decreases num_bins - index,
    {
        data.gain_difference_db[index] = single(ZERO);
        index += 1;
    }
    assert(data.gain_difference_db@ =~= Seq::new(
        earlier.len(),
        |i: int|
            if i < num_bins {
                single(ZERO)
            } else {
                earlier[i]
            },
    ));
}

/// `r` is the sum of the envelopes of the first `count` channels at a bin.
pub open spec fn is_envelope_sum<A: Arithmetic>(
    envelopes: Seq<Vec<Single>>,
    bin: int,
    count: nat,
    r: Single,
) -> bool
    decreases count,
{
    if count == 0 {
        r == single(ZERO)
    } else {
        exists|before: Single|
            {
                &&& is_envelope_sum::<A>(envelopes, bin, (count - 1) as nat, before)
                &&& #[trigger] sums::<A>(before, envelopes[count - 1]@[bin], r)
            }
    }
}

/// `r` is the mean of the envelopes at a bin, where `multiplier` is one over their number.
pub open spec fn is_envelope_mean<A: Arithmetic>(
    envelopes: Seq<Vec<Single>>,
    bin: int,
    multiplier: Single,
    r: Single,
) -> bool {
    exists|sum: Single| #[trigger]
        products::<A>(sum, multiplier, r) && is_envelope_sum::<A>(
            envelopes,
            bin,
            envelopes.len(),
            sum,
        )
}

fn envelope_mean<A: Arithmetic>(
    envelopes: &Vec<Vec<Single>>,
    bin: usize,
    multiplier: Single,
) -> (r: Single)
    requires
        forall|c: int| 0 <= c < envelopes@.len() ==> bin < (#[trigger] envelopes@[c])@.len(),
    ensures
        is_envelope_mean::<A>(envelopes@, bin as int, multiplier, r),
{
    let mut sum = single(ZERO);
    let mut channel: usize = 0;
    while channel < envelopes.len()
        invariant
            channel <= envelopes@.len(),
            forall|c: int| 0 <= c < envelopes@.len() ==> bin < (#[trigger] envelopes@[c])@.len(),
            is_envelope_sum::<A>(envelopes@, bin as int, channel as nat, sum),
        decreases envelopes.len() - channel,
    {
        let ghost before = sum;
        sum = A::sum(sum, envelopes[channel][bin]);
        assert(sums::<A>(before, envelopes@[channel + 1 - 1]@[bin as int], sum));
        assert(is_envelope_sum::<A>(envelopes@, bin as int, (channel + 1 - 1) as nat, before));
        channel += 1;
    }
    A::product(sum, multiplier)
}

/// `after` are the values `before`, the first of them multiplied.
pub open spec fn are_multiplied<A: Arithmetic>(
    before: Seq<Single>,
    num_bins: int,
    multiplier: Single,
    after: Seq<Single>,
) -> bool {
    &&& after.len() == before.len()
    &&& forall|i: int|
        0 <= i < after.len() ==> if i < num_bins {
            products::<A>(before[i], multiplier, #[trigger] after[i])
        } else {
            after[i] == before[i]
        }
}

/// `after` are the values `before`, the first of them replaced by the mean envelopes.
pub open spec fn are_means<A: Arithmetic>(
    before: Seq<Single>,
    num_bins: int,
    envelopes: Seq<Vec<Single>>,
    multiplier: Single,
    after: Seq<Single>,
) -> bool {
    &&& after.len() == before.len()
    &&& forall|i: int|
        0 <= i < after.len() ==> if i < num_bins {
            is_envelope_mean::<A>(envelopes, i, multiplier, #[trigger] after[i])
        } else {
            after[i] == before[i]
        }
}

/// `after` is the analyzer data ready for display: the gains and the envelopes averaged over the
/// channels, and what the editor needs to know to draw the spectra correctly.
pub open spec fn is_analysis_finished<A: Arithmetic>(
    before: AnalyzerData,
    params: SpectralCompressorParams,
    num_bins: usize,
    envelopes: Seq<Vec<Single>>,
    after: AnalyzerData,
) -> bool {
    &&& params.threshold.are_curve_params::<A>(after.curve_params)
    &&& after.curve_offsets_db == (
        params.compressors.upwards.threshold_offset_db,
        params.compressors.downwards.threshold_offset_db,
    )
    &&& after.num_bins == num_bins
    &&& exists|n: Single, multiplier: Single| #[trigger]
        counts::<A>(envelopes.len() as usize, n) && #[trigger] reciprocals::<A>(n, multiplier)
            && are_multiplied::<A>(
            padded(before.gain_difference_db@, num_bins as nat),
            num_bins as int,
            multiplier,
            after.gain_difference_db@,
        ) && are_means::<A>(
            padded(before.envelope_followers@, num_bins as nat),
            num_bins as int,
            envelopes,
            multiplier,
            after.envelope_followers@,
        )
}

fn multiply_values<A: Arithmetic>(values: &mut Vec<Single>, num_bins: usize, multiplier: Single)
    requires
        num_bins <= old(values)@.len(),
    ensures
        are_multiplied::<A>(old(values)@, num_bins as int, multiplier, final(values)@),
{
    let mut index: usize = 0;
    while index < num_bins
        invariant
            index <= num_bins <= values@.len(),
            values@.len() == old(values)@.len(),
            forall|i: int|
                0 <= i < index ==> products::<A>(
                    old(values)@[i],
                    multiplier,
                    #[trigger] values@[i],
                ),
            forall|i: int| index <= i < values@.len() ==> values@[i] == old(values)@[i],
        decreases num_bins - index,
    {
        values[index] = A::product(values[index], multiplier);
        index += 1;
    }
}

fn average_envelopes<A: Arithmetic>(
    values: &mut Vec<Single>,
    num_bins: usize,
    envelopes: &Vec<Vec<Single>>,
    multiplier: Single,
)
    requires
        num_bins <= old(values)@.len(),
        all_have_len(envelopes@, num_bins as nat),
    ensures
        are_means::<A>(old(values)@, num_bins as int, envelopes@, multiplier, final(values)@),
{
    let mut index: usize = 0;
    while index < num_bins
        invariant
            index <= num_bins <= values@.len(),
            all_have_len(envelopes@, num_bins as nat),
            values@.len() == old(values)@.len(),
            forall|i: int|
                0 <= i < index ==> is_envelope_mean::<A>(
                    envelopes@,
                    i,
                    multiplier,
                    #[trigger] values@[i],
                ),
            forall|i: int| index <= i < values@.len() ==> values@[i] == old(values)@[i],
        decreases num_bins - index,
    {
        values[index] = envelope_mean::<A>(envelopes, index, multiplier);
        index += 1;
    }
}

fn finish_analysis<A: Arithmetic>(
    data: &mut AnalyzerData,
    params: &SpectralCompressorParams,
    num_bins: usize,
    envelopes: &Vec<Vec<Single>>,
)
    requires
        all_have_len(envelopes@, num_bins as nat),
    ensures
        is_analysis_finished::<A>(*old(data), *params, num_bins, envelopes@, *final(data)),
{
    data.curve_params = params.threshold.curve_params::<A>();
    data.curve_offsets_db = (
        params.compressors.upwards.threshold_offset_db,
        params.compressors.downwards.threshold_offset_db,
    );
    data.num_bins = num_bins;
    let n = A::from_count(envelopes.len());
    assert(counts::<A>(envelopes@.len() as usize, n));
    let multiplier = reciprocal::<A>(n);
    pad(&mut data.gain_difference_db, num_bins);
    multiply_values::<A>(&mut data.gain_difference_db, num_bins, multiplier);
    pad(&mut data.envelope_followers, num_bins);
    average_envelopes::<A>(&mut data.envelope_followers, num_bins, envelopes, multiplier);
}

impl CompressorBank {
    /// `after` has the analyzer's gains reset, if there is an analyzer to update and the first
    /// channel is processed.
    pub open spec fn has_analysis_started(
        self,
        channel_idx: usize,
        params: SpectralCompressorParams,
        after: CompressorBank,
    ) -> bool {
        if params.editor_open && channel_idx == 0 {
            &&& after == (CompressorBank { analyzer_input_data: after.analyzer_input_data, ..self })
            &&& are_gains_reset(
                pending_analysis(self.analyzer_input_data),
                self.num_bins(),
                pending_analysis(after.analyzer_input_data),
            )
            &&& published_analysis(after.analyzer_input_data) == published_analysis(
                self.analyzer_input_data,
            )
        } else {
            after == self
        }
    }

    /// `after` has a new match running, if one was requested.
    pub open spec fn has_match_started<A: Arithmetic>(
        self,
        starts: bool,
        after: CompressorBank,
    ) -> bool {
        if starts {
            &&& after == (CompressorBank { match_curve_meter: after.match_curve_meter, ..self })
            &&& after.match_curve_meter.magnitude_sums@ == Seq::new(
                self.match_curve_meter.magnitude_sums@.len(),
                |i: int| double(WIDE_ZERO),
            )
            &&& after.match_curve_meter.spectrum_count == 0
            &&& after.match_curve_meter.measured_frames == 0
            &&& is_frame_count::<A>(
                self.sample_rate,
                single(MATCH_CURVE_DURATION_SECONDS),
                after.match_curve_meter.target_frames,
            )
        } else {
            after == self
        }
    }

    /// What happens before a channel's bins are looked at.
    pub open spec fn is_prepared<A: Arithmetic>(
        self,
        channel_idx: usize,
        params: SpectralCompressorParams,
        due: DueUpdates,
        starts_match: bool,
        after: CompressorBank,
    ) -> bool {
        exists|synced: CompressorBank, started: CompressorBank, updated: CompressorBank|
            {
                &&& #[trigger] self.has_freeze_synced(params.global.compressor_freeze, synced)
                &&& #[trigger] synced.has_analysis_started(channel_idx, params, started)
                &&& #[trigger] started.has_updates::<A>(params, due, updated)
                &&& updated.has_match_started::<A>(starts_match, after)
            }
    }

    fn prepare<A: Arithmetic>(
        &mut self,
        channel_idx: usize,
        params: &SpectralCompressorParams,
        due: DueUpdates,
        starts_match: bool,
    )
        requires
            old(self).is_sized(),
            old(self).match_curve_meter.spectrum_count < u64::MAX,
        ensures
            final(self).is_sized(),
            final(self).num_channels() == old(self).num_channels(),
            final(self).num_bins() == old(self).num_bins(),
            final(self).match_curve_meter.spectrum_count < u64::MAX,
            old(self).is_prepared::<A>(channel_idx, *params, due, starts_match, *final(self)),
    {
        self.sync_freeze_state(params.global.compressor_freeze);
        let ghost synced = *self;
        if params.editor_open && channel_idx == 0 {
            // This may briefly show a huge amount of accumulated data when the editor has just been
            // opened
            reset_gains(analysis_buffer(&mut self.analyzer_input_data), self.ln_freqs.len());
        }
        let ghost started = *self;
        assert(synced.has_analysis_started(channel_idx, *params, started));
        self.update::<A>(params, due);
        let ghost updated = *self;
        if starts_match {
            self.match_curve_meter.start::<A>(self.sample_rate);
        }
        assert(old(self).has_freeze_synced(params.global.compressor_freeze, synced));
        assert(started.has_updates::<A>(*params, due, updated));
        assert(updated.has_match_started::<A>(starts_match, *self));
    }

    /// `after` has the envelopes of a channel updated. When compressing by the sidechain they follow
    /// the sidechain, else the channel's own bins.
    pub open spec fn has_envelopes<A: Arithmetic>(
        self,
        bins: Seq<Bin>,
        channel_idx: usize,
        params: SpectralCompressorParams,
        overlap_times: usize,
        after: CompressorBank,
    ) -> bool {
        &&& if params.threshold.mode is SidechainCompress {
            self.are_linked::<A>(channel_idx, params, after.followed_magnitudes@)
        } else {
            are_magnitudes::<A>(bins, after.followed_magnitudes@)
        }
        &&& (CompressorBank {
            followed_magnitudes: after.followed_magnitudes,
            ..self
        }).has_followed::<A>(channel_idx, params, overlap_times, after)
    }

    /// What happens to a channel's bins.
    pub open spec fn has_run<A: Arithmetic>(
        self,
        bins: Seq<Bin>,
        channel_idx: usize,
        params: SpectralCompressorParams,
        overlap_times: usize,
        first_non_dc_bin: usize,
        after: CompressorBank,
        out: Seq<Bin>,
        result: Option<Option<MatchCurveFit>>,
    ) -> bool {
        exists|followed: CompressorBank, measured: CompressorBank|
            {
                &&& #[trigger] self.has_envelopes::<A>(
                    bins,
                    channel_idx,
                    params,
                    overlap_times,
                    followed,
                )
                &&& #[trigger] followed.has_measured::<A>(
                    channel_idx,
                    params,
                    overlap_times,
                    measured,
                    result,
                )
                &&& if params.threshold.mode is SidechainMatch {
                    measured.has_compressed_sidechain::<A>(
                        bins,
                        channel_idx,
                        params,
                        first_non_dc_bin,
                        params.global.compressor_freeze,
                        params.editor_open,
                        after,
                        out,
                    )
                } else {
                    measured.has_compressed::<A>(
                        bins,
                        channel_idx,
                        params,
                        first_non_dc_bin,
                        params.global.compressor_freeze,
                        params.editor_open,
                        after,
                        out,
                    )
                }
            }
    }

    fn run<A: Arithmetic>(
        &mut self,
        buffer: &mut Vec<Bin>,
        channel_idx: usize,
        params: &SpectralCompressorParams,
        overlap_times: usize,
        first_non_dc_bin: usize,
    ) -> (result: Option<Option<MatchCurveFit>>)
        requires
            old(self).is_sized(),
            old(buffer)@.len() == old(self).num_bins(),
            channel_idx < old(self).num_channels(),
            overlap_times > 0,
            old(self).match_curve_meter.spectrum_count < u64::MAX,
        ensures
            final(self).is_sized(),
            final(self).num_channels() == old(self).num_channels(),
            final(self).num_bins() == old(self).num_bins(),
            old(self).has_run::<A>(
                old(buffer)@,
                channel_idx,
                *params,
                overlap_times,
                first_non_dc_bin,
                *final(self),
                final(buffer)@,
                result,
            ),
    {
        match params.threshold.mode {
            ThresholdMode::SidechainCompress => {
                // This mode uses regular compression, but the envelopes are computed from the
                // sidechain input magnitudes. These are already set in `process_sidechain`.
                self.update_envelopes_sidechain::<A>(channel_idx, params, overlap_times);
            },
            ThresholdMode::Internal => {
                self.update_envelopes::<A>(buffer, channel_idx, params, overlap_times);
            },
            ThresholdMode::SidechainMatch => {
                self.update_envelopes::<A>(buffer, channel_idx, params, overlap_times);
            },
        }
        let ghost followed = *self;
        let result = self.measure_match_curve::<A>(channel_idx, params, overlap_times);
        let ghost measured = *self;
        match params.threshold.mode {
            ThresholdMode::SidechainMatch => {
                self.compress_sidechain_match::<A>(
                    buffer,
                    channel_idx,
                    params,
                    first_non_dc_bin,
                    params.global.compressor_freeze,
                    params.editor_open,
                );
            },
            _ => {
                self.compress::<A>(
                    buffer,
                    channel_idx,
                    params,
                    first_non_dc_bin,
                    params.global.compressor_freeze,
                    params.editor_open,
                );
            },
        }
        assert(old(self).has_envelopes::<A>(
            old(buffer)@,
            channel_idx,
            *params,
            overlap_times,
            followed,
        ));
        assert(followed.has_measured::<A>(
            channel_idx,
            *params,
            overlap_times,
            measured,
            result,
        ));
        result
    }

    /// All channels' gains are frozen and not published yet.
    pub open spec fn is_snapshot_due(self, freeze_enabled: bool) -> bool {
        &&& freeze_enabled
        &&& !self.frozen_ir_snapshot_published
        &&& forall|i: int|
            0 <= i < self.frozen_gain_snapshot_valid@.len() ==> self.frozen_gain_snapshot_valid@[i]
    }

    /// `after` has the frozen gains published once, as soon as those of all channels are frozen.
    pub open spec fn has_snapshot_published(
        self,
        freeze_enabled: bool,
        overlap_times: usize,
        after: CompressorBank,
    ) -> bool {
        if self.is_snapshot_due(freeze_enabled) {
            &&& after == (CompressorBank {
                frozen_ir_input_data: after.frozen_ir_input_data,
                frozen_ir_snapshot_published: true,
                ..self
            })
            &&& self.is_frozen_snapshot(
                overlap_times,
                published_snapshot(after.frozen_ir_input_data),
            )
        } else {
            after == self
        }
    }

    fn publish_snapshot_if_due(&mut self, freeze_enabled: bool, overlap_times: usize)
        requires
            old(self).is_sized(),
        ensures
            final(self).is_sized(),
            final(self).num_channels() == old(self).num_channels(),
            final(self).num_bins() == old(self).num_bins(),
            old(self).has_snapshot_published(freeze_enabled, overlap_times, *final(self)),
    {
        if freeze_enabled && !self.frozen_ir_snapshot_published && all_set(
            &self.frozen_gain_snapshot_valid,
        ) {
            self.publish_frozen_ir_snapshot(overlap_times);
            self.frozen_ir_snapshot_published = true;
        }
    }

    /// `after` has the analyzer data ready for display once the last channel was processed, if there
    /// is an analyzer to update.
    pub open spec fn has_analysis_finished<A: Arithmetic>(
        self,
        channel_idx: usize,
        params: SpectralCompressorParams,
        after: CompressorBank,
    ) -> bool {
        if params.editor_open && channel_idx == self.num_channels() - 1 {
            &&& after == (CompressorBank {
                analyzer_input_data: after.analyzer_input_data,
                analyzer_needs_publish: true,
                ..self
            })
            &&& is_analysis_finished::<A>(
                pending_analysis(self.analyzer_input_data),
                params,
                self.num_bins() as usize,
                self.envelopes@,
                pending_analysis(after.analyzer_input_data),
            )
            &&& published_analysis(after.analyzer_input_data) == published_analysis(
                self.analyzer_input_data,
            )
        } else {
            after == self
        }
    }

    /// What processing a channel does, where `due` are the updates that were requested and
    /// `starts_match` tells whether a match was. `result` is what a match that came to its end
    /// found.
    pub open spec fn has_processed<A: Arithmetic>(
        self,
        bins: Seq<Bin>,
        channel_idx: usize,
        params: SpectralCompressorParams,
        overlap_times: usize,
        first_non_dc_bin: usize,
        due: DueUpdates,
        starts_match: bool,
        after: CompressorBank,
        out: Seq<Bin>,
        result: Option<Option<MatchCurveFit>>,
    ) -> bool {
        exists|prepared: CompressorBank, run: CompressorBank, published: CompressorBank|
            {
                &&& #[trigger] self.is_prepared::<A>(
                    channel_idx,
                    params,
                    due,
                    starts_match,
                    prepared,
                )
                &&& #[trigger] prepared.has_run::<A>(
                    bins,
                    channel_idx,
                    params,
                    overlap_times,
                    first_non_dc_bin,
                    run,
                    out,
                    result,
                )
                &&& #[trigger] run.has_snapshot_published(
                    params.global.compressor_freeze,
                    overlap_times,
                    published,
                )
                &&& published.has_analysis_finished::<A>(channel_idx, params, after)
            }
    }

    /// [`process()`][Self::process()] for given requests.
    pub fn process_requested<A: Arithmetic>(
        &mut self,
        buffer: &mut Vec<Bin>,
        channel_idx: usize,
        params: &SpectralCompressorParams,
        overlap_times: usize,
        first_non_dc_bin: usize,
        due: DueUpdates,
        starts_match: bool,
    ) -> (result: Option<Option<MatchCurveFit>>)
        requires
            old(self).is_sized(),
            old(buffer)@.len() == old(self).num_bins(),
            channel_idx < old(self).num_channels(),
            overlap_times > 0,
            old(self).match_curve_meter.spectrum_count < u64::MAX,
        ensures
            final(self).is_sized(),
            final(self).match_curve_runtime == old(self).match_curve_runtime,
            old(self).has_processed::<A>(
                old(buffer)@,
                channel_idx,
                *params,
                overlap_times,
                first_non_dc_bin,
                due,
                starts_match,
                *final(self),
                final(buffer)@,
                result,
            ),
    {
        self.prepare::<A>(channel_idx, params, due, starts_match);
        let ghost prepared = *self;
        let result = self.run::<A>(buffer, channel_idx, params, overlap_times, first_non_dc_bin);
        let ghost run = *self;
        self.publish_snapshot_if_due(params.global.compressor_freeze, overlap_times);
        let ghost published = *self;
        // When processing the last channel the spectrum analyzer data can be finalized. It is sent
        // to the editor after the STFT callback has finished with the compressor bank.
        if params.editor_open && channel_idx == self.envelopes.len() - 1 {
            finish_analysis::<A>(
                analysis_buffer(&mut self.analyzer_input_data),
                params,
                self.ln_freqs.len(),
                &self.envelopes,
            );
            self.analyzer_needs_publish = true;
        }
        assert(run.has_snapshot_published(
            params.global.compressor_freeze,
            overlap_times,
            published,
        ));
        assert(published.has_analysis_finished::<A>(channel_idx, *params, *self));
        result
    }

    /// Apply the magnitude compression to a buffer of FFT bins. The compressors are first updated
    /// if needed. The overlap amount is needed to compute the effective sample rate. The
    /// `first_non_dc_bin` argument is used to avoid upwards compression on the DC bins, or the
    /// neighbouring bins the DC signal may have been convolved into because of the Hann window
    /// function.
    ///
    /// The updates that are due are those whose flags were raised, which are lowered. A match that
    /// was requested is begun, and the result of a match that came to its end is published.
    pub fn process<A: Arithmetic>(
        &mut self,
        buffer: &mut Vec<Bin>,
        channel_idx: usize,
        params: &SpectralCompressorParams,
        overlap_times: usize,
        first_non_dc_bin: usize,
    )
        requires
            old(self).is_sized(),
            old(buffer)@.len() == old(self).num_bins(),
            channel_idx < old(self).num_channels(),
            overlap_times > 0,
            old(self).match_curve_meter.spectrum_count < u64::MAX,
        ensures
            final(self).is_sized(),
            exists|due: DueUpdates, starts_match: bool, result: Option<Option<MatchCurveFit>>|
                {
                    &&& old(self).update_requests.is_taken(due)
                    &&& old(self).match_curve_runtime.state_cell().is_begun(starts_match)
                    &&& #[trigger] old(self).has_processed::<A>(
                        old(buffer)@,
                        channel_idx,
                        *params,
                        overlap_times,
                        first_non_dc_bin,
                        due,
                        starts_match,
                        *final(self),
                        final(buffer)@,
                        result,
                    )
                    &&& result matches Some(found)
                        ==> old(self).match_curve_runtime.is_published(found)
                },
    {
        let due = self.update_requests.take();
        let starts_match = self.match_curve_runtime.begin_running_if_requested();
        let result = self.process_requested::<A>(
            buffer,
            channel_idx,
            params,
            overlap_times,
            first_non_dc_bin,
            due,
            starts_match,
        );
        if let Some(fit) = result {
            self.match_curve_runtime.publish_result(fit);
        }
    }

    /// Publish analyzer data prepared during the compressor processing pass.
    pub fn publish_analyzer_if_needed(&mut self)
        ensures
            !old(self).analyzer_needs_publish ==> *final(self) == *old(self),
            old(self).analyzer_needs_publish ==> {
                &&& *final(self) == (CompressorBank {
                    analyzer_input_data: final(self).analyzer_input_data,
                    analyzer_needs_publish: false,
                    ..*old(self)
                })
                &&& published_analysis(final(self).analyzer_input_data) == pending_analysis(
                    old(self).analyzer_input_data,
                )
            },
    {
        if self.analyzer_needs_publish {
            publish_analysis(&mut self.analyzer_input_data);
            self.analyzer_needs_publish = false;
        }
    }
}

/// With freeze enabled for the first time, the gains that are applied to a channel are those that
/// were computed for it, and they are frozen.
pub proof fn law_first_frozen_frame_is_captured<A: Arithmetic>(
    before: CompressorBank,
    bins: Seq<Bin>,
    channel_idx: usize,
    updates_analyzer: bool,
    after: CompressorBank,
    out: Seq<Bin>,
)
    requires
        before.is_sized(),
        channel_idx < before.num_channels(),
        !before.frozen_gain_snapshot_valid@[channel_idx as int],
        before.has_applied::<A>(bins, channel_idx, true, updates_analyzer, after, out),
    ensures
        after.frozen_gain_snapshot_valid@[channel_idx as int],
        after.frozen_gain_difference_db@[channel_idx as int]@ == before.smoothed_gain_difference_db@,
        crate::processing::are_bins_scaled::<A>(bins, before.smoothed_gain_difference_db@, out),
{
}

/// Once a channel's gains are frozen, they stay what they are and are applied to any input,
/// whatever gains are computed for it.
pub proof fn law_frozen_gains_are_held<A: Arithmetic>(
    before: CompressorBank,
    bins: Seq<Bin>,
    channel_idx: usize,
    updates_analyzer: bool,
    after: CompressorBank,
    out: Seq<Bin>,
)
    requires
        before.is_sized(),
        channel_idx < before.num_channels(),
        before.frozen_gain_snapshot_valid@[channel_idx as int],
        before.has_applied::<A>(bins, channel_idx, true, updates_analyzer, after, out),
    ensures
        after.frozen_gain_difference_db == before.frozen_gain_difference_db,
        after.frozen_gain_snapshot_valid == before.frozen_gain_snapshot_valid,
        crate::processing::are_bins_scaled::<A>(
            bins,
            before.frozen_gain_difference_db@[channel_idx as int]@,
            out,
        ),
{
}

/// With freeze disabled, nothing is frozen, and the gains that were computed are applied.
pub proof fn law_live_gains_are_applied<A: Arithmetic>(
    before: CompressorBank,
    bins: Seq<Bin>,
    channel_idx: usize,
    updates_analyzer: bool,
    after: CompressorBank,
    out: Seq<Bin>,
)
    requires
        before.has_applied::<A>(bins, channel_idx, false, updates_analyzer, after, out),
    ensures
        after.frozen_gain_difference_db == before.frozen_gain_difference_db,
        after.frozen_gain_snapshot_valid == before.frozen_gain_snapshot_valid,
        crate::processing::are_bins_scaled::<A>(bins, before.smoothed_gain_difference_db@, out),
{
}

/// A processed channel with freeze enabled has frozen gains, and they are what was applied to its
/// bins. Gains that were frozen before stay what they are, whatever the input, the sidechain, the
/// mode and the other parameters are.
pub proof fn law_processing_applies_frozen_gains<A: Arithmetic>(
    before: CompressorBank,
    bins: Seq<Bin>,
    channel_idx: usize,
    params: SpectralCompressorParams,
    overlap_times: usize,
    first_non_dc_bin: usize,
    due: DueUpdates,
    starts_match: bool,
    after: CompressorBank,
    out: Seq<Bin>,
    result: Option<Option<MatchCurveFit>>,
)
    requires
        before.is_sized(),
        channel_idx < before.num_channels(),
        params.global.compressor_freeze,
        before.has_processed::<A>(
            bins,
            channel_idx,
            params,
            overlap_times,
            first_non_dc_bin,
            due,
            starts_match,
            after,
            out,
            result,
        ),
    ensures
        after.frozen_gain_snapshot_valid@[channel_idx as int],
        crate::processing::are_bins_scaled::<A>(
            bins,
            after.frozen_gain_difference_db@[channel_idx as int]@,
            out,
        ),
        before.freeze_was_active && before.frozen_gain_snapshot_valid@[channel_idx as int]
            ==> after.frozen_gain_difference_db == before.frozen_gain_difference_db,
{
}

/// Processing a channel with freeze disabled leaves nothing frozen.
pub proof fn law_live_processing_freezes_nothing<A: Arithmetic>(
    before: CompressorBank,
    bins: Seq<Bin>,
    channel_idx: usize,
    params: SpectralCompressorParams,
    overlap_times: usize,
    first_non_dc_bin: usize,
    due: DueUpdates,
    starts_match: bool,
    after: CompressorBank,
    out: Seq<Bin>,
    result: Option<Option<MatchCurveFit>>,
)
    requires
        before.is_sized(),
        channel_idx < before.num_channels(),
        !params.global.compressor_freeze,
        before.has_processed::<A>(
            bins,
            channel_idx,
            params,
            overlap_times,
            first_non_dc_bin,
            due,
            starts_match,
            after,
            out,
            result,
        ),
    ensures
        !after.has_frozen_gains(),
        !after.freeze_was_active,
{
}

/// Freeze that is turned off and on again captures anew: what a channel's gains are then frozen to
/// are the gains of the first frame after that.
pub proof fn law_freeze_recaptures_after_toggle<A: Arithmetic>(
    frozen: CompressorBank,
    off: CompressorBank,
    on: CompressorBank,
    channel_idx: usize,
)
    requires
        frozen.wf(),
        frozen.has_freeze_synced(false, off),
        off.has_freeze_synced(true, on),
        channel_idx < frozen.num_channels(),
    ensures
        !on.frozen_gain_snapshot_valid@[channel_idx as int],
        on.freeze_was_active,
        !on.frozen_ir_snapshot_published,
        !published_snapshot(on.frozen_ir_input_data).valid,
{
}

/// With freeze enabled, the frozen gains are published as soon as those of all channels are frozen,
/// and what was published is then kept.
pub proof fn law_frozen_snapshot_is_published_and_kept<A: Arithmetic>(
    before: CompressorBank,
    bins: Seq<Bin>,
    channel_idx: usize,
    params: SpectralCompressorParams,
    overlap_times: usize,
    first_non_dc_bin: usize,
    due: DueUpdates,
    starts_match: bool,
    after: CompressorBank,
    out: Seq<Bin>,
    result: Option<Option<MatchCurveFit>>,
)
    requires
        before.is_sized(),
        channel_idx < before.num_channels(),
        params.global.compressor_freeze,
        before.has_processed::<A>(
            bins,
            channel_idx,
            params,
            overlap_times,
            first_non_dc_bin,
            due,
            starts_match,
            after,
            out,
            result,
        ),
    ensures
        after.freeze_was_active,
        if before.freeze_was_active && before.frozen_ir_snapshot_published {
            &&& after.frozen_ir_snapshot_published
            &&& after.frozen_ir_input_data == before.frozen_ir_input_data
        } else if (forall|i: int|
            0 <= i < after.frozen_gain_snapshot_valid@.len()
                ==> after.frozen_gain_snapshot_valid@[i]) {
            &&& after.frozen_ir_snapshot_published
            &&& after.is_frozen_snapshot(
                overlap_times,
                published_snapshot(after.frozen_ir_input_data),
            )
        } else {
            &&& !after.frozen_ir_snapshot_published
            &&& before.freeze_was_active ==> after.frozen_ir_input_data
                == before.frozen_ir_input_data
            &&& !before.freeze_was_active ==> !published_snapshot(after.frozen_ir_input_data).valid
        },
{
    let (prepared, run, published) = choose|
        prepared: CompressorBank,
        run: CompressorBank,
        published: CompressorBank,
    |
        {
            &&& #[trigger] before.is_prepared::<A>(
                channel_idx,
                params,
                due,
                starts_match,
                prepared,
            )
            &&& #[trigger] prepared.has_run::<A>(
                bins,
                channel_idx,
                params,
                overlap_times,
                first_non_dc_bin,
                run,
                out,
                result,
            )
            &&& #[trigger] run.has_snapshot_published(true, overlap_times, published)
            &&& published.has_analysis_finished::<A>(channel_idx, params, after)
        };
    assert(prepared.frozen_ir_snapshot_published == (before.freeze_was_active
        && before.frozen_ir_snapshot_published));
    assert(run.frozen_ir_snapshot_published == prepared.frozen_ir_snapshot_published);
    assert(run.frozen_ir_input_data == prepared.frozen_ir_input_data);
    assert(after.frozen_gain_snapshot_valid == run.frozen_gain_snapshot_valid);
    if run.is_snapshot_due(true) {
        let snapshot = published_snapshot(published.frozen_ir_input_data);
        assert(run.is_frozen_snapshot(overlap_times, snapshot));
        assert(after.is_frozen_snapshot(overlap_times, snapshot));
    }
}

/// The gains that are published for export are the frozen ones, and they are published only once.
pub proof fn law_frozen_gains_are_published(
    before: CompressorBank,
    overlap_times: usize,
    after: CompressorBank,
    channel: int,
)
    requires
        before.is_sized(),
        before.is_snapshot_due(true),
        before.has_snapshot_published(true, overlap_times, after),
        0 <= channel < before.num_channels(),
        channel < crate::frozen_ir::MAX_IR_CHANNELS,
        before.num_channels() <= usize::MAX,
        before.num_bins() <= crate::compressor_bank::MAX_NUM_BINS,
    ensures
        published_snapshot(after.frozen_ir_input_data).valid,
        published_snapshot(after.frozen_ir_input_data).overlap_times == overlap_times,
        published_snapshot(after.frozen_ir_input_data).window_size == before.window_size,
        published_snapshot(after.frozen_ir_input_data).gain_difference_db@[channel]@.take(
            before.num_bins() as int,
        ) == before.frozen_gain_difference_db@[channel]@,
        !after.is_snapshot_due(true),
{
    let snapshot = published_snapshot(after.frozen_ir_input_data);
    let gains = before.frozen_gain_difference_db@[channel]@;
    assert(snapshot.gain_difference_db@[channel]@.take(before.num_bins() as int) =~= gains);
}

proof fn lemma_envelope_sum<A: Arithmetic>(
    envelopes: Seq<Vec<Single>>,
    bin: int,
    count: nat,
    r: Single,
)
    requires
        is_exact::<A>(),
        forall|c: int| 0 <= c < count ==> (#[trigger] envelopes[c])@[bin].is_finite(),
        is_envelope_sum::<A>(envelopes, bin, count, r),
    ensures
        r.is_finite(),
        r.value() == total_at(envelopes, bin, count),
    decreases count,
{
    lemma_constants();
    if count > 0 {
        let before = choose|before: Single|
            {
                &&& is_envelope_sum::<A>(envelopes, bin, (count - 1) as nat, before)
                &&& #[trigger] sums::<A>(before, envelopes[count - 1]@[bin], r)
            };
        lemma_envelope_sum::<A>(envelopes, bin, (count - 1) as nat, before);
    }
}

/// The analyzer shows means over the channels: that of their envelopes, and that of their gains, of
/// which it was given the sum.
pub proof fn law_analyzer_shows_the_mean_of_the_channels<A: Arithmetic>(
    before: AnalyzerData,
    params: SpectralCompressorParams,
    num_bins: usize,
    envelopes: Seq<Vec<Single>>,
    after: AnalyzerData,
    bin: int,
)
    requires
        is_exact::<A>(),
        is_analysis_finished::<A>(before, params, num_bins, envelopes, after),
        0 < envelopes.len() <= usize::MAX,
        0 <= bin < num_bins,
        bin < before.gain_difference_db@.len(),
        before.gain_difference_db@[bin].is_finite(),
        forall|c: int| 0 <= c < envelopes.len() ==> (#[trigger] envelopes[c])@[bin].is_finite(),
    ensures
        after.gain_difference_db@[bin].value() * (envelopes.len() as int as real)
            == before.gain_difference_db@[bin].value(),
        after.envelope_followers@[bin].value() * (envelopes.len() as int as real) == total_at(
            envelopes,
            bin,
            envelopes.len(),
        ),
{
    lemma_constants();
    let (n, multiplier) = choose|n: Single, multiplier: Single| #[trigger]
        counts::<A>(envelopes.len() as usize, n) && #[trigger] reciprocals::<A>(n, multiplier)
            && are_multiplied::<A>(
            padded(before.gain_difference_db@, num_bins as nat),
            num_bins as int,
            multiplier,
            after.gain_difference_db@,
        ) && are_means::<A>(
            padded(before.envelope_followers@, num_bins as nat),
            num_bins as int,
            envelopes,
            multiplier,
            after.envelope_followers@,
        );
    let (m, count) = (multiplier.value(), n.value());
    assert(m * count == 1real);
    let gains = padded(before.gain_difference_db@, num_bins as nat);
    assert(gains[bin] == before.gain_difference_db@[bin]);
    assert(products::<A>(gains[bin], multiplier, after.gain_difference_db@[bin]));
    lemma_regroup(gains[bin].value(), m, count);
    let mean = after.envelope_followers@[bin];
    assert(is_envelope_mean::<A>(envelopes, bin, multiplier, mean));
    let sum = choose|sum: Single| #[trigger]
        products::<A>(sum, multiplier, mean) && is_envelope_sum::<A>(
            envelopes,
            bin,
            envelopes.len(),
            sum,
        );
    lemma_envelope_sum::<A>(envelopes, bin, envelopes.len(), sum);
    lemma_regroup(sum.value(), m, count);
}

/// What the envelopes of a channel follow is, at each bin, the magnitude of the channel's own bin.
/// Where the sidechain is what is compressed by, it is the linked magnitude of the sidechain: the
/// channel's own one, moved towards the mean of all channels.
pub proof fn law_envelopes_follow_what_the_mode_says<A: Arithmetic>(
    before: CompressorBank,
    bins: Seq<Bin>,
    channel_idx: usize,
    params: SpectralCompressorParams,
    overlap_times: usize,
    first_non_dc_bin: usize,
    after: CompressorBank,
    out: Seq<Bin>,
    result: Option<Option<MatchCurveFit>>,
    bin: int,
)
    requires
        is_exact::<A>(),
        magnitudes_follow::<A>(),
        before.is_sized(),
        before.has_run::<A>(
            bins,
            channel_idx,
            params,
            overlap_times,
            first_non_dc_bin,
            after,
            out,
            result,
        ),
        0 <= bin < bins.len(),
        bin < after.followed_magnitudes@.len(),
        bins[bin].re.is_finite() && bins[bin].im.is_finite(),
        params.threshold.sc_channel_link.is_finite(),
        channel_idx < before.sidechain_spectrum_magnitudes@.len() <= usize::MAX,
        forall|c: int|
            0 <= c < before.sidechain_spectrum_magnitudes@.len() ==> (
            #[trigger] before.sidechain_spectrum_magnitudes@[c])@[bin].is_finite(),
    ensures
        ({
            let followed = after.followed_magnitudes@[bin].value();
            let spectra = before.sidechain_spectrum_magnitudes@;
            let own = spectra[channel_idx as int]@[bin].value();
            let n = spectra.len() as int as real;
            if params.threshold.mode is SidechainCompress {
                n * (followed - own) == params.threshold.sc_channel_link.value() * (total_at(
                    spectra,
                    bin,
                    spectra.len(),
                ) - n * own)
            } else {
                followed >= 0real && followed * followed == bins[bin].re.value()
                    * bins[bin].re.value() + bins[bin].im.value() * bins[bin].im.value()
            }
        }),
{
    let (followed, measured) = choose|followed: CompressorBank, measured: CompressorBank|
        {
            &&& #[trigger] before.has_envelopes::<A>(
                bins,
                channel_idx,
                params,
                overlap_times,
                followed,
            )
            &&& #[trigger] followed.has_measured::<A>(
                channel_idx,
                params,
                overlap_times,
                measured,
                result,
            )
            &&& if params.threshold.mode is SidechainMatch {
                measured.has_compressed_sidechain::<A>(
                    bins,
                    channel_idx,
                    params,
                    first_non_dc_bin,
                    params.global.compressor_freeze,
                    params.editor_open,
                    after,
                    out,
                )
            } else {
                measured.has_compressed::<A>(
                    bins,
                    channel_idx,
                    params,
                    first_non_dc_bin,
                    params.global.compressor_freeze,
                    params.editor_open,
                    after,
                    out,
                )
            }
        };
    assert(after.followed_magnitudes == followed.followed_magnitudes);
    let value = followed.followed_magnitudes@[bin];
    if params.threshold.mode is SidechainCompress {
        let spectra = before.sidechain_spectrum_magnitudes@;
        let link = choose|link: ChannelLink| #[trigger]
            is_channel_link::<A>(
                params.threshold.sc_channel_link,
                before.num_channels() as usize,
                link,
            ) && are_linked_magnitudes::<A>(
                spectra,
                channel_idx,
                link,
                followed.followed_magnitudes@,
            );
        assert(is_linked_sum::<A>(spectra, channel_idx, link, bin, spectra.len(), value));
        law_linking_moves_towards_the_mean::<A>(
            spectra,
            channel_idx,
            params.threshold.sc_channel_link,
            link,
            bin,
            value,
        );
    } else {
        assert(magnitudes::<A>(bins[bin].re, bins[bin].im, value));
    }
}

/// An impulse response that is rendered from a published snapshot has the gains that the frozen
/// compressors apply: a bin that is kept comes out of both with the same value, whatever went in.
pub proof fn law_exported_responses_have_the_frozen_gains<A: Arithmetic>(
    exp: spec_fn(real) -> real,
    bank: CompressorBank,
    overlap_times: usize,
    snapshot: FrozenIrData,
    channel_idx: int,
    bins: Seq<Bin>,
    out: Seq<Bin>,
    first_non_dc_bin: usize,
    shaped: Seq<Bin>,
    bin: int,
)
    requires
        is_exact::<A>(),
        level_gains_follow::<A>(exp),
        bank.is_frozen_snapshot(overlap_times, snapshot),
        0 <= channel_idx < snapshot.num_channels <= MAX_IR_CHANNELS,
        crate::processing::are_bins_scaled::<A>(
            bins,
            bank.frozen_gain_difference_db@[channel_idx]@,
            out,
        ),
        are_shaped::<A>(
            bins,
            snapshot.gain_difference_db@[channel_idx]@,
            first_non_dc_bin,
            shaped,
        ),
        first_non_dc_bin <= bin < bins.len() <= usize::MAX,
        bin < bank.frozen_gain_difference_db@[channel_idx]@.len(),
        bank.frozen_gain_difference_db@[channel_idx]@[bin].is_finite(),
        bins[bin].re.is_finite() && bins[bin].im.is_finite(),
    ensures
        shaped[bin].re.value() == out[bin].re.value(),
        shaped[bin].im.value() == out[bin].im.value(),
{
    let gains = snapshot.gain_difference_db@[channel_idx]@;
    let frozen = bank.frozen_gain_difference_db@[channel_idx]@;
    assert(gains[bin] == frozen[bin]);
    law_snapshots_shape_the_bins_that_are_kept::<A>(
        exp,
        bins,
        gains,
        first_non_dc_bin,
        shaped,
        bin,
    );
    assert(is_bin_scaled::<A>(bins[bin], frozen[bin], out[bin]));
}

} // verus!
