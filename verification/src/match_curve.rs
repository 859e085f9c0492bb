//! Threshold curve matching: averages spectra over a fixed time and fits a threshold curve to the
//! result.

use vstd::arithmetic::power2::pow2;
use vstd::prelude::*;

use crate::arithmetic::{
    differences, exponentials, fast_gain_levels, narrowings, natural_logs, sums, wide_counts,
    wide_differences, wide_products, wide_quotients, wide_sums, widenings, Arithmetic,
};
use crate::curve::{
    is_base_level, is_quadratic, law_curve_passes_through_its_points, lemma_clamped_frequency,
    lemma_quadratic_value, lemma_range_of_points, no_point, no_points, quadratic, Curve,
    CurveParams, CurvePoint, MAX_THRESHOLD_CURVE_POINTS,
    THRESHOLD_CURVE_MAX_FREQUENCY_HZ, THRESHOLD_CURVE_MIN_FREQUENCY_HZ,
    THRESHOLD_CURVE_POINT_OFFSET_LIMIT_DB,
};
use crate::exact::{
    exponentials_follow, is_exact, is_wide_exact, lemma_cancel, lemma_constants,
    lemma_order_is_by_value, lemma_regroup, lemma_selections, lemma_sign_of_product, lemma_signs,
    lemma_three_factors, lemma_value_of, lemma_wide_constants, lemma_wide_order_is_by_value,
    levels_follow, logs_follow,
};
use crate::match_level::{frame_count, is_frame_count, WIDE_ZERO};
use crate::match_state::{
    law_outcome_is_taken, law_requested_match_is_begun, MatchOutcome, MatchState, StateCell,
};
use crate::shared_cells::{
    byte_is_new, exchange_alone, flag_is_loaded, flag_is_new, flag_is_stored, word_is_loaded,
    word_is_new, word_is_stored,
};
use crate::single::{double, single, Double, Single, THREE, ZERO};

use std::sync::atomic::{AtomicBool, AtomicU32, Ordering};

verus! {

/// The encoding of `5.0`, the length of a measurement in seconds.
pub const MATCH_CURVE_DURATION_SECONDS: u32 = 0x40a0_0000;

/// The encoding of `-120.0`, the level up to which an average is silent.
pub const SILENCE_FLOOR_DB: u32 = 0xc2f0_0000;

/// The encoding of `1.5`. A base curve that is nowhere further from its target gets no nodes.
pub const MAX_FIT_RESIDUAL_DB: u32 = 0x3fc0_0000;

/// The encoding of `3.0`. A residual that is not larger gets no node.
pub const MAX_NODE_RESIDUAL_DB: u32 = THREE;

/// The encoding of `0.22`, how far apart the logarithms of the frequencies of two nodes are.
pub const MIN_NODE_DISTANCE_LN: u32 = 0x3e61_47ae;

/// The encoding of `1000.0`.
pub const DEFAULT_CENTER_FREQUENCY_HZ: u32 = 0x447a_0000;

/// The binary64 encoding of `1.0`.
pub const WIDE_ONE: u64 = 0x3ff0_0000_0000_0000;

/// The binary64 encoding of the distance between `1.0` and the next larger value.
pub const WIDE_EPSILON: u64 = 0x3cb0_0000_0000_0000;

/// A fitted curve.
#[derive(Clone, Copy, PartialEq, Eq, Debug)]
pub struct MatchCurveFit {
    pub intercept: Single,
    pub center_frequency: Single,
    pub slope: Single,
    pub curve: Single,
    pub points: [CurvePoint; MAX_THRESHOLD_CURVE_POINTS],
}

impl Default for MatchCurveFit {
    fn default() -> (fit: MatchCurveFit)
        ensures
            fit.intercept == single(ZERO),
            fit.center_frequency == single(DEFAULT_CENTER_FREQUENCY_HZ),
            fit.slope == single(ZERO),
            fit.curve == single(ZERO),
            forall|i: int| 0 <= i < MAX_THRESHOLD_CURVE_POINTS ==> fit.points@[i] == no_point(),
    {
        MatchCurveFit {
            intercept: single(ZERO),
            center_frequency: single(DEFAULT_CENTER_FREQUENCY_HZ),
            slope: single(ZERO),
            curve: single(ZERO),
            points: no_points(),
        }
    }
}

/// Final outcome of a curve match, consumed by the GUI.
#[derive(Clone, Copy, PartialEq, Eq, Debug)]
pub enum MatchCurveResult {
    Matched(MatchCurveFit),
    Failed,
}

/// What publishing a result writes: a new fit where there is one, and the next state.
#[verifier::allow_in_spec]
pub fn publication(result: Option<MatchCurveFit>) -> (Option<MatchCurveFit>, MatchState)
    returns
        (match result {
            Some(fit) => (Some(fit), MatchState::finished(MatchOutcome::Matched)),
            None => (None::<MatchCurveFit>, MatchState::finished(MatchOutcome::Failed)),
        }),
{
    match result {
        Some(fit) => (Some(fit), MatchState::finished(MatchOutcome::Matched)),
        None => (None, MatchState::finished(MatchOutcome::Failed)),
    }
}

/// The result that goes with an outcome, where `fit` is the fit that was published.
#[verifier::allow_in_spec]
pub fn match_curve_result(outcome: Option<MatchOutcome>, fit: MatchCurveFit) -> Option<
    MatchCurveResult,
>
    returns
        (match outcome {
            Some(MatchOutcome::Matched) => Some(MatchCurveResult::Matched(fit)),
            Some(MatchOutcome::Failed) => Some(MatchCurveResult::Failed),
            None => None,
        }),
{
    match outcome {
        Some(MatchOutcome::Matched) => Some(MatchCurveResult::Matched(fit)),
        Some(MatchOutcome::Failed) => Some(MatchCurveResult::Failed),
        None => None,
    }
}

/// A curve point that both threads share.
struct PointCell {
    enabled: AtomicBool,
    frequency: AtomicU32,
    offset_db: AtomicU32,
}

impl PointCell {
    /// The cells were made for a point that is disabled, at the default frequency, with no offset.
    spec fn is_new(self) -> bool {
        &&& flag_is_new(false, self.enabled)
        &&& word_is_new(DEFAULT_CENTER_FREQUENCY_HZ, self.frequency)
        &&& word_is_new(ZERO, self.offset_db)
    }

    /// The parts of the given point were stored in the cells.
    spec fn is_stored(self, point: CurvePoint) -> bool {
        &&& flag_is_stored(self.enabled, point.enabled)
        &&& word_is_stored(self.frequency, point.frequency.bits)
        &&& word_is_stored(self.offset_db, point.offset_db.bits)
    }

    /// The parts of the given point were loaded from the cells.
    spec fn is_loaded(self, point: CurvePoint) -> bool {
        &&& flag_is_loaded(self.enabled, point.enabled)
        &&& word_is_loaded(self.frequency, point.frequency.bits)
        &&& word_is_loaded(self.offset_db, point.offset_db.bits)
    }

    fn new() -> (cell: PointCell)
        ensures
            cell.is_new(),
    {
        PointCell {
            enabled: AtomicBool::new(false),
            frequency: AtomicU32::new(DEFAULT_CENTER_FREQUENCY_HZ),
            offset_db: AtomicU32::new(ZERO),
        }
    }

    fn set(&self, point: CurvePoint)
        ensures
            self.is_stored(point),
    {
        self.frequency.store(point.frequency.bits, Ordering::Release);
        self.offset_db.store(point.offset_db.bits, Ordering::Release);
        self.enabled.store(point.enabled, Ordering::Release);
    }

    fn get(&self) -> (point: CurvePoint)
        ensures
            self.is_loaded(point),
    {
        CurvePoint {
            enabled: self.enabled.load(Ordering::Acquire),
            frequency: single(self.frequency.load(Ordering::Acquire)),
            offset_db: single(self.offset_db.load(Ordering::Acquire)),
        }
    }
}

/// Lock-free request/result handoff used to trigger curve matching from the GUI and publish the
/// fitted curve back from the audio thread.
pub struct MatchCurveRuntime {
    state: StateCell,
    intercept: AtomicU32,
    center_frequency: AtomicU32,
    slope: AtomicU32,
    curve: AtomicU32,
    points: [PointCell; MAX_THRESHOLD_CURVE_POINTS],
}

impl MatchCurveRuntime {
    /// Where the match is.
    pub closed spec fn state_cell(self) -> StateCell {
        self.state
    }

    /// The cells were made for a flat fit at the default frequency, whose points are all new.
    pub closed spec fn holds_new_fit(self) -> bool {
        &&& word_is_new(ZERO, self.intercept)
        &&& word_is_new(DEFAULT_CENTER_FREQUENCY_HZ, self.center_frequency)
        &&& word_is_new(ZERO, self.slope)
        &&& word_is_new(ZERO, self.curve)
        &&& forall|i: int|
            0 <= i < MAX_THRESHOLD_CURVE_POINTS ==> (#[trigger] self.points@[i]).is_new()
    }

    /// The parts of the given fit were stored, each in its own cell.
    pub closed spec fn is_stored(self, fit: MatchCurveFit) -> bool {
        &&& word_is_stored(self.intercept, fit.intercept.bits)
        &&& word_is_stored(self.center_frequency, fit.center_frequency.bits)
        &&& word_is_stored(self.slope, fit.slope.bits)
        &&& word_is_stored(self.curve, fit.curve.bits)
        &&& forall|i: int|
            0 <= i < MAX_THRESHOLD_CURVE_POINTS ==> (#[trigger] self.points@[i]).is_stored(
                fit.points@[i],
            )
    }

    /// The given result was published: its fit, if there is one, and then the state.
    pub open spec fn is_published(self, result: Option<MatchCurveFit>) -> bool {
        &&& publication(result).0 matches Some(fit) ==> self.is_stored(fit)
        &&& self.state_cell().is_set(publication(result).1)
    }

    /// The parts of the given fit were loaded, each from its own cell.
    pub closed spec fn is_loaded(self, fit: MatchCurveFit) -> bool {
        &&& word_is_loaded(self.intercept, fit.intercept.bits)
        &&& word_is_loaded(self.center_frequency, fit.center_frequency.bits)
        &&& word_is_loaded(self.slope, fit.slope.bits)
        &&& word_is_loaded(self.curve, fit.curve.bits)
        &&& forall|i: int|
            0 <= i < MAX_THRESHOLD_CURVE_POINTS ==> (#[trigger] self.points@[i]).is_loaded(
                fit.points@[i],
            )
    }

    /// `result` is what was taken, where the outcome was taken and the fit was loaded after it.
    pub open spec fn takes_with(
        self,
        outcome: Option<MatchOutcome>,
        fit: MatchCurveFit,
        result: Option<MatchCurveResult>,
    ) -> bool {
        &&& self.state_cell().is_taken(outcome)
        &&& self.is_loaded(fit)
        &&& result == match_curve_result(outcome, fit)
    }

    /// `result` is what was taken: an outcome, and the fit that was loaded after it.
    pub open spec fn is_taken(self, result: Option<MatchCurveResult>) -> bool {
        exists|outcome: Option<MatchOutcome>, fit: MatchCurveFit| #[trigger]
            self.takes_with(outcome, fit, result)
    }

    /// An idle match with a flat fit that has no points.
    pub fn new() -> (runtime: MatchCurveRuntime)
        ensures
            byte_is_new(MatchState::Idle.code(), runtime.state_cell().cell()),
            runtime.holds_new_fit(),
    {
        MatchCurveRuntime {
            state: StateCell::new(),
            intercept: AtomicU32::new(ZERO),
            center_frequency: AtomicU32::new(DEFAULT_CENTER_FREQUENCY_HZ),
            slope: AtomicU32::new(ZERO),
            curve: AtomicU32::new(ZERO),
            points: [
                PointCell::new(),
                PointCell::new(),
                PointCell::new(),
                PointCell::new(),
                PointCell::new(),
                PointCell::new(),
                PointCell::new(),
                PointCell::new(),
            ],
        }
    }

    /// Requests a new match run. The audio thread will pick this up on its next block.
    pub fn request(&self)
        ensures
            self.state_cell().is_set(MatchState::Requested),
    {
        self.state.set(MatchState::Requested);
    }

    /// Transitions from requested to running on the audio thread. Only the caller that gets `true`
    /// back should actually run the measurement.
    pub fn begin_running_if_requested(&self) -> (begun: bool)
        ensures
            self.state_cell().is_begun(begun),
    {
        self.state.begin_running_if_requested()
    }

    /// Publishes the final result from the audio thread. `None` is a failed match.
    pub fn publish_result(&self, result: Option<MatchCurveFit>)
        ensures
            self.is_published(result),
    {
        let (published, state) = publication(result);
        if let Some(fit) = published {
            self.intercept.store(fit.intercept.bits, Ordering::Release);
            self.center_frequency.store(fit.center_frequency.bits, Ordering::Release);
            self.slope.store(fit.slope.bits, Ordering::Release);
            self.curve.store(fit.curve.bits, Ordering::Release);
            let mut index: usize = 0;
            while index < MAX_THRESHOLD_CURVE_POINTS
                invariant
                    index <= MAX_THRESHOLD_CURVE_POINTS,
                    forall|i: int|
                        0 <= i < index ==> (#[trigger] self.points@[i]).is_stored(fit.points@[i]),
                decreases MAX_THRESHOLD_CURVE_POINTS - index,
            {
                self.points[index].set(fit.points[index]);
                index += 1;
            }
        }
        self.state.set(state);
    }

    /// Consumes a finished result on the GUI side, or returns `None` if nothing is ready yet.
    pub fn take_finished_result(&self) -> (result: Option<MatchCurveResult>)
        ensures
            self.is_taken(result),
    {
        let outcome = self.state.take_outcome();
        let fit = self.load_fit();
        let result = match_curve_result(outcome, fit);
        assert(self.takes_with(outcome, fit, result));
        result
    }

    fn load_fit(&self) -> (fit: MatchCurveFit)
        ensures
            self.is_loaded(fit),
    {
        let mut points = no_points();
        let mut index: usize = 0;
        while index < MAX_THRESHOLD_CURVE_POINTS
            invariant
                index <= MAX_THRESHOLD_CURVE_POINTS,
                forall|i: int|
                    0 <= i < index ==> (#[trigger] self.points@[i]).is_loaded(points@[i]),
            decreases MAX_THRESHOLD_CURVE_POINTS - index,
        {
            points[index] = self.points[index].get();
            index += 1;
        }
        MatchCurveFit {
            intercept: single(self.intercept.load(Ordering::Acquire)),
            center_frequency: single(self.center_frequency.load(Ordering::Acquire)),
            slope: single(self.slope.load(Ordering::Acquire)),
            curve: single(self.curve.load(Ordering::Acquire)),
            points,
        }
    }
}

/// A level that the fitted curve should have at a frequency.
#[derive(Clone, Copy, PartialEq, Eq, Debug, Structural)]
pub struct FitSample {
    pub ln_freq: Single,
    pub target_db: Single,
}

/// How far the target is above the base curve at a frequency.
#[derive(Clone, Copy, PartialEq, Eq, Debug, Structural)]
pub struct Residual {
    pub ln_freq: Single,
    pub offset_db: Single,
}

/// The values that are there, in order.
pub open spec fn present<T>(options: Seq<Option<T>>) -> Seq<T>
    decreases options.len(),
{
    if options.len() == 0 {
        Seq::empty()
    } else {
        match options.last() {
            Some(value) => present(options.drop_last()).push(value),
            None => present(options.drop_last()),
        }
    }
}

/// `r` is the sample for a bin with the given sum of magnitudes over `count` spectra: none where
/// the frequency is outside of what curve points may have, or the average is silent.
pub open spec fn is_bin_sample<A: Arithmetic>(
    ln_freq: Single,
    magnitude_sum: Double,
    count: Double,
    downwards_offset_db: Single,
    r: Option<FitSample>,
) -> bool {
    exists|frequency: Single| #[trigger]
        exponentials::<A>(ln_freq, frequency) && if !ln_freq.is_finite() || !frequency.is_within(
            single(THRESHOLD_CURVE_MIN_FREQUENCY_HZ),
            single(THRESHOLD_CURVE_MAX_FREQUENCY_HZ),
        ) {
            r is None
        } else {
            is_average_sample::<A>(ln_freq, magnitude_sum, count, downwards_offset_db, r)
        }
}

/// `r` is the sample for a bin within the frequency range.
pub open spec fn is_average_sample<A: Arithmetic>(
    ln_freq: Single,
    magnitude_sum: Double,
    count: Double,
    downwards_offset_db: Single,
    r: Option<FitSample>,
) -> bool {
    exists|mean: Double, average: Single| #[trigger]
        wide_quotients::<A>(magnitude_sum, count, mean) && #[trigger] narrowings::<A>(mean, average)
            && if !average.is_finite() || average.at_most(single(ZERO)) {
            r is None
        } else {
            is_level_sample::<A>(ln_freq, average, downwards_offset_db, r)
        }
}

/// `r` is the sample for a bin with the given average magnitude, if it is not silent.
pub open spec fn is_level_sample<A: Arithmetic>(
    ln_freq: Single,
    average: Single,
    downwards_offset_db: Single,
    r: Option<FitSample>,
) -> bool {
    exists|level: Single, target_db: Single| #[trigger]
        fast_gain_levels::<A>(average, level) && #[trigger] differences::<A>(
            level,
            downwards_offset_db,
            target_db,
        ) && r == if target_db.at_most(single(SILENCE_FLOOR_DB)) {
            None
        } else {
            Some(FitSample { ln_freq, target_db })
        }
}

fn level_sample<A: Arithmetic>(
    ln_freq: Single,
    average: Single,
    downwards_offset_db: Single,
) -> (r: Option<FitSample>)
    ensures
        is_level_sample::<A>(ln_freq, average, downwards_offset_db, r),
{
    let level = A::gain_to_db_fast_epsilon(average);
    let target_db = A::difference(level, downwards_offset_db);
    if target_db.at_most(single(SILENCE_FLOOR_DB)) {
        None
    } else {
        Some(FitSample { ln_freq, target_db })
    }
}

fn bin_sample<A: Arithmetic>(
    ln_freq: Single,
    magnitude_sum: Double,
    count: Double,
    downwards_offset_db: Single,
) -> (r: Option<FitSample>)
    ensures
        is_bin_sample::<A>(ln_freq, magnitude_sum, count, downwards_offset_db, r),
{
    let frequency = A::exponential(ln_freq);
    if !ln_freq.is_finite() || !frequency.is_within(
        single(THRESHOLD_CURVE_MIN_FREQUENCY_HZ),
        single(THRESHOLD_CURVE_MAX_FREQUENCY_HZ),
    ) {
        return None;
    }
    let mean = A::wide_quotient(magnitude_sum, count);
    let average = A::narrowed(mean);
    let r = if !average.is_finite() || average.at_most(single(ZERO)) {
        None
    } else {
        level_sample::<A>(ln_freq, average, downwards_offset_db)
    };
    assert(is_average_sample::<A>(ln_freq, magnitude_sum, count, downwards_offset_db, r));
    r
}

/// `options` holds what each bin but the first, which is the DC bin, gives.
pub open spec fn are_bin_samples<A: Arithmetic>(
    ln_freqs: Seq<Single>,
    magnitude_sums: Seq<Double>,
    count: Double,
    downwards_offset_db: Single,
    options: Seq<Option<FitSample>>,
) -> bool {
    forall|i: int|
        0 <= i < options.len() ==> is_bin_sample::<A>(
            ln_freqs[i + 1],
            magnitude_sums[i + 1],
            count,
            downwards_offset_db,
            #[trigger] options[i],
        )
}

/// How many bins give samples.
pub open spec fn sampled_bins(ln_freqs: Seq<Single>, magnitude_sums: Seq<Double>) -> nat {
    let bins = vstd::math::min(ln_freqs.len() as int, magnitude_sums.len() as int);
    if bins == 0 {
        0
    } else {
        (bins - 1) as nat
    }
}

/// `samples` are the ones that the averages of the bins give.
pub open spec fn are_fit_samples<A: Arithmetic>(
    ln_freqs: Seq<Single>,
    magnitude_sums: Seq<Double>,
    spectrum_count: u64,
    downwards_offset_db: Single,
    samples: Seq<FitSample>,
) -> bool {
    exists|count: Double, options: Seq<Option<FitSample>>| #[trigger]
        wide_counts::<A>(spectrum_count, count) && #[trigger] are_bin_samples::<A>(
            ln_freqs,
            magnitude_sums,
            count,
            downwards_offset_db,
            options,
        ) && options.len() == sampled_bins(ln_freqs, magnitude_sums) && samples == present(options)
}

/// Collects the levels to fit a curve to. There are none where nothing was measured, or where there
/// are not enough of them to fit a curve.
pub fn collect_fit_samples<A: Arithmetic>(
    ln_freqs: &[Single],
    magnitude_sums: &[Double],
    spectrum_count: u64,
    downwards_offset_db: Single,
) -> (r: Option<Vec<FitSample>>)
    ensures
        spectrum_count == 0 ==> r is None,
        spectrum_count != 0 ==> exists|samples: Seq<FitSample>| #[trigger]
            are_fit_samples::<A>(
                ln_freqs@,
                magnitude_sums@,
                spectrum_count,
                downwards_offset_db,
                samples,
            ) && if samples.len() < 3 {
                r is None
            } else {
                r is Some && r->0@ == samples
            },
{
    if spectrum_count == 0 {
        return None;
    }
    let mut samples: Vec<FitSample> = Vec::new();
    let ghost mut options: Seq<Option<FitSample>> = Seq::empty();
    let count = A::wide_count(spectrum_count);
    let bins: usize = if ln_freqs.len() < magnitude_sums.len() {
        ln_freqs.len()
    } else {
        magnitude_sums.len()
    };
    let mut index: usize = 1;
    while index < bins
        invariant
            1 <= index,
            bins > 0 ==> index <= bins,
            bins == 0 ==> index == 1,
            bins == vstd::math::min(ln_freqs@.len() as int, magnitude_sums@.len() as int),
            options.len() == index - 1,
            are_bin_samples::<A>(ln_freqs@, magnitude_sums@, count, downwards_offset_db, options),
            samples@ == present(options),
        decreases bins - index,
    {
        let sample = bin_sample::<A>(
            ln_freqs[index],
            magnitude_sums[index],
            count,
            downwards_offset_db,
        );
        proof {
            let earlier = options;
            options = options.push(sample);
            assert(options.drop_last() =~= earlier);
        }
        if let Some(value) = sample {
            samples.push(value);
        }
        index += 1;
    }
    assert(options.len() == sampled_bins(ln_freqs@, magnitude_sums@));
    assert(are_fit_samples::<A>(
        ln_freqs@,
        magnitude_sums@,
        spectrum_count,
        downwards_offset_db,
        samples@,
    ));
    if samples.len() < 3 {
        return None;
    }
    Some(samples)
}

/// The power sums of a least squares fit.
#[derive(Clone, Copy, PartialEq, Eq, Debug, Structural)]
pub struct PowerSums {
    pub sx0: Double,
    pub sx2: Double,
    pub sx4: Double,
    pub sy0: Double,
    pub sy2: Double,
}

/// `x2` is the square of the distance from the center, `y` what the slope leaves of the target.
pub open spec fn is_fit_term<A: Arithmetic>(
    sample: FitSample,
    center_ln: Single,
    slope: Single,
    x2: Double,
    y: Double,
) -> bool {
    exists|distance: Single, x: Double, target: Double, wide_slope: Double, lift: Double| #[trigger]
        differences::<A>(sample.ln_freq, center_ln, distance) && #[trigger] widenings::<A>(
            distance,
            x,
        ) && wide_products::<A>(x, x, x2) && #[trigger] widenings::<A>(sample.target_db, target)
            && #[trigger] widenings::<A>(slope, wide_slope) && #[trigger] wide_products::<A>(
            wide_slope,
            x,
            lift,
        ) && wide_differences::<A>(target, lift, y)
}

fn fit_term<A: Arithmetic>(sample: FitSample, center_ln: Single, slope: Single) -> (term: (
    Double,
    Double,
))
    ensures
        is_fit_term::<A>(sample, center_ln, slope, term.0, term.1),
{
    let distance = A::difference(sample.ln_freq, center_ln);
    let x = A::widened(distance);
    let x2 = A::wide_product(x, x);
    let target = A::widened(sample.target_db);
    let wide_slope = A::widened(slope);
    let lift = A::wide_product(wide_slope, x);
    (x2, A::wide_difference(target, lift))
}

/// `after` is `before` with the terms of one more sample added.
pub open spec fn is_power_step<A: Arithmetic>(
    sample: FitSample,
    center_ln: Single,
    slope: Single,
    before: PowerSums,
    after: PowerSums,
) -> bool {
    exists|x2: Double, y: Double, x4: Double, yx2: Double| #[trigger]
        is_fit_term::<A>(sample, center_ln, slope, x2, y) && #[trigger] wide_products::<A>(
            x2,
            x2,
            x4,
        ) && #[trigger] wide_products::<A>(y, x2, yx2) && wide_sums::<A>(
            before.sx0,
            double(WIDE_ONE),
            after.sx0,
        ) && wide_sums::<A>(before.sx2, x2, after.sx2) && wide_sums::<A>(before.sx4, x4, after.sx4)
            && wide_sums::<A>(before.sy0, y, after.sy0) && wide_sums::<A>(
            before.sy2,
            yx2,
            after.sy2,
        )
}

fn power_step<A: Arithmetic>(
    sample: FitSample,
    center_ln: Single,
    slope: Single,
    before: PowerSums,
) -> (after: PowerSums)
    ensures
        is_power_step::<A>(sample, center_ln, slope, before, after),
{
    let (x2, y) = fit_term::<A>(sample, center_ln, slope);
    let x4 = A::wide_product(x2, x2);
    let yx2 = A::wide_product(y, x2);
    let sx0 = A::wide_sum(before.sx0, double(WIDE_ONE));
    assert(wide_sums::<A>(before.sx0, double(WIDE_ONE), sx0));
    PowerSums {
        sx0,
        sx2: A::wide_sum(before.sx2, x2),
        sx4: A::wide_sum(before.sx4, x4),
        sy0: A::wide_sum(before.sy0, y),
        sy2: A::wide_sum(before.sy2, yx2),
    }
}

/// Power sums over no samples.
#[verifier::allow_in_spec]
pub fn no_power_sums() -> PowerSums
    returns
        (PowerSums {
            sx0: double(WIDE_ZERO),
            sx2: double(WIDE_ZERO),
            sx4: double(WIDE_ZERO),
            sy0: double(WIDE_ZERO),
            sy2: double(WIDE_ZERO),
        }),
{
    PowerSums {
        sx0: double(WIDE_ZERO),
        sx2: double(WIDE_ZERO),
        sx4: double(WIDE_ZERO),
        sy0: double(WIDE_ZERO),
        sy2: double(WIDE_ZERO),
    }
}

/// `sums` are the power sums over the first `count` samples.
pub open spec fn are_power_sums<A: Arithmetic>(
    samples: Seq<FitSample>,
    center_ln: Single,
    slope: Single,
    count: nat,
    sums: PowerSums,
) -> bool
    decreases count,
{
    if count == 0 {
        sums == no_power_sums()
    } else {
        exists|before: PowerSums|
            {
                &&& are_power_sums::<A>(samples, center_ln, slope, (count - 1) as nat, before)
                &&& #[trigger] is_power_step::<A>(
                    samples[count - 1],
                    center_ln,
                    slope,
                    before,
                    sums,
                )
            }
    }
}

/// `r` is `a * d - b * c`.
pub open spec fn is_determinant<A: Arithmetic>(
    a: Double,
    b: Double,
    c: Double,
    d: Double,
    r: Double,
) -> bool {
    exists|main: Double, anti: Double| #[trigger]
        wide_products::<A>(a, d, main) && #[trigger] wide_products::<A>(b, c, anti)
            && wide_differences::<A>(main, anti, r)
}

fn determinant<A: Arithmetic>(a: Double, b: Double, c: Double, d: Double) -> (r: Double)
    ensures
        is_determinant::<A>(a, b, c, d, r),
{
    let main = A::wide_product(a, d);
    let anti = A::wide_product(b, c);
    A::wide_difference(main, anti)
}

/// `r` is `numerator / denominator`, rounded to binary32.
pub open spec fn is_narrow_quotient<A: Arithmetic>(
    numerator: Double,
    denominator: Double,
    r: Single,
) -> bool {
    exists|ratio: Double| #[trigger]
        wide_quotients::<A>(numerator, denominator, ratio) && narrowings::<A>(ratio, r)
}

fn narrow_quotient<A: Arithmetic>(numerator: Double, denominator: Double) -> (r: Single)
    ensures
        is_narrow_quotient::<A>(numerator, denominator, r),
{
    let ratio = A::wide_quotient(numerator, denominator);
    A::narrowed(ratio)
}

/// `r` solves the normal equations that `sums` stand for, by Cramer's rule. There is no solution
/// where the determinant is zero, as far as rounding can tell.
pub open spec fn is_solution<A: Arithmetic>(sums: PowerSums, r: Option<(Single, Single)>) -> bool {
    exists|whole: Double| #[trigger]
        is_determinant::<A>(sums.sx0, sums.sx2, sums.sx2, sums.sx4, whole)
            && if whole.absolute().at_most(double(WIDE_EPSILON)) {
            r is None
        } else {
            r matches Some(solution) && is_cramer::<A>(sums, whole, solution.0, solution.1)
        }
}

/// `intercept` and `curve` are the two quotients of Cramer's rule.
pub open spec fn is_cramer<A: Arithmetic>(
    sums: PowerSums,
    whole: Double,
    intercept: Single,
    curve: Single,
) -> bool {
    exists|first: Double, second: Double| #[trigger]
        is_determinant::<A>(sums.sy0, sums.sy2, sums.sx2, sums.sx4, first)
            && #[trigger] is_determinant::<A>(sums.sx0, sums.sx2, sums.sy0, sums.sy2, second)
            && is_narrow_quotient::<A>(first, whole, intercept) && is_narrow_quotient::<A>(
            second,
            whole,
            curve,
        )
}

/// Fits the intercept and the curve of a quadratic whose center and slope are given.
pub fn fit_quadratic_fixed_center_slope<A: Arithmetic>(
    samples: &[FitSample],
    center_ln: Single,
    slope: Single,
) -> (r: Option<(Single, Single)>)
    ensures
        exists|sums: PowerSums| #[trigger]
            are_power_sums::<A>(samples@, center_ln, slope, samples@.len(), sums) && is_solution::<
                A,
            >(sums, r),
{
    let mut sums = no_power_sums();
    let mut index: usize = 0;
    while index < samples.len()
        invariant
            index <= samples@.len(),
            are_power_sums::<A>(samples@, center_ln, slope, index as nat, sums),
        decreases samples.len() - index,
    {
        let ghost before = sums;
        sums = power_step::<A>(samples[index], center_ln, slope, sums);
        assert(are_power_sums::<A>(samples@, center_ln, slope, (index + 1 - 1) as nat, before));
        assert(is_power_step::<A>(samples@[index + 1 - 1], center_ln, slope, before, sums));
        index += 1;
    }
    let whole = determinant::<A>(sums.sx0, sums.sx2, sums.sx2, sums.sx4);
    if whole.absolute().at_most(double(WIDE_EPSILON)) {
        return None;
    }
    let first = determinant::<A>(sums.sy0, sums.sy2, sums.sx2, sums.sx4);
    let second = determinant::<A>(sums.sx0, sums.sx2, sums.sy0, sums.sy2);
    let intercept = narrow_quotient::<A>(first, whole);
    let curve = narrow_quotient::<A>(second, whole);
    assert(is_cramer::<A>(sums, whole, intercept, curve));
    Some((intercept, curve))
}

/// A quadratic around a center.
#[derive(Clone, Copy, PartialEq, Eq, Debug, Structural)]
pub struct BaseCurve {
    pub center_ln: Single,
    pub intercept: Single,
    pub slope: Single,
    pub curve: Single,
}

/// `residual` is what the base curve leaves of a sample.
pub open spec fn is_residual<A: Arithmetic>(
    sample: FitSample,
    base: BaseCurve,
    residual: Residual,
) -> bool {
    &&& residual.ln_freq == sample.ln_freq
    &&& exists|x: Single, level: Single| #[trigger]
        differences::<A>(sample.ln_freq, base.center_ln, x) && #[trigger] is_quadratic::<A>(
            base.intercept,
            base.slope,
            base.curve,
            x,
            level,
        ) && differences::<A>(sample.target_db, level, residual.offset_db)
}

fn residual<A: Arithmetic>(sample: FitSample, base: BaseCurve) -> (residual: Residual)
    ensures
        is_residual::<A>(sample, base, residual),
{
    let x = A::difference(sample.ln_freq, base.center_ln);
    let level = quadratic::<A>(base.intercept, base.slope, base.curve, x);
    Residual { ln_freq: sample.ln_freq, offset_db: A::difference(sample.target_db, level) }
}

/// `residuals` are what the base curve leaves of the samples.
pub open spec fn are_residuals<A: Arithmetic>(
    samples: Seq<FitSample>,
    base: BaseCurve,
    residuals: Seq<Residual>,
) -> bool {
    &&& residuals.len() == samples.len()
    &&& forall|i: int|
        0 <= i < residuals.len() ==> is_residual::<A>(samples[i], base, #[trigger] residuals[i])
}

/// The size of the largest of the first `count` residuals.
pub open spec fn largest_residual(residuals: Seq<Residual>, count: nat) -> Single
    decreases count,
{
    if count == 0 {
        single(ZERO)
    } else {
        largest_residual(residuals, (count - 1) as nat).larger(
            residuals[count - 1].offset_db.absolute(),
        )
    }
}

/// `distances` are those of a residual to the ones that were selected earlier.
pub open spec fn are_distances<A: Arithmetic>(
    ln_freq: Single,
    selected: Seq<Residual>,
    distances: Seq<Single>,
) -> bool {
    &&& distances.len() == selected.len()
    &&& forall|i: int|
        0 <= i < distances.len() ==> differences::<A>(
            ln_freq,
            selected[i].ln_freq,
            #[trigger] distances[i],
        )
}

/// No distance is smaller than the one that nodes keep.
pub open spec fn are_far(distances: Seq<Single>) -> bool {
    forall|i: int|
        0 <= i < distances.len() ==> single(MIN_NODE_DISTANCE_LN).at_most(
            (#[trigger] distances[i]).absolute(),
        )
}

/// `free` tells whether a residual is far enough from the ones that were selected earlier.
pub open spec fn is_free<A: Arithmetic>(
    residual: Residual,
    selected: Seq<Residual>,
    free: bool,
) -> bool {
    exists|distances: Seq<Single>| #[trigger]
        are_distances::<A>(residual.ln_freq, selected, distances) && free == are_far(distances)
}

fn is_far_from_all<A: Arithmetic>(residual: Residual, selected: &[Residual]) -> (free: bool)
    ensures
        is_free::<A>(residual, selected@, free),
{
    let mut free = true;
    let ghost mut distances: Seq<Single> = Seq::empty();
    let mut index: usize = 0;
    while index < selected.len()
        invariant
            index <= selected@.len(),
            distances.len() == index,
            forall|i: int|
                0 <= i < index ==> differences::<A>(
                    residual.ln_freq,
                    selected@[i].ln_freq,
                    #[trigger] distances[i],
                ),
            free == are_far(distances),
        decreases selected.len() - index,
    {
        let distance = A::difference(residual.ln_freq, selected[index].ln_freq);
        let ghost earlier = distances;
        proof {
            distances = distances.push(distance);
            assert(forall|i: int| 0 <= i < index ==> distances[i] == earlier[i]);
            assert(distances[index as int] == distance);
        }
        if !single(MIN_NODE_DISTANCE_LN).at_most(distance.absolute()) {
            free = false;
        } else {
            assert(are_far(distances) == are_far(earlier)) by {
                if are_far(distances) {
                    assert forall|i: int| 0 <= i < earlier.len() implies single(
                        MIN_NODE_DISTANCE_LN,
                    ).at_most((#[trigger] earlier[i]).absolute()) by {
                        assert(distances[i] == earlier[i]);
                    }
                }
            }
        }
        index += 1;
    }
    assert(are_distances::<A>(residual.ln_freq, selected@, distances));
    free
}

/// `free` tells of each residual whether it is far enough from the ones that were selected earlier.
pub open spec fn are_free<A: Arithmetic>(
    residuals: Seq<Residual>,
    selected: Seq<Residual>,
    free: Seq<bool>,
) -> bool {
    &&& free.len() == residuals.len()
    &&& forall|i: int|
        0 <= i < free.len() ==> is_free::<A>(residuals[i], selected, #[trigger] free[i])
}

/// `r` is the largest of the free residuals, the last of them where several are equally large.
pub open spec fn is_strongest_of(
    residuals: Seq<Residual>,
    free: Seq<bool>,
    r: Option<Residual>,
) -> bool {
    match r {
        None => forall|i: int| 0 <= i < free.len() ==> !(#[trigger] free[i]),
        Some(residual) => exists|i: int|
            {
                &&& 0 <= i < free.len()
                &&& #[trigger] free[i]
                &&& residuals[i] == residual
                &&& is_at_least_all(residuals, free, i)
            },
    }
}

/// No free residual is larger than the one at `i`, and none after it is as large.
pub open spec fn is_at_least_all(residuals: Seq<Residual>, free: Seq<bool>, i: int) -> bool {
    forall|j: int|
        0 <= j < free.len() && #[trigger] free[j] ==> {
            let other = residuals[j].offset_db.absolute().total_order();
            let this = residuals[i].offset_db.absolute().total_order();
            other < this || (other == this && j <= i)
        }
}

/// `r` is the largest residual that is far enough from the ones that were selected earlier.
pub open spec fn is_strongest<A: Arithmetic>(
    residuals: Seq<Residual>,
    selected: Seq<Residual>,
    r: Option<Residual>,
) -> bool {
    exists|free: Seq<bool>| #[trigger]
        are_free::<A>(residuals, selected, free) && is_strongest_of(residuals, free, r)
}

/// Finds the largest residual that is far enough from the ones that were selected earlier.
pub fn strongest_residual<A: Arithmetic>(residuals: &[Residual], selected: &[Residual]) -> (r:
    Option<Residual>)
    ensures
        is_strongest::<A>(residuals@, selected@, r),
{
    let mut best: Option<usize> = None;
    let ghost mut free: Seq<bool> = Seq::empty();
    let mut index: usize = 0;
    while index < residuals.len()
        invariant
            index <= residuals@.len(),
            free.len() == index,
            forall|i: int|
                0 <= i < index ==> is_free::<A>(residuals@[i], selected@, #[trigger] free[i]),
            match best {
                None => forall|i: int| 0 <= i < index ==> !(#[trigger] free[i]),
                Some(i) => i < index && free[i as int] && is_at_least_all(
                    residuals@,
                    free,
                    i as int,
                ),
            },
        decreases residuals.len() - index,
    {
        let is_candidate = is_far_from_all::<A>(residuals[index], selected);
        proof {
            let earlier = free;
            free = free.push(is_candidate);
            assert(forall|i: int| 0 <= i < index ==> free[i] == earlier[i]);
            assert(free[index as int] == is_candidate);
        }
        if is_candidate {
            let replaces = match best {
                None => true,
                Some(i) => residuals[i].offset_db.absolute().total_order()
                    <= residuals[index].offset_db.absolute().total_order(),
            };
            if replaces {
                best = Some(index);
            }
        }
        index += 1;
    }
    assert(are_free::<A>(residuals@, selected@, free));
    match best {
        None => None,
        Some(i) => {
            assert(free[i as int]);
            Some(residuals[i])
        },
    }
}

/// `point` is the node that stands for a residual.
pub open spec fn is_node_point<A: Arithmetic>(residual: Residual, point: CurvePoint) -> bool {
    &&& point.enabled
    &&& exists|frequency: Single| #[trigger]
        exponentials::<A>(residual.ln_freq, frequency) && point.frequency == frequency.clamped(
            single(THRESHOLD_CURVE_MIN_FREQUENCY_HZ),
            single(THRESHOLD_CURVE_MAX_FREQUENCY_HZ),
        )
    &&& point.offset_db == residual.offset_db.clamped(
        single(THRESHOLD_CURVE_POINT_OFFSET_LIMIT_DB).negated(),
        single(THRESHOLD_CURVE_POINT_OFFSET_LIMIT_DB),
    )
}

fn node_point<A: Arithmetic>(residual: Residual) -> (point: CurvePoint)
    ensures
        is_node_point::<A>(residual, point),
{
    let frequency = A::exponential(residual.ln_freq);
    CurvePoint {
        enabled: true,
        frequency: frequency.clamped(
            single(THRESHOLD_CURVE_MIN_FREQUENCY_HZ),
            single(THRESHOLD_CURVE_MAX_FREQUENCY_HZ),
        ),
        offset_db: residual.offset_db.clamped(
            single(THRESHOLD_CURVE_POINT_OFFSET_LIMIT_DB).negated(),
            single(THRESHOLD_CURVE_POINT_OFFSET_LIMIT_DB),
        ),
    }
}

/// Whether a residual is large enough to get a node.
#[verifier::allow_in_spec]
pub fn deserves_node(residual: Option<Residual>) -> bool
    returns
        (match residual {
            Some(residual) => !residual.offset_db.absolute().at_most(single(MAX_NODE_RESIDUAL_DB)),
            None => false,
        }),
{
    match residual {
        Some(residual) => !residual.offset_db.absolute().at_most(single(MAX_NODE_RESIDUAL_DB)),
        None => false,
    }
}

/// Each of `selected` is the strongest residual after the ones before it, and large enough to get a
/// node.
pub open spec fn are_selected<A: Arithmetic>(
    residuals: Seq<Residual>,
    selected: Seq<Residual>,
) -> bool {
    forall|i: int|
        0 <= i < selected.len() ==> deserves_node(Some(#[trigger] selected[i]))
            && is_strongest::<A>(residuals, selected.take(i), Some(selected[i]))
}

/// The first slots of `points` hold the nodes for `selected`, the others are not in use.
pub open spec fn are_node_points<A: Arithmetic>(
    selected: Seq<Residual>,
    points: Seq<CurvePoint>,
) -> bool {
    &&& selected.len() <= points.len()
    &&& forall|i: int|
        0 <= i < selected.len() ==> is_node_point::<A>(selected[i], #[trigger] points[i])
    &&& forall|i: int| selected.len() <= i < points.len() ==> #[trigger] points[i] == no_point()
}

/// Selecting stops where all slots are in use, or where the next residual deserves no node.
pub open spec fn is_selection_done<A: Arithmetic>(
    residuals: Seq<Residual>,
    selected: Seq<Residual>,
) -> bool {
    selected.len() == MAX_THRESHOLD_CURVE_POINTS || exists|next: Option<Residual>| #[trigger]
        is_strongest::<A>(residuals, selected, next) && !deserves_node(next)
}

/// `points` are the nodes that bring the curve closer to the residuals. There are none where the
/// base curve is close enough.
pub open spec fn are_fitted_points<A: Arithmetic>(
    residuals: Seq<Residual>,
    points: Seq<CurvePoint>,
) -> bool {
    if largest_residual(residuals, residuals.len()).at_most(single(MAX_FIT_RESIDUAL_DB)) {
        forall|i: int| 0 <= i < points.len() ==> #[trigger] points[i] == no_point()
    } else {
        exists|selected: Seq<Residual>| #[trigger]
            are_selected::<A>(residuals, selected) && are_node_points::<A>(selected, points)
                && is_selection_done::<A>(residuals, selected)
    }
}

fn largest_size(residuals: &[Residual]) -> (r: Single)
    ensures
        r == largest_residual(residuals@, residuals@.len()),
{
    let mut largest = single(ZERO);
    let mut index: usize = 0;
    while index < residuals.len()
        invariant
            index <= residuals@.len(),
            largest == largest_residual(residuals@, index as nat),
        decreases residuals.len() - index,
    {
        largest = largest.larger(residuals[index].offset_db.absolute());
        index += 1;
    }
    largest
}

/// Places nodes at the largest residuals of a base curve.
pub fn fit_residual_points<A: Arithmetic>(samples: &[FitSample], base: BaseCurve) -> (points: [
    CurvePoint;
    MAX_THRESHOLD_CURVE_POINTS
])
    ensures
        exists|residuals: Seq<Residual>| #[trigger]
            are_residuals::<A>(samples@, base, residuals) && are_fitted_points::<A>(
                residuals,
                points@,
            ),
{
    let mut points = no_points();
    let mut residuals: Vec<Residual> = Vec::new();
    let mut index: usize = 0;
    while index < samples.len()
        invariant
            index <= samples@.len(),
            residuals@.len() == index,
            forall|i: int|
                0 <= i < index ==> is_residual::<A>(samples@[i], base, #[trigger] residuals@[i]),
        decreases samples.len() - index,
    {
        residuals.push(residual::<A>(samples[index], base));
        index += 1;
    }
    assert(are_residuals::<A>(samples@, base, residuals@));
    if largest_size(residuals.as_slice()).at_most(single(MAX_FIT_RESIDUAL_DB)) {
        return points;
    }
    let mut selected: Vec<Residual> = Vec::new();
    let mut slot: usize = 0;
    while slot < MAX_THRESHOLD_CURVE_POINTS
        invariant
            slot <= MAX_THRESHOLD_CURVE_POINTS,
            selected@.len() == slot,
            !largest_residual(residuals@, residuals@.len()).at_most(single(MAX_FIT_RESIDUAL_DB)),
            are_residuals::<A>(samples@, base, residuals@),
            are_selected::<A>(residuals@, selected@),
            are_node_points::<A>(selected@, points@),
        decreases MAX_THRESHOLD_CURVE_POINTS - slot,
    {
        let next = strongest_residual::<A>(residuals.as_slice(), selected.as_slice());
        if !deserves_node(next) {
            assert(is_selection_done::<A>(residuals@, selected@));
            return points;
        }
        if let Some(residual) = next {
            let ghost earlier = selected@;
            let ghost earlier_points = points@;
            selected.push(residual);
            points[slot] = node_point::<A>(residual);
            proof {
                assert forall|i: int| 0 <= i < selected@.len() implies deserves_node(
                    Some(#[trigger] selected@[i]),
                ) && is_strongest::<A>(residuals@, selected@.take(i), Some(selected@[i])) by {
                    if i < slot {
                        assert(selected@[i] == earlier[i]);
                        assert(selected@.take(i) =~= earlier.take(i));
                    } else {
                        assert(selected@.take(i) =~= earlier);
                    }
                }
                assert forall|i: int| 0 <= i < slot implies is_node_point::<A>(
                    selected@[i],
                    #[trigger] points@[i],
                ) by {
                    assert(points@[i] == earlier_points[i]);
                }
                assert forall|i: int|
                    selected@.len() <= i < points@.len() implies #[trigger] points@[i]
                    == no_point() by {
                    assert(points@[i] == earlier_points[i]);
                }
            }
        }
        slot += 1;
    }
    assert(is_selection_done::<A>(residuals@, selected@));
    points
}

/// `r` is the curve with the given center and slope that fits the measured averages.
pub open spec fn is_constrained_fit<A: Arithmetic>(
    samples: Seq<FitSample>,
    fixed_center_frequency: Single,
    fixed_slope: Single,
    r: Option<MatchCurveFit>,
) -> bool {
    is_fit_around::<A>(
        samples,
        fixed_center_frequency.clamped(
            single(THRESHOLD_CURVE_MIN_FREQUENCY_HZ),
            single(THRESHOLD_CURVE_MAX_FREQUENCY_HZ),
        ),
        fixed_slope,
        r,
    )
}

/// [`is_constrained_fit()`] for a center frequency within its range.
pub open spec fn is_fit_around<A: Arithmetic>(
    samples: Seq<FitSample>,
    center_frequency: Single,
    fixed_slope: Single,
    r: Option<MatchCurveFit>,
) -> bool {
    exists|center_ln: Single, sums: PowerSums, solution: Option<(Single, Single)>| #[trigger]
        natural_logs::<A>(center_frequency, center_ln) && #[trigger] are_power_sums::<A>(
            samples,
            center_ln,
            fixed_slope,
            samples.len(),
            sums,
        ) && #[trigger] is_solution::<A>(sums, solution) && match (solution, r) {
            (None, None) => true,
            (Some(found), Some(fit)) => {
                &&& fit.intercept == found.0
                &&& fit.center_frequency == center_frequency
                &&& fit.slope == fixed_slope
                &&& fit.curve == found.1
                &&& are_points_for::<A>(
                    samples,
                    BaseCurve {
                        center_ln,
                        intercept: found.0,
                        slope: fixed_slope,
                        curve: found.1,
                    },
                    fit.points@,
                )
            },
            _ => false,
        }
}

/// `points` are the nodes for the samples around a base curve.
pub open spec fn are_points_for<A: Arithmetic>(
    samples: Seq<FitSample>,
    base: BaseCurve,
    points: Seq<CurvePoint>,
) -> bool {
    exists|residuals: Seq<Residual>| #[trigger]
        are_residuals::<A>(samples, base, residuals) && are_fitted_points::<A>(residuals, points)
}

/// `r` is what matching gives: nothing where nothing was measured, where fewer than three samples
/// are usable or where no curve fits.
pub open spec fn is_matched_curve<A: Arithmetic>(
    ln_freqs: Seq<Single>,
    magnitude_sums: Seq<Double>,
    spectrum_count: u64,
    downwards_offset_db: Single,
    fixed_center_frequency: Single,
    fixed_slope: Single,
    r: Option<MatchCurveFit>,
) -> bool {
    if spectrum_count == 0 {
        r is None
    } else {
        exists|samples: Seq<FitSample>| #[trigger]
            are_fit_samples::<A>(
                ln_freqs,
                magnitude_sums,
                spectrum_count,
                downwards_offset_db,
                samples,
            ) && if samples.len() < 3 {
                r is None
            } else {
                is_constrained_fit::<A>(samples, fixed_center_frequency, fixed_slope, r)
            }
    }
}

fn fit_around<A: Arithmetic>(
    samples: &[FitSample],
    center_frequency: Single,
    fixed_slope: Single,
) -> (r: Option<MatchCurveFit>)
    ensures
        is_fit_around::<A>(samples@, center_frequency, fixed_slope, r),
{
    let center_ln = A::natural_log(center_frequency);
    let solution = fit_quadratic_fixed_center_slope::<A>(samples, center_ln, fixed_slope);
    match solution {
        None => None,
        Some((intercept, curve)) => {
            let base = BaseCurve { center_ln, intercept, slope: fixed_slope, curve };
            let points = fit_residual_points::<A>(samples, base);
            assert(are_points_for::<A>(samples@, base, points@));
            Some(MatchCurveFit { intercept, center_frequency, slope: fixed_slope, curve, points })
        },
    }
}

/// Fits a curve with the given center and slope to the averages of the measured magnitudes.
pub fn fit_average_curve_constrained<A: Arithmetic>(
    ln_freqs: &[Single],
    magnitude_sums: &[Double],
    spectrum_count: u64,
    downwards_offset_db: Single,
    fixed_center_frequency: Single,
    fixed_slope: Single,
) -> (r: Option<MatchCurveFit>)
    ensures
        is_matched_curve::<A>(
            ln_freqs@,
            magnitude_sums@,
            spectrum_count,
            downwards_offset_db,
            fixed_center_frequency,
            fixed_slope,
            r,
        ),
{
    match collect_fit_samples::<A>(ln_freqs, magnitude_sums, spectrum_count, downwards_offset_db) {
        None => None,
        Some(samples) => fit_around::<A>(
            samples.as_slice(),
            fixed_center_frequency.clamped(
                single(THRESHOLD_CURVE_MIN_FREQUENCY_HZ),
                single(THRESHOLD_CURVE_MAX_FREQUENCY_HZ),
            ),
            fixed_slope,
        ),
    }
}

/// Averages magnitude spectra across a fixed-time measurement window. Lives on the audio thread.
pub struct MatchCurveMeter {
    pub magnitude_sums: Vec<Double>,
    pub spectrum_count: u64,
    pub measured_frames: u64,
    pub target_frames: u64,
}

/// `after` is `before` with a magnitude added, if it is a positive number.
pub open spec fn is_magnitude_added<A: Arithmetic>(
    before: Double,
    magnitude: Single,
    after: Double,
) -> bool {
    if magnitude.is_finite() && single(ZERO).below(magnitude) {
        exists|wide: Double| #[trigger]
            widenings::<A>(magnitude, wide) && wide_sums::<A>(before, wide, after)
    } else {
        after == before
    }
}

/// `after` are the sums with one spectrum added. A spectrum that is shorter leaves the last sums
/// as they are.
pub open spec fn is_spectrum_added<A: Arithmetic>(
    before: Seq<Double>,
    magnitudes: Seq<Single>,
    after: Seq<Double>,
) -> bool {
    &&& after.len() == before.len()
    &&& forall|i: int|
        0 <= i < after.len() ==> if i < magnitudes.len() {
            is_magnitude_added::<A>(before[i], magnitudes[i], #[trigger] after[i])
        } else {
            after[i] == before[i]
        }
}

impl MatchCurveMeter {
    pub fn new(max_num_bins: usize) -> (meter: MatchCurveMeter)
        ensures
            meter.magnitude_sums@ == Seq::new(max_num_bins as nat, |i: int| double(WIDE_ZERO)),
            meter.spectrum_count == 0,
            meter.measured_frames == 0,
            meter.target_frames == 0,
    {
        let mut magnitude_sums: Vec<Double> = Vec::new();
        magnitude_sums.resize(max_num_bins, double(WIDE_ZERO));
        assert(magnitude_sums@ =~= Seq::new(max_num_bins as nat, |i: int| double(WIDE_ZERO)));
        MatchCurveMeter {
            magnitude_sums,
            spectrum_count: 0,
            measured_frames: 0,
            target_frames: 0,
        }
    }

    /// `after` has the sums of the first bins. New bins start at zero.
    pub open spec fn is_resized(self, num_bins: nat, after: MatchCurveMeter) -> bool {
        &&& after == (MatchCurveMeter { magnitude_sums: after.magnitude_sums, ..self })
        &&& after.magnitude_sums@ == Seq::new(
            num_bins,
            |i: int|
                if i < self.magnitude_sums@.len() {
                    self.magnitude_sums@[i]
                } else {
                    double(WIDE_ZERO)
                },
        )
    }

    /// Keeps the sums of the first bins. New bins start at zero.
    pub fn resize(&mut self, num_bins: usize)
        ensures
            old(self).is_resized(num_bins as nat, *final(self)),
    {
        self.magnitude_sums.resize(num_bins, double(WIDE_ZERO));
        assert(self.magnitude_sums@ =~= Seq::new(
            num_bins as nat,
            |i: int|
                if i < old(self).magnitude_sums@.len() {
                    old(self).magnitude_sums@[i]
                } else {
                    double(WIDE_ZERO)
                },
        ));
    }

    /// Starts a new measurement window sized to [`MATCH_CURVE_DURATION_SECONDS`] at `sample_rate`.
    pub fn start<A: Arithmetic>(&mut self, sample_rate: Single)
        ensures
            final(self).magnitude_sums@ == Seq::new(
                old(self).magnitude_sums@.len(),
                |i: int| double(WIDE_ZERO),
            ),
            final(self).spectrum_count == 0,
            final(self).measured_frames == 0,
            is_frame_count::<A>(
                sample_rate,
                single(MATCH_CURVE_DURATION_SECONDS),
                final(self).target_frames,
            ),
    {
        let mut index: usize = 0;
        while index < self.magnitude_sums.len()
            invariant
                index <= self.magnitude_sums@.len(),
                self.magnitude_sums@.len() == old(self).magnitude_sums@.len(),
                forall|i: int| 0 <= i < index ==> self.magnitude_sums@[i] == double(WIDE_ZERO),
            decreases self.magnitude_sums.len() - index,
        {
            self.magnitude_sums[index] = double(WIDE_ZERO);
            index += 1;
        }
        assert(self.magnitude_sums@ =~= Seq::new(
            old(self).magnitude_sums@.len(),
            |i: int| double(WIDE_ZERO),
        ));
        self.spectrum_count = 0;
        self.measured_frames = 0;
        self.target_frames = frame_count::<A>(sample_rate, single(MATCH_CURVE_DURATION_SECONDS));
    }

    #[verifier::allow_in_spec]
    pub fn is_active(&self) -> bool
        returns
            self.target_frames > 0 && self.measured_frames < self.target_frames,
    {
        self.target_frames > 0 && self.measured_frames < self.target_frames
    }

    /// Adds a spectrum to the average.
    pub fn measure_magnitudes<A: Arithmetic>(&mut self, magnitudes: &[Single])
        requires
            old(self).is_active() ==> old(self).spectrum_count < u64::MAX,
        ensures
            !old(self).is_active() ==> *final(self) == *old(self),
            old(self).is_active() ==> {
                &&& *final(self) == (MatchCurveMeter {
                    magnitude_sums: final(self).magnitude_sums,
                    spectrum_count: (old(self).spectrum_count + 1) as u64,
                    ..*old(self)
                })
                &&& is_spectrum_added::<A>(
                    old(self).magnitude_sums@,
                    magnitudes@,
                    final(self).magnitude_sums@,
                )
            },
    {
        if !self.is_active() {
            return ;
        }
        let mut index: usize = 0;
        while index < self.magnitude_sums.len() && index < magnitudes.len()
            invariant
                index <= self.magnitude_sums@.len(),
                index <= magnitudes@.len(),
                *self == (MatchCurveMeter { magnitude_sums: self.magnitude_sums, ..*old(self) }),
                self.magnitude_sums@.len() == old(self).magnitude_sums@.len(),
                forall|i: int|
                    0 <= i < index ==> is_magnitude_added::<A>(
                        old(self).magnitude_sums@[i],
                        magnitudes@[i],
                        #[trigger] self.magnitude_sums@[i],
                    ),
                forall|i: int|
                    index <= i < self.magnitude_sums@.len() ==> self.magnitude_sums@[i] == old(
                        self,
                    ).magnitude_sums@[i],
            decreases self.magnitude_sums.len() - index,
        {
            let magnitude = magnitudes[index];
            if magnitude.is_finite() && single(ZERO).below(magnitude) {
                let wide = A::widened(magnitude);
                let sum = A::wide_sum(self.magnitude_sums[index], wide);
                self.magnitude_sums[index] = sum;
            }
            index += 1;
        }
        self.spectrum_count = self.spectrum_count + 1;
    }

    /// Advances the measurement and, once its time is over, returns the fitted curve (or
    /// `Some(None)` if no curve could be fitted).
    pub fn advance_and_finish<A: Arithmetic>(
        &mut self,
        frames: usize,
        ln_freqs: &[Single],
        downwards_offset_db: Single,
        fixed_center_frequency: Single,
        fixed_slope: Single,
    ) -> (result: Option<Option<MatchCurveFit>>)
        ensures
            final(self).magnitude_sums == old(self).magnitude_sums,
            final(self).spectrum_count == old(self).spectrum_count,
            frames == 0 || !old(self).is_active() ==> *final(self) == *old(self) && result is None,
            frames != 0 && old(self).is_active() ==> {
                &&& final(self).measured_frames == vstd::math::min(
                    old(self).measured_frames + frames,
                    old(self).target_frames as int,
                )
                &&& if final(self).measured_frames < old(self).target_frames {
                    &&& final(self).target_frames == old(self).target_frames
                    &&& result is None
                } else {
                    &&& final(self).target_frames == 0
                    &&& result matches Some(fit) && is_matched_curve::<A>(
                        ln_freqs@,
                        old(self).magnitude_sums@,
                        old(self).spectrum_count,
                        downwards_offset_db,
                        fixed_center_frequency,
                        fixed_slope,
                        fit,
                    )
                }
            },
    {
        if frames == 0 || !self.is_active() {
            return None;
        }
        let remaining: u64 = self.target_frames - self.measured_frames;
        self.measured_frames = if (frames as u64) < remaining {
            self.measured_frames + frames as u64
        } else {
            self.target_frames
        };
        if self.measured_frames < self.target_frames {
            return None;
        }
        self.target_frames = 0;
        Some(
            fit_average_curve_constrained::<A>(
                ln_freqs,
                self.magnitude_sums.as_slice(),
                self.spectrum_count,
                downwards_offset_db,
                fixed_center_frequency,
                fixed_slope,
            ),
        )
    }
}

/// A fit keeps the slope that it was given, and its center frequency is the given one moved into
/// the range that curve points may have.
pub proof fn law_constrained_fit_keeps_center_and_slope<A: Arithmetic>(
    ln_freqs: Seq<Single>,
    magnitude_sums: Seq<Double>,
    spectrum_count: u64,
    downwards_offset_db: Single,
    fixed_center_frequency: Single,
    fixed_slope: Single,
    fit: MatchCurveFit,
)
    requires
        is_matched_curve::<A>(
            ln_freqs,
            magnitude_sums,
            spectrum_count,
            downwards_offset_db,
            fixed_center_frequency,
            fixed_slope,
            Some(fit),
        ),
    ensures
        fit.slope == fixed_slope,
        fit.center_frequency == fixed_center_frequency.clamped(
            single(THRESHOLD_CURVE_MIN_FREQUENCY_HZ),
            single(THRESHOLD_CURVE_MAX_FREQUENCY_HZ),
        ),
{
}

/// The nodes of a fit are in the first slots: after a slot that is not in use, none is.
pub proof fn law_unused_slots_come_last<A: Arithmetic>(
    residuals: Seq<Residual>,
    points: Seq<CurvePoint>,
    unused: int,
    later: int,
)
    requires
        are_fitted_points::<A>(residuals, points),
        0 <= unused < later < points.len(),
        !points[unused].enabled,
    ensures
        points[later] == no_point(),
{
    if !largest_residual(residuals, residuals.len()).at_most(single(MAX_FIT_RESIDUAL_DB)) {
        let selected = choose|selected: Seq<Residual>| #[trigger]
            are_selected::<A>(residuals, selected) && are_node_points::<A>(selected, points)
                && is_selection_done::<A>(residuals, selected);
        if unused < selected.len() {
            assert(is_node_point::<A>(selected[unused], points[unused]));
        }
    }
}

/// What the cells of a curve match hold while no thread accesses them.
pub struct HeldCurveMatch {
    pub state: MatchState,
    pub fit: MatchCurveFit,
}

impl HeldCurveMatch {
    /// What the cells hold after a request.
    pub open spec fn requested(self) -> HeldCurveMatch {
        HeldCurveMatch { state: MatchState::Requested, ..self }
    }

    /// Whether the match can be begun, and what the cells hold then.
    pub open spec fn begun(self) -> (bool, HeldCurveMatch) {
        (self.state.begun_alone().0, HeldCurveMatch { state: self.state.begun_alone().1, ..self })
    }

    /// What the cells hold once the given result was published.
    pub open spec fn published(self, result: Option<MatchCurveFit>) -> HeldCurveMatch {
        HeldCurveMatch {
            state: publication(result).1,
            fit: match publication(result).0 {
                Some(fit) => fit,
                None => self.fit,
            },
        }
    }

    /// What can be taken, and what the cells hold then.
    pub open spec fn taken(self) -> (Option<MatchCurveResult>, HeldCurveMatch) {
        (
            match_curve_result(self.state.taken_alone().0, self.fit),
            HeldCurveMatch { state: self.state.taken_alone().1, ..self },
        )
    }
}

impl MatchCurveRuntime {
    /// `taken` is what was taken where the cells held `held` and no other thread accessed them
    /// meanwhile.
    pub open spec fn is_taken_alone(
        self,
        held: HeldCurveMatch,
        taken: Option<MatchCurveResult>,
    ) -> bool {
        exists|outcome: Option<MatchOutcome>| #[trigger]
            self.takes_with(outcome, held.fit, taken)
                && self.state_cell().takes_with(
                held.state.code(),
                exchange_alone(held.state.code(), held.state.code(), MatchState::Idle.code()).0,
                outcome,
            )
    }

    /// `begun` tells whether the match was begun where the cells held `held` and no other thread
    /// accessed them meanwhile.
    pub open spec fn is_begun_alone(self, held: HeldCurveMatch, begun: bool) -> bool {
        self.state_cell().begins_with(
            exchange_alone(
                held.state.code(),
                MatchState::Requested.code(),
                MatchState::Running.code(),
            ).0,
            begun,
        )
    }
}

/// What a request and a publication store is what the cells hold then, and what they do not store
/// stays.
pub proof fn law_curve_stores_are_held(
    runtime: MatchCurveRuntime,
    held: HeldCurveMatch,
    result: Option<MatchCurveFit>,
)
    ensures
        held.requested().state is Requested && held.requested().fit == held.fit,
        runtime.is_published(result) <==> runtime.state_cell().is_set(held.published(result).state)
            && (result is Some ==> runtime.is_stored(held.published(result).fit)),
        result is None ==> held.published(result).fit == held.fit,
{
}

/// What is taken and whether a match is begun, where no other thread accesses the cells, is what
/// can be taken of what they hold and whether it can be begun.
pub proof fn law_curve_accesses_follow_what_is_held(
    runtime: MatchCurveRuntime,
    held: HeldCurveMatch,
    taken: Option<MatchCurveResult>,
    begun: bool,
)
    ensures
        runtime.is_taken_alone(held, taken) ==> taken == held.taken().0 && runtime.is_taken(taken),
        runtime.is_begun_alone(held, begun) ==> begun == held.begun().0
            && runtime.state_cell().is_begun(begun),
{
    if runtime.is_taken_alone(held, taken) {
        let outcome = choose|outcome: Option<MatchOutcome>| #[trigger]
            runtime.takes_with(outcome, held.fit, taken)
                && runtime.state_cell().takes_with(
                held.state.code(),
                exchange_alone(held.state.code(), held.state.code(), MatchState::Idle.code()).0,
                outcome,
            );
        law_outcome_is_taken(runtime.state_cell(), held.state, outcome);
    }
    if runtime.is_begun_alone(held, begun) {
        law_requested_match_is_begun(runtime.state_cell(), held.state, begun);
    }
}

/// What the GUI takes after a result was published is that result, once.
pub proof fn law_published_fit_is_taken_once(
    runtime: MatchCurveRuntime,
    held: HeldCurveMatch,
    result: Option<MatchCurveFit>,
    first: Option<MatchCurveResult>,
    second: Option<MatchCurveResult>,
)
    requires
        runtime.is_taken_alone(held.published(result), first),
        runtime.is_taken_alone(held.published(result).taken().1, second),
    ensures
        first == Some(
            match result {
                Some(fit) => MatchCurveResult::Matched(fit),
                None => MatchCurveResult::Failed,
            },
        ),
        second is None,
{
    let published = held.published(result);
    law_curve_accesses_follow_what_is_held(runtime, published, first, false);
    law_curve_accesses_follow_what_is_held(runtime, published.taken().1, second, false);
}

/// Nothing can be taken of a match that is idle, requested or running, and trying to keeps what is
/// held. A requested match is begun, once.
pub proof fn law_requested_curve_match_begins_once(
    runtime: MatchCurveRuntime,
    held: HeldCurveMatch,
    first: bool,
    second: bool,
)
    requires
        runtime.is_begun_alone(held.requested(), first),
        runtime.is_begun_alone(held.requested().begun().1, second),
    ensures
        first,
        !second,
        held.state is Idle ==> held.taken() == (None::<MatchCurveResult>, held) && !held.begun().0,
        held.requested().taken() == (None::<MatchCurveResult>, held.requested()),
        held.requested().begun().1.taken() == (
            None::<MatchCurveResult>,
            held.requested().begun().1,
        ),
{
    law_curve_accesses_follow_what_is_held(runtime, held.requested(), None, first);
    law_curve_accesses_follow_what_is_held(runtime, held.requested().begun().1, None, second);
}

/// The parameters of the curve that a fit describes.
pub open spec fn fitted_params(fit: MatchCurveFit) -> CurveParams {
    CurveParams {
        intercept: fit.intercept,
        center_frequency: fit.center_frequency,
        slope: fit.slope,
        curve: fit.curve,
        points: fit.points,
    }
}

/// Each node of a fitted curve stands for a sample: it lies at the sample's frequency, and its offset
/// is what the sample's target lies over the base curve there, with its sign, up to 60 dB. `sample`
/// is the index of that sample and `base` the level of the base curve.
pub proof fn law_nodes_make_up_for_the_base_curve<A: Arithmetic>(
    exp: spec_fn(real) -> real,
    ln: spec_fn(real) -> real,
    samples: Seq<FitSample>,
    fixed_center_frequency: Single,
    fixed_slope: Single,
    fit: MatchCurveFit,
    slot: int,
) -> (found: (int, Single))
    requires
        is_exact::<A>(),
        exponentials_follow::<A>(exp),
        logs_follow::<A>(ln),
        fixed_center_frequency.is_finite() && fixed_slope.is_finite(),
        fit.intercept.is_finite() && fit.curve.is_finite(),
        forall|k: int|
            0 <= k < samples.len() ==> (#[trigger] samples[k]).ln_freq.is_finite()
                && samples[k].target_db.is_finite(),
        is_constrained_fit::<A>(samples, fixed_center_frequency, fixed_slope, Some(fit)),
        0 <= slot < MAX_THRESHOLD_CURVE_POINTS,
        fit.points@[slot].enabled,
    ensures
        ({
            let (k, base) = found;
            let point = fit.points@[slot];
            let missing = samples[k].target_db.value() - base.value();
            &&& 0 <= k < samples.len()
            &&& base.is_finite()
            &&& exists|ln_center: Single| #[trigger]
                natural_logs::<A>(fit.center_frequency, ln_center) && is_base_level::<A>(
                    fitted_params(fit),
                    ln_center,
                    samples[k].ln_freq,
                    base,
                )
            &&& point.frequency.is_finite() && point.offset_db.is_finite()
            &&& 30real <= exp(samples[k].ln_freq.value()) <= 22000real ==> point.frequency.value()
                == exp(samples[k].ln_freq.value())
            &&& point.offset_db.value() == (if missing < -60real {
                -60real
            } else if missing > 60real {
                60real
            } else {
                missing
            })
        }),
{
    lemma_range_of_points();
    let center_frequency = fixed_center_frequency.clamped(
        single(THRESHOLD_CURVE_MIN_FREQUENCY_HZ),
        single(THRESHOLD_CURVE_MAX_FREQUENCY_HZ),
    );
    lemma_selections(
        fixed_center_frequency,
        single(THRESHOLD_CURVE_MIN_FREQUENCY_HZ),
        single(THRESHOLD_CURVE_MAX_FREQUENCY_HZ),
    );
    let (center_ln, sums, solution) = choose|
        center_ln: Single,
        sums: PowerSums,
        solution: Option<(Single, Single)>,
    | #[trigger]
        natural_logs::<A>(center_frequency, center_ln) && #[trigger] are_power_sums::<A>(
            samples,
            center_ln,
            fixed_slope,
            samples.len(),
            sums,
        ) && #[trigger] is_solution::<A>(sums, solution) && match solution {
            None => false,
            Some(found) => {
                &&& fit.intercept == found.0
                &&& fit.center_frequency == center_frequency
                &&& fit.slope == fixed_slope
                &&& fit.curve == found.1
                &&& are_points_for::<A>(
                    samples,
                    BaseCurve {
                        center_ln,
                        intercept: found.0,
                        slope: fixed_slope,
                        curve: found.1,
                    },
                    fit.points@,
                )
            },
        };
    let curve = BaseCurve {
        center_ln,
        intercept: fit.intercept,
        slope: fit.slope,
        curve: fit.curve,
    };
    let residuals = choose|residuals: Seq<Residual>| #[trigger]
        are_residuals::<A>(samples, curve, residuals) && are_fitted_points::<A>(
            residuals,
            fit.points@,
        );
    assert(fit.points@[slot] != no_point());
    let selected = choose|selected: Seq<Residual>| #[trigger]
        are_selected::<A>(residuals, selected) && are_node_points::<A>(selected, fit.points@)
            && is_selection_done::<A>(residuals, selected);
    assert(slot < selected.len());
    let residual = selected[slot];
    let point = fit.points@[slot];
    assert(is_node_point::<A>(residual, point));
    assert(is_strongest::<A>(residuals, selected.take(slot), Some(residual)));
    let free = choose|free: Seq<bool>| #[trigger]
        are_free::<A>(residuals, selected.take(slot), free) && is_strongest_of(
            residuals,
            free,
            Some(residual),
        );
    let k = choose|i: int|
        {
            &&& 0 <= i < free.len()
            &&& #[trigger] free[i]
            &&& residuals[i] == residual
            &&& is_at_least_all(residuals, free, i)
        };
    assert(is_residual::<A>(samples[k], curve, residuals[k]));
    let (x, level) = choose|x: Single, level: Single| #[trigger]
        differences::<A>(samples[k].ln_freq, center_ln, x) && #[trigger] is_quadratic::<A>(
            fit.intercept,
            fit.slope,
            fit.curve,
            x,
            level,
        ) && differences::<A>(samples[k].target_db, level, residual.offset_db);
    lemma_quadratic_value::<A>(fit.intercept, fit.slope, fit.curve, x, level);
    assert(is_base_level::<A>(fitted_params(fit), center_ln, samples[k].ln_freq, level));
    lemma_selections(
        residual.offset_db,
        single(THRESHOLD_CURVE_POINT_OFFSET_LIMIT_DB).negated(),
        single(THRESHOLD_CURVE_POINT_OFFSET_LIMIT_DB),
    );
    let frequency = choose|frequency: Single| #[trigger]
        exponentials::<A>(residual.ln_freq, frequency) && point.frequency == frequency.clamped(
            single(THRESHOLD_CURVE_MIN_FREQUENCY_HZ),
            single(THRESHOLD_CURVE_MAX_FREQUENCY_HZ),
        );
    lemma_selections(
        frequency,
        single(THRESHOLD_CURVE_MIN_FREQUENCY_HZ),
        single(THRESHOLD_CURVE_MAX_FREQUENCY_HZ),
    );
    (k, level)
}

/// The fitted curve, its base and its nodes together, meets the target of each sample that got a
/// node, where the base curve misses it by at most 60 dB and no other node lies at its frequency.
pub proof fn law_fitted_curve_meets_its_targets<A: Arithmetic>(
    exp: spec_fn(real) -> real,
    ln: spec_fn(real) -> real,
    samples: Seq<FitSample>,
    fixed_center_frequency: Single,
    fixed_slope: Single,
    fit: MatchCurveFit,
    slot: int,
    ln_center: Single,
) -> (k: int)
    requires
        is_exact::<A>(),
        exponentials_follow::<A>(exp),
        logs_follow::<A>(ln),
        forall|x: real| ln(#[trigger] exp(x)) == x,
        fixed_center_frequency.is_finite() && fixed_slope.is_finite(),
        fit.intercept.is_finite() && fit.curve.is_finite(),
        forall|k: int|
            0 <= k < samples.len() ==> (#[trigger] samples[k]).ln_freq.is_finite()
                && samples[k].target_db.is_finite() && 30real <= exp(samples[k].ln_freq.value())
                <= 22000real,
        is_constrained_fit::<A>(samples, fixed_center_frequency, fixed_slope, Some(fit)),
        0 <= slot < MAX_THRESHOLD_CURVE_POINTS,
        fit.points@[slot].enabled,
        forall|j: int|
            0 <= j < MAX_THRESHOLD_CURVE_POINTS && j != slot && (
            #[trigger] fit.points@[j]).is_usable() ==> ln(fit.points@[j].clamped_frequency().value())
                != ln(fit.points@[slot].clamped_frequency().value()),
        natural_logs::<A>(fit.center_frequency, ln_center),
    ensures
        0 <= k < samples.len(),
        forall|base: Single, level: Single|
            #![trigger is_base_level::<A>(fitted_params(fit), ln_center, samples[k].ln_freq, base), (Curve { params: &fitted_params(fit), ln_center_frequency: ln_center }).is_level::<A>(samples[k].ln_freq, level)]
            is_base_level::<A>(fitted_params(fit), ln_center, samples[k].ln_freq, base) && -60real
                <= samples[k].target_db.value() - base.value() <= 60real && (Curve {
                params: &fitted_params(fit),
                ln_center_frequency: ln_center,
            }).is_level::<A>(samples[k].ln_freq, level) ==> level.value()
                == samples[k].target_db.value(),
{
    let (k, base) = law_nodes_make_up_for_the_base_curve::<A>(
        exp,
        ln,
        samples,
        fixed_center_frequency,
        fixed_slope,
        fit,
        slot,
    );
    let params = fitted_params(fit);
    let curve = Curve { params: &params, ln_center_frequency: ln_center };
    let own_center = choose|own: Single| #[trigger]
        natural_logs::<A>(fit.center_frequency, own) && is_base_level::<A>(
            params,
            own,
            samples[k].ln_freq,
            base,
        );
    lemma_center_of_fit::<A>(samples, fixed_center_frequency, fixed_slope, fit);
    lemma_clamped_frequency(fit.points@[slot]);
    assert(fit.points@[slot].is_usable());
    assert forall|other: Single, level: Single|
        #![trigger is_base_level::<A>(params, ln_center, samples[k].ln_freq, other), curve.is_level::<A>(samples[k].ln_freq, level)]
        is_base_level::<A>(params, ln_center, samples[k].ln_freq, other) && -60real
            <= samples[k].target_db.value() - other.value() <= 60real && curve.is_level::<A>(
            samples[k].ln_freq,
            level,
        ) implies level.value() == samples[k].target_db.value() by {
        let third = law_curve_passes_through_its_points::<A>(
            curve,
            ln,
            slot,
            samples[k].ln_freq,
            level,
        );
        lemma_base_is_one_value::<A>(params, ln_center, own_center, samples[k].ln_freq, third, base);
        lemma_base_is_one_value::<A>(params, ln_center, own_center, samples[k].ln_freq, other, base);
    }
    k
}

/// The center of a fit lies in the range of centers, and its slope is the given one.
proof fn lemma_center_of_fit<A: Arithmetic>(
    samples: Seq<FitSample>,
    fixed_center_frequency: Single,
    fixed_slope: Single,
    fit: MatchCurveFit,
)
    requires
        fixed_center_frequency.is_finite(),
        is_constrained_fit::<A>(samples, fixed_center_frequency, fixed_slope, Some(fit)),
    ensures
        fit.center_frequency.is_finite(),
        30real <= fit.center_frequency.value() <= 22000real,
        fit.slope == fixed_slope,
{
    lemma_range_of_points();
    lemma_selections(
        fixed_center_frequency,
        single(THRESHOLD_CURVE_MIN_FREQUENCY_HZ),
        single(THRESHOLD_CURVE_MAX_FREQUENCY_HZ),
    );
}

/// The base curve has one level at a frequency.
pub proof fn lemma_base_is_one_value<A: Arithmetic>(
    params: CurveParams,
    ln_center: Single,
    other_center: Single,
    ln_freq: Single,
    a: Single,
    b: Single,
)
    requires
        is_exact::<A>(),
        params.intercept.is_finite() && params.slope.is_finite() && params.curve.is_finite(),
        ln_center.is_finite() && other_center.is_finite() && ln_freq.is_finite(),
        ln_center.value() == other_center.value(),
        is_base_level::<A>(params, ln_center, ln_freq, a),
        is_base_level::<A>(params, other_center, ln_freq, b),
    ensures
        a.is_finite() && b.is_finite(),
        a.value() == b.value(),
{
    let x = choose|x: Single| #[trigger]
        differences::<A>(ln_freq, ln_center, x) && is_quadratic::<A>(
            params.intercept,
            params.slope,
            params.curve,
            x,
            a,
        );
    let y = choose|x: Single| #[trigger]
        differences::<A>(ln_freq, other_center, x) && is_quadratic::<A>(
            params.intercept,
            params.slope,
            params.curve,
            x,
            b,
        );
    lemma_quadratic_value::<A>(params.intercept, params.slope, params.curve, x, a);
    lemma_quadratic_value::<A>(params.intercept, params.slope, params.curve, y, b);
}

/// How far a sample's target lies over a base curve with the given coefficients.
pub open spec fn miss(
    sample: FitSample,
    center_ln: Single,
    slope: Single,
    intercept: Single,
    curve: Single,
) -> real {
    let x = sample.ln_freq.value() - center_ln.value();
    sample.target_db.value() - (intercept.value() + slope.value() * x + curve.value() * (x * x))
}

/// The sum of what a base curve misses over the first `count` samples.
pub open spec fn total_miss(
    samples: Seq<FitSample>,
    center_ln: Single,
    slope: Single,
    intercept: Single,
    curve: Single,
    count: nat,
) -> real
    decreases count,
{
    if count == 0 {
        0real
    } else {
        total_miss(samples, center_ln, slope, intercept, curve, (count - 1) as nat) + miss(
            samples[count - 1],
            center_ln,
            slope,
            intercept,
            curve,
        )
    }
}

/// The same, each weighted by the square of its distance from the center.
pub open spec fn total_weighted_miss(
    samples: Seq<FitSample>,
    center_ln: Single,
    slope: Single,
    intercept: Single,
    curve: Single,
    count: nat,
) -> real
    decreases count,
{
    if count == 0 {
        0real
    } else {
        let x = samples[count - 1].ln_freq.value() - center_ln.value();
        total_weighted_miss(samples, center_ln, slope, intercept, curve, (count - 1) as nat) + miss(
            samples[count - 1],
            center_ln,
            slope,
            intercept,
            curve,
        ) * (x * x)
    }
}

/// What the power sums are the sums of.
proof fn lemma_power_sums<A: Arithmetic>(
    samples: Seq<FitSample>,
    center_ln: Single,
    slope: Single,
    intercept: Single,
    curve: Single,
    count: nat,
    sums: PowerSums,
)
    requires
        is_exact::<A>(),
        is_wide_exact::<A>(),
        count <= samples.len(),
        center_ln.is_finite() && slope.is_finite(),
        forall|k: int|
            0 <= k < samples.len() ==> (#[trigger] samples[k]).ln_freq.is_finite()
                && samples[k].target_db.is_finite(),
        are_power_sums::<A>(samples, center_ln, slope, count, sums),
    ensures
        sums.sx0.is_finite() && sums.sx2.is_finite() && sums.sx4.is_finite(),
        sums.sy0.is_finite() && sums.sy2.is_finite(),
        sums.sy0.value() - intercept.value() * sums.sx0.value() - curve.value() * sums.sx2.value()
            == total_miss(samples, center_ln, slope, intercept, curve, count),
        sums.sy2.value() - intercept.value() * sums.sx2.value() - curve.value() * sums.sx4.value()
            == total_weighted_miss(samples, center_ln, slope, intercept, curve, count),
    decreases count,
{
    lemma_wide_constants();
    let (i, c) = (intercept.value(), curve.value());
    if count == 0 {
        lemma_sign_of_product(i, 0real);
        lemma_sign_of_product(c, 0real);
    } else {
        let sample = samples[count - 1];
        let before = choose|before: PowerSums|
            {
                &&& are_power_sums::<A>(samples, center_ln, slope, (count - 1) as nat, before)
                &&& #[trigger] is_power_step::<A>(sample, center_ln, slope, before, sums)
            };
        lemma_power_sums::<A>(
            samples,
            center_ln,
            slope,
            intercept,
            curve,
            (count - 1) as nat,
            before,
        );
        let (x2, y, x4, yx2) = choose|x2: Double, y: Double, x4: Double, yx2: Double| #[trigger]
            is_fit_term::<A>(sample, center_ln, slope, x2, y) && #[trigger] wide_products::<A>(
                x2,
                x2,
                x4,
            ) && #[trigger] wide_products::<A>(y, x2, yx2) && wide_sums::<A>(
                before.sx0,
                double(WIDE_ONE),
                sums.sx0,
            ) && wide_sums::<A>(before.sx2, x2, sums.sx2) && wide_sums::<A>(
                before.sx4,
                x4,
                sums.sx4,
            ) && wide_sums::<A>(before.sy0, y, sums.sy0) && wide_sums::<A>(
                before.sy2,
                yx2,
                sums.sy2,
            );
        let (distance, x, target, wide_slope, lift) = choose|
            distance: Single,
            x: Double,
            target: Double,
            wide_slope: Double,
            lift: Double,
        | #[trigger]
            differences::<A>(sample.ln_freq, center_ln, distance) && #[trigger] widenings::<A>(
                distance,
                x,
            ) && wide_products::<A>(x, x, x2) && #[trigger] widenings::<A>(sample.target_db, target)
                && #[trigger] widenings::<A>(slope, wide_slope) && #[trigger] wide_products::<A>(
                wide_slope,
                x,
                lift,
            ) && wide_differences::<A>(target, lift, y);
        let (s, t) = (x2.value(), y.value());
        let error = miss(sample, center_ln, slope, intercept, curve);
        assert(error == t - i - c * s);
        lemma_regroup(i, before.sx0.value(), 1real);
        lemma_regroup(c, before.sx2.value(), s);
        lemma_regroup(i, before.sx2.value(), s);
        lemma_regroup(c, before.sx4.value(), s * s);
        lemma_regroup(t - i, c * s, s);
        lemma_regroup(t, i, s);
        lemma_regroup(c, s, s);
    }
}

/// A fitted base curve misses its samples by nothing on the whole, neither in sum nor weighted by the
/// square of the distance from the center: no other intercept and curve coefficient would come
/// closer in the sense of least squares.
pub proof fn law_base_curve_fits_by_least_squares<A: Arithmetic>(
    samples: Seq<FitSample>,
    center_ln: Single,
    slope: Single,
    sums: PowerSums,
    intercept: Single,
    curve: Single,
)
    requires
        is_exact::<A>(),
        is_wide_exact::<A>(),
        center_ln.is_finite() && slope.is_finite(),
        forall|k: int|
            0 <= k < samples.len() ==> (#[trigger] samples[k]).ln_freq.is_finite()
                && samples[k].target_db.is_finite(),
        are_power_sums::<A>(samples, center_ln, slope, samples.len(), sums),
        is_solution::<A>(sums, Some((intercept, curve))),
    ensures
        intercept.is_finite() && curve.is_finite(),
        total_miss(samples, center_ln, slope, intercept, curve, samples.len()) == 0real,
        total_weighted_miss(samples, center_ln, slope, intercept, curve, samples.len()) == 0real,
{
    lemma_power_sums::<A>(samples, center_ln, slope, intercept, curve, samples.len(), sums);
    let whole = choose|whole: Double| #[trigger]
        is_determinant::<A>(sums.sx0, sums.sx2, sums.sx2, sums.sx4, whole)
            && !whole.absolute().at_most(double(WIDE_EPSILON)) && is_cramer::<A>(
            sums,
            whole,
            intercept,
            curve,
        );
    let (first, second) = choose|first: Double, second: Double| #[trigger]
        is_determinant::<A>(sums.sy0, sums.sy2, sums.sx2, sums.sx4, first)
            && #[trigger] is_determinant::<A>(sums.sx0, sums.sx2, sums.sy0, sums.sy2, second)
            && is_narrow_quotient::<A>(first, whole, intercept) && is_narrow_quotient::<A>(
            second,
            whole,
            curve,
        );
    lemma_determinant::<A>(sums.sx0, sums.sx2, sums.sx2, sums.sx4, whole);
    lemma_determinant::<A>(sums.sy0, sums.sy2, sums.sx2, sums.sx4, first);
    lemma_determinant::<A>(sums.sx0, sums.sx2, sums.sy0, sums.sy2, second);
    assert(double(WIDE_EPSILON).is_finite());
    lemma_wide_order_is_by_value(whole, double(WIDE_EPSILON));
    lemma_wide_order_is_by_value(whole.absolute(), double(WIDE_EPSILON));
    lemma_wide_order_is_by_value(double(WIDE_EPSILON), double(WIDE_ZERO));
    lemma_wide_constants();
    assert(whole.value() != 0real);
    let (i, c, w) = (intercept.value(), curve.value(), whole.value());
    assert(i * w == first.value());
    assert(c * w == second.value());
    lemma_cramer(
        sums.sx0.value(),
        sums.sx2.value(),
        sums.sx4.value(),
        sums.sy0.value(),
        sums.sy2.value(),
        w,
        i,
        c,
    );
}

proof fn lemma_determinant<A: Arithmetic>(a: Double, b: Double, c: Double, d: Double, r: Double)
    requires
        is_wide_exact::<A>(),
        a.is_finite() && b.is_finite() && c.is_finite() && d.is_finite(),
        is_determinant::<A>(a, b, c, d, r),
    ensures
        r.is_finite(),
        r.value() == a.value() * d.value() - b.value() * c.value(),
{
}

/// Cramer's rule solves two equations.
proof fn lemma_cramer(
    s0: real,
    s2: real,
    s4: real,
    t0: real,
    t2: real,
    w: real,
    i: real,
    c: real,
)
    requires
        w != 0real,
        w == s0 * s4 - s2 * s2,
        i * w == t0 * s4 - t2 * s2,
        c * w == s0 * t2 - s2 * t0,
    ensures
        t0 - i * s0 - c * s2 == 0real,
        t2 - i * s2 - c * s4 == 0real,
{
    // (i * s0 + c * s2) * w == (t0 * s4 - t2 * s2) * s0 + (s0 * t2 - s2 * t0) * s2 == t0 * w
    lemma_scaled_sum(i, s0, c, s2, w);
    lemma_regroup(t0 * s4, t2 * s2, s0);
    lemma_regroup(s0 * t2, s2 * t0, s2);
    lemma_three_factors(t0, s4, s0);
    lemma_three_factors(t2, s2, s0);
    lemma_three_factors(s0, t2, s2);
    lemma_three_factors(s2, t0, s2);
    lemma_three_factors(t0, s0, s4);
    lemma_three_factors(t0, s2, s2);
    lemma_regroup(t0, s0 * s4, s2 * s2);
    assert((t0 * s4) * s0 == t0 * (s0 * s4));
    assert((t2 * s2) * s0 == (s0 * t2) * s2);
    assert((s2 * t0) * s2 == t0 * (s2 * s2));
    lemma_cancel(i * s0 + c * s2, t0, w);
    // (i * s2 + c * s4) * w == (t0 * s4 - t2 * s2) * s2 + (s0 * t2 - s2 * t0) * s4 == t2 * w
    lemma_scaled_sum(i, s2, c, s4, w);
    lemma_regroup(t0 * s4, t2 * s2, s2);
    lemma_regroup(s0 * t2, s2 * t0, s4);
    lemma_three_factors(t0, s4, s2);
    lemma_three_factors(t2, s2, s2);
    lemma_three_factors(s0, t2, s4);
    lemma_three_factors(s2, t0, s4);
    lemma_three_factors(t2, s0, s4);
    lemma_regroup(t2, s0 * s4, s2 * s2);
    assert((t0 * s4) * s2 == (s2 * t0) * s4);
    assert((s0 * t2) * s4 == t2 * (s0 * s4));
    assert((t2 * s2) * s2 == t2 * (s2 * s2));
    lemma_cancel(i * s2 + c * s4, t2, w);
}

proof fn lemma_scaled_sum(a: real, x: real, b: real, y: real, w: real)
    ensures
        (a * x + b * y) * w == (a * w) * x + (b * w) * y,
{
    lemma_regroup(a * x, b * y, w);
    lemma_three_factors(a, x, w);
    lemma_three_factors(b, y, w);
}

/// A sample's target is the level of the bin's mean magnitude without the downwards threshold offset,
/// so that the downwards threshold itself comes to lie at the measured level.
pub proof fn law_targets_put_the_threshold_at_the_mean_level<A: Arithmetic>(
    db: spec_fn(real) -> real,
    ln_freq: Single,
    magnitude_sum: Double,
    count: Double,
    downwards_offset_db: Single,
    sample: FitSample,
    mean: real,
)
    requires
        is_exact::<A>(),
        is_wide_exact::<A>(),
        levels_follow::<A>(db),
        magnitude_sum.is_finite() && count.is_finite() && downwards_offset_db.is_finite(),
        count.value() != 0real,
        mean * count.value() == magnitude_sum.value(),
        is_bin_sample::<A>(ln_freq, magnitude_sum, count, downwards_offset_db, Some(sample)),
    ensures
        sample.ln_freq == ln_freq,
        sample.target_db.is_finite(),
        sample.target_db.value() + downwards_offset_db.value() == db(mean),
        mean > 0real,
{
    lemma_constants();
    let (total, average) = choose|total: Double, average: Single| #[trigger]
        wide_quotients::<A>(magnitude_sum, count, total) && #[trigger] narrowings::<A>(
            total,
            average,
        ) && !(!average.is_finite() || average.at_most(single(ZERO))) && is_level_sample::<A>(
            ln_freq,
            average,
            downwards_offset_db,
            Some(sample),
        );
    lemma_cancel(total.value(), mean, count.value());
    lemma_order_is_by_value(average, single(ZERO));
}

/// The values of the limits.
proof fn lemma_limits_of_matching()
    ensures
        single(SILENCE_FLOOR_DB).value() == -120real && single(SILENCE_FLOOR_DB).is_finite(),
        single(MAX_FIT_RESIDUAL_DB).value() * 2real == 3real,
        single(MAX_FIT_RESIDUAL_DB).is_finite(),
        single(MIN_NODE_DISTANCE_LN).value() * 67108864real == 14763950real,
        single(MIN_NODE_DISTANCE_LN).is_finite(),
{
    vstd::arithmetic::power2::lemma2_to64();
    assert(pow2(17) == 0x2_0000 && pow2(23) == 0x80_0000 && pow2(26) == 0x400_0000);
    assert(pow2(17) as int as real == 131072real);
    assert(pow2(23) as int as real == 8388608real);
    assert(pow2(26) as int as real == 67108864real);
    lemma_value_of(0x42f0_0000, 0xf0_0000, 17);
    lemma_signs(single(0x42f0_0000));
    assert(single(0x42f0_0000).negated() == single(SILENCE_FLOOR_DB));
    lemma_value_of(MAX_FIT_RESIDUAL_DB, 0xc0_0000, 23);
    lemma_value_of(MIN_NODE_DISTANCE_LN, 0xe1_47ae, 26);
}

/// A bin gives a sample where its frequency is one that curve points may have, its mean magnitude is
/// not zero and its target is above -120 dB.
pub proof fn law_audible_bins_in_range_give_samples<A: Arithmetic>(
    exp: spec_fn(real) -> real,
    db: spec_fn(real) -> real,
    ln_freq: Single,
    magnitude_sum: Double,
    count: Double,
    downwards_offset_db: Single,
    r: Option<FitSample>,
    mean: real,
)
    requires
        is_exact::<A>(),
        is_wide_exact::<A>(),
        exponentials_follow::<A>(exp),
        levels_follow::<A>(db),
        ln_freq.is_finite(),
        magnitude_sum.is_finite() && count.is_finite() && downwards_offset_db.is_finite(),
        count.value() != 0real,
        mean * count.value() == magnitude_sum.value(),
        is_bin_sample::<A>(ln_freq, magnitude_sum, count, downwards_offset_db, r),
    ensures
        r is Some <==> (30real <= exp(ln_freq.value()) <= 22000real && mean > 0real && db(mean)
            - downwards_offset_db.value() > -120real),
{
    lemma_constants();
    lemma_range_of_points();
    lemma_limits_of_matching();
    let frequency = choose|frequency: Single| #[trigger]
        exponentials::<A>(ln_freq, frequency) && if !ln_freq.is_finite() || !frequency.is_within(
            single(THRESHOLD_CURVE_MIN_FREQUENCY_HZ),
            single(THRESHOLD_CURVE_MAX_FREQUENCY_HZ),
        ) {
            r is None
        } else {
            is_average_sample::<A>(ln_freq, magnitude_sum, count, downwards_offset_db, r)
        };
    lemma_order_is_by_value(single(THRESHOLD_CURVE_MIN_FREQUENCY_HZ), frequency);
    lemma_order_is_by_value(frequency, single(THRESHOLD_CURVE_MAX_FREQUENCY_HZ));
    if 30real <= frequency.value() <= 22000real {
        let (total, average) = choose|mean: Double, average: Single| #[trigger]
            wide_quotients::<A>(magnitude_sum, count, mean) && #[trigger] narrowings::<A>(
                mean,
                average,
            ) && if !average.is_finite() || average.at_most(single(ZERO)) {
                r is None
            } else {
                is_level_sample::<A>(ln_freq, average, downwards_offset_db, r)
            };
        lemma_cancel(total.value(), mean, count.value());
        lemma_order_is_by_value(average, single(ZERO));
        if mean > 0real {
            let (level, target_db) = choose|level: Single, target_db: Single| #[trigger]
                fast_gain_levels::<A>(average, level) && #[trigger] differences::<A>(
                    level,
                    downwards_offset_db,
                    target_db,
                ) && r == if target_db.at_most(single(SILENCE_FLOOR_DB)) {
                    None
                } else {
                    Some(FitSample { ln_freq, target_db })
                };
            lemma_order_is_by_value(target_db, single(SILENCE_FLOOR_DB));
        }
    }
}

/// The meter adds up the magnitudes that are positive numbers, bin by bin.
pub proof fn law_spectra_add_up<A: Arithmetic>(
    before: Seq<Double>,
    magnitudes: Seq<Single>,
    after: Seq<Double>,
    bin: int,
)
    requires
        is_wide_exact::<A>(),
        is_spectrum_added::<A>(before, magnitudes, after),
        0 <= bin < before.len(),
        bin < magnitudes.len(),
        before[bin].is_finite() && magnitudes[bin].is_finite(),
    ensures
        after[bin].is_finite(),
        after[bin].value() - before[bin].value() == if magnitudes[bin].value() > 0real {
            magnitudes[bin].value()
        } else {
            0real
        },
{
    lemma_constants();
    lemma_order_is_by_value(single(ZERO), magnitudes[bin]);
    assert(is_magnitude_added::<A>(before[bin], magnitudes[bin], after[bin]));
}

/// What was selected is one of the residuals, and far enough from those that were selected earlier.
proof fn lemma_selected<A: Arithmetic>(
    residuals: Seq<Residual>,
    earlier: Seq<Residual>,
    residual: Residual,
) -> (r: (int, Seq<bool>))
    requires
        is_strongest::<A>(residuals, earlier, Some(residual)),
    ensures
        are_free::<A>(residuals, earlier, r.1),
        0 <= r.0 < residuals.len(),
        r.1[r.0],
        residuals[r.0] == residual,
        is_at_least_all(residuals, r.1, r.0),
        is_free::<A>(residual, earlier, true),
{
    let free = choose|free: Seq<bool>| #[trigger]
        are_free::<A>(residuals, earlier, free) && is_strongest_of(
            residuals,
            free,
            Some(residual),
        );
    let i = choose|i: int|
        {
            &&& 0 <= i < free.len()
            &&& #[trigger] free[i]
            &&& residuals[i] == residual
            &&& is_at_least_all(residuals, free, i)
        };
    assert(is_free::<A>(residuals[i], earlier, free[i]));
    (i, free)
}

/// Two nodes are at least 0.22 apart, on the scale of the logarithms of their frequencies.
pub proof fn law_nodes_keep_their_distance<A: Arithmetic>(
    residuals: Seq<Residual>,
    selected: Seq<Residual>,
    distance: real,
    i: int,
    j: int,
)
    requires
        is_exact::<A>(),
        are_selected::<A>(residuals, selected),
        forall|k: int| 0 <= k < residuals.len() ==> (#[trigger] residuals[k]).ln_freq.is_finite(),
        distance * 67108864real == 14763950real,
        0 <= i < j < selected.len(),
    ensures
        selected[i].ln_freq.value() - selected[j].ln_freq.value() >= distance
            || selected[j].ln_freq.value() - selected[i].ln_freq.value() >= distance,
{
    lemma_limits_of_matching();
    lemma_cancel(single(MIN_NODE_DISTANCE_LN).value(), distance, 67108864real);
    assert(deserves_node(Some(selected[i])) && deserves_node(Some(selected[j])));
    let (at_i, _) = lemma_selected::<A>(residuals, selected.take(i), selected[i]);
    let (at_j, _) = lemma_selected::<A>(residuals, selected.take(j), selected[j]);
    assert(residuals[at_i].ln_freq.is_finite() && residuals[at_j].ln_freq.is_finite());
    let distances = choose|distances: Seq<Single>| #[trigger]
        are_distances::<A>(selected[j].ln_freq, selected.take(j), distances) && true == are_far(
            distances,
        );
    assert(selected.take(j)[i] == selected[i]);
    let gap = distances[i];
    assert(differences::<A>(selected[j].ln_freq, selected.take(j)[i].ln_freq, gap));
    assert(single(MIN_NODE_DISTANCE_LN).at_most(gap.absolute()));
    lemma_signs(gap);
    lemma_order_is_by_value(single(MIN_NODE_DISTANCE_LN), gap.absolute());
}

/// Each node goes to a residual of more than 3 dB, in whichever direction, and none that is far
/// enough from the earlier nodes is larger.
pub proof fn law_nodes_go_to_the_largest_residuals<A: Arithmetic>(
    residuals: Seq<Residual>,
    selected: Seq<Residual>,
    distance: real,
    i: int,
    other: int,
)
    requires
        is_exact::<A>(),
        are_selected::<A>(residuals, selected),
        forall|k: int|
            0 <= k < residuals.len() ==> (#[trigger] residuals[k]).ln_freq.is_finite()
                && residuals[k].offset_db.is_finite(),
        distance * 67108864real == 14763950real,
        0 <= i < selected.len(),
        0 <= other < residuals.len(),
        forall|k: int|
            0 <= k < i ==> (#[trigger] selected[k]).ln_freq.value()
                - residuals[other].ln_freq.value() >= distance || residuals[other].ln_freq.value()
                - selected[k].ln_freq.value() >= distance,
    ensures
        selected[i].offset_db.value() > 3real || selected[i].offset_db.value() < -3real,
        residuals[other].offset_db.absolute().value() <= selected[i].offset_db.absolute().value(),
{
    lemma_constants();
    lemma_limits_of_matching();
    lemma_cancel(single(MIN_NODE_DISTANCE_LN).value(), distance, 67108864real);
    assert(deserves_node(Some(selected[i])));
    let earlier = selected.take(i);
    let (at, free) = lemma_selected::<A>(residuals, earlier, selected[i]);
    assert(residuals[at].offset_db.is_finite() && residuals[other].offset_db.is_finite());
    let size = selected[i].offset_db.absolute();
    lemma_signs(selected[i].offset_db);
    lemma_signs(residuals[other].offset_db);
    lemma_order_is_by_value(size, single(MAX_NODE_RESIDUAL_DB));
    assert(is_free::<A>(residuals[other], earlier, free[other]));
    let distances = choose|distances: Seq<Single>| #[trigger]
        are_distances::<A>(residuals[other].ln_freq, earlier, distances) && free[other] == are_far(
            distances,
        );
    assert forall|k: int| 0 <= k < distances.len() implies single(MIN_NODE_DISTANCE_LN).at_most(
        (#[trigger] distances[k]).absolute(),
    ) by {
        assert(earlier[k] == selected[k]);
        assert(deserves_node(Some(selected[k])));
        let (at_k, _) = lemma_selected::<A>(residuals, selected.take(k), selected[k]);
        assert(residuals[at_k].ln_freq.is_finite() && residuals[other].ln_freq.is_finite());
        let gap = distances[k];
        assert(differences::<A>(residuals[other].ln_freq, earlier[k].ln_freq, gap));
        lemma_signs(gap);
        lemma_order_is_by_value(single(MIN_NODE_DISTANCE_LN), gap.absolute());
    }
    assert(are_far(distances));
    assert(free[other]);
    lemma_order_is_by_value(residuals[other].offset_db.absolute(), size);
}

proof fn lemma_largest_residual(residuals: Seq<Residual>, count: nat)
    requires
        count <= residuals.len(),
        forall|k: int| 0 <= k < residuals.len() ==> (#[trigger] residuals[k]).offset_db.is_finite(),
    ensures
        largest_residual(residuals, count).is_finite(),
        forall|k: int|
            0 <= k < count ==> (#[trigger] residuals[k]).offset_db.absolute().value()
                <= largest_residual(residuals, count).value(),
        largest_residual(residuals, count).value() == 0real || exists|k: int|
            0 <= k < count && (#[trigger] residuals[k]).offset_db.absolute().value()
                == largest_residual(residuals, count).value(),
    decreases count,
{
    lemma_constants();
    if count > 0 {
        let before = (count - 1) as nat;
        lemma_largest_residual(residuals, before);
        let last = residuals[count - 1].offset_db;
        lemma_signs(last);
        lemma_selections(largest_residual(residuals, before), last.absolute(), last.absolute());
        assert(residuals[count - 1].offset_db.absolute().value() == last.absolute().value());
    }
}

/// A base curve that comes within one and a half decibels of all samples gets no nodes. Where it
/// does not, nodes are selected.
pub proof fn law_close_base_curves_get_no_nodes<A: Arithmetic>(
    residuals: Seq<Residual>,
    points: Seq<CurvePoint>,
)
    requires
        forall|k: int| 0 <= k < residuals.len() ==> (#[trigger] residuals[k]).offset_db.is_finite(),
        are_fitted_points::<A>(residuals, points),
    ensures
        (forall|k: int|
            0 <= k < residuals.len() ==> -3real <= 2real * (
            #[trigger] residuals[k]).offset_db.value() <= 3real) ==> forall|i: int|
            0 <= i < points.len() ==> !(#[trigger] points[i]).enabled,
        (exists|k: int|
            0 <= k < residuals.len() && !(-3real <= 2real * (
            #[trigger] residuals[k]).offset_db.value() <= 3real)) ==> exists|selected: Seq<
            Residual,
        >| #[trigger]
            are_selected::<A>(residuals, selected) && are_node_points::<A>(selected, points)
                && is_selection_done::<A>(residuals, selected),
{
    lemma_limits_of_matching();
    lemma_largest_residual(residuals, residuals.len());
    let largest = largest_residual(residuals, residuals.len());
    lemma_order_is_by_value(largest, single(MAX_FIT_RESIDUAL_DB));
    assert forall|k: int| 0 <= k < residuals.len() implies (
    #[trigger] residuals[k]).offset_db.absolute().value() == if residuals[k].offset_db.value()
        < 0real {
        -residuals[k].offset_db.value()
    } else {
        residuals[k].offset_db.value()
    } by {
        lemma_signs(residuals[k].offset_db);
    }
}

/// A residual within the limits becomes the offset of its node as it is, and one beyond them becomes
/// the limit on its side. No arithmetic is involved.
pub proof fn law_residuals_become_offsets<A: Arithmetic>(residual: Residual, point: CurvePoint)
    requires
        is_node_point::<A>(residual, point),
        !residual.offset_db.is_nan(),
    ensures
        point.enabled,
        residual.offset_db.is_within(
            single(THRESHOLD_CURVE_POINT_OFFSET_LIMIT_DB).negated(),
            single(THRESHOLD_CURVE_POINT_OFFSET_LIMIT_DB),
        ) ==> point.offset_db == residual.offset_db,
        single(THRESHOLD_CURVE_POINT_OFFSET_LIMIT_DB).below(residual.offset_db) ==> point.offset_db
            == single(THRESHOLD_CURVE_POINT_OFFSET_LIMIT_DB),
        residual.offset_db.below(single(THRESHOLD_CURVE_POINT_OFFSET_LIMIT_DB).negated())
            ==> point.offset_db == single(THRESHOLD_CURVE_POINT_OFFSET_LIMIT_DB).negated(),
        single(ZERO).below(residual.offset_db) ==> single(ZERO).below(point.offset_db),
        residual.offset_db.below(single(ZERO)) ==> point.offset_db.below(single(ZERO)),
{
}

} // verus!
