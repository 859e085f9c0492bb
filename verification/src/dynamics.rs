//! The transfer curves of a single compressor. All levels are in decibels.

use vstd::arithmetic::power2::pow2;
use vstd::prelude::*;

use crate::arithmetic::{
    differences, differences_keep_order, fast_gain_levels, have_same_sign, products,
    products_keep_order, quotients, quotients_keep_order, sums, sums_are_fixed, sums_keep_order,
    sums_mirror_differences, Arithmetic,
};
use crate::exact::{
    is_exact, lemma_cancel, lemma_constants, lemma_order_is_by_value, lemma_regroup,
    lemma_selections, lemma_sign_of_product, lemma_signs, lemma_value_of, levels_follow,
};
use crate::single::{single, Single, ONE, TWO, ZERO};

verus! {

/// The encoding of `-100.0`, the level that stands for silence.
pub const MINUS_INFINITY_DB: u32 = 0xc2c8_0000;

/// The encoding of `10.001068`, the natural logarithm of 22050 Hz. The high frequency ratio rolloff
/// is fixed to this frequency so the result does not get brighter as the sample rate increases.
pub const HIGH_FREQ_RATIO_ROLLOFF_FREQUENCY_LN: u32 = 0x4120_0460;

/// The soft knee of a compressor, modelled as a parabola `x + scale * (x + intercept)^2`.
#[derive(Clone, Copy, PartialEq, Eq, Debug, Structural)]
pub struct KneeParabola {
    pub scale: Single,
    pub intercept: Single,
}

/// What one direction of a compressor does at one bin.
#[derive(Clone, Copy, PartialEq, Eq, Debug, Structural)]
pub struct TransferCurve {
    pub threshold_db: Single,
    /// At 1.0 the compressor does nothing.
    pub ratio: Single,
    pub knee_width_db: Single,
    pub knee: KneeParabola,
}

/// `r` is `1 / a`.
#[verifier::inline]
pub open spec fn reciprocals<A: Arithmetic>(a: Single, r: Single) -> bool {
    quotients::<A>(single(ONE), a, r)
}

/// Computes `1 / a`.
pub fn reciprocal<A: Arithmetic>(a: Single) -> (r: Single)
    ensures
        reciprocals::<A>(a, r),
{
    let r = A::quotient(single(ONE), a);
    assert(reciprocals::<A>(a, r));
    r
}

/// `r` is `a / 2`.
#[verifier::inline]
pub open spec fn halves<A: Arithmetic>(a: Single, r: Single) -> bool {
    quotients::<A>(a, single(TWO), r)
}

/// Computes `a / 2`.
pub fn half<A: Arithmetic>(a: Single) -> (r: Single)
    ensures
        halves::<A>(a, r),
{
    let r = A::quotient(a, single(TWO));
    assert(halves::<A>(a, r));
    r
}

/// The knee reaches from `start` to `end`, centered on the threshold.
pub open spec fn is_knee_range<A: Arithmetic>(
    curve: TransferCurve,
    start: Single,
    end: Single,
) -> bool {
    exists|reach: Single| #[trigger]
        halves::<A>(curve.knee_width_db, reach) && differences::<A>(curve.threshold_db, reach, start)
            && sums::<A>(curve.threshold_db, reach, end)
}

/// `r` is `input + scale * (input + intercept)^2`.
pub open spec fn is_on_parabola<A: Arithmetic>(
    input_db: Single,
    knee: KneeParabola,
    r: Single,
) -> bool {
    exists|x: Single, scaled: Single, bend: Single| #[trigger]
        sums::<A>(input_db, knee.intercept, x) && #[trigger] products::<A>(knee.scale, x, scaled)
            && #[trigger] products::<A>(scaled, x, bend) && sums::<A>(input_db, bend, r)
}

/// `r` is `threshold + (input - threshold) / ratio`.
pub open spec fn is_on_slope<A: Arithmetic>(
    input_db: Single,
    curve: TransferCurve,
    r: Single,
) -> bool {
    exists|excess: Single, reduced: Single| #[trigger]
        differences::<A>(input_db, curve.threshold_db, excess) && #[trigger] quotients::<A>(
            excess,
            curve.ratio,
            reduced,
        ) && sums::<A>(curve.threshold_db, reduced, r)
}

/// `r` is the level that downwards compression gives: unchanged up to the knee, on the parabola
/// within it, on the slope above it.
pub open spec fn is_compressed_downwards<A: Arithmetic>(
    input_db: Single,
    curve: TransferCurve,
    r: Single,
) -> bool {
    exists|start: Single, end: Single| #[trigger]
        is_knee_range::<A>(curve, start, end) && if input_db.at_most(start) {
            r == input_db
        } else if input_db.at_most(end) {
            is_on_parabola::<A>(input_db, curve.knee, r)
        } else {
            is_on_slope::<A>(input_db, curve, r)
        }
}

/// `r` is the level that upwards compression gives: unchanged from the end of the knee on, on the
/// parabola within it, on the slope below it.
pub open spec fn is_compressed_upwards<A: Arithmetic>(
    input_db: Single,
    curve: TransferCurve,
    r: Single,
) -> bool {
    exists|start: Single, end: Single| #[trigger]
        is_knee_range::<A>(curve, start, end) && if end.at_most(input_db) {
            r == input_db
        } else if start.at_most(input_db) {
            is_on_parabola::<A>(input_db, curve.knee, r)
        } else {
            is_on_slope::<A>(input_db, curve, r)
        }
}

fn knee_range<A: Arithmetic>(curve: TransferCurve) -> (range: (Single, Single))
    ensures
        is_knee_range::<A>(curve, range.0, range.1),
{
    let reach = half::<A>(curve.knee_width_db);
    (A::difference(curve.threshold_db, reach), A::sum(curve.threshold_db, reach))
}

fn on_parabola<A: Arithmetic>(input_db: Single, knee: KneeParabola) -> (r: Single)
    ensures
        is_on_parabola::<A>(input_db, knee, r),
{
    let x = A::sum(input_db, knee.intercept);
    let scaled = A::product(knee.scale, x);
    let bend = A::product(scaled, x);
    A::sum(input_db, bend)
}

fn on_slope<A: Arithmetic>(input_db: Single, curve: TransferCurve) -> (r: Single)
    ensures
        is_on_slope::<A>(input_db, curve, r),
{
    let excess = A::difference(input_db, curve.threshold_db);
    let reduced = A::quotient(excess, curve.ratio);
    A::sum(curve.threshold_db, reduced)
}

/// Apply downwards compression to the input.
pub fn compress_downwards<A: Arithmetic>(input_db: Single, curve: TransferCurve) -> (r: Single)
    ensures
        is_compressed_downwards::<A>(input_db, curve, r),
{
    let (start, end) = knee_range::<A>(curve);
    if input_db.at_most(start) {
        input_db
    } else if input_db.at_most(end) {
        on_parabola::<A>(input_db, curve.knee)
    } else {
        on_slope::<A>(input_db, curve)
    }
}

/// Apply upwards compression to the input. This goes the other way around compared to
/// [`compress_downwards()`].
pub fn compress_upwards<A: Arithmetic>(input_db: Single, curve: TransferCurve) -> (r: Single)
    ensures
        is_compressed_upwards::<A>(input_db, curve, r),
{
    let (start, end) = knee_range::<A>(curve);
    if end.at_most(input_db) {
        input_db
    } else if start.at_most(input_db) {
        on_parabola::<A>(input_db, curve.knee)
    } else {
        on_slope::<A>(input_db, curve)
    }
}

/// `r` is `1 / (2 * width * ratio) - 1 / (2 * width)`.
pub open spec fn is_knee_bend<A: Arithmetic>(
    knee_width_db: Single,
    ratio: Single,
    r: Single,
) -> bool {
    exists|twice: Single, by_ratio: Single, steep: Single, flat: Single| #[trigger]
        products::<A>(single(TWO), knee_width_db, twice) && #[trigger] products::<A>(
            twice,
            ratio,
            by_ratio,
        ) && #[trigger] reciprocals::<A>(by_ratio, steep) && #[trigger] reciprocals::<A>(
            twice,
            flat,
        ) && differences::<A>(steep, flat, r)
}

/// `knee` is the soft knee for downwards compression: `1 / (2wR) - 1 / (2w)` as its scale, `1`
/// where the width `w` is zero, and `-threshold + w / 2` as its intercept.
pub open spec fn is_downwards_knee<A: Arithmetic>(
    threshold_db: Single,
    knee_width_db: Single,
    ratio: Single,
    knee: KneeParabola,
) -> bool {
    &&& if knee_width_db.equals(single(ZERO)) {
        knee.scale == single(ONE)
    } else {
        is_knee_bend::<A>(knee_width_db, ratio, knee.scale)
    }
    &&& exists|reach: Single| #[trigger]
        halves::<A>(knee_width_db, reach) && sums::<A>(
            threshold_db.negated(),
            reach,
            knee.intercept,
        )
}

/// `knee` is the soft knee for upwards compression: the scale for downwards compression negated,
/// `1` where the width `w` is zero, and `-threshold - w / 2` as its intercept.
pub open spec fn is_upwards_knee<A: Arithmetic>(
    threshold_db: Single,
    knee_width_db: Single,
    ratio: Single,
    knee: KneeParabola,
) -> bool {
    &&& if knee_width_db.equals(single(ZERO)) {
        knee.scale == single(ONE)
    } else {
        exists|bend: Single| #[trigger]
            is_knee_bend::<A>(knee_width_db, ratio, bend) && knee.scale == bend.negated()
    }
    &&& exists|reach: Single| #[trigger]
        halves::<A>(knee_width_db, reach) && differences::<A>(
            threshold_db.negated(),
            reach,
            knee.intercept,
        )
}

fn knee_bend<A: Arithmetic>(knee_width_db: Single, ratio: Single) -> (r: Single)
    ensures
        is_knee_bend::<A>(knee_width_db, ratio, r),
{
    let twice = A::product(single(TWO), knee_width_db);
    let by_ratio = A::product(twice, ratio);
    let steep = reciprocal::<A>(by_ratio);
    let flat = reciprocal::<A>(twice);
    assert(products::<A>(single(TWO), knee_width_db, twice));
    A::difference(steep, flat)
}

/// Compute the coefficients of the soft knee parabola for downwards compression. The formula is
/// taken from the Digital Dynamic Range Compressor Design paper by Dimitrios Giannoulis et. al.
pub fn downwards_soft_knee_coefficients<A: Arithmetic>(
    threshold_db: Single,
    knee_width_db: Single,
    ratio: Single,
) -> (knee: KneeParabola)
    ensures
        is_downwards_knee::<A>(threshold_db, knee_width_db, ratio, knee),
{
    let scale = if !knee_width_db.equals(single(ZERO)) {
        knee_bend::<A>(knee_width_db, ratio)
    } else {
        single(ONE)
    };
    let reach = half::<A>(knee_width_db);
    let intercept = A::sum(threshold_db.negated(), reach);
    KneeParabola { scale, intercept }
}

/// [`downwards_soft_knee_coefficients()`], but for upwards compression.
pub fn upwards_soft_knee_coefficients<A: Arithmetic>(
    threshold_db: Single,
    knee_width_db: Single,
    ratio: Single,
) -> (knee: KneeParabola)
    ensures
        is_upwards_knee::<A>(threshold_db, knee_width_db, ratio, knee),
{
    let scale = if !knee_width_db.equals(single(ZERO)) {
        knee_bend::<A>(knee_width_db, ratio).negated()
    } else {
        single(ONE)
    };
    let reach = half::<A>(knee_width_db);
    let intercept = A::difference(threshold_db.negated(), reach);
    KneeParabola { scale, intercept }
}

/// Whether the bin may be compressed upwards. This should not happen when the signal is too quiet,
/// nor to the bins below `first_non_dc_bin`.
#[verifier::allow_in_spec]
pub fn compresses_upwards(
    bin_idx: usize,
    first_non_dc_bin: usize,
    ratio: Single,
    envelope_db: Single,
) -> bool
    returns
        bin_idx >= first_non_dc_bin && !ratio.equals(single(ONE)) && single(
            MINUS_INFINITY_DB,
        ).below(envelope_db),
{
    bin_idx >= first_non_dc_bin && !ratio.equals(single(ONE)) && single(MINUS_INFINITY_DB).below(
        envelope_db,
    )
}

/// `r` is the gain to apply so that the envelope takes on the levels of both compressors:
/// `downwards + upwards - 2 * envelope`.
pub open spec fn is_gain_change<A: Arithmetic>(
    envelope_db: Single,
    downwards_db: Single,
    upwards_db: Single,
    r: Single,
) -> bool {
    exists|both: Single, twice: Single| #[trigger]
        sums::<A>(downwards_db, upwards_db, both) && #[trigger] products::<A>(
            envelope_db,
            single(TWO),
            twice,
        ) && differences::<A>(both, twice, r)
}

fn gain_change<A: Arithmetic>(
    envelope_db: Single,
    downwards_db: Single,
    upwards_db: Single,
) -> (r: Single)
    ensures
        is_gain_change::<A>(envelope_db, downwards_db, upwards_db, r),
{
    let both = A::sum(downwards_db, upwards_db);
    let twice = A::product(envelope_db, single(TWO));
    assert(products::<A>(envelope_db, single(TWO), twice));
    A::difference(both, twice)
}

/// `r` is the gain for a bin with the given envelope, the two compressors working as the transfer
/// curves say.
pub open spec fn is_bin_gain<A: Arithmetic>(
    bin_idx: usize,
    first_non_dc_bin: usize,
    envelope: Single,
    downwards: TransferCurve,
    upwards: TransferCurve,
    r: Single,
) -> bool {
    exists|envelope_db: Single, downwards_db: Single, upwards_db: Single| #[trigger]
        fast_gain_levels::<A>(envelope, envelope_db) && #[trigger] is_compressed_downwards::<A>(
            envelope_db,
            downwards,
            downwards_db,
        ) && is_upwards_level::<A>(
            bin_idx,
            first_non_dc_bin,
            envelope_db,
            upwards,
            upwards_db,
        ) && #[trigger] is_gain_change::<A>(envelope_db, downwards_db, upwards_db, r)
}

/// `r` is the level of the upwards compressor, which leaves some bins as they are.
pub open spec fn is_upwards_level<A: Arithmetic>(
    bin_idx: usize,
    first_non_dc_bin: usize,
    envelope_db: Single,
    upwards: TransferCurve,
    r: Single,
) -> bool {
    if compresses_upwards(bin_idx, first_non_dc_bin, upwards.ratio, envelope_db) {
        is_compressed_upwards::<A>(envelope_db, upwards, r)
    } else {
        r == envelope_db
    }
}

/// Computes the gain for one bin.
pub fn bin_gain<A: Arithmetic>(
    bin_idx: usize,
    first_non_dc_bin: usize,
    envelope: Single,
    downwards: TransferCurve,
    upwards: TransferCurve,
) -> (r: Single)
    ensures
        is_bin_gain::<A>(bin_idx, first_non_dc_bin, envelope, downwards, upwards, r),
{
    let envelope_db = A::gain_to_db_fast_epsilon(envelope);
    let downwards_db = compress_downwards::<A>(envelope_db, downwards);
    let upwards_db = if compresses_upwards(bin_idx, first_non_dc_bin, upwards.ratio, envelope_db) {
        compress_upwards::<A>(envelope_db, upwards)
    } else {
        envelope_db
    };
    gain_change::<A>(envelope_db, downwards_db, upwards_db)
}

/// `r` is the threshold scaled by the sidechain, but not below the level of silence.
pub open spec fn is_scaled_threshold<A: Arithmetic>(
    threshold_db: Single,
    sidechain_scale_db: Single,
    r: Single,
) -> bool {
    exists|sum: Single| #[trigger]
        sums::<A>(threshold_db, sidechain_scale_db, sum) && r == sum.larger(
            single(MINUS_INFINITY_DB),
        )
}

fn scaled_threshold<A: Arithmetic>(threshold_db: Single, sidechain_scale_db: Single) -> (r: Single)
    ensures
        is_scaled_threshold::<A>(threshold_db, sidechain_scale_db, r),
{
    A::sum(threshold_db, sidechain_scale_db).larger(single(MINUS_INFINITY_DB))
}

/// `scaled` is the downwards curve with its threshold scaled by the sidechain and its knee
/// recomputed.
pub open spec fn is_scaled_downwards<A: Arithmetic>(
    threshold_db: Single,
    ratio: Single,
    knee_width_db: Single,
    sidechain_scale_db: Single,
    scaled: TransferCurve,
) -> bool {
    &&& scaled.ratio == ratio
    &&& scaled.knee_width_db == knee_width_db
    &&& is_scaled_threshold::<A>(threshold_db, sidechain_scale_db, scaled.threshold_db)
    &&& is_downwards_knee::<A>(scaled.threshold_db, knee_width_db, ratio, scaled.knee)
}

/// [`is_scaled_downwards()`], but for upwards compression.
pub open spec fn is_scaled_upwards<A: Arithmetic>(
    threshold_db: Single,
    ratio: Single,
    knee_width_db: Single,
    sidechain_scale_db: Single,
    scaled: TransferCurve,
) -> bool {
    &&& scaled.ratio == ratio
    &&& scaled.knee_width_db == knee_width_db
    &&& is_scaled_threshold::<A>(threshold_db, sidechain_scale_db, scaled.threshold_db)
    &&& is_upwards_knee::<A>(scaled.threshold_db, knee_width_db, ratio, scaled.knee)
}

/// `r` is the gain for a bin whose thresholds are scaled by the sidechain.
pub open spec fn is_sidechain_bin_gain<A: Arithmetic>(
    bin_idx: usize,
    first_non_dc_bin: usize,
    envelope: Single,
    sidechain_scale: Single,
    downwards: TransferCurve,
    upwards: TransferCurve,
    r: Single,
) -> bool {
    exists|
        sidechain_scale_db: Single,
        scaled_downwards: TransferCurve,
        scaled_upwards: TransferCurve,
    | #[trigger]
        fast_gain_levels::<A>(sidechain_scale, sidechain_scale_db)
            && #[trigger] is_scaled_downwards::<A>(
            downwards.threshold_db,
            downwards.ratio,
            downwards.knee_width_db,
            sidechain_scale_db,
            scaled_downwards,
        ) && #[trigger] is_scaled_upwards::<A>(
            upwards.threshold_db,
            upwards.ratio,
            upwards.knee_width_db,
            sidechain_scale_db,
            scaled_upwards,
        ) && is_bin_gain::<A>(
            bin_idx,
            first_non_dc_bin,
            envelope,
            scaled_downwards,
            scaled_upwards,
            r,
        )
}

/// Computes the gain for one bin, scaling the thresholds by the sidechain and recomputing the
/// knees. This sort of creates a dynamic multiband compressor. The knees of the transfer curves
/// passed are not looked at.
pub fn sidechain_bin_gain<A: Arithmetic>(
    bin_idx: usize,
    first_non_dc_bin: usize,
    envelope: Single,
    sidechain_scale: Single,
    downwards: TransferCurve,
    upwards: TransferCurve,
) -> (r: Single)
    ensures
        is_sidechain_bin_gain::<A>(
            bin_idx,
            first_non_dc_bin,
            envelope,
            sidechain_scale,
            downwards,
            upwards,
            r,
        ),
{
    let sidechain_scale_db = A::gain_to_db_fast_epsilon(sidechain_scale);
    let downwards_threshold_db = scaled_threshold::<A>(downwards.threshold_db, sidechain_scale_db);
    let scaled_downwards = TransferCurve {
        threshold_db: downwards_threshold_db,
        ratio: downwards.ratio,
        knee_width_db: downwards.knee_width_db,
        knee: downwards_soft_knee_coefficients::<A>(
            downwards_threshold_db,
            downwards.knee_width_db,
            downwards.ratio,
        ),
    };
    let upwards_threshold_db = scaled_threshold::<A>(upwards.threshold_db, sidechain_scale_db);
    let scaled_upwards = TransferCurve {
        threshold_db: upwards_threshold_db,
        ratio: upwards.ratio,
        knee_width_db: upwards.knee_width_db,
        knee: upwards_soft_knee_coefficients::<A>(
            upwards_threshold_db,
            upwards.knee_width_db,
            upwards.ratio,
        ),
    };
    assert(is_scaled_downwards::<A>(
        downwards.threshold_db,
        downwards.ratio,
        downwards.knee_width_db,
        sidechain_scale_db,
        scaled_downwards,
    ));
    assert(is_scaled_upwards::<A>(
        upwards.threshold_db,
        upwards.ratio,
        upwards.knee_width_db,
        sidechain_scale_db,
        scaled_upwards,
    ));
    bin_gain::<A>(bin_idx, first_non_dc_bin, envelope, scaled_downwards, scaled_upwards)
}

/// `r` is the ratio at a bin: the reciprocal of `target * (1 - t) + t`, where `target` is the
/// reciprocal of the set ratio and `t` the share of the rolloff at the bin's octave.
pub open spec fn is_rolled_off_ratio<A: Arithmetic>(
    target_ratio_recip: Single,
    rolloff: Single,
    ln_freq: Single,
    r: Single,
) -> bool {
    exists|fraction: Single, t: Single, rest: Single, kept: Single, recip: Single| #[trigger]
        quotients::<A>(ln_freq, single(HIGH_FREQ_RATIO_ROLLOFF_FREQUENCY_LN), fraction)
            && #[trigger] products::<A>(fraction.larger(single(ZERO)), rolloff, t)
            && #[trigger] differences::<A>(single(ONE), t, rest) && #[trigger] products::<A>(
            target_ratio_recip,
            rest,
            kept,
        ) && #[trigger] sums::<A>(kept, t, recip) && reciprocals::<A>(recip, r)
}

/// Computes the ratio at a bin. If the high-frequency rolloff is enabled then higher frequency bins
/// have their ratios reduced to reduce harshness. This follows the octave scale.
pub fn rolled_off_ratio<A: Arithmetic>(
    target_ratio_recip: Single,
    rolloff: Single,
    ln_freq: Single,
) -> (r: Single)
    ensures
        is_rolled_off_ratio::<A>(target_ratio_recip, rolloff, ln_freq, r),
{
    let fraction = A::quotient(ln_freq, single(HIGH_FREQ_RATIO_ROLLOFF_FREQUENCY_LN));
    let t = A::product(fraction.larger(single(ZERO)), rolloff);
    let rest = A::difference(single(ONE), t);
    let kept = A::product(target_ratio_recip, rest);
    let recip = A::sum(kept, t);
    assert(quotients::<A>(ln_freq, single(HIGH_FREQ_RATIO_ROLLOFF_FREQUENCY_LN), fraction));
    assert(products::<A>(fraction.larger(single(ZERO)), rolloff, t));
    assert(differences::<A>(single(ONE), t, rest));
    reciprocal::<A>(recip)
}

/// Both ends of the knee are numbers.
pub open spec fn has_knee<A: Arithmetic>(curve: TransferCurve) -> bool {
    forall|start: Single, end: Single| #[trigger]
        is_knee_range::<A>(curve, start, end) ==> !start.is_nan() && !end.is_nan()
}

/// The level lies outside of the knee, or on its lower end.
pub open spec fn is_outside_knee<A: Arithmetic>(level_db: Single, curve: TransferCurve) -> bool {
    forall|start: Single, end: Single| #[trigger]
        is_knee_range::<A>(curve, start, end) ==> level_db.at_most(start) || end.below(level_db)
}

/// The knee lies around the threshold, and its ends have one value each.
proof fn lemma_knee_lies_around_threshold<A: Arithmetic>(
    curve: TransferCurve,
    start: Single,
    end: Single,
    other_start: Single,
    other_end: Single,
)
    requires
        sums_keep_order::<A>(),
        differences_keep_order::<A>(),
        quotients_keep_order::<A>(),
        single(ZERO).at_most(curve.knee_width_db),
        has_knee::<A>(curve),
        is_knee_range::<A>(curve, start, end),
        is_knee_range::<A>(curve, other_start, other_end),
    ensures
        start.at_most(curve.threshold_db),
        curve.threshold_db.at_most(end),
        start.equals(other_start),
        end.equals(other_end),
        curve.knee_width_db.equals(single(ZERO)) ==> start.equals(end),
{
    let reach = choose|reach: Single| #[trigger]
        halves::<A>(curve.knee_width_db, reach) && differences::<A>(curve.threshold_db, reach, start)
            && sums::<A>(curve.threshold_db, reach, end);
    let other = choose|reach: Single| #[trigger]
        halves::<A>(curve.knee_width_db, reach) && differences::<A>(
            curve.threshold_db,
            reach,
            other_start,
        ) && sums::<A>(curve.threshold_db, reach, other_end);
    assert(single(ZERO).below(single(TWO)));
    assert(!reach.is_nan() && !other.is_nan());
    assert(single(ZERO).at_most(reach));
    assert(reach.equals(other));
}

/// Downwards compression keeps the order of levels outside of the knee, in an arithmetic that keeps
/// the order of its operands: a louder input does not become quieter than a softer one.
pub proof fn law_compression_keeps_order_outside_the_knee<A: Arithmetic>(
    curve: TransferCurve,
    softer_db: Single,
    louder_db: Single,
    softer: Single,
    louder: Single,
)
    requires
        sums_keep_order::<A>(),
        differences_keep_order::<A>(),
        quotients_keep_order::<A>(),
        single(ZERO).at_most(curve.knee_width_db),
        single(ZERO).below(curve.ratio),
        has_knee::<A>(curve),
        is_outside_knee::<A>(softer_db, curve),
        is_outside_knee::<A>(louder_db, curve),
        softer_db.at_most(louder_db),
        is_compressed_downwards::<A>(softer_db, curve, softer),
        is_compressed_downwards::<A>(louder_db, curve, louder),
        !softer.is_nan(),
        !louder.is_nan(),
    ensures
        softer.at_most(louder),
{
    let (start, end) = choose|start: Single, end: Single| #[trigger]
        is_knee_range::<A>(curve, start, end) && if softer_db.at_most(start) {
            softer == softer_db
        } else if softer_db.at_most(end) {
            is_on_parabola::<A>(softer_db, curve.knee, softer)
        } else {
            is_on_slope::<A>(softer_db, curve, softer)
        };
    let (other_start, other_end) = choose|start: Single, end: Single| #[trigger]
        is_knee_range::<A>(curve, start, end) && if louder_db.at_most(start) {
            louder == louder_db
        } else if louder_db.at_most(end) {
            is_on_parabola::<A>(louder_db, curve.knee, louder)
        } else {
            is_on_slope::<A>(louder_db, curve, louder)
        };
    lemma_knee_lies_around_threshold::<A>(curve, start, end, other_start, other_end);
}

/// Without a soft knee, downwards compression keeps the order of all levels.
pub proof fn law_hard_knee_keeps_order<A: Arithmetic>(
    curve: TransferCurve,
    softer_db: Single,
    louder_db: Single,
    softer: Single,
    louder: Single,
)
    requires
        sums_keep_order::<A>(),
        differences_keep_order::<A>(),
        quotients_keep_order::<A>(),
        curve.knee_width_db.equals(single(ZERO)),
        single(ZERO).below(curve.ratio),
        has_knee::<A>(curve),
        softer_db.at_most(louder_db),
        is_compressed_downwards::<A>(softer_db, curve, softer),
        is_compressed_downwards::<A>(louder_db, curve, louder),
        !softer.is_nan(),
        !louder.is_nan(),
    ensures
        softer.at_most(louder),
{
    assert forall|start: Single, end: Single| #[trigger]
        is_knee_range::<A>(curve, start, end) implies start.equals(end) by {
        lemma_knee_lies_around_threshold::<A>(curve, start, end, start, end);
    }
    law_compression_keeps_order_outside_the_knee::<A>(curve, softer_db, louder_db, softer, louder);
}

/// The knee of downwards compression bends downwards.
pub proof fn law_downwards_knee_bends_down<A: Arithmetic>(
    threshold_db: Single,
    knee_width_db: Single,
    ratio: Single,
    knee: KneeParabola,
)
    requires
        differences_keep_order::<A>(),
        products_keep_order::<A>(),
        quotients_keep_order::<A>(),
        single(ZERO).below(knee_width_db),
        single(ONE).at_most(ratio),
        is_downwards_knee::<A>(threshold_db, knee_width_db, ratio, knee),
        !knee.scale.is_nan(),
    ensures
        knee.scale.at_most(single(ZERO)),
{
    let (twice, by_ratio, steep, flat) = choose|
        twice: Single,
        by_ratio: Single,
        steep: Single,
        flat: Single,
    | #[trigger]
        products::<A>(single(TWO), knee_width_db, twice) && #[trigger] products::<A>(
            twice,
            ratio,
            by_ratio,
        ) && #[trigger] reciprocals::<A>(by_ratio, steep) && #[trigger] reciprocals::<A>(
            twice,
            flat,
        ) && differences::<A>(steep, flat, knee.scale);
    assert(!steep.is_nan() && !flat.is_nan());
    assert(!by_ratio.is_nan() && !twice.is_nan());
    assert(single(ONE).at_most(single(TWO)));
    assert(single(ZERO).below(twice));
    assert(single(ZERO).below(by_ratio) && twice.at_most(by_ratio));
    assert(steep.at_most(flat));
}

/// Up to the end of the knee, downwards compression does not make a level louder, and up to its start
/// it keeps it. Above the knee the level is not below the threshold, and not above what the threshold
/// and the excess over it add up to.
pub proof fn law_downwards_compression_does_not_amplify<A: Arithmetic>(
    curve: TransferCurve,
    input_db: Single,
    start: Single,
    end: Single,
    excess: Single,
    whole: Single,
    r: Single,
)
    requires
        sums_keep_order::<A>(),
        differences_keep_order::<A>(),
        products_keep_order::<A>(),
        quotients_keep_order::<A>(),
        single(ZERO).at_most(curve.knee_width_db),
        single(ONE).at_most(curve.ratio),
        has_knee::<A>(curve),
        is_downwards_knee::<A>(curve.threshold_db, curve.knee_width_db, curve.ratio, curve.knee),
        is_knee_range::<A>(curve, start, end),
        differences::<A>(input_db, curve.threshold_db, excess),
        sums::<A>(curve.threshold_db, excess, whole),
        is_compressed_downwards::<A>(input_db, curve, r),
        !input_db.is_nan(),
        !whole.is_nan(),
        !r.is_nan(),
    ensures
        input_db.at_most(start) ==> r == input_db,
        input_db.at_most(end) ==> r.at_most(input_db),
        end.below(input_db) ==> curve.threshold_db.at_most(r) && r.at_most(whole),
{
    let (own_start, own_end) = choose|start: Single, end: Single| #[trigger]
        is_knee_range::<A>(curve, start, end) && if input_db.at_most(start) {
            r == input_db
        } else if input_db.at_most(end) {
            is_on_parabola::<A>(input_db, curve.knee, r)
        } else {
            is_on_slope::<A>(input_db, curve, r)
        };
    lemma_knee_lies_around_threshold::<A>(curve, start, end, own_start, own_end);
    if input_db.at_most(start) {
    } else if input_db.at_most(end) {
        let (x, scaled, bend) = choose|x: Single, scaled: Single, bend: Single| #[trigger]
            sums::<A>(input_db, curve.knee.intercept, x) && #[trigger] products::<A>(
                curve.knee.scale,
                x,
                scaled,
            ) && #[trigger] products::<A>(scaled, x, bend) && sums::<A>(input_db, bend, r);
        assert(!bend.is_nan());
        assert(!scaled.is_nan());
        assert(single(ZERO).below(curve.knee_width_db));
        law_downwards_knee_bends_down::<A>(
            curve.threshold_db,
            curve.knee_width_db,
            curve.ratio,
            curve.knee,
        );
        assert(have_same_sign(curve.knee.scale, x) || have_same_sign(
            curve.knee.scale,
            x.negated(),
        ));
        assert(bend.at_most(single(ZERO)));
    } else {
        let (own_excess, reduced) = choose|excess: Single, reduced: Single| #[trigger]
            differences::<A>(input_db, curve.threshold_db, excess) && #[trigger] quotients::<A>(
                excess,
                curve.ratio,
                reduced,
            ) && sums::<A>(curve.threshold_db, reduced, r);
        assert(!reduced.is_nan());
        assert(own_excess.equals(excess));
        assert(single(ZERO).at_most(reduced) && reduced.at_most(own_excess));
    }
}

/// The knee starts where the levels below it end: at its start the parabola has the value of the
/// input.
pub proof fn law_knee_starts_at_the_input<A: Arithmetic>(
    curve: TransferCurve,
    start: Single,
    end: Single,
    r: Single,
)
    requires
        sums_keep_order::<A>(),
        sums_mirror_differences::<A>(),
        products_keep_order::<A>(),
        quotients_keep_order::<A>(),
        is_downwards_knee::<A>(curve.threshold_db, curve.knee_width_db, curve.ratio, curve.knee),
        is_knee_range::<A>(curve, start, end),
        is_on_parabola::<A>(start, curve.knee, r),
        !end.is_nan(),
        !r.is_nan(),
    ensures
        r.equals(start),
{
    let reach = choose|reach: Single| #[trigger]
        halves::<A>(curve.knee_width_db, reach) && differences::<A>(curve.threshold_db, reach, start)
            && sums::<A>(curve.threshold_db, reach, end);
    let other = choose|reach: Single| #[trigger]
        halves::<A>(curve.knee_width_db, reach) && sums::<A>(
            curve.threshold_db.negated(),
            reach,
            curve.knee.intercept,
        );
    let (x, scaled, bend) = choose|x: Single, scaled: Single, bend: Single| #[trigger]
        sums::<A>(start, curve.knee.intercept, x) && #[trigger] products::<A>(
            curve.knee.scale,
            x,
            scaled,
        ) && #[trigger] products::<A>(scaled, x, bend) && sums::<A>(start, bend, r);
    assert(!bend.is_nan());
    assert(!scaled.is_nan());
    assert(!x.is_nan() && !start.is_nan() && !curve.knee.intercept.is_nan());
    assert(single(ZERO).below(single(TWO)));
    assert(reach.equals(other));
    assert(curve.knee.intercept.equals(start.negated()));
    assert(x.equals(single(ZERO)));
    assert(have_same_sign(scaled, x) && have_same_sign(scaled, x.negated()));
    assert(bend.equals(single(ZERO)));
}

/// The level that stands for silence is -100 dB.
proof fn lemma_silence()
    ensures
        single(MINUS_INFINITY_DB).value() == -100real,
        single(MINUS_INFINITY_DB).is_finite(),
{
    vstd::arithmetic::power2::lemma2_to64();
    assert(pow2(17) == 0x2_0000);
    assert(pow2(17) as int as real == 131072real);
    lemma_value_of(0x42c8_0000, 0xc8_0000, 17);
    lemma_signs(single(0x42c8_0000));
    assert(single(0x42c8_0000).negated() == single(MINUS_INFINITY_DB));
}

/// The ends of the knee lie half its width from the threshold.
proof fn lemma_knee_ends<A: Arithmetic>(curve: TransferCurve, start: Single, end: Single)
    requires
        is_exact::<A>(),
        curve.threshold_db.is_finite() && curve.knee_width_db.is_finite(),
        is_knee_range::<A>(curve, start, end),
    ensures
        start.is_finite() && end.is_finite(),
        2real * start.value() == 2real * curve.threshold_db.value() - curve.knee_width_db.value(),
        2real * end.value() == 2real * curve.threshold_db.value() + curve.knee_width_db.value(),
{
    lemma_constants();
    let reach = choose|reach: Single| #[trigger]
        halves::<A>(curve.knee_width_db, reach) && differences::<A>(curve.threshold_db, reach, start)
            && sums::<A>(curve.threshold_db, reach, end);
    lemma_regroup(reach.value(), 2real, 0real);
}

/// The bend of a knee, times twice its width and the ratio, is one less the ratio.
proof fn lemma_knee_bend<A: Arithmetic>(knee_width_db: Single, ratio: Single, bend: Single)
    requires
        is_exact::<A>(),
        knee_width_db.is_finite() && ratio.is_finite(),
        knee_width_db.value() != 0real,
        ratio.value() != 0real,
        is_knee_bend::<A>(knee_width_db, ratio, bend),
    ensures
        bend.is_finite(),
        bend.value() * ((2real * knee_width_db.value()) * ratio.value()) == 1real - ratio.value(),
{
    lemma_constants();
    let (twice, by_ratio, steep, flat) = choose|
        twice: Single,
        by_ratio: Single,
        steep: Single,
        flat: Single,
    | #[trigger]
        products::<A>(single(TWO), knee_width_db, twice) && #[trigger] products::<A>(
            twice,
            ratio,
            by_ratio,
        ) && #[trigger] reciprocals::<A>(by_ratio, steep) && #[trigger] reciprocals::<A>(
            twice,
            flat,
        ) && differences::<A>(steep, flat, bend);
    let (t, b, s, f, k) = (
        twice.value(),
        by_ratio.value(),
        steep.value(),
        flat.value(),
        ratio.value(),
    );
    lemma_sign_of_product(2real, knee_width_db.value());
    lemma_sign_of_product(t, k);
    assert(s * b == 1real && f * t == 1real);
    lemma_regroup(s, f, b);
    lemma_regroup(f, t, k);
}

/// On the parabola of a knee, the distance from the input is the bend times the square of the
/// distance from where the parabola starts.
proof fn lemma_parabola<A: Arithmetic>(
    input_db: Single,
    knee: KneeParabola,
    weight: real,
    factor: real,
    r: Single,
)
    requires
        is_exact::<A>(),
        input_db.is_finite(),
        knee.scale.is_finite() && knee.intercept.is_finite(),
        knee.scale.value() * weight == factor,
        is_on_parabola::<A>(input_db, knee, r),
    ensures
        r.is_finite(),
        weight * (r.value() - input_db.value()) == factor * ((input_db.value()
            + knee.intercept.value()) * (input_db.value() + knee.intercept.value())),
{
    let (x, scaled, bend) = choose|x: Single, scaled: Single, bend: Single| #[trigger]
        sums::<A>(input_db, knee.intercept, x) && #[trigger] products::<A>(knee.scale, x, scaled)
            && #[trigger] products::<A>(scaled, x, bend) && sums::<A>(input_db, bend, r);
    let (s, v) = (knee.scale.value(), x.value());
    assert(r.value() - input_db.value() == (s * v) * v);
    lemma_regroup(s, v, v);
    lemma_regroup(weight, s, v * v);
    lemma_regroup(weight, s, 0real);
}

/// Downwards compression keeps levels up to half the knee's width below the threshold. Above half its
/// width over the threshold it divides the excess by the ratio. In between, the level falls behind
/// the input with the square of the distance from the knee's start, so that it meets both.
pub proof fn law_downwards_compression_divides_the_excess<A: Arithmetic>(
    curve: TransferCurve,
    input_db: Single,
    r: Single,
)
    requires
        is_exact::<A>(),
        input_db.is_finite() && curve.threshold_db.is_finite() && curve.ratio.is_finite()
            && curve.knee_width_db.is_finite(),
        curve.ratio.value() > 0real,
        curve.knee_width_db.value() >= 0real,
        is_downwards_knee::<A>(curve.threshold_db, curve.knee_width_db, curve.ratio, curve.knee),
        is_compressed_downwards::<A>(input_db, curve, r),
    ensures
        r.is_finite(),
        ({
            let (level, t, k, w) = (
                input_db.value(),
                curve.threshold_db.value(),
                curve.ratio.value(),
                curve.knee_width_db.value(),
            );
            let above = level - t + w / 2real;
            if 2real * level <= 2real * t - w {
                r.value() == level
            } else if 2real * level > 2real * t + w {
                (r.value() - t) * k == level - t
            } else {
                ((2real * w) * k) * (level - r.value()) == (k - 1real) * (above * above)
            }
        }),
{
    lemma_constants();
    let (start, end) = choose|start: Single, end: Single| #[trigger]
        is_knee_range::<A>(curve, start, end) && if input_db.at_most(start) {
            r == input_db
        } else if input_db.at_most(end) {
            is_on_parabola::<A>(input_db, curve.knee, r)
        } else {
            is_on_slope::<A>(input_db, curve, r)
        };
    lemma_knee_ends::<A>(curve, start, end);
    lemma_order_is_by_value(input_db, start);
    lemma_order_is_by_value(input_db, end);
    lemma_order_is_by_value(curve.knee_width_db, single(ZERO));
    let (t, k, w) = (
        curve.threshold_db.value(),
        curve.ratio.value(),
        curve.knee_width_db.value(),
    );
    if input_db.at_most(start) {
    } else if input_db.at_most(end) {
        lemma_knee_bend::<A>(curve.knee_width_db, curve.ratio, curve.knee.scale);
        let reach = choose|reach: Single| #[trigger]
            halves::<A>(curve.knee_width_db, reach) && sums::<A>(
                curve.threshold_db.negated(),
                reach,
                curve.knee.intercept,
            );
        lemma_signs(curve.threshold_db);
        lemma_regroup(reach.value(), 2real, 0real);
        lemma_parabola::<A>(input_db, curve.knee, (2real * w) * k, 1real - k, r);
        let above = input_db.value() - t + w / 2real;
        assert(input_db.value() + curve.knee.intercept.value() == above);
        lemma_regroup((2real * w) * k, input_db.value(), r.value());
        lemma_regroup((2real * w) * k, r.value(), input_db.value());
        lemma_regroup(k, 1real, above * above);
        lemma_regroup(1real, k, above * above);
    } else {
        let (excess, reduced) = choose|excess: Single, reduced: Single| #[trigger]
            differences::<A>(input_db, curve.threshold_db, excess) && #[trigger] quotients::<A>(
                excess,
                curve.ratio,
                reduced,
            ) && sums::<A>(curve.threshold_db, reduced, r);
        assert(r.value() - t == reduced.value());
    }
}

/// Upwards compression keeps levels from half the knee's width above the threshold on. More than half
/// its width below the threshold it divides what is missing by the ratio. In between, the level
/// rises over the input with the square of the distance from the knee's end, so that it meets both.
pub proof fn law_upwards_compression_divides_what_is_missing<A: Arithmetic>(
    curve: TransferCurve,
    input_db: Single,
    r: Single,
)
    requires
        is_exact::<A>(),
        input_db.is_finite() && curve.threshold_db.is_finite() && curve.ratio.is_finite()
            && curve.knee_width_db.is_finite(),
        curve.ratio.value() > 0real,
        curve.knee_width_db.value() >= 0real,
        is_upwards_knee::<A>(curve.threshold_db, curve.knee_width_db, curve.ratio, curve.knee),
        is_compressed_upwards::<A>(input_db, curve, r),
    ensures
        r.is_finite(),
        ({
            let (level, t, k, w) = (
                input_db.value(),
                curve.threshold_db.value(),
                curve.ratio.value(),
                curve.knee_width_db.value(),
            );
            let below = level - t - w / 2real;
            if 2real * level >= 2real * t + w {
                r.value() == level
            } else if 2real * level < 2real * t - w {
                (r.value() - t) * k == level - t
            } else {
                ((2real * w) * k) * (r.value() - level) == (k - 1real) * (below * below)
            }
        }),
{
    lemma_constants();
    let (start, end) = choose|start: Single, end: Single| #[trigger]
        is_knee_range::<A>(curve, start, end) && if end.at_most(input_db) {
            r == input_db
        } else if start.at_most(input_db) {
            is_on_parabola::<A>(input_db, curve.knee, r)
        } else {
            is_on_slope::<A>(input_db, curve, r)
        };
    lemma_knee_ends::<A>(curve, start, end);
    lemma_order_is_by_value(start, input_db);
    lemma_order_is_by_value(end, input_db);
    lemma_order_is_by_value(curve.knee_width_db, single(ZERO));
    let (t, k, w) = (
        curve.threshold_db.value(),
        curve.ratio.value(),
        curve.knee_width_db.value(),
    );
    if end.at_most(input_db) {
    } else if start.at_most(input_db) {
        let bend = choose|bend: Single| #[trigger]
            is_knee_bend::<A>(curve.knee_width_db, curve.ratio, bend) && curve.knee.scale
                == bend.negated();
        lemma_knee_bend::<A>(curve.knee_width_db, curve.ratio, bend);
        lemma_signs(bend);
        lemma_regroup(0real, bend.value(), (2real * w) * k);
        lemma_sign_of_product(0real, (2real * w) * k);
        let reach = choose|reach: Single| #[trigger]
            halves::<A>(curve.knee_width_db, reach) && differences::<A>(
                curve.threshold_db.negated(),
                reach,
                curve.knee.intercept,
            );
        lemma_signs(curve.threshold_db);
        lemma_regroup(reach.value(), 2real, 0real);
        assert(curve.knee.scale.value() * ((2real * w) * k) == k - 1real);
        lemma_parabola::<A>(input_db, curve.knee, (2real * w) * k, k - 1real, r);
        let below = input_db.value() - t - w / 2real;
        assert(input_db.value() + curve.knee.intercept.value() == below);
    } else {
        let (excess, reduced) = choose|excess: Single, reduced: Single| #[trigger]
            differences::<A>(input_db, curve.threshold_db, excess) && #[trigger] quotients::<A>(
                excess,
                curve.ratio,
                reduced,
            ) && sums::<A>(curve.threshold_db, reduced, r);
        assert(r.value() - t == reduced.value());
    }
}

/// The gain of a bin is what both compressors change of its level together. The upwards one changes
/// nothing of the lowest bins, of silence, and at a ratio of one.
pub proof fn law_bin_gain_is_what_both_compressors_change<A: Arithmetic>(
    db: spec_fn(real) -> real,
    bin_idx: usize,
    first_non_dc_bin: usize,
    envelope: Single,
    downwards: TransferCurve,
    upwards: TransferCurve,
    r: Single,
) -> (levels: (Single, Single, Single))
    requires
        is_exact::<A>(),
        levels_follow::<A>(db),
        envelope.is_finite(),
        upwards.ratio.is_finite(),
        forall|level: Single, after: Single|
            level.is_finite() && #[trigger] is_compressed_downwards::<A>(level, downwards, after)
                ==> after.is_finite(),
        forall|level: Single, after: Single|
            level.is_finite() && #[trigger] is_compressed_upwards::<A>(level, upwards, after)
                ==> after.is_finite(),
        is_bin_gain::<A>(bin_idx, first_non_dc_bin, envelope, downwards, upwards, r),
    ensures
        ({
            let (level, lowered, raised) = levels;
            &&& level.is_finite() && level.value() == db(envelope.value())
            &&& r.is_finite()
            &&& r.value() == (lowered.value() - level.value()) + (raised.value() - level.value())
            &&& is_compressed_downwards::<A>(level, downwards, lowered)
            &&& if bin_idx >= first_non_dc_bin && upwards.ratio.value() != 1real && level.value()
                > -100real {
                is_compressed_upwards::<A>(level, upwards, raised)
            } else {
                raised.value() == level.value()
            }
        }),
{
    lemma_constants();
    lemma_silence();
    let (level, lowered, raised) = choose|
        envelope_db: Single,
        downwards_db: Single,
        upwards_db: Single,
    | #[trigger]
        fast_gain_levels::<A>(envelope, envelope_db) && #[trigger] is_compressed_downwards::<A>(
            envelope_db,
            downwards,
            downwards_db,
        ) && is_upwards_level::<A>(
            bin_idx,
            first_non_dc_bin,
            envelope_db,
            upwards,
            upwards_db,
        ) && #[trigger] is_gain_change::<A>(envelope_db, downwards_db, upwards_db, r);
    lemma_order_is_by_value(upwards.ratio, single(ONE));
    lemma_order_is_by_value(single(MINUS_INFINITY_DB), level);
    let (both, twice) = choose|both: Single, twice: Single| #[trigger]
        sums::<A>(lowered, raised, both) && #[trigger] products::<A>(level, single(TWO), twice)
            && differences::<A>(both, twice, r);
    lemma_regroup(level.value(), 2real, 0real);
    (level, lowered, raised)
}

/// Compression by the sidechain is plain compression with both thresholds moved by the level of the
/// sidechain, but not below -100 dB, and with the knees for them.
pub proof fn law_sidechain_moves_both_thresholds<A: Arithmetic>(
    db: spec_fn(real) -> real,
    bin_idx: usize,
    first_non_dc_bin: usize,
    envelope: Single,
    sidechain: Single,
    downwards: TransferCurve,
    upwards: TransferCurve,
    r: Single,
) -> (moved: (TransferCurve, TransferCurve))
    requires
        is_exact::<A>(),
        levels_follow::<A>(db),
        sidechain.is_finite(),
        downwards.threshold_db.is_finite() && upwards.threshold_db.is_finite(),
        is_sidechain_bin_gain::<A>(
            bin_idx,
            first_non_dc_bin,
            envelope,
            sidechain,
            downwards,
            upwards,
            r,
        ),
    ensures
        is_bin_gain::<A>(bin_idx, first_non_dc_bin, envelope, moved.0, moved.1, r),
        moved.0.threshold_db.is_finite() && moved.1.threshold_db.is_finite(),
        moved.0.threshold_db.value() == (if downwards.threshold_db.value() + db(sidechain.value())
            > -100real {
            downwards.threshold_db.value() + db(sidechain.value())
        } else {
            -100real
        }),
        moved.1.threshold_db.value() == (if upwards.threshold_db.value() + db(sidechain.value())
            > -100real {
            upwards.threshold_db.value() + db(sidechain.value())
        } else {
            -100real
        }),
        moved.0.ratio == downwards.ratio && moved.1.ratio == upwards.ratio,
        moved.0.knee_width_db == downwards.knee_width_db,
        moved.1.knee_width_db == upwards.knee_width_db,
        is_downwards_knee::<A>(
            moved.0.threshold_db,
            downwards.knee_width_db,
            downwards.ratio,
            moved.0.knee,
        ),
        is_upwards_knee::<A>(
            moved.1.threshold_db,
            upwards.knee_width_db,
            upwards.ratio,
            moved.1.knee,
        ),
{
    lemma_silence();
    let (level, down, up) = choose|
        sidechain_scale_db: Single,
        scaled_downwards: TransferCurve,
        scaled_upwards: TransferCurve,
    | #[trigger]
        fast_gain_levels::<A>(sidechain, sidechain_scale_db)
            && #[trigger] is_scaled_downwards::<A>(
            downwards.threshold_db,
            downwards.ratio,
            downwards.knee_width_db,
            sidechain_scale_db,
            scaled_downwards,
        ) && #[trigger] is_scaled_upwards::<A>(
            upwards.threshold_db,
            upwards.ratio,
            upwards.knee_width_db,
            sidechain_scale_db,
            scaled_upwards,
        ) && is_bin_gain::<A>(
            bin_idx,
            first_non_dc_bin,
            envelope,
            scaled_downwards,
            scaled_upwards,
            r,
        );
    let first = choose|sum: Single| #[trigger]
        sums::<A>(downwards.threshold_db, level, sum) && down.threshold_db == sum.larger(
            single(MINUS_INFINITY_DB),
        );
    let second = choose|sum: Single| #[trigger]
        sums::<A>(upwards.threshold_db, level, sum) && up.threshold_db == sum.larger(
            single(MINUS_INFINITY_DB),
        );
    lemma_selections(first, single(MINUS_INFINITY_DB), single(MINUS_INFINITY_DB));
    lemma_selections(second, single(MINUS_INFINITY_DB), single(MINUS_INFINITY_DB));
    (down, up)
}

/// The ratio at a bin lies between the set one and one, on a scale of reciprocals: its reciprocal
/// moves from that of the set ratio towards one, by the rolloff at 22,050 Hz and by its share at
/// lower octaves.
pub proof fn law_rolloff_moves_ratios_towards_one<A: Arithmetic>(
    target_ratio_recip: Single,
    rolloff: Single,
    ln_freq: Single,
    share: real,
    r: Single,
)
    requires
        is_exact::<A>(),
        target_ratio_recip.is_finite() && rolloff.is_finite() && ln_freq.is_finite(),
        share * single(HIGH_FREQ_RATIO_ROLLOFF_FREQUENCY_LN).value() == (if ln_freq.value()
            > 0real {
            ln_freq.value()
        } else {
            0real
        }),
        target_ratio_recip.value() + (share * rolloff.value()) * (1real
            - target_ratio_recip.value()) != 0real,
        is_rolled_off_ratio::<A>(target_ratio_recip, rolloff, ln_freq, r),
    ensures
        r.is_finite(),
        r.value() * (target_ratio_recip.value() + (share * rolloff.value()) * (1real
            - target_ratio_recip.value())) == 1real,
        10real < single(HIGH_FREQ_RATIO_ROLLOFF_FREQUENCY_LN).value(),
        single(HIGH_FREQ_RATIO_ROLLOFF_FREQUENCY_LN).value() * 1000real < 10002real,
{
    lemma_constants();
    vstd::arithmetic::power2::lemma2_to64();
    assert(pow2(20) == 0x10_0000);
    assert(pow2(20) as int as real == 1048576real);
    lemma_value_of(HIGH_FREQ_RATIO_ROLLOFF_FREQUENCY_LN, 0xa0_0460, 20);
    let whole = single(HIGH_FREQ_RATIO_ROLLOFF_FREQUENCY_LN);
    let (fraction, t, rest, kept, recip) = choose|
        fraction: Single,
        t: Single,
        rest: Single,
        kept: Single,
        recip: Single,
    | #[trigger]
        quotients::<A>(ln_freq, single(HIGH_FREQ_RATIO_ROLLOFF_FREQUENCY_LN), fraction)
            && #[trigger] products::<A>(fraction.larger(single(ZERO)), rolloff, t)
            && #[trigger] differences::<A>(single(ONE), t, rest) && #[trigger] products::<A>(
            target_ratio_recip,
            rest,
            kept,
        ) && #[trigger] sums::<A>(kept, t, recip) && reciprocals::<A>(recip, r);
    lemma_selections(fraction, single(ZERO), single(ZERO));
    let (f, h) = (fraction.value(), whole.value());
    let positive = fraction.larger(single(ZERO)).value();
    lemma_sign_of_product(f, h);
    lemma_sign_of_product(-f, h);
    lemma_regroup(0real, f, h);
    assert(positive * h == share * h) by {
        if f <= 0real {
            assert(0real * h == 0real);
        }
    }
    lemma_cancel(positive, share, h);
    let (g, m) = (target_ratio_recip.value(), t.value());
    assert(m == share * rolloff.value());
    lemma_regroup(g, 1real, m);
    lemma_regroup(m, 1real, g);
    lemma_regroup(g, m, 0real);
    assert(recip.value() == g + m * (1real - g));
}

/// The sidechain moves both thresholds alike: where they are the same, they stay the same. This
/// needs no exact arithmetic. `moved` are the curves that the gain is computed with.
pub proof fn law_sidechain_moves_equal_thresholds_alike<A: Arithmetic>(
    bin_idx: usize,
    first_non_dc_bin: usize,
    envelope: Single,
    sidechain: Single,
    downwards: TransferCurve,
    upwards: TransferCurve,
    r: Single,
) -> (moved: (TransferCurve, TransferCurve))
    requires
        sums_are_fixed::<A>(),
        is_sidechain_bin_gain::<A>(
            bin_idx,
            first_non_dc_bin,
            envelope,
            sidechain,
            downwards,
            upwards,
            r,
        ),
        downwards.threshold_db == upwards.threshold_db,
    ensures
        is_bin_gain::<A>(bin_idx, first_non_dc_bin, envelope, moved.0, moved.1, r),
        moved.0.threshold_db == moved.1.threshold_db,
        exists|level: Single, sum: Single| #[trigger]
            fast_gain_levels::<A>(sidechain, level) && #[trigger] sums::<A>(
                downwards.threshold_db,
                level,
                sum,
            ) && (sum.is_nan() || sum.at_most(moved.0.threshold_db)),
{
    let (sidechain_db, down, up) = choose|
        sidechain_scale_db: Single,
        scaled_downwards: TransferCurve,
        scaled_upwards: TransferCurve,
    | #[trigger]
        fast_gain_levels::<A>(sidechain, sidechain_scale_db) && #[trigger] is_scaled_downwards::<A>(
            downwards.threshold_db,
            downwards.ratio,
            downwards.knee_width_db,
            sidechain_scale_db,
            scaled_downwards,
        ) && #[trigger] is_scaled_upwards::<A>(
            upwards.threshold_db,
            upwards.ratio,
            upwards.knee_width_db,
            sidechain_scale_db,
            scaled_upwards,
        ) && is_bin_gain::<A>(
            bin_idx,
            first_non_dc_bin,
            envelope,
            scaled_downwards,
            scaled_upwards,
            r,
        );
    let first = choose|sum: Single| #[trigger]
        sums::<A>(downwards.threshold_db, sidechain_db, sum) && down.threshold_db == sum.larger(
            single(MINUS_INFINITY_DB),
        );
    let second = choose|sum: Single| #[trigger]
        sums::<A>(upwards.threshold_db, sidechain_db, sum) && up.threshold_db == sum.larger(
            single(MINUS_INFINITY_DB),
        );
    assert(first == second);
    (down, up)
}

} // verus!
