//! The precomputed values of the compressors of one direction.

use vstd::prelude::*;

use crate::arithmetic::{sums, Arithmetic};
use crate::curve::Curve;
use crate::dynamics::{
    downwards_soft_knee_coefficients, is_downwards_knee, is_rolled_off_ratio, is_upwards_knee,
    law_rolloff_moves_ratios_towards_one, reciprocal, reciprocals, rolled_off_ratio,
    upwards_soft_knee_coefficients, KneeParabola, TransferCurve,
    HIGH_FREQ_RATIO_ROLLOFF_FREQUENCY_LN,
};
use crate::exact::{
    is_exact, lemma_cancel, lemma_constants, lemma_regroup, lemma_sign_of_product,
};
use crate::lists::{has_reserved, is_made_for, reserve_values, resize_values, resized};
use crate::params::CompressorParams;
use crate::single::{single, Single, ONE};
use crate::updates::{Direction, Updates};

verus! {

/// One compressor for each bin.
pub struct Compressors {
    /// Compressor thresholds, in decibels.
    pub thresholds_db: Vec<Single>,
    /// At 1.0 the compressors won't do anything. Without a rolloff this will be the same for each
    /// compressor.
    pub ratios: Vec<Single>,
    /// The knee is modelled as a parabola using the formula `x + a * (x + b)^2`. This is `a` in
    /// that equation.
    pub knee_parabola_scale: Vec<Single>,
    /// `b` in the equation from `knee_parabola_scale`.
    pub knee_parabola_intercept: Vec<Single>,
}

/// `r` is the threshold at a frequency.
pub open spec fn is_threshold<A: Arithmetic>(
    curve: Curve,
    offset_db: Single,
    ln_freq: Single,
    r: Single,
) -> bool {
    exists|level: Single| #[trigger]
        curve.is_level::<A>(ln_freq, level) && sums::<A>(level, offset_db, r)
}

/// `thresholds` are those at the given frequencies.
pub open spec fn are_thresholds<A: Arithmetic>(
    curve: Curve,
    offset_db: Single,
    ln_freqs: Seq<Single>,
    thresholds: Seq<Single>,
) -> bool {
    &&& thresholds.len() == ln_freqs.len()
    &&& forall|i: int|
        0 <= i < thresholds.len() ==> is_threshold::<A>(
            curve,
            offset_db,
            ln_freqs[i],
            #[trigger] thresholds[i],
        )
}

/// `ratios` are those at the given frequencies.
pub open spec fn are_ratios<A: Arithmetic>(
    ratio: Single,
    rolloff: Single,
    ln_freqs: Seq<Single>,
    ratios: Seq<Single>,
) -> bool {
    &&& ratios.len() == ln_freqs.len()
    &&& exists|target_ratio_recip: Single| #[trigger]
        reciprocals::<A>(ratio, target_ratio_recip) && forall|i: int|
            0 <= i < ratios.len() ==> is_rolled_off_ratio::<A>(
                target_ratio_recip,
                rolloff,
                ln_freqs[i],
                #[trigger] ratios[i],
            )
}

/// `knee` is the parabola for a direction.
pub open spec fn is_knee<A: Arithmetic>(
    direction: Direction,
    threshold_db: Single,
    knee_width_db: Single,
    ratio: Single,
    knee: KneeParabola,
) -> bool {
    match direction {
        Direction::Downwards => is_downwards_knee::<A>(threshold_db, knee_width_db, ratio, knee),
        Direction::Upwards => is_upwards_knee::<A>(threshold_db, knee_width_db, ratio, knee),
    }
}

fn soft_knee<A: Arithmetic>(
    direction: Direction,
    threshold_db: Single,
    knee_width_db: Single,
    ratio: Single,
) -> (knee: KneeParabola)
    ensures
        is_knee::<A>(direction, threshold_db, knee_width_db, ratio, knee),
{
    match direction {
        Direction::Downwards => downwards_soft_knee_coefficients::<A>(
            threshold_db,
            knee_width_db,
            ratio,
        ),
        Direction::Upwards => upwards_soft_knee_coefficients::<A>(
            threshold_db,
            knee_width_db,
            ratio,
        ),
    }
}

impl Compressors {
    /// There is one compressor for each of `n` bins.
    pub open spec fn has_bins(self, n: nat) -> bool {
        &&& self.thresholds_db@.len() == n
        &&& self.ratios@.len() == n
        &&& self.knee_parabola_scale@.len() == n
        &&& self.knee_parabola_intercept@.len() == n
    }

    /// What the compressor at a bin does.
    pub open spec fn transfer_at(self, bin: int, knee_width_db: Single) -> TransferCurve {
        TransferCurve {
            threshold_db: self.thresholds_db@[bin],
            ratio: self.ratios@[bin],
            knee_width_db,
            knee: KneeParabola {
                scale: self.knee_parabola_scale@[bin],
                intercept: self.knee_parabola_intercept@[bin],
            },
        }
    }

    /// What the compressor at a bin does.
    pub fn transfer(&self, bin: usize, knee_width_db: Single) -> (curve: TransferCurve)
        requires
            exists|n: nat| self.has_bins(n) && bin < n,
        ensures
            curve == self.transfer_at(bin as int, knee_width_db),
    {
        TransferCurve {
            threshold_db: self.thresholds_db[bin],
            ratio: self.ratios[bin],
            knee_width_db,
            knee: KneeParabola {
                scale: self.knee_parabola_scale[bin],
                intercept: self.knee_parabola_intercept[bin],
            },
        }
    }

    /// No compressors, with space for the given number of them.
    pub fn new(capacity: usize) -> (compressors: Compressors)
        ensures
            compressors.has_bins(0),
            is_made_for(capacity, compressors.thresholds_db),
            is_made_for(capacity, compressors.ratios),
            is_made_for(capacity, compressors.knee_parabola_scale),
            is_made_for(capacity, compressors.knee_parabola_intercept),
    {
        Compressors {
            thresholds_db: Vec::with_capacity(capacity),
            ratios: Vec::with_capacity(capacity),
            knee_parabola_scale: Vec::with_capacity(capacity),
            knee_parabola_intercept: Vec::with_capacity(capacity),
        }
    }

    /// Both have the same values.
    pub open spec fn same_as(self, other: Compressors) -> bool {
        &&& self.thresholds_db@ == other.thresholds_db@
        &&& self.ratios@ == other.ratios@
        &&& self.knee_parabola_scale@ == other.knee_parabola_scale@
        &&& self.knee_parabola_intercept@ == other.knee_parabola_intercept@
    }

    /// Reserves space for the given number of compressors, in each list on its own.
    pub fn reserve(&mut self, capacity: usize)
        ensures
            final(self).same_as(*old(self)),
            exists|list: &mut Vec<Single>| #[trigger]
                has_reserved(list, capacity) && *list == old(self).thresholds_db && *final(list)
                    == final(self).thresholds_db,
            exists|list: &mut Vec<Single>| #[trigger]
                has_reserved(list, capacity) && *list == old(self).ratios && *final(list)
                    == final(self).ratios,
            exists|list: &mut Vec<Single>| #[trigger]
                has_reserved(list, capacity) && *list == old(self).knee_parabola_scale
                    && *final(list) == final(self).knee_parabola_scale,
            exists|list: &mut Vec<Single>| #[trigger]
                has_reserved(list, capacity) && *list == old(self).knee_parabola_intercept
                    && *final(list) == final(self).knee_parabola_intercept,
    {
        reserve_values(&mut self.thresholds_db, capacity);
        reserve_values(&mut self.ratios, capacity);
        reserve_values(&mut self.knee_parabola_scale, capacity);
        reserve_values(&mut self.knee_parabola_intercept, capacity);
    }

    /// The first compressors stay what they were. New ones have all values at 1.0.
    pub open spec fn is_resized(self, len: nat, after: Compressors) -> bool {
        &&& after.thresholds_db@ == resized(self.thresholds_db@, len, single(ONE))
        &&& after.ratios@ == resized(self.ratios@, len, single(ONE))
        &&& after.knee_parabola_scale@ == resized(self.knee_parabola_scale@, len, single(ONE))
        &&& after.knee_parabola_intercept@ == resized(
            self.knee_parabola_intercept@,
            len,
            single(ONE),
        )
    }

    /// Changes how many compressors there are.
    pub fn resize(&mut self, len: usize)
        ensures
            old(self).is_resized(len as nat, *final(self)),
    {
        resize_values(&mut self.thresholds_db, len, single(ONE));
        resize_values(&mut self.ratios, len, single(ONE));
        resize_values(&mut self.knee_parabola_scale, len, single(ONE));
        resize_values(&mut self.knee_parabola_intercept, len, single(ONE));
    }

    fn update_thresholds<A: Arithmetic>(
        &mut self,
        curve: &Curve,
        offset_db: Single,
        ln_freqs: &Vec<Single>,
    )
        requires
            old(self).has_bins(ln_freqs@.len()),
        ensures
            *final(self) == (Compressors {
                thresholds_db: final(self).thresholds_db,
                ..*old(self)
            }),
            are_thresholds::<A>(*curve, offset_db, ln_freqs@, final(self).thresholds_db@),
    {
        let mut index: usize = 0;
        while index < ln_freqs.len()
            invariant
                index <= ln_freqs@.len(),
                *self == (Compressors { thresholds_db: self.thresholds_db, ..*old(self) }),
                self.thresholds_db@.len() == ln_freqs@.len(),
                forall|i: int|
                    0 <= i < index ==> is_threshold::<A>(
                        *curve,
                        offset_db,
                        ln_freqs@[i],
                        #[trigger] self.thresholds_db@[i],
                    ),
            decreases ln_freqs.len() - index,
        {
            let level = curve.evaluate_ln::<A>(ln_freqs[index]);
            let threshold_db = A::sum(level, offset_db);
            assert(is_threshold::<A>(*curve, offset_db, ln_freqs@[index as int], threshold_db));
            self.thresholds_db[index] = threshold_db;
            index += 1;
        }
    }

    fn update_ratios<A: Arithmetic>(
        &mut self,
        ratio: Single,
        rolloff: Single,
        ln_freqs: &Vec<Single>,
    )
        requires
            old(self).has_bins(ln_freqs@.len()),
        ensures
            *final(self) == (Compressors { ratios: final(self).ratios, ..*old(self) }),
            are_ratios::<A>(ratio, rolloff, ln_freqs@, final(self).ratios@),
    {
        let target_ratio_recip = reciprocal::<A>(ratio);
        let mut index: usize = 0;
        while index < ln_freqs.len()
            invariant
                index <= ln_freqs@.len(),
                *self == (Compressors { ratios: self.ratios, ..*old(self) }),
                self.ratios@.len() == ln_freqs@.len(),
                forall|i: int|
                    0 <= i < index ==> is_rolled_off_ratio::<A>(
                        target_ratio_recip,
                        rolloff,
                        ln_freqs@[i],
                        #[trigger] self.ratios@[i],
                    ),
            decreases ln_freqs.len() - index,
        {
            self.ratios[index] = rolled_off_ratio::<A>(
                target_ratio_recip,
                rolloff,
                ln_freqs[index],
            );
            index += 1;
        }
    }

    /// The knees are those for the current thresholds and ratios.
    pub open spec fn has_knees<A: Arithmetic>(
        self,
        direction: Direction,
        knee_width_db: Single,
        count: int,
    ) -> bool {
        forall|i: int|
            0 <= i < count ==> is_knee::<A>(
                direction,
                self.thresholds_db@[i],
                knee_width_db,
                self.ratios@[i],
                KneeParabola {
                    scale: #[trigger] self.knee_parabola_scale@[i],
                    intercept: self.knee_parabola_intercept@[i],
                },
            )
    }

    fn update_knees<A: Arithmetic>(
        &mut self,
        direction: Direction,
        knee_width_db: Single,
        n: usize,
    )
        requires
            old(self).has_bins(n as nat),
        ensures
            *final(self) == (Compressors {
                knee_parabola_scale: final(self).knee_parabola_scale,
                knee_parabola_intercept: final(self).knee_parabola_intercept,
                ..*old(self)
            }),
            final(self).has_bins(n as nat),
            final(self).has_knees::<A>(direction, knee_width_db, n as int),
    {
        let mut index: usize = 0;
        while index < n
            invariant
                index <= n,
                *self == (Compressors {
                    knee_parabola_scale: self.knee_parabola_scale,
                    knee_parabola_intercept: self.knee_parabola_intercept,
                    ..*old(self)
                }),
                self.has_bins(n as nat),
                self.has_knees::<A>(direction, knee_width_db, index as int),
            decreases n - index,
        {
            let ghost before = *self;
            let knee = soft_knee::<A>(
                direction,
                self.thresholds_db[index],
                knee_width_db,
                self.ratios[index],
            );
            self.knee_parabola_scale[index] = knee.scale;
            self.knee_parabola_intercept[index] = knee.intercept;
            assert forall|i: int| 0 <= i < index + 1 implies is_knee::<A>(
                direction,
                self.thresholds_db@[i],
                knee_width_db,
                self.ratios@[i],
                KneeParabola {
                    scale: #[trigger] self.knee_parabola_scale@[i],
                    intercept: self.knee_parabola_intercept@[i],
                },
            ) by {
                if i < index {
                    assert(self.knee_parabola_scale@[i] == before.knee_parabola_scale@[i]);
                } else {
                    assert(knee == KneeParabola { scale: knee.scale, intercept: knee.intercept });
                }
            }
            index += 1;
        }
    }

    /// `after` has the values that are due recomputed, the others are what they were.
    pub open spec fn is_updated<A: Arithmetic>(
        self,
        direction: Direction,
        params: CompressorParams,
        curve: Curve,
        due: Updates,
        ln_freqs: Seq<Single>,
        after: Compressors,
    ) -> bool {
        &&& if due.thresholds {
            are_thresholds::<A>(
                curve,
                params.threshold_offset_db,
                ln_freqs,
                after.thresholds_db@,
            )
        } else {
            after.thresholds_db == self.thresholds_db
        }
        &&& if due.ratios {
            are_ratios::<A>(
                params.ratio,
                params.high_freq_ratio_rolloff,
                ln_freqs,
                after.ratios@,
            )
        } else {
            after.ratios == self.ratios
        }
        &&& if due.knee_parabolas {
            after.has_knees::<A>(direction, params.knee_width_db, ln_freqs.len() as int)
        } else {
            &&& after.knee_parabola_scale == self.knee_parabola_scale
            &&& after.knee_parabola_intercept == self.knee_parabola_intercept
        }
    }

    /// Recomputes the values that are due.
    pub fn update<A: Arithmetic>(
        &mut self,
        direction: Direction,
        params: CompressorParams,
        curve: &Curve,
        due: Updates,
        ln_freqs: &Vec<Single>,
    )
        requires
            old(self).has_bins(ln_freqs@.len()),
        ensures
            final(self).has_bins(ln_freqs@.len()),
            old(self).is_updated::<A>(direction, params, *curve, due, ln_freqs@, *final(self)),
    {
        if due.thresholds {
            self.update_thresholds::<A>(curve, params.threshold_offset_db, ln_freqs);
        }
        if due.ratios {
            self.update_ratios::<A>(params.ratio, params.high_freq_ratio_rolloff, ln_freqs);
        }
        if due.knee_parabolas {
            self.update_knees::<A>(direction, params.knee_width_db, ln_freqs.len());
        }
    }
}

/// The thresholds lie over the curve by the offset. `level` is what the curve has at the frequency.
pub proof fn law_thresholds_lie_over_the_curve_by_the_offset<A: Arithmetic>(
    curve: Curve,
    offset_db: Single,
    ln_freq: Single,
    level: real,
    threshold: Single,
)
    requires
        is_exact::<A>(),
        offset_db.is_finite(),
        forall|l: Single| #[trigger]
            curve.is_level::<A>(ln_freq, l) ==> l.is_finite() && l.value() == level,
        is_threshold::<A>(curve, offset_db, ln_freq, threshold),
    ensures
        threshold.is_finite(),
        threshold.value() - level == offset_db.value(),
{
}

/// The ratio of a bin is the set one, with its reciprocal moved towards one by the rolloff. Without
/// a rolloff it is the set one.
pub proof fn law_ratios_follow_the_set_one<A: Arithmetic>(
    ratio: Single,
    rolloff: Single,
    ln_freqs: Seq<Single>,
    ratios: Seq<Single>,
    bin: int,
    recip: real,
    share: real,
)
    requires
        is_exact::<A>(),
        ratio.is_finite() && rolloff.is_finite(),
        recip * ratio.value() == 1real,
        are_ratios::<A>(ratio, rolloff, ln_freqs, ratios),
        0 <= bin < ln_freqs.len(),
        ln_freqs[bin].is_finite(),
        share * single(HIGH_FREQ_RATIO_ROLLOFF_FREQUENCY_LN).value() == (if ln_freqs[bin].value()
            > 0real {
            ln_freqs[bin].value()
        } else {
            0real
        }),
        recip + (share * rolloff.value()) * (1real - recip) != 0real,
    ensures
        ratios[bin].is_finite(),
        ratios[bin].value() * (recip + (share * rolloff.value()) * (1real - recip)) == 1real,
        rolloff.value() == 0real ==> ratios[bin].value() == ratio.value(),
{
    lemma_constants();
    lemma_sign_of_product(recip, ratio.value());
    let own_recip = choose|target_ratio_recip: Single| #[trigger]
        reciprocals::<A>(ratio, target_ratio_recip) && forall|i: int|
            0 <= i < ratios.len() ==> is_rolled_off_ratio::<A>(
                target_ratio_recip,
                rolloff,
                ln_freqs[i],
                #[trigger] ratios[i],
            );
    lemma_cancel(own_recip.value(), recip, ratio.value());
    assert(is_rolled_off_ratio::<A>(own_recip, rolloff, ln_freqs[bin], ratios[bin]));
    law_rolloff_moves_ratios_towards_one::<A>(
        own_recip,
        rolloff,
        ln_freqs[bin],
        share,
        ratios[bin],
    );
    if rolloff.value() == 0real {
        lemma_sign_of_product(share, rolloff.value());
        lemma_sign_of_product(share * rolloff.value(), 1real - recip);
        lemma_regroup(recip, ratio.value(), 0real);
        lemma_cancel(ratios[bin].value(), ratio.value(), recip);
    }
}

/// Where all values are recomputed, the knee at a bin is the one for the threshold and the ratio
/// that the bin has then, and for the width of its direction.
pub proof fn law_knees_belong_to_their_thresholds<A: Arithmetic>(
    before: Compressors,
    direction: Direction,
    params: CompressorParams,
    curve: Curve,
    due: Updates,
    ln_freqs: Seq<Single>,
    after: Compressors,
    bin: int,
)
    requires
        before.is_updated::<A>(direction, params, curve, due, ln_freqs, after),
        due.knee_parabolas,
        0 <= bin < ln_freqs.len(),
    ensures
        ({
            let transfer = after.transfer_at(bin, params.knee_width_db);
            &&& transfer.threshold_db == after.thresholds_db@[bin]
            &&& transfer.ratio == after.ratios@[bin]
            &&& direction is Downwards ==> is_downwards_knee::<A>(
                transfer.threshold_db,
                transfer.knee_width_db,
                transfer.ratio,
                transfer.knee,
            )
            &&& direction is Upwards ==> is_upwards_knee::<A>(
                transfer.threshold_db,
                transfer.knee_width_db,
                transfer.ratio,
                transfer.knee,
            )
        }),
{
    assert(is_knee::<A>(
        direction,
        after.thresholds_db@[bin],
        params.knee_width_db,
        after.ratios@[bin],
        KneeParabola {
            scale: after.knee_parabola_scale@[bin],
            intercept: after.knee_parabola_intercept@[bin],
        },
    ));
}

} // verus!
