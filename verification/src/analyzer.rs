//! What the audio thread tells the editor's spectrum analyzer.

use vstd::prelude::*;

use crate::curve::{no_point, no_points, CurveParams, MAX_THRESHOLD_CURVE_POINTS};
use crate::frozen_ir::{flat_gains, is_flat};
use crate::single::{single, Single, ZERO};

verus! {

/// The data for the spectrum analyzer and the gain reduction display.
pub struct AnalyzerData {
    /// The parameters used for the target curve.
    pub curve_params: CurveParams,
    /// The upwards and the downwards threshold offsets.
    pub curve_offsets_db: (Single, Single),
    /// How many bins are in use. The lists below may be longer.
    pub num_bins: usize,
    /// The envelope of each bin, averaged over the channels.
    pub envelope_followers: Vec<Single>,
    /// The gain of each bin, averaged over the channels.
    pub gain_difference_db: Vec<Single>,
}

impl Default for AnalyzerData {
    fn default() -> (data: AnalyzerData)
        ensures
            data.num_bins == 0,
            data.curve_offsets_db == (single(ZERO), single(ZERO)),
            data.curve_params.intercept == single(ZERO),
            data.curve_params.center_frequency == single(ZERO),
            data.curve_params.slope == single(ZERO),
            data.curve_params.curve == single(ZERO),
            forall|i: int|
                0 <= i < MAX_THRESHOLD_CURVE_POINTS ==> data.curve_params.points@[i] == no_point(),
            is_flat(data.envelope_followers@),
            is_flat(data.gain_difference_db@),
    {
        AnalyzerData {
            curve_params: CurveParams {
                intercept: single(ZERO),
                center_frequency: single(ZERO),
                slope: single(ZERO),
                curve: single(ZERO),
                points: no_points(),
            },
            curve_offsets_db: (single(ZERO), single(ZERO)),
            num_bins: 0,
            envelope_followers: flat_gains(),
            gain_difference_db: flat_gains(),
        }
    }
}

/// The values, with zeros added up to the given length.
pub open spec fn padded(values: Seq<Single>, len: nat) -> Seq<Single> {
    Seq::new(
        if values.len() < len {
            len
        } else {
            values.len()
        },
        |i: int|
            if i < values.len() {
                values[i]
            } else {
                single(ZERO)
            },
    )
}

/// Adds zeros up to the given length.
pub fn pad(values: &mut Vec<Single>, len: usize)
    ensures
        final(values)@ == padded(old(values)@, len as nat),
{
    if values.len() < len {
        values.resize(len, single(ZERO));
    }
    assert(values@ =~= padded(old(values)@, len as nat));
}

} // verus!
