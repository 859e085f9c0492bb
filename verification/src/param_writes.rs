//! The parameter changes that the editor makes.

use vstd::prelude::*;

use crate::curve::{CurvePoint, MAX_THRESHOLD_CURVE_POINTS};
use crate::curve_preset::{CurvePreset, CurvePresetSource};
use crate::match_curve::MatchCurveFit;
use crate::params::{ThresholdCurvePointParams, ThresholdParam};
use crate::single::Single;

verus! {

/// A parameter that the editor changes. Curve points are given by the index of their slot.
#[derive(Clone, Copy, PartialEq, Eq, Debug, Structural)]
pub enum ParamTarget {
    OutputGain,
    ThresholdDb,
    CenterFrequency,
    CurveSlope,
    CurveCurve,
    PointEnabled(usize),
    PointFrequency(usize),
    PointOffsetDb(usize),
}

/// The value that a parameter gets.
#[derive(Clone, Copy, PartialEq, Eq, Debug, Structural)]
pub enum ParamValue {
    Number(Single),
    Flag(bool),
}

/// One parameter change.
#[derive(Clone, Copy, PartialEq, Eq, Debug, Structural)]
pub struct ParamWrite {
    pub target: ParamTarget,
    pub value: ParamValue,
}

/// A number for a parameter.
#[verifier::allow_in_spec]
pub fn number_write(target: ParamTarget, value: Single) -> ParamWrite
    returns
        (ParamWrite { target, value: ParamValue::Number(value) }),
{
    ParamWrite { target, value: ParamValue::Number(value) }
}

/// A flag for a parameter.
#[verifier::allow_in_spec]
pub fn flag_write(target: ParamTarget, value: bool) -> ParamWrite
    returns
        (ParamWrite { target, value: ParamValue::Flag(value) }),
{
    ParamWrite { target, value: ParamValue::Flag(value) }
}

/// The changes that set the first `count` curve points.
pub open spec fn point_writes(points: Seq<CurvePoint>, count: nat) -> Seq<ParamWrite>
    decreases count,
{
    if count == 0 {
        Seq::empty()
    } else {
        let index = (count - 1) as usize;
        let point = points[count - 1];
        point_writes(points, (count - 1) as nat).push(
            flag_write(ParamTarget::PointEnabled(index), point.enabled),
        ).push(number_write(ParamTarget::PointFrequency(index), point.frequency)).push(
            number_write(ParamTarget::PointOffsetDb(index), point.offset_db),
        )
    }
}

fn push_point_writes(
    writes: &mut Vec<ParamWrite>,
    points: &[CurvePoint; MAX_THRESHOLD_CURVE_POINTS],
)
    ensures
        final(writes)@ == old(writes)@ + point_writes(
            points@,
            MAX_THRESHOLD_CURVE_POINTS as nat,
        ),
{
    let mut index: usize = 0;
    assert(writes@ =~= old(writes)@ + point_writes(points@, 0));
    while index < MAX_THRESHOLD_CURVE_POINTS
        invariant
            index <= MAX_THRESHOLD_CURVE_POINTS,
            writes@ == old(writes)@ + point_writes(points@, index as nat),
        decreases MAX_THRESHOLD_CURVE_POINTS - index,
    {
        let point = points[index];
        writes.push(flag_write(ParamTarget::PointEnabled(index), point.enabled));
        writes.push(number_write(ParamTarget::PointFrequency(index), point.frequency));
        writes.push(number_write(ParamTarget::PointOffsetDb(index), point.offset_db));
        assert(writes@ =~= old(writes)@ + point_writes(points@, (index + 1) as nat));
        index += 1;
    }
}

/// The changes that apply a preset. The center and the slope are left as they are by built-in
/// presets.
pub open spec fn preset_writes(preset: CurvePreset, source: CurvePresetSource) -> Seq<ParamWrite> {
    let anchor = if source.applies_anchor_parameters() {
        seq![
            number_write(ParamTarget::CenterFrequency, preset.center_frequency),
            number_write(ParamTarget::CurveSlope, preset.curve_slope),
        ]
    } else {
        Seq::empty()
    };
    seq![number_write(ParamTarget::ThresholdDb, preset.threshold_db)] + anchor + seq![
        number_write(ParamTarget::CurveCurve, preset.curve_curve),
    ] + point_writes(preset.points@, MAX_THRESHOLD_CURVE_POINTS as nat)
}

/// The changes that apply a preset.
pub fn apply_curve_preset(preset: &CurvePreset, source: CurvePresetSource) -> (writes: Vec<
    ParamWrite,
>)
    ensures
        writes@ == preset_writes(*preset, source),
{
    let mut writes: Vec<ParamWrite> = Vec::new();
    writes.push(number_write(ParamTarget::ThresholdDb, preset.threshold_db));
    if source.applies_anchor_parameters() {
        writes.push(number_write(ParamTarget::CenterFrequency, preset.center_frequency));
        writes.push(number_write(ParamTarget::CurveSlope, preset.curve_slope));
    }
    writes.push(number_write(ParamTarget::CurveCurve, preset.curve_curve));
    push_point_writes(&mut writes, &preset.points);
    assert(writes@ =~= preset_writes(*preset, source));
    writes
}

/// The changes that apply a fitted curve. Its center and its slope are the ones that it was fitted
/// for, so they stay what they are.
pub open spec fn fit_writes(fit: MatchCurveFit) -> Seq<ParamWrite> {
    seq![
        number_write(ParamTarget::ThresholdDb, fit.intercept),
        number_write(ParamTarget::CurveCurve, fit.curve),
    ] + point_writes(fit.points@, MAX_THRESHOLD_CURVE_POINTS as nat)
}

/// The changes that apply a fitted curve.
pub fn apply_match_curve(fit: &MatchCurveFit) -> (writes: Vec<ParamWrite>)
    ensures
        writes@ == fit_writes(*fit),
{
    let mut writes: Vec<ParamWrite> = Vec::new();
    writes.push(number_write(ParamTarget::ThresholdDb, fit.intercept));
    writes.push(number_write(ParamTarget::CurveCurve, fit.curve));
    push_point_writes(&mut writes, &fit.points);
    assert(writes@ =~= fit_writes(*fit));
    writes
}

/// The curve points that a curve starts with.
pub open spec fn default_points() -> Seq<CurvePoint> {
    Seq::new(
        MAX_THRESHOLD_CURVE_POINTS as nat,
        |i: int| ThresholdCurvePointParams::new().curve_point(),
    )
}

/// The changes that bring the curve back to how it starts.
pub open spec fn clear_writes() -> Seq<ParamWrite> {
    seq![
        number_write(ParamTarget::ThresholdDb, ThresholdParam::ThresholdDb.setting().default),
        number_write(
            ParamTarget::CenterFrequency,
            ThresholdParam::CenterFrequency.setting().default,
        ),
        number_write(ParamTarget::CurveSlope, ThresholdParam::CurveSlope.setting().default),
        number_write(ParamTarget::CurveCurve, ThresholdParam::CurveCurve.setting().default),
    ] + point_writes(default_points(), MAX_THRESHOLD_CURVE_POINTS as nat)
}

/// The changes that bring the curve back to how it starts.
pub fn clear_match_curve() -> (writes: Vec<ParamWrite>)
    ensures
        writes@ == clear_writes(),
{
    let mut writes: Vec<ParamWrite> = Vec::new();
    writes.push(
        number_write(ParamTarget::ThresholdDb, ThresholdParam::ThresholdDb.setting().default),
    );
    writes.push(
        number_write(
            ParamTarget::CenterFrequency,
            ThresholdParam::CenterFrequency.setting().default,
        ),
    );
    writes.push(
        number_write(ParamTarget::CurveSlope, ThresholdParam::CurveSlope.setting().default),
    );
    writes.push(
        number_write(ParamTarget::CurveCurve, ThresholdParam::CurveCurve.setting().default),
    );
    let point = ThresholdCurvePointParams::new().curve_point();
    let points = [point, point, point, point, point, point, point, point];
    assert(points@ =~= default_points());
    push_point_writes(&mut writes, &points);
    assert(writes@ =~= clear_writes());
    writes
}

proof fn lemma_point_writes_set_points(points: Seq<CurvePoint>, count: nat, i: int)
    requires
        0 <= i < point_writes(points, count).len(),
    ensures
        point_writes(points, count)[i].target is PointEnabled
            || point_writes(points, count)[i].target is PointFrequency
            || point_writes(points, count)[i].target is PointOffsetDb,
    decreases count,
{
    if count > 0 && i < point_writes(points, (count - 1) as nat).len() {
        lemma_point_writes_set_points(points, (count - 1) as nat, i);
    }
}

/// Applying a built-in preset never changes the center or the slope of the curve.
pub proof fn law_built_in_presets_keep_the_anchor(preset: CurvePreset, i: int)
    requires
        0 <= i < preset_writes(preset, CurvePresetSource::BuiltIn).len(),
    ensures
        !(preset_writes(preset, CurvePresetSource::BuiltIn)[i].target is CenterFrequency),
        !(preset_writes(preset, CurvePresetSource::BuiltIn)[i].target is CurveSlope),
{
    let points = point_writes(preset.points@, MAX_THRESHOLD_CURVE_POINTS as nat);
    let writes = preset_writes(preset, CurvePresetSource::BuiltIn);
    if i >= 2 {
        assert(writes[i] == points[i - 2]);
        lemma_point_writes_set_points(preset.points@, MAX_THRESHOLD_CURVE_POINTS as nat, i - 2);
    }
}

/// Applying a fitted curve never changes the center or the slope of the curve.
pub proof fn law_fitted_curves_keep_the_anchor(fit: MatchCurveFit, i: int)
    requires
        0 <= i < fit_writes(fit).len(),
    ensures
        !(fit_writes(fit)[i].target is CenterFrequency),
        !(fit_writes(fit)[i].target is CurveSlope),
{
    let points = point_writes(fit.points@, MAX_THRESHOLD_CURVE_POINTS as nat);
    if i >= 2 {
        assert(fit_writes(fit)[i] == points[i - 2]);
        lemma_point_writes_set_points(fit.points@, MAX_THRESHOLD_CURVE_POINTS as nat, i - 2);
    }
}

} // verus!
