//! Presets of the threshold curve: the ones that are built in, and the ones that the user saves.

use vstd::arithmetic::power2::{lemma_pow2_pos, pow2};
use vstd::prelude::*;

use crate::curve::{
    CurvePoint, MAX_THRESHOLD_CURVE_POINTS, THRESHOLD_CURVE_MAX_FREQUENCY_HZ,
    THRESHOLD_CURVE_MIN_FREQUENCY_HZ, THRESHOLD_CURVE_POINT_OFFSET_LIMIT_DB,
};
use crate::exact::{
    lemma_cancel, lemma_constants, lemma_product_of_casts, lemma_signs, lemma_three_factors,
    lemma_value_of,
};
use crate::single::{single, Single, ZERO};
use crate::text::{
    comes_before, decimal, digits, joined, law_order_is_irreflexive, law_order_is_total,
    law_trimming_is_idempotent, trim, trimmed,
};

verus! {

/// The version of the format of preset files.
pub const PRESET_FORMAT_VERSION: u32 = 1;

/// The encoding of `-100.0`.
pub const THRESHOLD_MIN_DB: u32 = 0xc2c8_0000;

/// The encoding of `20.0`.
pub const THRESHOLD_MAX_DB: u32 = 0x41a0_0000;

/// The encoding of `-12.0`.
pub const BUILT_IN_THRESHOLD_DB: u32 = 0xc140_0000;

/// The encoding of `36.0`.
pub const CURVE_SLOPE_LIMIT: u32 = 0x4210_0000;

/// The encoding of `24.0`.
pub const CURVE_CURVE_LIMIT: u32 = 0x41c0_0000;

/// The encoding of `1000.0`.
pub const DISABLED_POINT_FREQUENCY_HZ: u32 = 0x447a_0000;

/// How many presets are built in.
pub const BUILT_IN_COUNT: usize = 7;

/// A threshold curve with a name.
#[derive(Clone, Debug)]
pub struct CurvePreset {
    pub name: String,
    pub threshold_db: Single,
    pub center_frequency: Single,
    pub curve_slope: Single,
    pub curve_curve: Single,
    pub points: [CurvePoint; MAX_THRESHOLD_CURVE_POINTS],
}

/// Where a preset comes from.
#[derive(Clone, Copy, PartialEq, Eq, Debug, Structural)]
pub enum CurvePresetSource {
    BuiltIn,
    User,
}

impl CurvePresetSource {
    /// Whether applying the preset sets the center and the slope of the curve.
    #[verifier::allow_in_spec]
    pub fn applies_anchor_parameters(self) -> bool
        returns
            self == CurvePresetSource::User,
    {
        match self {
            CurvePresetSource::BuiltIn => false,
            CurvePresetSource::User => true,
        }
    }
}

/// A preset in the list of presets.
#[derive(Clone, Debug)]
pub struct CurvePresetEntry {
    pub preset: CurvePreset,
    pub source: CurvePresetSource,
    /// The number of the file that holds the preset, if there is one. Files that are read together
    /// are numbered in the order of their paths.
    pub path: Option<usize>,
}

/// A point in a preset file.
#[derive(Clone, Copy, PartialEq, Eq, Debug, Structural)]
pub struct UserCurvePoint {
    pub enabled: bool,
    pub frequency: Single,
    pub offset_db: Single,
}

/// What a preset file holds.
#[derive(Clone, Debug)]
pub struct UserCurvePresetFile {
    pub version: u32,
    pub name: String,
    pub threshold_db: Single,
    pub center_frequency: Single,
    pub curve_slope: Single,
    pub curve_curve: Single,
    pub points: Vec<UserCurvePoint>,
}

/// The values of a preset that have a range.
#[derive(Clone, Copy, PartialEq, Eq, Debug, Structural)]
pub enum PresetField {
    Threshold,
    CenterFrequency,
    CurveSlope,
    CurveAmount,
    PointFrequency,
    PointOffset,
}

/// Why a preset is not valid.
#[derive(Clone, Copy, PartialEq, Eq, Debug, Structural)]
pub enum PresetProblem {
    UnsupportedVersion(u32),
    PointCount(usize),
    OutOfRange(PresetField),
}

/// Why a preset cannot be loaded, saved or deleted.
#[derive(Debug)]
pub enum CurvePresetError {
    BuiltInName(String),
    EmptyName,
    Io(String),
    Serialize(String),
    Validation(PresetProblem),
    NoUserPresetPath,
}

impl PresetField {
    /// What the value is called.
    pub open spec fn name_text(self) -> Seq<char> {
        match self {
            PresetField::Threshold => "threshold"@,
            PresetField::CenterFrequency => "center frequency"@,
            PresetField::CurveSlope => "curve slope"@,
            PresetField::CurveAmount => "curve amount"@,
            PresetField::PointFrequency => "point frequency"@,
            PresetField::PointOffset => "point offset"@,
        }
    }

    pub fn name(self) -> (name: &'static str)
        ensures
            name@ == self.name_text(),
    {
        match self {
            PresetField::Threshold => "threshold",
            PresetField::CenterFrequency => "center frequency",
            PresetField::CurveSlope => "curve slope",
            PresetField::CurveAmount => "curve amount",
            PresetField::PointFrequency => "point frequency",
            PresetField::PointOffset => "point offset",
        }
    }

    /// The smallest value.
    #[verifier::allow_in_spec]
    pub fn min(self) -> Single
        returns
            (match self {
                PresetField::Threshold => single(THRESHOLD_MIN_DB),
                PresetField::CenterFrequency => single(THRESHOLD_CURVE_MIN_FREQUENCY_HZ),
                PresetField::CurveSlope => single(CURVE_SLOPE_LIMIT).negated(),
                PresetField::CurveAmount => single(CURVE_CURVE_LIMIT).negated(),
                PresetField::PointFrequency => single(THRESHOLD_CURVE_MIN_FREQUENCY_HZ),
                PresetField::PointOffset => single(THRESHOLD_CURVE_POINT_OFFSET_LIMIT_DB).negated(),
            }),
    {
        match self {
            PresetField::Threshold => single(THRESHOLD_MIN_DB),
            PresetField::CenterFrequency => single(THRESHOLD_CURVE_MIN_FREQUENCY_HZ),
            PresetField::CurveSlope => single(CURVE_SLOPE_LIMIT).negated(),
            PresetField::CurveAmount => single(CURVE_CURVE_LIMIT).negated(),
            PresetField::PointFrequency => single(THRESHOLD_CURVE_MIN_FREQUENCY_HZ),
            PresetField::PointOffset => single(THRESHOLD_CURVE_POINT_OFFSET_LIMIT_DB).negated(),
        }
    }

    /// The largest value.
    #[verifier::allow_in_spec]
    pub fn max(self) -> Single
        returns
            (match self {
                PresetField::Threshold => single(THRESHOLD_MAX_DB),
                PresetField::CenterFrequency => single(THRESHOLD_CURVE_MAX_FREQUENCY_HZ),
                PresetField::CurveSlope => single(CURVE_SLOPE_LIMIT),
                PresetField::CurveAmount => single(CURVE_CURVE_LIMIT),
                PresetField::PointFrequency => single(THRESHOLD_CURVE_MAX_FREQUENCY_HZ),
                PresetField::PointOffset => single(THRESHOLD_CURVE_POINT_OFFSET_LIMIT_DB),
            }),
    {
        match self {
            PresetField::Threshold => single(THRESHOLD_MAX_DB),
            PresetField::CenterFrequency => single(THRESHOLD_CURVE_MAX_FREQUENCY_HZ),
            PresetField::CurveSlope => single(CURVE_SLOPE_LIMIT),
            PresetField::CurveAmount => single(CURVE_CURVE_LIMIT),
            PresetField::PointFrequency => single(THRESHOLD_CURVE_MAX_FREQUENCY_HZ),
            PresetField::PointOffset => single(THRESHOLD_CURVE_POINT_OFFSET_LIMIT_DB),
        }
    }

    /// Whether a value lies in the range.
    #[verifier::allow_in_spec]
    pub fn allows(self, value: Single) -> bool
        returns
            value.is_finite() && value.is_within(self.min(), self.max()),
    {
        value.is_finite() && value.is_within(self.min(), self.max())
    }
}

impl PresetProblem {
    /// What the user is told.
    pub open spec fn message_text(self) -> Seq<char> {
        match self {
            PresetProblem::UnsupportedVersion(version) => "Unsupported preset format version "@
                + digits(version as nat),
            PresetProblem::PointCount(count) => "Expected "@ + digits(
                MAX_THRESHOLD_CURVE_POINTS as nat,
            ) + " curve points, found "@ + digits(count as nat),
            PresetProblem::OutOfRange(field) => field.name_text() + " is out of range"@,
        }
    }

    pub fn message(self) -> (text: String)
        ensures
            text@ == self.message_text(),
    {
        match self {
            PresetProblem::UnsupportedVersion(version) => joined(
                "Unsupported preset format version ",
                decimal(version as usize).as_str(),
            ),
            PresetProblem::PointCount(count) => {
                let mut text = joined("Expected ", decimal(MAX_THRESHOLD_CURVE_POINTS).as_str());
                text.append(" curve points, found ");
                text.append(decimal(count).as_str());
                text
            },
            PresetProblem::OutOfRange(field) => joined(field.name(), " is out of range"),
        }
    }
}

impl CurvePresetError {
    /// What the user is told.
    pub open spec fn message_text(self) -> Seq<char> {
        match self {
            CurvePresetError::BuiltInName(name) => "Built-in preset '"@ + name@
                + "' cannot be overwritten"@,
            CurvePresetError::EmptyName => "Preset name cannot be empty"@,
            CurvePresetError::Io(cause) => cause@,
            CurvePresetError::Serialize(cause) => cause@,
            CurvePresetError::Validation(problem) => problem.message_text(),
            CurvePresetError::NoUserPresetPath => "No user preset file is selected"@,
        }
    }

    pub fn message(&self) -> (text: String)
        ensures
            text@ == self.message_text(),
    {
        match self {
            CurvePresetError::BuiltInName(name) => {
                let mut text = joined("Built-in preset '", name.as_str());
                text.append("' cannot be overwritten");
                text
            },
            CurvePresetError::EmptyName => "Preset name cannot be empty".to_owned(),
            CurvePresetError::Io(cause) => cause.clone(),
            CurvePresetError::Serialize(cause) => cause.clone(),
            CurvePresetError::Validation(problem) => problem.message(),
            CurvePresetError::NoUserPresetPath => "No user preset file is selected".to_owned(),
        }
    }

    /// Both say the same: texts are compared by what they hold.
    pub open spec fn says(self, other: CurvePresetError) -> bool {
        match (self, other) {
            (CurvePresetError::BuiltInName(a), CurvePresetError::BuiltInName(b)) => a@ == b@,
            (CurvePresetError::EmptyName, CurvePresetError::EmptyName) => true,
            (CurvePresetError::Io(a), CurvePresetError::Io(b)) => a@ == b@,
            (CurvePresetError::Serialize(a), CurvePresetError::Serialize(b)) => a@ == b@,
            (CurvePresetError::Validation(a), CurvePresetError::Validation(b)) => a == b,
            (CurvePresetError::NoUserPresetPath, CurvePresetError::NoUserPresetPath) => true,
            _ => false,
        }
    }
}

/// A name without white space around it.
pub fn normalize_name(name: &str) -> (r: Result<String, CurvePresetError>)
    ensures
        match r {
            Ok(normalized) => normalized@ == trimmed(name@) && normalized@.len() > 0,
            Err(problem) => problem is EmptyName && trimmed(name@).len() == 0,
        },
{
    let name = trim(name);
    if name.as_str().unicode_len() == 0 {
        Err(CurvePresetError::EmptyName)
    } else {
        Ok(name)
    }
}

/// The first value of the first `count` points that is not allowed.
pub open spec fn point_problem(points: Seq<CurvePoint>, count: nat) -> Option<PresetField>
    decreases count,
{
    if count == 0 {
        None
    } else {
        match point_problem(points, (count - 1) as nat) {
            Some(field) => Some(field),
            None => {
                let point = points[count - 1];
                if !point.enabled {
                    None
                } else if !PresetField::PointFrequency.allows(point.frequency) {
                    Some(PresetField::PointFrequency)
                } else if !PresetField::PointOffset.allows(point.offset_db) {
                    Some(PresetField::PointOffset)
                } else {
                    None
                }
            },
        }
    }
}

/// The first value of a preset that is not allowed. Points that are not enabled may have any values.
pub open spec fn range_problem(preset: CurvePreset) -> Option<PresetField> {
    if !PresetField::Threshold.allows(preset.threshold_db) {
        Some(PresetField::Threshold)
    } else if !PresetField::CenterFrequency.allows(preset.center_frequency) {
        Some(PresetField::CenterFrequency)
    } else if !PresetField::CurveSlope.allows(preset.curve_slope) {
        Some(PresetField::CurveSlope)
    } else if !PresetField::CurveAmount.allows(preset.curve_curve) {
        Some(PresetField::CurveAmount)
    } else {
        point_problem(preset.points@, MAX_THRESHOLD_CURVE_POINTS as nat)
    }
}

fn validate_range(field: PresetField, value: Single) -> (r: Result<(), CurvePresetError>)
    ensures
        field.allows(value) ==> r is Ok,
        !field.allows(value) ==> r == Err::<(), CurvePresetError>(
            CurvePresetError::Validation(PresetProblem::OutOfRange(field)),
        ),
{
    if field.allows(value) {
        Ok(())
    } else {
        Err(CurvePresetError::Validation(PresetProblem::OutOfRange(field)))
    }
}

/// Checks that all values of a preset lie in their ranges.
pub fn validate_preset(preset: &CurvePreset) -> (r: Result<(), CurvePresetError>)
    ensures
        match range_problem(*preset) {
            Some(field) => r == Err::<(), CurvePresetError>(
                CurvePresetError::Validation(PresetProblem::OutOfRange(field)),
            ),
            None => r is Ok,
        },
{
    if let Err(problem) = validate_range(PresetField::Threshold, preset.threshold_db) {
        return Err(problem);
    }
    if let Err(problem) = validate_range(PresetField::CenterFrequency, preset.center_frequency) {
        return Err(problem);
    }
    if let Err(problem) = validate_range(PresetField::CurveSlope, preset.curve_slope) {
        return Err(problem);
    }
    if let Err(problem) = validate_range(PresetField::CurveAmount, preset.curve_curve) {
        return Err(problem);
    }
    let mut index: usize = 0;
    while index < MAX_THRESHOLD_CURVE_POINTS
        invariant
            index <= MAX_THRESHOLD_CURVE_POINTS,
            PresetField::Threshold.allows(preset.threshold_db),
            PresetField::CenterFrequency.allows(preset.center_frequency),
            PresetField::CurveSlope.allows(preset.curve_slope),
            PresetField::CurveAmount.allows(preset.curve_curve),
            point_problem(preset.points@, index as nat) is None,
        decreases MAX_THRESHOLD_CURVE_POINTS - index,
    {
        let point = preset.points[index];
        if point.enabled {
            if let Err(problem) = validate_range(PresetField::PointFrequency, point.frequency) {
                proof {
                    lemma_first_problem_stays(
                        preset.points@,
                        (index + 1) as nat,
                        MAX_THRESHOLD_CURVE_POINTS as nat,
                    );
                }
                return Err(problem);
            }
            if let Err(problem) = validate_range(PresetField::PointOffset, point.offset_db) {
                proof {
                    lemma_first_problem_stays(
                        preset.points@,
                        (index + 1) as nat,
                        MAX_THRESHOLD_CURVE_POINTS as nat,
                    );
                }
                return Err(problem);
            }
        }
        index += 1;
    }
    Ok(())
}

proof fn lemma_first_problem_stays(points: Seq<CurvePoint>, count: nat, later: nat)
    requires
        count <= later,
        point_problem(points, count) is Some,
    ensures
        point_problem(points, later) == point_problem(points, count),
    decreases later,
{
    if count < later {
        lemma_first_problem_stays(points, count, (later - 1) as nat);
    }
}

impl CurvePoint {
    /// The point as a preset file holds it.
    #[verifier::allow_in_spec]
    pub fn to_file(self) -> UserCurvePoint
        returns
            (UserCurvePoint {
                enabled: self.enabled,
                frequency: self.frequency,
                offset_db: self.offset_db,
            }),
    {
        UserCurvePoint {
            enabled: self.enabled,
            frequency: self.frequency,
            offset_db: self.offset_db,
        }
    }
}

impl UserCurvePoint {
    /// The point that a preset file holds.
    #[verifier::allow_in_spec]
    pub fn to_point(self) -> CurvePoint
        returns
            (CurvePoint {
                enabled: self.enabled,
                frequency: self.frequency,
                offset_db: self.offset_db,
            }),
    {
        CurvePoint {
            enabled: self.enabled,
            frequency: self.frequency,
            offset_db: self.offset_db,
        }
    }
}

impl UserCurvePresetFile {
    /// `file` holds a preset.
    pub open spec fn holds(self, preset: CurvePreset) -> bool {
        &&& self.version == PRESET_FORMAT_VERSION
        &&& self.name@ == preset.name@
        &&& self.threshold_db == preset.threshold_db
        &&& self.center_frequency == preset.center_frequency
        &&& self.curve_slope == preset.curve_slope
        &&& self.curve_curve == preset.curve_curve
        &&& self.points@ == preset.points@.map_values(|point: CurvePoint| point.to_file())
    }

    /// The file that holds a preset.
    pub fn from(preset: &CurvePreset) -> (file: UserCurvePresetFile)
        ensures
            file.holds(*preset),
    {
        let mut points: Vec<UserCurvePoint> = Vec::new();
        let mut index: usize = 0;
        while index < MAX_THRESHOLD_CURVE_POINTS
            invariant
                index <= MAX_THRESHOLD_CURVE_POINTS,
                points@.len() == index,
                forall|i: int| 0 <= i < index ==> points@[i] == preset.points@[i].to_file(),
            decreases MAX_THRESHOLD_CURVE_POINTS - index,
        {
            points.push(preset.points[index].to_file());
            index += 1;
        }
        assert(points@ =~= preset.points@.map_values(|point: CurvePoint| point.to_file()));
        UserCurvePresetFile {
            version: PRESET_FORMAT_VERSION,
            name: preset.name.clone(),
            threshold_db: preset.threshold_db,
            center_frequency: preset.center_frequency,
            curve_slope: preset.curve_slope,
            curve_curve: preset.curve_curve,
            points,
        }
    }

    /// `preset` has the values of the file, and its name without white space around it.
    pub open spec fn describes(self, preset: CurvePreset) -> bool {
        &&& preset.name@ == trimmed(self.name@)
        &&& preset.threshold_db == self.threshold_db
        &&& preset.center_frequency == self.center_frequency
        &&& preset.curve_slope == self.curve_slope
        &&& preset.curve_curve == self.curve_curve
        &&& preset.points@ == self.points@.map_values(|point: UserCurvePoint| point.to_point())
    }

    /// The first value of what the file holds that is not allowed.
    pub open spec fn file_range_problem(self) -> Option<PresetField> {
        if !PresetField::Threshold.allows(self.threshold_db) {
            Some(PresetField::Threshold)
        } else if !PresetField::CenterFrequency.allows(self.center_frequency) {
            Some(PresetField::CenterFrequency)
        } else if !PresetField::CurveSlope.allows(self.curve_slope) {
            Some(PresetField::CurveSlope)
        } else if !PresetField::CurveAmount.allows(self.curve_curve) {
            Some(PresetField::CurveAmount)
        } else {
            point_problem(
                self.points@.map_values(|point: UserCurvePoint| point.to_point()),
                MAX_THRESHOLD_CURVE_POINTS as nat,
            )
        }
    }

    /// The first reason for which the file holds no preset, if there is one.
    pub open spec fn problem(self) -> Option<CurvePresetError> {
        if self.version != PRESET_FORMAT_VERSION {
            Some(CurvePresetError::Validation(PresetProblem::UnsupportedVersion(self.version)))
        } else if trimmed(self.name@).len() == 0 {
            Some(CurvePresetError::EmptyName)
        } else if self.points@.len() != MAX_THRESHOLD_CURVE_POINTS {
            Some(
                CurvePresetError::Validation(PresetProblem::PointCount(self.points@.len() as usize)),
            )
        } else {
            match self.file_range_problem() {
                Some(field) => Some(
                    CurvePresetError::Validation(PresetProblem::OutOfRange(field)),
                ),
                None => None,
            }
        }
    }
}

/// A point of a built-in preset.
#[verifier::allow_in_spec]
pub fn point(frequency: u32, offset_db: u32) -> CurvePoint
    returns
        (CurvePoint { enabled: true, frequency: single(frequency), offset_db: single(offset_db) }),
{
    CurvePoint { enabled: true, frequency: single(frequency), offset_db: single(offset_db) }
}

/// A slot of a preset that is not in use.
#[verifier::allow_in_spec]
pub fn disabled_point() -> CurvePoint
    returns
        (CurvePoint {
            enabled: false,
            frequency: single(DISABLED_POINT_FREQUENCY_HZ),
            offset_db: single(ZERO),
        }),
{
    CurvePoint {
        enabled: false,
        frequency: single(DISABLED_POINT_FREQUENCY_HZ),
        offset_db: single(ZERO),
    }
}

fn disabled_points() -> (points: [CurvePoint; MAX_THRESHOLD_CURVE_POINTS])
    ensures
        forall|i: int| 0 <= i < MAX_THRESHOLD_CURVE_POINTS ==> points@[i] == disabled_point(),
{
    [
        disabled_point(),
        disabled_point(),
        disabled_point(),
        disabled_point(),
        disabled_point(),
        disabled_point(),
        disabled_point(),
        disabled_point(),
    ]
}

/// What is specific to a built-in preset, besides its name. Its threshold is -12 dB, and it is not
/// bent.
#[derive(Clone, Copy, PartialEq, Eq, Debug)]
pub struct BuiltInCurve {
    pub center_frequency: Single,
    pub curve_slope: Single,
    pub points: [CurvePoint; MAX_THRESHOLD_CURVE_POINTS],
}

/// A built-in curve.
#[verifier::allow_in_spec]
pub fn built_in_curve(
    center_frequency: u32,
    curve_slope: u32,
    points: [CurvePoint; MAX_THRESHOLD_CURVE_POINTS],
) -> BuiltInCurve
    returns
        (BuiltInCurve {
            center_frequency: single(center_frequency),
            curve_slope: single(curve_slope),
            points,
        }),
{
    BuiltInCurve {
        center_frequency: single(center_frequency),
        curve_slope: single(curve_slope),
        points,
    }
}

/// The names of the built-in presets.
pub open spec fn built_in_name_text(index: int) -> Seq<char> {
    if index == 0 {
        "Equal Loudness"@
    } else if index == 1 {
        "Master Balanced"@
    } else if index == 2 {
        "Master Warm"@
    } else if index == 3 {
        "Bass Bus"@
    } else if index == 4 {
        "Drum Bus"@
    } else if index == 5 {
        "Pads"@
    } else {
        "Lead"@
    }
}

/// The name of a built-in preset.
pub fn built_in_name(index: usize) -> (name: &'static str)
    ensures
        name@ == built_in_name_text(index as int),
{
    if index == 0 {
        "Equal Loudness"
    } else if index == 1 {
        "Master Balanced"
    } else if index == 2 {
        "Master Warm"
    } else if index == 3 {
        "Bass Bus"
    } else if index == 4 {
        "Drum Bus"
    } else if index == 5 {
        "Pads"
    } else {
        "Lead"
    }
}

/// The curves of the built-in presets.
#[verifier::allow_in_spec]
pub fn built_in(index: usize) -> BuiltInCurve
    returns
        ({
            if index == 0 {
                // Equal Loudness
                built_in_curve(0x447a_0000, 0x0000_0000, [
                    point(0x420c_0000, 0x4120_0000),
                    point(0x4282_0000, 0x40c0_0000),
                    point(0x42f0_0000, 0x3fc0_0000),
                    point(0x447a_0000, 0xbf80_0000),
                    point(0x455a_c000, 0xc040_0000),
                    point(0x45fa_0000, 0xbfc0_0000),
                    point(0x466a_6000, 0x4040_0000),
                    disabled_point(),
                ])
            } else if index == 1 {
                // Master Balanced
                built_in_curve(0x447a_0000, 0x0000_0000, [
                    point(0x4220_0000, 0x4040_0000),
                    point(0x42b4_0000, 0x3fc0_0000),
                    point(0x4396_0000, 0xbf00_0000),
                    point(0x447a_0000, 0x0000_0000),
                    point(0x457a_0000, 0xbf80_0000),
                    point(0x461c_4000, 0x3f80_0000),
                    disabled_point(),
                    disabled_point(),
                ])
            } else if index == 2 {
                // Master Warm
                built_in_curve(0x4461_0000, 0xbf00_0000, [
                    point(0x4234_0000, 0x4020_0000),
                    point(0x42f0_0000, 0x3f00_0000),
                    point(0x43af_0000, 0xbfc0_0000),
                    point(0x44bb_8000, 0xbf00_0000),
                    point(0x459c_4000, 0x3f80_0000),
                    point(0x463b_8000, 0x4060_0000),
                    disabled_point(),
                    disabled_point(),
                ])
            } else if index == 3 {
                // Bass Bus
                built_in_curve(0x42f0_0000, 0x0000_0000, [
                    point(0x420c_0000, 0x4080_0000),
                    point(0x4270_0000, 0xc020_0000),
                    point(0x42dc_0000, 0xc080_0000),
                    point(0x435c_0000, 0xc000_0000),
                    point(0x442f_0000, 0x3f80_0000),
                    point(0x451c_4000, 0x4040_0000),
                    point(0x45fa_0000, 0x40c0_0000),
                    disabled_point(),
                ])
            } else if index == 4 {
                // Drum Bus
                built_in_curve(0x442f_0000, 0x0000_0000, [
                    point(0x4234_0000, 0x4040_0000),
                    point(0x42a0_0000, 0xc000_0000),
                    point(0x4334_0000, 0xbf80_0000),
                    point(0x43fa_0000, 0x3f80_0000),
                    point(0x451c_4000, 0xc020_0000),
                    point(0x45bb_8000, 0xbf80_0000),
                    point(0x463b_8000, 0x4000_0000),
                    disabled_point(),
                ])
            } else if index == 5 {
                // Pads
                built_in_curve(0x447a_0000, 0xbe80_0000, [
                    point(0x4248_0000, 0x40a0_0000),
                    point(0x42f0_0000, 0x4000_0000),
                    point(0x4396_0000, 0xc000_0000),
                    point(0x4496_0000, 0xbf00_0000),
                    point(0x457a_0000, 0x3f00_0000),
                    point(0x461c_4000, 0x4020_0000),
                    disabled_point(),
                    disabled_point(),
                ])
            } else {
                // Lead
                built_in_curve(0x44bb_8000, 0x0000_0000, [
                    point(0x4270_0000, 0x40c0_0000),
                    point(0x4334_0000, 0x4020_0000),
                    point(0x442f_0000, 0xbf80_0000),
                    point(0x44e1_0000, 0xc000_0000),
                    point(0x457a_0000, 0xbf80_0000),
                    point(0x45fa_0000, 0x4020_0000),
                    point(0x465a_c000, 0x4080_0000),
                    disabled_point(),
                ])
            }
        }),
{
    if index == 0 {
        // Equal Loudness
        built_in_curve(0x447a_0000, 0x0000_0000, [
            point(0x420c_0000, 0x4120_0000),
            point(0x4282_0000, 0x40c0_0000),
            point(0x42f0_0000, 0x3fc0_0000),
            point(0x447a_0000, 0xbf80_0000),
            point(0x455a_c000, 0xc040_0000),
            point(0x45fa_0000, 0xbfc0_0000),
            point(0x466a_6000, 0x4040_0000),
            disabled_point(),
        ])
    } else if index == 1 {
        // Master Balanced
        built_in_curve(0x447a_0000, 0x0000_0000, [
            point(0x4220_0000, 0x4040_0000),
            point(0x42b4_0000, 0x3fc0_0000),
            point(0x4396_0000, 0xbf00_0000),
            point(0x447a_0000, 0x0000_0000),
            point(0x457a_0000, 0xbf80_0000),
            point(0x461c_4000, 0x3f80_0000),
            disabled_point(),
            disabled_point(),
        ])
    } else if index == 2 {
        // Master Warm
        built_in_curve(0x4461_0000, 0xbf00_0000, [
            point(0x4234_0000, 0x4020_0000),
            point(0x42f0_0000, 0x3f00_0000),
            point(0x43af_0000, 0xbfc0_0000),
            point(0x44bb_8000, 0xbf00_0000),
            point(0x459c_4000, 0x3f80_0000),
            point(0x463b_8000, 0x4060_0000),
            disabled_point(),
            disabled_point(),
        ])
    } else if index == 3 {
        // Bass Bus
        built_in_curve(0x42f0_0000, 0x0000_0000, [
            point(0x420c_0000, 0x4080_0000),
            point(0x4270_0000, 0xc020_0000),
            point(0x42dc_0000, 0xc080_0000),
            point(0x435c_0000, 0xc000_0000),
            point(0x442f_0000, 0x3f80_0000),
            point(0x451c_4000, 0x4040_0000),
            point(0x45fa_0000, 0x40c0_0000),
            disabled_point(),
        ])
    } else if index == 4 {
        // Drum Bus
        built_in_curve(0x442f_0000, 0x0000_0000, [
            point(0x4234_0000, 0x4040_0000),
            point(0x42a0_0000, 0xc000_0000),
            point(0x4334_0000, 0xbf80_0000),
            point(0x43fa_0000, 0x3f80_0000),
            point(0x451c_4000, 0xc020_0000),
            point(0x45bb_8000, 0xbf80_0000),
            point(0x463b_8000, 0x4000_0000),
            disabled_point(),
        ])
    } else if index == 5 {
        // Pads
        built_in_curve(0x447a_0000, 0xbe80_0000, [
            point(0x4248_0000, 0x40a0_0000),
            point(0x42f0_0000, 0x4000_0000),
            point(0x4396_0000, 0xc000_0000),
            point(0x4496_0000, 0xbf00_0000),
            point(0x457a_0000, 0x3f00_0000),
            point(0x461c_4000, 0x4020_0000),
            disabled_point(),
            disabled_point(),
        ])
    } else {
        // Lead
        built_in_curve(0x44bb_8000, 0x0000_0000, [
            point(0x4270_0000, 0x40c0_0000),
            point(0x4334_0000, 0x4020_0000),
            point(0x442f_0000, 0xbf80_0000),
            point(0x44e1_0000, 0xc000_0000),
            point(0x457a_0000, 0xbf80_0000),
            point(0x45fa_0000, 0x4020_0000),
            point(0x465a_c000, 0x4080_0000),
            disabled_point(),
        ])
    }
}

/// `preset` is the built-in preset with the given index.
pub open spec fn is_built_in(index: int, preset: CurvePreset) -> bool {
    let curve = built_in(index as usize);
    &&& preset.name@ == built_in_name_text(index)
    &&& preset.threshold_db == single(BUILT_IN_THRESHOLD_DB)
    &&& preset.center_frequency == curve.center_frequency
    &&& preset.curve_slope == curve.curve_slope
    &&& preset.curve_curve == single(ZERO)
    &&& preset.points == curve.points
}

fn built_in_preset(index: usize) -> (preset: CurvePreset)
    ensures
        is_built_in(index as int, preset),
{
    let curve = built_in(index);
    CurvePreset {
        name: built_in_name(index).to_owned(),
        threshold_db: single(BUILT_IN_THRESHOLD_DB),
        center_frequency: curve.center_frequency,
        curve_slope: curve.curve_slope,
        curve_curve: single(ZERO),
        points: curve.points,
    }
}

/// `entries` are the built-in presets, in their order.
pub open spec fn are_built_in_entries(entries: Seq<CurvePresetEntry>) -> bool {
    &&& entries.len() == BUILT_IN_COUNT
    &&& forall|i: int|
        0 <= i < entries.len() ==> {
            &&& is_built_in(i, (#[trigger] entries[i]).preset)
            &&& entries[i].source == CurvePresetSource::BuiltIn
            &&& entries[i].path is None
        }
}

/// A preset is called like one that is built in.
pub open spec fn is_built_in_text(name: Seq<char>) -> bool {
    exists|i: int| 0 <= i < BUILT_IN_COUNT && name == #[trigger] built_in_name_text(i)
}

impl CurvePreset {
    /// The built-in presets.
    pub fn built_in_entries() -> (entries: Vec<CurvePresetEntry>)
        ensures
            are_built_in_entries(entries@),
    {
        let mut entries: Vec<CurvePresetEntry> = Vec::new();
        let mut index: usize = 0;
        while index < BUILT_IN_COUNT
            invariant
                index <= BUILT_IN_COUNT,
                entries@.len() == index,
                forall|i: int|
                    0 <= i < index ==> {
                        &&& is_built_in(i, (#[trigger] entries@[i]).preset)
                        &&& entries@[i].source == CurvePresetSource::BuiltIn
                        &&& entries@[i].path is None
                    },
            decreases BUILT_IN_COUNT - index,
        {
            entries.push(
                CurvePresetEntry {
                    preset: built_in_preset(index),
                    source: CurvePresetSource::BuiltIn,
                    path: None,
                },
            );
            index += 1;
        }
        entries
    }

    /// Whether a built-in preset has the given name.
    pub fn is_built_in_name(name: &str) -> (r: bool)
        ensures
            r == is_built_in_text(name@),
    {
        let mut index: usize = 0;
        while index < BUILT_IN_COUNT
            invariant
                index <= BUILT_IN_COUNT,
                forall|i: int| 0 <= i < index ==> name@ != #[trigger] built_in_name_text(i),
            decreases BUILT_IN_COUNT - index,
        {
            if same_text(name, built_in_name(index)) {
                assert(name@ == built_in_name_text(index as int));
                return true;
            }
            index += 1;
        }
        false
    }

    /// The preset that a file holds.
    pub fn try_from(file: &UserCurvePresetFile) -> (r: Result<CurvePreset, CurvePresetError>)
        ensures
            match file.problem() {
                Some(problem) => r is Err && r->Err_0.says(problem),
                None => r is Ok && file.describes(r->Ok_0),
            },
    {
        if file.version != PRESET_FORMAT_VERSION {
            return Err(
                CurvePresetError::Validation(PresetProblem::UnsupportedVersion(file.version)),
            );
        }
        let name = match normalize_name(file.name.as_str()) {
            Ok(name) => name,
            Err(problem) => {
                return Err(problem);
            },
        };
        if file.points.len() != MAX_THRESHOLD_CURVE_POINTS {
            return Err(CurvePresetError::Validation(PresetProblem::PointCount(file.points.len())));
        }
        let mut points = disabled_points();
        let mut index: usize = 0;
        while index < MAX_THRESHOLD_CURVE_POINTS
            invariant
                index <= MAX_THRESHOLD_CURVE_POINTS,
                file.points@.len() == MAX_THRESHOLD_CURVE_POINTS,
                forall|i: int| 0 <= i < index ==> points@[i] == file.points@[i].to_point(),
            decreases MAX_THRESHOLD_CURVE_POINTS - index,
        {
            points[index] = file.points[index].to_point();
            index += 1;
        }
        assert(points@ =~= file.points@.map_values(|point: UserCurvePoint| point.to_point()));
        let preset = CurvePreset {
            name,
            threshold_db: file.threshold_db,
            center_frequency: file.center_frequency,
            curve_slope: file.curve_slope,
            curve_curve: file.curve_curve,
            points,
        };
        match validate_preset(&preset) {
            Ok(()) => Ok(preset),
            Err(problem) => Err(problem),
        }
    }
}

/// Whether two texts are the same.
pub fn same_text(a: &str, b: &str) -> (r: bool)
    ensures
        r == (a@ == b@),
{
    let same = !comes_before(a, b) && !comes_before(b, a);
    proof {
        law_order_is_total(a@, b@);
        law_order_is_irreflexive(a@);
    }
    same
}

/// The position after the last period of a file name, if there is one that does not start it.
pub open spec fn extension_start(name: Seq<char>, count: int) -> int
    decreases count,
{
    if count <= 1 {
        0
    } else if name[count - 1] == '.' {
        count
    } else {
        extension_start(name, count - 1)
    }
}

/// What a file's name is without its extension.
pub open spec fn file_stem_text(name: Seq<char>) -> Seq<char> {
    let start = extension_start(name, name.len() as int);
    if start == 0 {
        name
    } else {
        name.subrange(0, start - 1)
    }
}

/// A file's extension, if its name has one.
pub open spec fn extension_text(name: Seq<char>) -> Option<Seq<char>> {
    let start = extension_start(name, name.len() as int);
    if start == 0 {
        None
    } else {
        Some(name.subrange(start, name.len() as int))
    }
}

fn find_extension(name: &str) -> (start: usize)
    ensures
        start == extension_start(name@, name@.len() as int),
        start <= name@.len(),
{
    let mut count: usize = name.unicode_len();
    while count > 1
        invariant
            count <= name@.len(),
            extension_start(name@, name@.len() as int) == extension_start(name@, count as int),
        decreases count,
    {
        if name.get_char(count - 1) == '.' {
            return count;
        }
        count -= 1;
    }
    0
}

/// What a file's name is without its extension.
pub fn file_stem(name: &str) -> (stem: String)
    ensures
        stem@ == file_stem_text(name@),
{
    let start: usize = find_extension(name);
    if start == 0 {
        name.to_owned()
    } else {
        name.substring_char(0, start - 1).to_owned()
    }
}

/// A file's extension, if its name has one.
pub fn extension(name: &str) -> (r: Option<String>)
    ensures
        match r {
            Some(extension) => extension_text(name@) == Some(extension@),
            None => extension_text(name@) is None,
        },
{
    let start: usize = find_extension(name);
    if start == 0 {
        None
    } else {
        Some(name.substring_char(start, name.unicode_len()).to_owned())
    }
}

/// The text names a file: it is not empty, and it is not the name of the folder itself.
pub open spec fn names_file(name: Seq<char>) -> bool {
    name.len() > 0 && name != "."@
}

/// The name of the file that a preset is saved to: an extension is added where there is none. What
/// names no file stays as it is.
pub open spec fn with_json_extension_text(name: Seq<char>) -> Seq<char> {
    if extension_text(name) is Some || !names_file(name) {
        name
    } else {
        name + ".json"@
    }
}

/// The name of the file that a preset is saved to: an extension is added where there is none. What
/// names no file stays as it is.
pub fn with_json_extension(name: &str) -> (r: String)
    ensures
        r@ == with_json_extension_text(name@),
{
    if name.unicode_len() == 0 || same_text(name, ".") {
        return name.to_owned();
    }
    match extension(name) {
        Some(_) => name.to_owned(),
        None => joined(name, ".json"),
    }
}

/// Whether a file in the preset folder holds a preset, going by its name.
pub fn is_preset_file(name: &str) -> (r: bool)
    ensures
        r == (extension_text(name@) == Some("json"@)),
{
    match extension(name) {
        Some(text) => same_text(text.as_str(), "json"),
        None => false,
    }
}

/// Why a preset cannot be saved to a file with the given name, if there is a reason.
pub open spec fn is_save_problem(
    file_name: Option<Seq<char>>,
    preset: CurvePreset,
    problem: CurvePresetError,
) -> bool {
    match file_name {
        None => problem is EmptyName,
        Some(file_name) => {
            let name = trimmed(file_stem_text(file_name));
            if name.len() == 0 {
                problem is EmptyName
            } else {
                match range_problem(preset) {
                    Some(field) => problem == CurvePresetError::Validation(
                        PresetProblem::OutOfRange(field),
                    ),
                    None => is_built_in_text(name) && (
                    problem matches CurvePresetError::BuiltInName(text) && text@ == name),
                }
            }
        },
    }
}

/// A preset can be saved to a file with the given name.
pub open spec fn can_save(file_name: Option<Seq<char>>, preset: CurvePreset) -> bool {
    file_name matches Some(file_name) && {
        let name = trimmed(file_stem_text(file_name));
        &&& name.len() > 0
        &&& range_problem(preset) is None
        &&& !is_built_in_text(name)
    }
}

/// A preset and the name of the file to write it to.
#[derive(Clone, Debug)]
pub struct PresetSave {
    pub preset: CurvePreset,
    pub file: UserCurvePresetFile,
    pub file_name: String,
}

/// Prepares saving a preset. It is named like the file that the user chose, without the extension.
/// A file that has no name cannot be saved to.
pub fn plan_save(file_name: Option<String>, preset: CurvePreset) -> (r: Result<
    PresetSave,
    CurvePresetError,
>)
    ensures
        match r {
            Ok(save) => {
                &&& can_save(
                    match file_name {
                        Some(text) => Some(text@),
                        None => None,
                    },
                    preset,
                )
                &&& save.preset == (CurvePreset { name: save.preset.name, ..preset })
                &&& save.preset.name@ == trimmed(file_stem_text(file_name->0@))
                &&& save.file.holds(save.preset)
                &&& save.file_name@ == with_json_extension_text(file_name->0@)
            },
            Err(problem) => is_save_problem(
                match file_name {
                    Some(text) => Some(text@),
                    None => None,
                },
                preset,
                problem,
            ),
        },
{
    let file_name = match file_name {
        Some(file_name) => file_name,
        None => {
            return Err(CurvePresetError::EmptyName);
        },
    };
    let stem = file_stem(file_name.as_str());
    let name = match normalize_name(stem.as_str()) {
        Ok(name) => name,
        Err(problem) => {
            return Err(problem);
        },
    };
    if let Err(problem) = validate_preset(&preset) {
        return Err(problem);
    }
    if CurvePreset::is_built_in_name(name.as_str()) {
        return Err(CurvePresetError::BuiltInName(name));
    }
    let preset = CurvePreset {
        name,
        threshold_db: preset.threshold_db,
        center_frequency: preset.center_frequency,
        curve_slope: preset.curve_slope,
        curve_curve: preset.curve_curve,
        points: preset.points,
    };
    let file = UserCurvePresetFile::from(&preset);
    Ok(PresetSave { preset, file, file_name: with_json_extension(file_name.as_str()) })
}

/// The file to remove for deleting a preset.
pub fn plan_delete(entry: &CurvePresetEntry) -> (r: Result<usize, CurvePresetError>)
    ensures
        match r {
            Ok(path) => entry.source == CurvePresetSource::User && entry.path == Some(path),
            Err(problem) => if entry.source == CurvePresetSource::BuiltIn {
                problem matches CurvePresetError::BuiltInName(name) && name@ == entry.preset.name@
            } else {
                entry.path is None && problem is NoUserPresetPath
            },
        },
{
    match entry.source {
        CurvePresetSource::BuiltIn => Err(
            CurvePresetError::BuiltInName(entry.preset.name.clone()),
        ),
        CurvePresetSource::User => match entry.path {
            Some(path) => Ok(path),
            None => Err(CurvePresetError::NoUserPresetPath),
        },
    }
}

/// A preset that is saved is read back as it was: the file holds all of its values, and reading the
/// file gives them back.
pub proof fn law_saved_preset_is_read_back(
    preset: CurvePreset,
    file: UserCurvePresetFile,
    restored: CurvePreset,
)
    requires
        range_problem(preset) is None,
        trimmed(preset.name@) == preset.name@,
        preset.name@.len() > 0,
        file.holds(preset),
    ensures
        file.problem() is None,
        file.describes(restored) ==> {
            &&& restored.name@ == preset.name@
            &&& restored.threshold_db == preset.threshold_db
            &&& restored.center_frequency == preset.center_frequency
            &&& restored.curve_slope == preset.curve_slope
            &&& restored.curve_curve == preset.curve_curve
            &&& restored.points@ == preset.points@
        },
{
    assert(file.points@.map_values(|point: UserCurvePoint| point.to_point()) =~= preset.points@);
}

/// A preset that can be saved has a name that is not empty, has no white space around it and is no
/// built-in one.
pub proof fn law_saved_names_are_normalized(file_name: Seq<char>, preset: CurvePreset)
    requires
        can_save(Some(file_name), preset),
    ensures
        ({
            let name = trimmed(file_stem_text(file_name));
            &&& name.len() > 0
            &&& trimmed(name) == name
            &&& !is_built_in_text(name)
        }),
{
    law_trimming_is_idempotent(file_stem_text(file_name));
}

/// The extension is added once: a name that it was added to has one, and stays as it is.
pub proof fn law_extension_is_added_once(name: Seq<char>)
    ensures
        with_json_extension_text(with_json_extension_text(name)) == with_json_extension_text(name),
        names_file(name) && extension_text(name) is None ==> extension_text(
            with_json_extension_text(name),
        ) == Some("json"@),
        extension_text(name) is Some ==> with_json_extension_text(name) == name,
{
    if names_file(name) && extension_text(name) is None {
        let longer = name + ".json"@;
        reveal_strlit(".json");
        reveal_strlit("json");
        reveal_with_fuel(extension_start, 6);
        assert(longer[name.len() as int] == '.');
        assert(extension_start(longer, longer.len() as int) == name.len() + 1);
        assert(longer.subrange(name.len() as int + 1, longer.len() as int) =~= "json"@);
    }
}

/// All values of the built-in presets lie in their ranges.
pub proof fn law_built_in_presets_are_valid(index: int, preset: CurvePreset)
    requires
        0 <= index < BUILT_IN_COUNT,
        is_built_in(index, preset),
    ensures
        range_problem(preset) is None,
{
    reveal_with_fuel(point_problem, 9);
}

/// No two built-in presets share a name.
pub proof fn law_built_in_names_are_distinct(first: int, second: int)
    requires
        0 <= first < second < BUILT_IN_COUNT,
    ensures
        built_in_name_text(first) != built_in_name_text(second),
{
    reveal_strlit("Equal Loudness");
    reveal_strlit("Master Balanced");
    reveal_strlit("Master Warm");
    reveal_strlit("Bass Bus");
    reveal_strlit("Drum Bus");
    reveal_strlit("Pads");
    reveal_strlit("Lead");
    assert("Equal Loudness"@.len() == 14);
    assert("Master Balanced"@.len() == 15);
    assert("Master Warm"@.len() == 11);
    assert("Bass Bus"@.len() == 8);
    assert("Drum Bus"@.len() == 8);
    assert("Pads"@.len() == 4);
    assert("Lead"@.len() == 4);
    assert("Bass Bus"@[0] == 'B');
    assert("Drum Bus"@[0] == 'D');
    assert("Pads"@[0] == 'P');
    assert("Lead"@[0] == 'L');
}

/// A curve in plain numbers: its center in Hertz, its slope in quarters, and the points that are in
/// use, each with its frequency in Hertz and its offset in quarters of a decibel.
pub open spec fn is_drawn(
    curve: BuiltInCurve,
    center_hz: int,
    slope_quarters: int,
    points: Seq<(int, int)>,
) -> bool {
    &&& curve.center_frequency.value() == center_hz as real
    &&& curve.curve_slope.value() * 4real == slope_quarters as real
    &&& points.len() <= MAX_THRESHOLD_CURVE_POINTS
    &&& forall|i: int|
        0 <= i < points.len() ==> {
            &&& (#[trigger] curve.points@[i]).enabled
            &&& curve.points@[i].frequency.value() == points[i].0 as real
            &&& curve.points@[i].offset_db.value() * 4real == points[i].1 as real
        }
    &&& forall|i: int|
        points.len() <= i < MAX_THRESHOLD_CURVE_POINTS ==> !(#[trigger] curve.points@[i]).enabled
}

/// A number of quarters, and its opposite.
proof fn lemma_quarters(bits: u32, significand: nat, shift: nat, quarters: int)
    requires
        bits < 0x8000_0000,
        shift <= 64,
        bits == (150 - shift) * 0x80_0000 + (significand - 0x80_0000),
        0x80_0000 <= significand < 0x100_0000,
        significand * 4 == quarters * pow2(shift),
    ensures
        single(bits).value() * 4real == quarters as real,
        single((bits + 0x8000_0000) as u32).value() * 4real == -(quarters as real),
{
    lemma_value_of(bits, significand, shift);
    lemma_pow2_pos(shift);
    let (v, p) = (single(bits).value(), pow2(shift) as int as real);
    lemma_product_of_casts(significand as int, 4);
    lemma_product_of_casts(quarters, pow2(shift) as int);
    lemma_three_factors(v, p, 4real);
    lemma_cancel(v * 4real, quarters as real, p);
    lemma_signs(single(bits));
    assert(single(bits).negated() == single((bits + 0x8000_0000) as u32));
}

/// The powers of two that the numbers of the built-in curves are given with.
proof fn lemma_powers_of_curves()
    ensures
        pow2(10) == 0x400,
        pow2(11) == 0x800,
        pow2(12) == 0x1000,
        pow2(13) == 0x2000,
        pow2(14) == 0x4000,
        pow2(15) == 0x8000,
        pow2(16) == 0x10000,
        pow2(17) == 0x20000,
        pow2(18) == 0x40000,
        pow2(20) == 0x100000,
        pow2(21) == 0x200000,
        pow2(22) == 0x400000,
        pow2(23) == 0x800000,
        pow2(24) == 0x1000000,
        pow2(25) == 0x2000000,
{
    vstd::arithmetic::power2::lemma2_to64();
}

/// The curve of the preset "Equal Loudness".
pub proof fn law_equal_loudness_preset()
    ensures
        built_in_name_text(0) == "Equal Loudness"@,
        is_drawn(
            built_in(0),
            1000,
            0,
            seq![
                (35, 40),
                (65, 24),
                (120, 6),
                (1000, -4),
                (3500, -12),
                (8000, -6),
                (15000, 12),
            ],
        ),
{
    lemma_constants();
    lemma_powers_of_curves();
    let curve = built_in(0);
    assert(curve.points@[0] == point(0x420c_0000, 0x4120_0000));
    assert(curve.points@[1] == point(0x4282_0000, 0x40c0_0000));
    assert(curve.points@[2] == point(0x42f0_0000, 0x3fc0_0000));
    assert(curve.points@[3] == point(0x447a_0000, 0xbf80_0000));
    assert(curve.points@[4] == point(0x455a_c000, 0xc040_0000));
    assert(curve.points@[5] == point(0x45fa_0000, 0xbfc0_0000));
    assert(curve.points@[6] == point(0x466a_6000, 0x4040_0000));
    assert(curve.points@[7] == disabled_point());
    lemma_quarters(0x447a_0000, 0xfa_0000, 14, 4000);
    lemma_quarters(0x420c_0000, 0x8c_0000, 18, 140);
    lemma_quarters(0x4120_0000, 0xa0_0000, 20, 40);
    lemma_quarters(0x4282_0000, 0x82_0000, 17, 260);
    lemma_quarters(0x40c0_0000, 0xc0_0000, 21, 24);
    lemma_quarters(0x42f0_0000, 0xf0_0000, 17, 480);
    lemma_quarters(0x3fc0_0000, 0xc0_0000, 23, 6);
    lemma_quarters(0x3f80_0000, 0x80_0000, 23, 4);
    lemma_quarters(0x455a_c000, 0xda_c000, 12, 14000);
    lemma_quarters(0x4040_0000, 0xc0_0000, 22, 12);
    lemma_quarters(0x45fa_0000, 0xfa_0000, 11, 32000);
    lemma_quarters(0x466a_6000, 0xea_6000, 10, 60000);
}

/// The curve of the preset "Master Balanced".
pub proof fn law_master_balanced_preset()
    ensures
        built_in_name_text(1) == "Master Balanced"@,
        is_drawn(
            built_in(1),
            1000,
            0,
            seq![
                (40, 12),
                (90, 6),
                (300, -2),
                (1000, 0),
                (4000, -4),
                (10000, 4),
            ],
        ),
{
    lemma_constants();
    lemma_powers_of_curves();
    let curve = built_in(1);
    assert(curve.points@[0] == point(0x4220_0000, 0x4040_0000));
    assert(curve.points@[1] == point(0x42b4_0000, 0x3fc0_0000));
    assert(curve.points@[2] == point(0x4396_0000, 0xbf00_0000));
    assert(curve.points@[3] == point(0x447a_0000, 0x0000_0000));
    assert(curve.points@[4] == point(0x457a_0000, 0xbf80_0000));
    assert(curve.points@[5] == point(0x461c_4000, 0x3f80_0000));
    assert(curve.points@[6] == disabled_point());
    assert(curve.points@[7] == disabled_point());
    lemma_quarters(0x447a_0000, 0xfa_0000, 14, 4000);
    lemma_quarters(0x4220_0000, 0xa0_0000, 18, 160);
    lemma_quarters(0x4040_0000, 0xc0_0000, 22, 12);
    lemma_quarters(0x42b4_0000, 0xb4_0000, 17, 360);
    lemma_quarters(0x3fc0_0000, 0xc0_0000, 23, 6);
    lemma_quarters(0x4396_0000, 0x96_0000, 15, 1200);
    lemma_quarters(0x3f00_0000, 0x80_0000, 24, 2);
    lemma_quarters(0x457a_0000, 0xfa_0000, 12, 16000);
    lemma_quarters(0x3f80_0000, 0x80_0000, 23, 4);
    lemma_quarters(0x461c_4000, 0x9c_4000, 10, 40000);
}

/// The curve of the preset "Master Warm".
pub proof fn law_master_warm_preset()
    ensures
        built_in_name_text(2) == "Master Warm"@,
        is_drawn(
            built_in(2),
            900,
            -2,
            seq![
                (45, 10),
                (120, 2),
                (350, -6),
                (1500, -2),
                (5000, 4),
                (12000, 14),
            ],
        ),
{
    lemma_constants();
    lemma_powers_of_curves();
    let curve = built_in(2);
    assert(curve.points@[0] == point(0x4234_0000, 0x4020_0000));
    assert(curve.points@[1] == point(0x42f0_0000, 0x3f00_0000));
    assert(curve.points@[2] == point(0x43af_0000, 0xbfc0_0000));
    assert(curve.points@[3] == point(0x44bb_8000, 0xbf00_0000));
    assert(curve.points@[4] == point(0x459c_4000, 0x3f80_0000));
    assert(curve.points@[5] == point(0x463b_8000, 0x4060_0000));
    assert(curve.points@[6] == disabled_point());
    assert(curve.points@[7] == disabled_point());
    lemma_quarters(0x4461_0000, 0xe1_0000, 14, 3600);
    lemma_quarters(0x3f00_0000, 0x80_0000, 24, 2);
    lemma_quarters(0x4234_0000, 0xb4_0000, 18, 180);
    lemma_quarters(0x4020_0000, 0xa0_0000, 22, 10);
    lemma_quarters(0x42f0_0000, 0xf0_0000, 17, 480);
    lemma_quarters(0x43af_0000, 0xaf_0000, 15, 1400);
    lemma_quarters(0x3fc0_0000, 0xc0_0000, 23, 6);
    lemma_quarters(0x44bb_8000, 0xbb_8000, 13, 6000);
    lemma_quarters(0x459c_4000, 0x9c_4000, 11, 20000);
    lemma_quarters(0x3f80_0000, 0x80_0000, 23, 4);
    lemma_quarters(0x463b_8000, 0xbb_8000, 10, 48000);
    lemma_quarters(0x4060_0000, 0xe0_0000, 22, 14);
}

/// The curve of the preset "Bass Bus".
pub proof fn law_bass_bus_preset()
    ensures
        built_in_name_text(3) == "Bass Bus"@,
        is_drawn(
            built_in(3),
            120,
            0,
            seq![
                (35, 16),
                (60, -10),
                (110, -16),
                (220, -8),
                (700, 4),
                (2500, 12),
                (8000, 24),
            ],
        ),
{
    lemma_constants();
    lemma_powers_of_curves();
    let curve = built_in(3);
    assert(curve.points@[0] == point(0x420c_0000, 0x4080_0000));
    assert(curve.points@[1] == point(0x4270_0000, 0xc020_0000));
    assert(curve.points@[2] == point(0x42dc_0000, 0xc080_0000));
    assert(curve.points@[3] == point(0x435c_0000, 0xc000_0000));
    assert(curve.points@[4] == point(0x442f_0000, 0x3f80_0000));
    assert(curve.points@[5] == point(0x451c_4000, 0x4040_0000));
    assert(curve.points@[6] == point(0x45fa_0000, 0x40c0_0000));
    assert(curve.points@[7] == disabled_point());
    lemma_quarters(0x42f0_0000, 0xf0_0000, 17, 480);
    lemma_quarters(0x420c_0000, 0x8c_0000, 18, 140);
    lemma_quarters(0x4080_0000, 0x80_0000, 21, 16);
    lemma_quarters(0x4270_0000, 0xf0_0000, 18, 240);
    lemma_quarters(0x4020_0000, 0xa0_0000, 22, 10);
    lemma_quarters(0x42dc_0000, 0xdc_0000, 17, 440);
    lemma_quarters(0x435c_0000, 0xdc_0000, 16, 880);
    lemma_quarters(0x4000_0000, 0x80_0000, 22, 8);
    lemma_quarters(0x442f_0000, 0xaf_0000, 14, 2800);
    lemma_quarters(0x3f80_0000, 0x80_0000, 23, 4);
    lemma_quarters(0x451c_4000, 0x9c_4000, 12, 10000);
    lemma_quarters(0x4040_0000, 0xc0_0000, 22, 12);
    lemma_quarters(0x45fa_0000, 0xfa_0000, 11, 32000);
    lemma_quarters(0x40c0_0000, 0xc0_0000, 21, 24);
}

/// The curve of the preset "Drum Bus".
pub proof fn law_drum_bus_preset()
    ensures
        built_in_name_text(4) == "Drum Bus"@,
        is_drawn(
            built_in(4),
            700,
            0,
            seq![
                (45, 12),
                (80, -8),
                (180, -4),
                (500, 4),
                (2500, -10),
                (6000, -4),
                (12000, 8),
            ],
        ),
{
    lemma_constants();
    lemma_powers_of_curves();
    let curve = built_in(4);
    assert(curve.points@[0] == point(0x4234_0000, 0x4040_0000));
    assert(curve.points@[1] == point(0x42a0_0000, 0xc000_0000));
    assert(curve.points@[2] == point(0x4334_0000, 0xbf80_0000));
    assert(curve.points@[3] == point(0x43fa_0000, 0x3f80_0000));
    assert(curve.points@[4] == point(0x451c_4000, 0xc020_0000));
    assert(curve.points@[5] == point(0x45bb_8000, 0xbf80_0000));
    assert(curve.points@[6] == point(0x463b_8000, 0x4000_0000));
    assert(curve.points@[7] == disabled_point());
    lemma_quarters(0x442f_0000, 0xaf_0000, 14, 2800);
    lemma_quarters(0x4234_0000, 0xb4_0000, 18, 180);
    lemma_quarters(0x4040_0000, 0xc0_0000, 22, 12);
    lemma_quarters(0x42a0_0000, 0xa0_0000, 17, 320);
    lemma_quarters(0x4000_0000, 0x80_0000, 22, 8);
    lemma_quarters(0x4334_0000, 0xb4_0000, 16, 720);
    lemma_quarters(0x3f80_0000, 0x80_0000, 23, 4);
    lemma_quarters(0x43fa_0000, 0xfa_0000, 15, 2000);
    lemma_quarters(0x451c_4000, 0x9c_4000, 12, 10000);
    lemma_quarters(0x4020_0000, 0xa0_0000, 22, 10);
    lemma_quarters(0x45bb_8000, 0xbb_8000, 11, 24000);
    lemma_quarters(0x463b_8000, 0xbb_8000, 10, 48000);
}

/// The curve of the preset "Pads".
pub proof fn law_pads_preset()
    ensures
        built_in_name_text(5) == "Pads"@,
        is_drawn(
            built_in(5),
            1000,
            -1,
            seq![
                (50, 20),
                (120, 8),
                (300, -8),
                (1200, -2),
                (4000, 2),
                (10000, 10),
            ],
        ),
{
    lemma_constants();
    lemma_powers_of_curves();
    let curve = built_in(5);
    assert(curve.points@[0] == point(0x4248_0000, 0x40a0_0000));
    assert(curve.points@[1] == point(0x42f0_0000, 0x4000_0000));
    assert(curve.points@[2] == point(0x4396_0000, 0xc000_0000));
    assert(curve.points@[3] == point(0x4496_0000, 0xbf00_0000));
    assert(curve.points@[4] == point(0x457a_0000, 0x3f00_0000));
    assert(curve.points@[5] == point(0x461c_4000, 0x4020_0000));
    assert(curve.points@[6] == disabled_point());
    assert(curve.points@[7] == disabled_point());
    lemma_quarters(0x447a_0000, 0xfa_0000, 14, 4000);
    lemma_quarters(0x3e80_0000, 0x80_0000, 25, 1);
    lemma_quarters(0x4248_0000, 0xc8_0000, 18, 200);
    lemma_quarters(0x40a0_0000, 0xa0_0000, 21, 20);
    lemma_quarters(0x42f0_0000, 0xf0_0000, 17, 480);
    lemma_quarters(0x4000_0000, 0x80_0000, 22, 8);
    lemma_quarters(0x4396_0000, 0x96_0000, 15, 1200);
    lemma_quarters(0x4496_0000, 0x96_0000, 13, 4800);
    lemma_quarters(0x3f00_0000, 0x80_0000, 24, 2);
    lemma_quarters(0x457a_0000, 0xfa_0000, 12, 16000);
    lemma_quarters(0x461c_4000, 0x9c_4000, 10, 40000);
    lemma_quarters(0x4020_0000, 0xa0_0000, 22, 10);
}

/// The curve of the preset "Lead".
pub proof fn law_lead_preset()
    ensures
        built_in_name_text(6) == "Lead"@,
        is_drawn(
            built_in(6),
            1500,
            0,
            seq![
                (60, 24),
                (180, 10),
                (700, -4),
                (1800, -8),
                (4000, -4),
                (8000, 10),
                (14000, 16),
            ],
        ),
{
    lemma_constants();
    lemma_powers_of_curves();
    let curve = built_in(6);
    assert(curve.points@[0] == point(0x4270_0000, 0x40c0_0000));
    assert(curve.points@[1] == point(0x4334_0000, 0x4020_0000));
    assert(curve.points@[2] == point(0x442f_0000, 0xbf80_0000));
    assert(curve.points@[3] == point(0x44e1_0000, 0xc000_0000));
    assert(curve.points@[4] == point(0x457a_0000, 0xbf80_0000));
    assert(curve.points@[5] == point(0x45fa_0000, 0x4020_0000));
    assert(curve.points@[6] == point(0x465a_c000, 0x4080_0000));
    assert(curve.points@[7] == disabled_point());
    lemma_quarters(0x44bb_8000, 0xbb_8000, 13, 6000);
    lemma_quarters(0x4270_0000, 0xf0_0000, 18, 240);
    lemma_quarters(0x40c0_0000, 0xc0_0000, 21, 24);
    lemma_quarters(0x4334_0000, 0xb4_0000, 16, 720);
    lemma_quarters(0x4020_0000, 0xa0_0000, 22, 10);
    lemma_quarters(0x442f_0000, 0xaf_0000, 14, 2800);
    lemma_quarters(0x3f80_0000, 0x80_0000, 23, 4);
    lemma_quarters(0x44e1_0000, 0xe1_0000, 13, 7200);
    lemma_quarters(0x4000_0000, 0x80_0000, 22, 8);
    lemma_quarters(0x457a_0000, 0xfa_0000, 12, 16000);
    lemma_quarters(0x45fa_0000, 0xfa_0000, 11, 32000);
    lemma_quarters(0x465a_c000, 0xda_c000, 10, 56000);
    lemma_quarters(0x4080_0000, 0x80_0000, 21, 16);
}

} // verus!
