//! The parameters: their values, and what their defaults, ranges and texts are.

use vstd::arithmetic::power2::pow2;
use vstd::prelude::*;

use crate::arithmetic::{
    differences, parses, products, quotients, roundings, short_texts, Arithmetic,
};
use crate::curve::{
    is_quadratic, law_no_usable_points_leave_the_base_curve, lemma_quadratic_value, no_points,
    Curve, CurveParams, CurvePoint, MAX_THRESHOLD_CURVE_POINTS,
    THRESHOLD_CURVE_MAX_FREQUENCY_HZ, THRESHOLD_CURVE_MIN_FREQUENCY_HZ,
    THRESHOLD_CURVE_POINT_OFFSET_LIMIT_DB,
};
use crate::exact::{
    is_exact, lemma_constants, lemma_order_is_by_value, lemma_sign_of_product, lemma_value_of,
    roundings_follow, whole,
};
use crate::single::{single, Single, ONE, THREE, ZERO};
use crate::text::{decimal, digits, joined, trim, trimmed};
use crate::updates::{Direction, ParameterChange, UpdateRequests};

verus! {

/// The encoding of `3.0`.
pub const PINK_NOISE_SLOPE_OFFSET_DB_PER_OCT: u32 = THREE;

/// The encoding of `100.0`.
pub const ONE_HUNDRED: u32 = 0x42c8_0000;

/// The type of threshold to use.
#[derive(Clone, Copy, PartialEq, Eq, Debug, Structural)]
pub enum ThresholdMode {
    /// Configure the thresholds to offset pink noise. This means that the slope will receive an
    /// additional -3 dB/octave slope.
    Internal,
    /// Dynamically reconfigure the thresholds based on a sidechain input. The -3 dB/octave slope
    /// offset is not applied here so the curve stays true to the sidechain input at the default
    /// settings.
    SidechainMatch,
    /// Compress the input signal based on the sidechain signal's activity.
    SidechainCompress,
}

/// The values of a curve point's parameters.
#[derive(Clone, Copy, PartialEq, Eq, Debug, Structural)]
pub struct ThresholdCurvePointParams {
    pub enabled: bool,
    pub frequency: Single,
    pub offset_db: Single,
}

/// The values of the threshold parameters.
#[derive(Clone, Copy, PartialEq, Eq, Debug)]
pub struct ThresholdParams {
    /// The compressor threshold at the center frequency.
    pub threshold_db: Single,
    /// The center frequency of the target curve.
    pub center_frequency: Single,
    /// The slope of the curve, in the log/log domain.
    pub curve_slope: Single,
    /// The third coefficient of the curve's polynomial.
    pub curve_curve: Single,
    /// Point slots edited from the analyzer graph.
    pub curve_points: [ThresholdCurvePointParams; MAX_THRESHOLD_CURVE_POINTS],
    pub mode: ThresholdMode,
    /// How much of the other channels is mixed in when computing the sidechain magnitudes.
    pub sc_channel_link: Single,
    /// Smooths the final per-bin gain reduction curve before applying it to the FFT bins.
    pub gain_smoothing: Single,
}

/// The values of the parameters of either the upward or downward compressors.
#[derive(Clone, Copy, PartialEq, Eq, Debug, Structural)]
pub struct CompressorParams {
    /// The compression threshold relative to the target curve.
    pub threshold_offset_db: Single,
    /// The compression ratio. At 1.0 the compressor is disengaged.
    pub ratio: Single,
    /// How much lower the ratios of the compressors for the higher registers are.
    pub high_freq_ratio_rolloff: Single,
    /// The compression knee width, in decibels.
    pub knee_width_db: Single,
}

/// The values of the parameters of both the upwards and downwards compressor banks.
#[derive(Clone, Copy, PartialEq, Eq, Debug, Structural)]
pub struct CompressorBankParams {
    pub upwards: CompressorParams,
    pub downwards: CompressorParams,
}

/// The values of the global parameters that the compressors read.
#[derive(Clone, Copy, PartialEq, Eq, Debug, Structural)]
pub struct GlobalParams {
    pub compressor_attack_ms: Single,
    pub compressor_release_ms: Single,
    pub compressor_freeze: bool,
}

/// The values of all parameters that the compressors read.
#[derive(Clone, Copy, PartialEq, Eq, Debug)]
pub struct SpectralCompressorParams {
    pub threshold: ThresholdParams,
    pub compressors: CompressorBankParams,
    pub global: GlobalParams,
    /// Whether the editor is open, so that there is someone to look at the analyzer.
    pub editor_open: bool,
}

/// Which values a parameter may have, and how they are spread over its range.
#[derive(Clone, Copy, PartialEq, Eq, Debug, Structural)]
pub enum FloatRange {
    Linear { min: Single, max: Single },
    /// Skewed by two to the power of `skew`.
    Skewed { min: Single, max: Single, skew: Single },
    /// Skewed in the same way on both sides of `center`.
    SymmetricalSkewed { min: Single, max: Single, skew: Single, center: Single },
}

/// How a value is shown and read.
#[derive(Clone, Copy, PartialEq, Eq, Debug, Structural)]
pub enum ValueText {
    Plain,
    HzThenKhz,
    /// The tilt that a threshold slope stands for.
    Tilt,
    Percentage,
    CompressionRatio,
}

/// The unit that follows a value.
#[derive(Clone, Copy, PartialEq, Eq, Debug, Structural)]
pub enum Unit {
    Unitless,
    Decibels,
    DecibelsPerOctave,
    DecibelsPerSquareOctave,
    Percent,
}

impl Unit {
    /// What follows a value with this unit.
    pub open spec fn suffix_text(self) -> Seq<char> {
        match self {
            Unit::Unitless => ""@,
            Unit::Decibels => " dB"@,
            Unit::DecibelsPerOctave => " dB/oct"@,
            Unit::DecibelsPerSquareOctave => " dB/oct²"@,
            Unit::Percent => "%"@,
        }
    }

    pub fn suffix(self) -> (suffix: String)
        ensures
            suffix@ == self.suffix_text(),
    {
        match self {
            Unit::Unitless => "".to_owned(),
            Unit::Decibels => " dB".to_owned(),
            Unit::DecibelsPerOctave => " dB/oct".to_owned(),
            Unit::DecibelsPerSquareOctave => " dB/oct²".to_owned(),
            Unit::Percent => "%".to_owned(),
        }
    }
}

/// What there is to know of a parameter besides its name.
#[derive(Clone, Copy, PartialEq, Eq, Debug, Structural)]
pub struct FloatSetting {
    pub default: Single,
    pub range: FloatRange,
    pub step_size: Option<Single>,
    pub unit: Unit,
    pub text: ValueText,
    pub hidden: bool,
    pub hidden_in_generic_ui: bool,
    pub change: ParameterChange,
}

/// The threshold parameters with a range of values.
#[derive(Clone, Copy, PartialEq, Eq, Debug, Structural)]
pub enum ThresholdParam {
    ThresholdDb,
    CenterFrequency,
    CurveSlope,
    CurveCurve,
    ScChannelLink,
    GainSmoothing,
}

/// The parameters of a curve point with a range of values.
#[derive(Clone, Copy, PartialEq, Eq, Debug, Structural)]
pub enum CurvePointParam {
    Frequency,
    OffsetDb,
}

/// The parameters of a compressor.
#[derive(Clone, Copy, PartialEq, Eq, Debug, Structural)]
pub enum CompressorParam {
    ThresholdOffsetDb,
    Ratio,
    HighFreqRatioRolloff,
    KneeWidthDb,
}

/// A parameter that is shown, and whose values are shown as plain numbers.
#[verifier::allow_in_spec]
pub fn plain_setting(
    default: u32,
    range: FloatRange,
    step_size: u32,
    unit: Unit,
    change: ParameterChange,
) -> FloatSetting
    returns
        (FloatSetting {
            default: single(default),
            range,
            step_size: Some(single(step_size)),
            unit,
            text: ValueText::Plain,
            hidden: false,
            hidden_in_generic_ui: false,
            change,
        }),
{
    FloatSetting {
        default: single(default),
        range,
        step_size: Some(single(step_size)),
        unit,
        text: ValueText::Plain,
        hidden: false,
        hidden_in_generic_ui: false,
        change,
    }
}

/// A parameter that is shown as a percentage.
#[verifier::allow_in_spec]
pub fn percentage_setting(default: u32, change: ParameterChange) -> FloatSetting
    returns
        (FloatSetting {
            default: single(default),
            range: FloatRange::Linear { min: single(ZERO), max: single(ONE) },
            step_size: None,
            unit: Unit::Percent,
            text: ValueText::Percentage,
            hidden: false,
            hidden_in_generic_ui: false,
            change,
        }),
{
    FloatSetting {
        default: single(default),
        range: FloatRange::Linear { min: single(ZERO), max: single(ONE) },
        step_size: None,
        unit: Unit::Percent,
        text: ValueText::Percentage,
        hidden: false,
        hidden_in_generic_ui: false,
        change,
    }
}

/// A range of values from `min` to `max`.
#[verifier::allow_in_spec]
pub fn linear(min: u32, max: u32) -> FloatRange
    returns
        (FloatRange::Linear { min: single(min), max: single(max) }),
{
    FloatRange::Linear { min: single(min), max: single(max) }
}

/// A range of values from `min` to `max`, skewed by two to the power of `skew`.
#[verifier::allow_in_spec]
pub fn skewed(min: u32, max: u32, skew: u32) -> FloatRange
    returns
        (FloatRange::Skewed { min: single(min), max: single(max), skew: single(skew) }),
{
    FloatRange::Skewed { min: single(min), max: single(max), skew: single(skew) }
}

/// A range of values from `-max` to `max`, skewed by `2^-2` around zero.
#[verifier::allow_in_spec]
pub fn symmetrical(max: u32) -> FloatRange
    returns
        (FloatRange::SymmetricalSkewed {
            min: single(max).negated(),
            max: single(max),
            skew: single(0xc000_0000),
            center: single(ZERO),
        }),
{
    FloatRange::SymmetricalSkewed {
        min: single(max).negated(),
        max: single(max),
        skew: single(0xc000_0000),
        center: single(ZERO),
    }
}

impl ThresholdParam {
    /// The parameter's name.
    pub open spec fn name_text(self) -> Seq<char> {
        match self {
            ThresholdParam::ThresholdDb => "Global Threshold"@,
            ThresholdParam::CenterFrequency => "Threshold Center"@,
            ThresholdParam::CurveSlope => "Threshold Slope"@,
            ThresholdParam::CurveCurve => "Threshold Curve"@,
            ThresholdParam::ScChannelLink => "SC Channel Link"@,
            ThresholdParam::GainSmoothing => "Smoothing"@,
        }
    }

    pub fn name(self) -> (name: String)
        ensures
            name@ == self.name_text(),
    {
        match self {
            ThresholdParam::ThresholdDb => "Global Threshold".to_owned(),
            ThresholdParam::CenterFrequency => "Threshold Center".to_owned(),
            ThresholdParam::CurveSlope => "Threshold Slope".to_owned(),
            ThresholdParam::CurveCurve => "Threshold Curve".to_owned(),
            ThresholdParam::ScChannelLink => "SC Channel Link".to_owned(),
            ThresholdParam::GainSmoothing => "Smoothing".to_owned(),
        }
    }

    /// -12 dB from -100 dB to 20 dB, 1 kHz from 20 Hz to 20 kHz, a slope of 0 within ±36, a curve of
    /// 0 within ±24, a link of 80% and no smoothing.
    #[verifier::allow_in_spec]
    pub fn setting(self) -> FloatSetting
        returns
            (match self {
                ThresholdParam::ThresholdDb => plain_setting(
                    0xc140_0000,
                    linear(0xc2c8_0000, 0x41a0_0000),
                    0x3dcc_cccd,
                    Unit::Decibels,
                    ParameterChange::Curve,
                ),
                ThresholdParam::CenterFrequency => FloatSetting {
                    step_size: None,
                    text: ValueText::HzThenKhz,
                    ..plain_setting(
                        0x447a_0000,
                        skewed(0x41a0_0000, 0x469c_4000, 0xc000_0000),
                        ZERO,
                        Unit::Unitless,
                        ParameterChange::Curve,
                    )
                },
                ThresholdParam::CurveSlope => FloatSetting {
                    text: ValueText::Tilt,
                    ..plain_setting(
                        ZERO,
                        symmetrical(0x4210_0000),
                        0x3c23_d70a,
                        Unit::DecibelsPerOctave,
                        ParameterChange::Curve,
                    )
                },
                ThresholdParam::CurveCurve => FloatSetting {
                    hidden_in_generic_ui: true,
                    ..plain_setting(
                        ZERO,
                        symmetrical(0x41c0_0000),
                        0x3c23_d70a,
                        Unit::DecibelsPerSquareOctave,
                        ParameterChange::Curve,
                    )
                },
                ThresholdParam::ScChannelLink => percentage_setting(
                    0x3f4c_cccd,
                    ParameterChange::Nothing,
                ),
                ThresholdParam::GainSmoothing => percentage_setting(ZERO, ParameterChange::Nothing),
            }),
    {
        match self {
            ThresholdParam::ThresholdDb => plain_setting(
                0xc140_0000,
                linear(0xc2c8_0000, 0x41a0_0000),
                0x3dcc_cccd,
                Unit::Decibels,
                ParameterChange::Curve,
            ),
            ThresholdParam::CenterFrequency => FloatSetting {
                step_size: None,
                text: ValueText::HzThenKhz,
                ..plain_setting(
                    0x447a_0000,
                    skewed(0x41a0_0000, 0x469c_4000, 0xc000_0000),
                    ZERO,
                    Unit::Unitless,
                    ParameterChange::Curve,
                )
            },
            ThresholdParam::CurveSlope => FloatSetting {
                text: ValueText::Tilt,
                ..plain_setting(
                    ZERO,
                    symmetrical(0x4210_0000),
                    0x3c23_d70a,
                    Unit::DecibelsPerOctave,
                    ParameterChange::Curve,
                )
            },
            ThresholdParam::CurveCurve => FloatSetting {
                hidden_in_generic_ui: true,
                ..plain_setting(
                    ZERO,
                    symmetrical(0x41c0_0000),
                    0x3c23_d70a,
                    Unit::DecibelsPerSquareOctave,
                    ParameterChange::Curve,
                )
            },
            ThresholdParam::ScChannelLink => percentage_setting(
                0x3f4c_cccd,
                ParameterChange::Nothing,
            ),
            ThresholdParam::GainSmoothing => percentage_setting(ZERO, ParameterChange::Nothing),
        }
    }
}

impl CurvePointParam {
    /// 1 kHz within the range of curve points, and no offset within the limit in steps of 0.1 dB.
    /// Curve points are edited in the analyzer only.
    #[verifier::allow_in_spec]
    pub fn setting(self) -> FloatSetting
        returns
            (match self {
                CurvePointParam::Frequency => FloatSetting {
                    step_size: None,
                    text: ValueText::HzThenKhz,
                    hidden: true,
                    hidden_in_generic_ui: true,
                    ..plain_setting(
                        0x447a_0000,
                        skewed(
                            THRESHOLD_CURVE_MIN_FREQUENCY_HZ,
                            THRESHOLD_CURVE_MAX_FREQUENCY_HZ,
                            0xc000_0000,
                        ),
                        ZERO,
                        Unit::Unitless,
                        ParameterChange::Curve,
                    )
                },
                CurvePointParam::OffsetDb => FloatSetting {
                    hidden: true,
                    hidden_in_generic_ui: true,
                    ..plain_setting(
                        ZERO,
                        FloatRange::Linear {
                            min: single(THRESHOLD_CURVE_POINT_OFFSET_LIMIT_DB).negated(),
                            max: single(THRESHOLD_CURVE_POINT_OFFSET_LIMIT_DB),
                        },
                        0x3dcc_cccd,
                        Unit::Decibels,
                        ParameterChange::Curve,
                    )
                },
            }),
    {
        match self {
            CurvePointParam::Frequency => FloatSetting {
                step_size: None,
                text: ValueText::HzThenKhz,
                hidden: true,
                hidden_in_generic_ui: true,
                ..plain_setting(
                    0x447a_0000,
                    skewed(
                        THRESHOLD_CURVE_MIN_FREQUENCY_HZ,
                        THRESHOLD_CURVE_MAX_FREQUENCY_HZ,
                        0xc000_0000,
                    ),
                    ZERO,
                    Unit::Unitless,
                    ParameterChange::Curve,
                )
            },
            CurvePointParam::OffsetDb => FloatSetting {
                hidden: true,
                hidden_in_generic_ui: true,
                ..plain_setting(
                    ZERO,
                    FloatRange::Linear {
                        min: single(THRESHOLD_CURVE_POINT_OFFSET_LIMIT_DB).negated(),
                        max: single(THRESHOLD_CURVE_POINT_OFFSET_LIMIT_DB),
                    },
                    0x3dcc_cccd,
                    Unit::Decibels,
                    ParameterChange::Curve,
                )
            },
        }
    }
}

/// `Curve Point <number> <suffix>`, where the number counts from one.
pub open spec fn curve_point_name_text(index: usize, suffix: Seq<char>) -> Seq<char> {
    "Curve Point "@ + digits((index + 1) as nat) + " "@ + suffix
}

/// The name of a curve point's parameter. The suffix is `Enabled`, `Frequency` or `Offset`.
pub fn curve_point_name(index: usize, suffix: &str) -> (name: String)
    requires
        index < MAX_THRESHOLD_CURVE_POINTS,
    ensures
        name@ == curve_point_name_text(index, suffix@),
{
    let mut name = joined("Curve Point ", decimal(index + 1).as_str());
    name.append(" ");
    name.append(suffix);
    name
}

impl ThresholdCurvePointParams {
    /// What switching a curve point on or off affects.
    #[verifier::allow_in_spec]
    pub fn enabled_change() -> ParameterChange
        returns
            ParameterChange::Curve,
    {
        ParameterChange::Curve
    }

    /// The values that a curve point starts with: not enabled, at 1 kHz and with no offset.
    #[verifier::allow_in_spec]
    pub fn new() -> ThresholdCurvePointParams
        returns
            (ThresholdCurvePointParams {
                enabled: false,
                frequency: CurvePointParam::Frequency.setting().default,
                offset_db: CurvePointParam::OffsetDb.setting().default,
            }),
    {
        ThresholdCurvePointParams {
            enabled: false,
            frequency: CurvePointParam::Frequency.setting().default,
            offset_db: CurvePointParam::OffsetDb.setting().default,
        }
    }

    #[verifier::allow_in_spec]
    pub fn curve_point(&self) -> CurvePoint
        returns
            (CurvePoint {
                enabled: self.enabled,
                frequency: self.frequency,
                offset_db: self.offset_db,
            }),
    {
        CurvePoint {
            enabled: self.enabled,
            frequency: self.frequency,
            offset_db: self.offset_db,
        }
    }
}

impl Direction {
    /// The prefix of the names of a direction's parameters.
    pub open spec fn prefix_text(self) -> Seq<char> {
        match self {
            Direction::Downwards => "Downwards"@,
            Direction::Upwards => "Upwards"@,
        }
    }

    pub fn prefix(self) -> (prefix: String)
        ensures
            prefix@ == self.prefix_text(),
    {
        match self {
            Direction::Downwards => "Downwards".to_owned(),
            Direction::Upwards => "Upwards".to_owned(),
        }
    }
}

impl CompressorParam {
    /// What follows the direction in the parameter's name.
    pub open spec fn suffix_text(self) -> Seq<char> {
        match self {
            CompressorParam::ThresholdOffsetDb => " Offset"@,
            CompressorParam::Ratio => " Ratio"@,
            CompressorParam::HighFreqRatioRolloff => " Hi-Freq Rolloff"@,
            CompressorParam::KneeWidthDb => " Knee"@,
        }
    }

    pub fn name(self, direction: Direction) -> (name: String)
        ensures
            name@ == direction.prefix_text() + self.suffix_text(),
    {
        let mut name = direction.prefix();
        match self {
            CompressorParam::ThresholdOffsetDb => name.append(" Offset"),
            CompressorParam::Ratio => name.append(" Ratio"),
            CompressorParam::HighFreqRatioRolloff => name.append(" Hi-Freq Rolloff"),
            CompressorParam::KneeWidthDb => name.append(" Knee"),
        }
        name
    }

    /// No offset within ±50 dB, a ratio of 1 up to 500, a knee of 6 dB up to 36 dB. The upwards bank
    /// defaults to a gentle rolloff of 75%, while the downwards bank keeps full-band ratios.
    #[verifier::allow_in_spec]
    pub fn setting(self, direction: Direction) -> FloatSetting
        returns
            (match self {
                CompressorParam::ThresholdOffsetDb => plain_setting(
                    ZERO,
                    linear(0xc248_0000, 0x4248_0000),
                    0x3dcc_cccd,
                    Unit::Decibels,
                    ParameterChange::Thresholds(direction),
                ),
                CompressorParam::Ratio => FloatSetting {
                    text: ValueText::CompressionRatio,
                    ..plain_setting(
                        ONE,
                        skewed(ONE, 0x43fa_0000, 0xc000_0000),
                        0x3c23_d70a,
                        Unit::Unitless,
                        ParameterChange::Ratios(direction),
                    )
                },
                CompressorParam::HighFreqRatioRolloff => percentage_setting(
                    if direction is Upwards {
                        0x3f40_0000
                    } else {
                        ZERO
                    },
                    ParameterChange::Ratios(direction),
                ),
                CompressorParam::KneeWidthDb => plain_setting(
                    0x40c0_0000,
                    skewed(ZERO, 0x4210_0000, 0xbf80_0000),
                    0x3dcc_cccd,
                    Unit::Decibels,
                    ParameterChange::Knees(direction),
                ),
            }),
    {
        match self {
            CompressorParam::ThresholdOffsetDb => plain_setting(
                ZERO,
                linear(0xc248_0000, 0x4248_0000),
                0x3dcc_cccd,
                Unit::Decibels,
                ParameterChange::Thresholds(direction),
            ),
            CompressorParam::Ratio => FloatSetting {
                text: ValueText::CompressionRatio,
                ..plain_setting(
                    ONE,
                    skewed(ONE, 0x43fa_0000, 0xc000_0000),
                    0x3c23_d70a,
                    Unit::Unitless,
                    ParameterChange::Ratios(direction),
                )
            },
            CompressorParam::HighFreqRatioRolloff => percentage_setting(
                match direction {
                    Direction::Upwards => 0x3f40_0000,
                    Direction::Downwards => ZERO,
                },
                ParameterChange::Ratios(direction),
            ),
            CompressorParam::KneeWidthDb => plain_setting(
                0x40c0_0000,
                skewed(ZERO, 0x4210_0000, 0xbf80_0000),
                0x3dcc_cccd,
                Unit::Decibels,
                ParameterChange::Knees(direction),
            ),
        }
    }
}

impl CompressorParams {
    /// The values that the parameters of a direction start with.
    #[verifier::allow_in_spec]
    pub fn new(direction: Direction) -> CompressorParams
        returns
            (CompressorParams {
                threshold_offset_db: CompressorParam::ThresholdOffsetDb.setting(direction).default,
                ratio: CompressorParam::Ratio.setting(direction).default,
                high_freq_ratio_rolloff: CompressorParam::HighFreqRatioRolloff.setting(
                    direction,
                ).default,
                knee_width_db: CompressorParam::KneeWidthDb.setting(direction).default,
            }),
    {
        CompressorParams {
            threshold_offset_db: CompressorParam::ThresholdOffsetDb.setting(direction).default,
            ratio: CompressorParam::Ratio.setting(direction).default,
            high_freq_ratio_rolloff: CompressorParam::HighFreqRatioRolloff.setting(
                direction,
            ).default,
            knee_width_db: CompressorParam::KneeWidthDb.setting(direction).default,
        }
    }
}

impl CompressorBankParams {
    /// The values that the parameters of both directions start with.
    #[verifier::allow_in_spec]
    pub fn new() -> CompressorBankParams
        returns
            (CompressorBankParams {
                upwards: CompressorParams::new(Direction::Upwards),
                downwards: CompressorParams::new(Direction::Downwards),
            }),
    {
        CompressorBankParams {
            upwards: CompressorParams::new(Direction::Upwards),
            downwards: CompressorParams::new(Direction::Downwards),
        }
    }

    /// The values for one direction.
    #[verifier::allow_in_spec]
    pub fn of(&self, direction: Direction) -> CompressorParams
        returns
            (match direction {
                Direction::Downwards => self.downwards,
                Direction::Upwards => self.upwards,
            }),
    {
        match direction {
            Direction::Downwards => self.downwards,
            Direction::Upwards => self.upwards,
        }
    }
}

/// `r` is the slope that the compressors use in a mode. The cheeky 3 additional dB/octave
/// attenuation is to match pink noise with the default settings. When using sidechaining this is
/// not wanted because the curve should be a flat offset to the sidechain input at the default
/// settings.
pub open spec fn is_effective_slope<A: Arithmetic>(
    mode: ThresholdMode,
    stored_slope: Single,
    r: Single,
) -> bool {
    match mode {
        ThresholdMode::Internal => differences::<A>(
            stored_slope,
            single(PINK_NOISE_SLOPE_OFFSET_DB_PER_OCT),
            r,
        ),
        _ => r == stored_slope,
    }
}

/// Computes the slope that the compressors use in a mode.
pub fn effective_slope<A: Arithmetic>(mode: ThresholdMode, stored_slope: Single) -> (r: Single)
    ensures
        is_effective_slope::<A>(mode, stored_slope, r),
{
    match mode {
        ThresholdMode::Internal => internal_threshold_slope::<A>(stored_slope),
        ThresholdMode::SidechainMatch => stored_slope,
        ThresholdMode::SidechainCompress => stored_slope,
    }
}

/// `stored_slope - 3`.
pub fn internal_threshold_slope<A: Arithmetic>(stored_slope: Single) -> (r: Single)
    ensures
        differences::<A>(stored_slope, single(PINK_NOISE_SLOPE_OFFSET_DB_PER_OCT), r),
{
    let r = A::difference(stored_slope, single(PINK_NOISE_SLOPE_OFFSET_DB_PER_OCT));
    assert(differences::<A>(stored_slope, single(PINK_NOISE_SLOPE_OFFSET_DB_PER_OCT), r));
    r
}

/// `3 - stored_slope`.
pub fn threshold_slope_to_display_value<A: Arithmetic>(stored_slope: Single) -> (r: Single)
    ensures
        differences::<A>(single(PINK_NOISE_SLOPE_OFFSET_DB_PER_OCT), stored_slope, r),
{
    let r = A::difference(single(PINK_NOISE_SLOPE_OFFSET_DB_PER_OCT), stored_slope);
    assert(differences::<A>(single(PINK_NOISE_SLOPE_OFFSET_DB_PER_OCT), stored_slope, r));
    r
}

/// `3 - display_slope`.
pub fn threshold_slope_from_display_value<A: Arithmetic>(display_slope: Single) -> (r: Single)
    ensures
        differences::<A>(single(PINK_NOISE_SLOPE_OFFSET_DB_PER_OCT), display_slope, r),
{
    let r = A::difference(single(PINK_NOISE_SLOPE_OFFSET_DB_PER_OCT), display_slope);
    assert(differences::<A>(single(PINK_NOISE_SLOPE_OFFSET_DB_PER_OCT), display_slope, r));
    r
}

/// `r` is `round(value * 100) / 100`.
pub open spec fn is_hundredth<A: Arithmetic>(value: Single, r: Single) -> bool {
    exists|scaled: Single, whole: Single| #[trigger]
        products::<A>(value, single(ONE_HUNDRED), scaled) && #[trigger] roundings::<A>(
            scaled,
            whole,
        ) && quotients::<A>(whole, single(ONE_HUNDRED), r)
}

fn hundredth<A: Arithmetic>(value: Single) -> (r: Single)
    ensures
        is_hundredth::<A>(value, r),
{
    let scaled = A::product(value, single(ONE_HUNDRED));
    assert(products::<A>(value, single(ONE_HUNDRED), scaled));
    let whole = A::rounded(scaled);
    let r = A::quotient(whole, single(ONE_HUNDRED));
    assert(quotients::<A>(whole, single(ONE_HUNDRED), r));
    r
}

/// `text` is the tilt that a stored slope stands for, with two decimals and without a sign where it
/// rounds to zero.
pub open spec fn is_slope_text<A: Arithmetic>(stored_slope: Single, text: Seq<char>) -> bool {
    exists|tilt: Single, shown: Single| #[trigger]
        differences::<A>(single(PINK_NOISE_SLOPE_OFFSET_DB_PER_OCT), stored_slope, tilt)
            && #[trigger] is_hundredth::<A>(tilt, shown) && if shown.equals(single(ZERO)) {
            text == "0.00"@
        } else {
            exists|number: String| #[trigger] short_texts::<A>(tilt, number) && text == number@
        }
}

/// How a stored slope is shown.
pub fn slope_text<A: Arithmetic>(stored_slope: Single) -> (text: String)
    ensures
        is_slope_text::<A>(stored_slope, text@),
{
    let tilt = threshold_slope_to_display_value::<A>(stored_slope);
    let shown = hundredth::<A>(tilt);
    if shown.equals(single(ZERO)) {
        "0.00".to_owned()
    } else {
        A::text_with_two_decimals(tilt)
    }
}

/// Whether a character may be part of the unit that follows a slope.
#[verifier::allow_in_spec]
pub fn is_slope_unit(c: char) -> bool
    returns
        ({
            ||| c == ' '
            ||| c == 'd'
            ||| c == 'D'
            ||| c == 'b'
            ||| c == 'B'
            ||| c == '/'
            ||| c == 'o'
            ||| c == 'O'
            ||| c == 'c'
            ||| c == 'C'
            ||| c == 't'
            ||| c == 'T'
        }),
{
    c == ' ' || c == 'd' || c == 'D' || c == 'b' || c == 'B' || c == '/' || c == 'o' || c == 'O'
        || c == 'c' || c == 'C' || c == 't' || c == 'T'
}

/// The text without the unit at its end.
pub open spec fn without_slope_unit(text: Seq<char>) -> Seq<char>
    decreases text.len(),
{
    if text.len() > 0 && is_slope_unit(text.last()) {
        without_slope_unit(text.drop_last())
    } else {
        text
    }
}

/// Removes the unit and the white space around a slope.
pub fn slope_number(text: &str) -> (r: String)
    ensures
        r@ == trimmed(without_slope_unit(text@)),
{
    let mut end: usize = text.unicode_len();
    assert(text@.subrange(0, end as int) =~= text@);
    while 0 < end && is_slope_unit(text.get_char(end - 1))
        invariant
            end <= text@.len(),
            without_slope_unit(text@) == without_slope_unit(text@.subrange(0, end as int)),
        decreases end,
    {
        assert(text@.subrange(0, end as int).drop_last() =~= text@.subrange(0, end - 1));
        end -= 1;
    }
    trim(text.substring_char(0, end))
}

/// `r` is the slope that a text stands for, if it holds a number.
pub open spec fn is_slope_of_text<A: Arithmetic>(text: Seq<char>, r: Option<Single>) -> bool {
    exists|number: &str, tilt: Option<Single>| #[trigger]
        parses::<A>(number, tilt) && number@ == trimmed(without_slope_unit(text)) && match tilt {
            Some(value) => r is Some && differences::<A>(
                single(PINK_NOISE_SLOPE_OFFSET_DB_PER_OCT),
                value,
                r->0,
            ),
            None => r is None,
        }
}

/// Reads a slope.
pub fn slope_from_text<A: Arithmetic>(text: &str) -> (r: Option<Single>)
    ensures
        is_slope_of_text::<A>(text@, r),
{
    let number = slope_number(text);
    let tilt = A::parsed(number.as_str());
    match tilt {
        Some(value) => Some(threshold_slope_from_display_value::<A>(value)),
        None => None,
    }
}

impl ThresholdParams {
    /// What switching the mode affects.
    #[verifier::allow_in_spec]
    pub fn mode_change() -> ParameterChange
        returns
            ParameterChange::Curve,
    {
        ParameterChange::Curve
    }

    /// The values that the threshold parameters start with.
    pub fn new() -> (params: ThresholdParams)
        ensures
            params.threshold_db == ThresholdParam::ThresholdDb.setting().default,
            params.center_frequency == ThresholdParam::CenterFrequency.setting().default,
            params.curve_slope == ThresholdParam::CurveSlope.setting().default,
            params.curve_curve == ThresholdParam::CurveCurve.setting().default,
            forall|i: int|
                0 <= i < MAX_THRESHOLD_CURVE_POINTS ==> params.curve_points@[i]
                    == ThresholdCurvePointParams::new(),
            params.mode == ThresholdMode::Internal,
            params.sc_channel_link == ThresholdParam::ScChannelLink.setting().default,
            params.gain_smoothing == ThresholdParam::GainSmoothing.setting().default,
    {
        ThresholdParams {
            threshold_db: ThresholdParam::ThresholdDb.setting().default,
            center_frequency: ThresholdParam::CenterFrequency.setting().default,
            curve_slope: ThresholdParam::CurveSlope.setting().default,
            curve_curve: ThresholdParam::CurveCurve.setting().default,
            curve_points: [ThresholdCurvePointParams::new();MAX_THRESHOLD_CURVE_POINTS],
            mode: ThresholdMode::Internal,
            sc_channel_link: ThresholdParam::ScChannelLink.setting().default,
            gain_smoothing: ThresholdParam::GainSmoothing.setting().default,
        }
    }

    /// `curve` is the curve that the parameters stand for.
    pub open spec fn are_curve_params<A: Arithmetic>(self, curve: CurveParams) -> bool {
        &&& curve.intercept == self.threshold_db
        &&& curve.center_frequency == self.center_frequency
        &&& is_effective_slope::<A>(self.mode, self.curve_slope, curve.slope)
        &&& curve.curve == self.curve_curve
        &&& forall|i: int|
            0 <= i < MAX_THRESHOLD_CURVE_POINTS ==> #[trigger] curve.points@[i]
                == self.curve_points@[i].curve_point()
    }

    /// Build [`CurveParams`] out of this set of parameters.
    pub fn curve_params<A: Arithmetic>(&self) -> (curve: CurveParams)
        ensures
            self.are_curve_params::<A>(curve),
    {
        let mut points = no_points();
        let mut index: usize = 0;
        while index < MAX_THRESHOLD_CURVE_POINTS
            invariant
                index <= MAX_THRESHOLD_CURVE_POINTS,
                forall|i: int|
                    0 <= i < index ==> #[trigger] points@[i]
                        == self.curve_points@[i].curve_point(),
            decreases MAX_THRESHOLD_CURVE_POINTS - index,
        {
            points[index] = self.curve_points[index].curve_point();
            index += 1;
        }
        CurveParams {
            intercept: self.threshold_db,
            center_frequency: self.center_frequency,
            slope: effective_slope::<A>(self.mode, self.curve_slope),
            curve: self.curve_curve,
            points,
        }
    }
}

/// Each default lies in the range of its parameter.
pub proof fn law_defaults_are_in_range(
    threshold: ThresholdParam,
    point: CurvePointParam,
    compressor: CompressorParam,
    direction: Direction,
)
    ensures
        threshold.setting().contains_default(),
        point.setting().contains_default(),
        compressor.setting(direction).contains_default(),
{
}

impl FloatSetting {
    /// The default lies in the range.
    pub open spec fn contains_default(self) -> bool {
        match self.range {
            FloatRange::Linear { min, max } => self.default.is_within(min, max),
            FloatRange::Skewed { min, max, skew } => self.default.is_within(min, max),
            FloatRange::SymmetricalSkewed { min, max, skew, center } => self.default.is_within(
                min,
                max,
            ) && center.is_within(min, max),
        }
    }
}

/// Changing any threshold parameter that has to do with the curve, the mode or any curve point
/// makes both thresholds and both knees due, and no ratio: the flags for them are raised.
pub proof fn law_curve_parameters_update_both_thresholds(
    point: CurvePointParam,
    requests: UpdateRequests,
)
    ensures
        requests.are_raised_for(ParameterChange::Curve.updates()) ==> {
            &&& requests.downwards.should_update_thresholds.is_raised()
            &&& requests.upwards.should_update_thresholds.is_raised()
            &&& requests.downwards.should_update_knee_parabolas.is_raised()
            &&& requests.upwards.should_update_knee_parabolas.is_raised()
        },
        ParameterChange::Curve.updates().downwards.thresholds,
        ParameterChange::Curve.updates().upwards.thresholds,
        ParameterChange::Curve.updates().downwards.knee_parabolas,
        ParameterChange::Curve.updates().upwards.knee_parabolas,
        !ParameterChange::Curve.updates().downwards.ratios,
        !ParameterChange::Curve.updates().upwards.ratios,
        ThresholdParam::ThresholdDb.setting().change is Curve,
        ThresholdParam::CenterFrequency.setting().change is Curve,
        ThresholdParam::CurveSlope.setting().change is Curve,
        ThresholdParam::CurveCurve.setting().change is Curve,
        point.setting().change is Curve,
        ThresholdParams::mode_change() is Curve,
        ThresholdCurvePointParams::enabled_change() is Curve,
{
}

/// The tilt that is shown for a slope is the slope that the compressors use with their own
/// thresholds, seen from the noise that it makes flat: its negation. The slope that stands for a
/// tilt is the one that it is shown for. Where the sidechain sets the thresholds, the stored slope
/// is used as it is.
pub proof fn law_shown_tilt_mirrors_the_slope_in_use<A: Arithmetic>(
    stored_slope: Single,
    mode: ThresholdMode,
    internal: Single,
    shown: Single,
    back: Single,
    used: Single,
)
    requires
        is_exact::<A>(),
        stored_slope.is_finite(),
        call_ensures(internal_threshold_slope::<A>, (stored_slope,), internal),
        call_ensures(threshold_slope_to_display_value::<A>, (stored_slope,), shown),
        call_ensures(threshold_slope_from_display_value::<A>, (shown,), back),
        is_effective_slope::<A>(mode, stored_slope, used),
    ensures
        stored_slope.value() - internal.value() == 3real,
        shown.value() == -internal.value(),
        back.value() == stored_slope.value(),
        used.value() == if mode is Internal {
            internal.value()
        } else {
            stored_slope.value()
        },
{
    lemma_constants();
}

/// A value is shown to the nearest hundredth.
pub proof fn law_hundredths_are_the_nearest<A: Arithmetic>(value: Single, r: Single)
    requires
        is_exact::<A>(),
        roundings_follow::<A>(),
        value.is_finite(),
        is_hundredth::<A>(value, r),
    ensures
        r.is_finite(),
        200real * (r.value() - value.value()) <= 1real,
        200real * (value.value() - r.value()) <= 1real,
        exists|n: int| r.value() * 100real == #[trigger] whole(n),
{
    vstd::arithmetic::power2::lemma2_to64();
    assert(pow2(17) == 0x2_0000);
    assert(pow2(17) as int as real == 131072real);
    lemma_value_of(ONE_HUNDRED, 0xc8_0000, 17);
    let (scaled, rounded) = choose|scaled: Single, whole: Single| #[trigger]
        products::<A>(value, single(ONE_HUNDRED), scaled) && #[trigger] roundings::<A>(
            scaled,
            whole,
        ) && quotients::<A>(whole, single(ONE_HUNDRED), r);
    assert(scaled.value() == value.value() * 100real);
    assert(r.value() * 100real == rounded.value());
}

/// A slope whose tilt rounds to zero is shown as zero, without a sign. Any other is shown as the
/// text of its tilt.
pub proof fn law_nearly_flat_slopes_are_shown_as_zero<A: Arithmetic>(
    stored_slope: Single,
    text: Seq<char>,
)
    requires
        is_exact::<A>(),
        roundings_follow::<A>(),
        stored_slope.is_finite(),
        is_slope_text::<A>(stored_slope, text),
    ensures
        -1real < 200real * (3real - stored_slope.value()) < 1real ==> text == "0.00"@,
        200real * (3real - stored_slope.value()) > 1real || 200real * (3real
            - stored_slope.value()) < -1real ==> exists|tilt: Single, number: String| #[trigger]
            short_texts::<A>(tilt, number) && tilt.value() == 3real - stored_slope.value() && text
                == number@,
{
    lemma_constants();
    let (tilt, shown) = choose|tilt: Single, shown: Single| #[trigger]
        differences::<A>(single(PINK_NOISE_SLOPE_OFFSET_DB_PER_OCT), stored_slope, tilt)
            && #[trigger] is_hundredth::<A>(tilt, shown) && if shown.equals(single(ZERO)) {
            text == "0.00"@
        } else {
            exists|number: String| #[trigger] short_texts::<A>(tilt, number) && text == number@
        };
    assert(tilt.value() == 3real - stored_slope.value());
    law_hundredths_are_the_nearest::<A>(tilt, shown);
    lemma_order_is_by_value(shown, single(ZERO));
    let n = choose|n: int| shown.value() * 100real == #[trigger] whole(n);
    if -1real < 200real * tilt.value() < 1real {
        assert(-1real < whole(n) < 1real);
        assert(n == 0);
    }
}

/// Without curve points, the threshold is the level of the curve at its center frequency.
pub proof fn law_threshold_is_the_level_at_the_center<A: Arithmetic>(
    params: ThresholdParams,
    curve_params: CurveParams,
    curve: Curve,
    ln_freq: Single,
    level: Single,
)
    requires
        is_exact::<A>(),
        params.are_curve_params::<A>(curve_params),
        *curve.params == curve_params,
        params.threshold_db.is_finite() && params.curve_slope.is_finite(),
        params.curve_curve.is_finite(),
        curve.ln_center_frequency.is_finite() && ln_freq.is_finite(),
        ln_freq.value() == curve.ln_center_frequency.value(),
        forall|i: int|
            0 <= i < MAX_THRESHOLD_CURVE_POINTS ==> !(#[trigger] params.curve_points@[i]).enabled,
        curve.is_level::<A>(ln_freq, level),
    ensures
        level.value() == params.threshold_db.value(),
{
    lemma_constants();
    assert forall|i: int| 0 <= i < curve.params.points@.len() implies !(
    #[trigger] curve.params.points@[i]).is_usable() by {
        assert(curve_params.points@[i] == params.curve_points@[i].curve_point());
    }
    let base = law_no_usable_points_leave_the_base_curve::<A>(curve, ln_freq, level);
    let x = choose|x: Single| #[trigger]
        differences::<A>(ln_freq, curve.ln_center_frequency, x) && is_quadratic::<A>(
            curve_params.intercept,
            curve_params.slope,
            curve_params.curve,
            x,
            base,
        );
    assert(curve_params.slope.is_finite());
    lemma_quadratic_value::<A>(
        curve_params.intercept,
        curve_params.slope,
        curve_params.curve,
        x,
        base,
    );
    lemma_sign_of_product(curve_params.slope.value(), 0real);
    lemma_sign_of_product(0real, 0real);
    lemma_sign_of_product(curve_params.curve.value(), 0real);
}

} // verus!
