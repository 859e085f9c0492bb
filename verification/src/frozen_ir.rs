//! Converts a captured per-bin gain snapshot into a time-domain impulse response.
//!
//! Frozen state is stored as spectral gain deltas. An offline STFT->gain->iSTFT pass over a unit
//! impulse turns it back into time-domain audio: what goes into that pass, what happens to each of
//! its blocks and what is taken out of it is decided here.

use vstd::arithmetic::power2::pow2;
use vstd::prelude::*;

use crate::arithmetic::{
    count_casts, counts, counts_keep_order, fast_level_gains, floors, have_same_sign, products,
    products_keep_order, quotients, quotients_keep_order, quotients_stay_positive, roots_keep_order,
    roundings, square_roots, sums, texts, Arithmetic,
};
use crate::dynamics::{half, halves, reciprocal, reciprocals};
use crate::exact::{
    floors_follow, is_exact, lemma_constants, lemma_exponential_of_sum, lemma_regroup,
    lemma_sign_of_product, lemma_three_factors, lemma_value_of, level_gains_follow, whole,
};
use crate::envelope::Bin;
use crate::single::{single, Single, ONE, ZERO};
use crate::text::{decimal, digits, joined};
use crate::MAX_WINDOW_SIZE;

verus! {

/// How many channels a snapshot holds.
pub const MAX_IR_CHANNELS: usize = 2;

/// Exported IR length is twice the FFT window the snapshot was captured at.
pub const IR_LEN_MULT: usize = 2;

/// The rendered signal is two windows longer: one before the impulse and one of latency.
pub const RENDER_LEN_MULT: usize = 4;

/// The encoding of `20.0`, the frequency up to which bins are suppressed.
pub const SUPPRESSED_FREQUENCY_HZ: u32 = 0x41a0_0000;

/// The encoding of `4.0`.
pub const FOUR: u32 = 0x4080_0000;

/// The encoding of `1.5`.
pub const THREE_HALVES: u32 = 0x3fc0_0000;

/// Snapshot of frozen compressor state used for offline IR rendering.
#[derive(Clone, Debug)]
pub struct FrozenIrData {
    /// Whether the snapshot contains a captured frozen curve that can be rendered.
    pub valid: bool,
    pub sample_rate: Single,
    pub window_size: usize,
    pub overlap_times: usize,
    pub num_channels: usize,
    /// Per-channel, per-bin gain deltas in dB that produce the captured spectral curve.
    pub gain_difference_db: [Vec<Single>; MAX_IR_CHANNELS],
}

/// Why a snapshot cannot be rendered.
#[derive(Clone, PartialEq, Eq, Debug)]
pub enum FrozenIrError {
    NotReady,
    BadChannelCount(usize),
    BadWindowSize(usize),
    NoOverlap,
    BadSampleRate(Single),
    ChannelCountMismatch(usize, usize),
    NoChannels,
    UnequalLengths,
    ForwardFft(String),
    InverseFft(String),
}

/// Silence in as many bins as the largest window has.
pub open spec fn is_flat(gains: Seq<Single>) -> bool {
    gains == Seq::new((MAX_WINDOW_SIZE / 2 + 1) as nat, |i: int| single(ZERO))
}

/// A gain of 0 dB for each bin of the largest window.
pub fn flat_gains() -> (gains: Vec<Single>)
    ensures
        is_flat(gains@),
{
    let mut gains: Vec<Single> = Vec::new();
    gains.resize(MAX_WINDOW_SIZE / 2 + 1, single(ZERO));
    assert(gains@ =~= Seq::new((MAX_WINDOW_SIZE / 2 + 1) as nat, |i: int| single(ZERO)));
    gains
}

impl Default for FrozenIrData {
    fn default() -> (data: FrozenIrData)
        ensures
            !data.valid,
            data.sample_rate == single(ONE),
            data.window_size == 0,
            data.overlap_times == 0,
            data.num_channels == 0,
            is_flat(data.gain_difference_db@[0]@),
            is_flat(data.gain_difference_db@[1]@),
    {
        FrozenIrData {
            valid: false,
            sample_rate: single(ONE),
            window_size: 0,
            overlap_times: 0,
            num_channels: 0,
            gain_difference_db: [flat_gains(), flat_gains()],
        }
    }
}

impl FrozenIrData {
    #[verifier::allow_in_spec]
    pub fn num_bins(&self) -> usize
        returns
            (self.window_size / 2 + 1) as usize,
    {
        self.window_size / 2 + 1
    }

    pub fn exported_len(&self) -> (len: usize)
        requires
            self.window_size * IR_LEN_MULT <= usize::MAX,
        ensures
            len == self.window_size * IR_LEN_MULT,
    {
        self.window_size * IR_LEN_MULT
    }
}

/// The first reason for which a snapshot cannot be rendered, if there is one.
pub open spec fn snapshot_problem(snapshot: FrozenIrData) -> Option<FrozenIrError> {
    if !snapshot.valid {
        Some(FrozenIrError::NotReady)
    } else if snapshot.num_channels == 0 || snapshot.num_channels > MAX_IR_CHANNELS {
        Some(FrozenIrError::BadChannelCount(snapshot.num_channels))
    } else if snapshot.window_size == 0 || snapshot.window_size > MAX_WINDOW_SIZE {
        Some(FrozenIrError::BadWindowSize(snapshot.window_size))
    } else if snapshot.overlap_times == 0 {
        Some(FrozenIrError::NoOverlap)
    } else if snapshot.sample_rate.at_most(single(ZERO)) {
        Some(FrozenIrError::BadSampleRate(snapshot.sample_rate))
    } else {
        None
    }
}

/// Checks that a snapshot can be rendered.
pub fn validate_snapshot(snapshot: &FrozenIrData) -> (r: Result<(), FrozenIrError>)
    ensures
        match snapshot_problem(*snapshot) {
            Some(problem) => r == Err::<(), FrozenIrError>(problem),
            None => r is Ok,
        },
{
    if !snapshot.valid {
        return Err(FrozenIrError::NotReady);
    }
    if snapshot.num_channels == 0 || snapshot.num_channels > MAX_IR_CHANNELS {
        return Err(FrozenIrError::BadChannelCount(snapshot.num_channels));
    }
    if snapshot.window_size == 0 || snapshot.window_size > MAX_WINDOW_SIZE {
        return Err(FrozenIrError::BadWindowSize(snapshot.window_size));
    }
    if snapshot.overlap_times == 0 {
        return Err(FrozenIrError::NoOverlap);
    }
    if snapshot.sample_rate.at_most(single(ZERO)) {
        return Err(FrozenIrError::BadSampleRate(snapshot.sample_rate));
    }
    Ok(())
}

impl FrozenIrError {
    /// `text` is what the user is told.
    pub open spec fn is_message<A: Arithmetic>(self, text: Seq<char>) -> bool {
        match self {
            FrozenIrError::NotReady => text == "snapshot not ready"@,
            FrozenIrError::BadChannelCount(count) => text == "bad channel count: "@ + digits(
                count as nat,
            ),
            FrozenIrError::BadWindowSize(size) => text == "bad window size: "@ + digits(
                size as nat,
            ),
            FrozenIrError::NoOverlap => text == "overlap must be non-zero"@,
            FrozenIrError::BadSampleRate(rate) => exists|number: String| #[trigger]
                texts::<A>(rate, number) && text == "bad sample rate: "@ + number@,
            FrozenIrError::ChannelCountMismatch(expected, actual) => text
                == "channel count mismatch: "@ + digits(expected as nat) + " vs "@ + digits(
                actual as nat,
            ),
            FrozenIrError::NoChannels => text == "need at least one channel"@,
            FrozenIrError::UnequalLengths => text == "channels must have equal length"@,
            FrozenIrError::ForwardFft(cause) => text == "forward FFT failed: "@ + cause@,
            FrozenIrError::InverseFft(cause) => text == "inverse FFT failed: "@ + cause@,
        }
    }

    /// What the user is told.
    pub fn message<A: Arithmetic>(&self) -> (text: String)
        ensures
            self.is_message::<A>(text@),
    {
        match self {
            FrozenIrError::NotReady => "snapshot not ready".to_owned(),
            FrozenIrError::BadChannelCount(count) => joined(
                "bad channel count: ",
                decimal(*count).as_str(),
            ),
            FrozenIrError::BadWindowSize(size) => joined(
                "bad window size: ",
                decimal(*size).as_str(),
            ),
            FrozenIrError::NoOverlap => "overlap must be non-zero".to_owned(),
            FrozenIrError::BadSampleRate(rate) => {
                let number = A::text(*rate);
                joined("bad sample rate: ", number.as_str())
            },
            FrozenIrError::ChannelCountMismatch(expected, actual) => {
                let mut text = joined("channel count mismatch: ", decimal(*expected).as_str());
                text.append(" vs ");
                text.append(decimal(*actual).as_str());
                text
            },
            FrozenIrError::NoChannels => "need at least one channel".to_owned(),
            FrozenIrError::UnequalLengths => "channels must have equal length".to_owned(),
            FrozenIrError::ForwardFft(cause) => joined("forward FFT failed: ", cause.as_str()),
            FrozenIrError::InverseFft(cause) => joined("inverse FFT failed: ", cause.as_str()),
        }
    }
}

/// `r` is one more than `floor(20 / ((sample_rate / 2) / num_bins))`, as far as that fits.
pub open spec fn is_first_non_dc_bin<A: Arithmetic>(
    sample_rate: Single,
    num_bins: usize,
    r: usize,
) -> bool {
    exists|nyquist: Single, count: Single, width: Single, ratio: Single, whole: Single, bins: u64|
        #[trigger] halves::<A>(sample_rate, nyquist) && #[trigger] counts::<A>(num_bins, count)
            && #[trigger] quotients::<A>(nyquist, count, width) && #[trigger] quotients::<A>(
            single(SUPPRESSED_FREQUENCY_HZ),
            width,
            ratio,
        ) && #[trigger] floors::<A>(ratio, whole) && #[trigger] count_casts::<A>(whole, bins) && r
            == if bins < usize::MAX {
            bins + 1
        } else {
            usize::MAX as int
        }
}

/// First non-DC bin to keep once DC and the first few ultra-low bins are suppressed.
pub fn first_non_dc_bin_idx<A: Arithmetic>(sample_rate: Single, num_bins: usize) -> (r: usize)
    ensures
        is_first_non_dc_bin::<A>(sample_rate, num_bins, r),
{
    let nyquist = half::<A>(sample_rate);
    let count = A::from_count(num_bins);
    let width = A::quotient(nyquist, count);
    let ratio = A::quotient(single(SUPPRESSED_FREQUENCY_HZ), width);
    assert(quotients::<A>(single(SUPPRESSED_FREQUENCY_HZ), width, ratio));
    let whole = A::floored(ratio);
    let bins: u64 = A::to_count(whole);
    if bins < usize::MAX as u64 {
        (bins + 1) as usize
    } else {
        usize::MAX
    }
}

/// `r` is the root of `1 / ((overlap_times / 4) * 1.5) / window_size`.
pub open spec fn is_window_gain<A: Arithmetic>(
    overlap_times: usize,
    window_size: usize,
    r: Single,
) -> bool {
    exists|
        overlap: Single,
        share: Single,
        scaled: Single,
        inverse: Single,
        size: Single,
        compensation: Single,
    | #[trigger]
        counts::<A>(overlap_times, overlap) && #[trigger] quotients::<A>(
            overlap,
            single(FOUR),
            share,
        ) && #[trigger] products::<A>(share, single(THREE_HALVES), scaled)
            && #[trigger] reciprocals::<A>(scaled, inverse) && #[trigger] counts::<A>(
            window_size,
            size,
        ) && #[trigger] quotients::<A>(inverse, size, compensation) && square_roots::<A>(
            compensation,
            r,
        )
}

/// The gain that goes with each application of the window function, so that both of them together
/// undo what overlapping windows and the unnormalized FFT add.
pub fn window_gain<A: Arithmetic>(overlap_times: usize, window_size: usize) -> (r: Single)
    ensures
        is_window_gain::<A>(overlap_times, window_size, r),
{
    let overlap = A::from_count(overlap_times);
    let share = A::quotient(overlap, single(FOUR));
    assert(quotients::<A>(overlap, single(FOUR), share));
    let scaled = A::product(share, single(THREE_HALVES));
    assert(products::<A>(share, single(THREE_HALVES), scaled));
    let inverse = reciprocal::<A>(scaled);
    let size = A::from_count(window_size);
    let compensation = A::quotient(inverse, size);
    A::square_root(compensation)
}

/// `after` is `sample * (window * gain)`.
pub open spec fn is_windowed<A: Arithmetic>(
    sample: Single,
    window: Single,
    gain: Single,
    after: Single,
) -> bool {
    exists|factor: Single| #[trigger]
        products::<A>(window, gain, factor) && products::<A>(sample, factor, after)
}

/// `after` is a block of samples with the window function and a gain applied to it.
pub open spec fn are_windowed<A: Arithmetic>(
    before: Seq<Single>,
    window: Seq<Single>,
    gain: Single,
    after: Seq<Single>,
) -> bool {
    &&& after.len() == before.len()
    &&& forall|i: int|
        0 <= i < before.len() ==> if i < window.len() {
            is_windowed::<A>(before[i], window[i], gain, #[trigger] after[i])
        } else {
            after[i] == before[i]
        }
}

/// Applies the window function and a gain to a block of samples.
pub fn apply_window<A: Arithmetic>(samples: &mut Vec<Single>, window: &Vec<Single>, gain: Single)
    ensures
        are_windowed::<A>(old(samples)@, window@, gain, final(samples)@),
{
    let mut index: usize = 0;
    while index < samples.len() && index < window.len()
        invariant
            index <= samples@.len(),
            index <= window@.len(),
            samples@.len() == old(samples)@.len(),
            forall|i: int|
                0 <= i < index ==> is_windowed::<A>(
                    old(samples)@[i],
                    window@[i],
                    gain,
                    #[trigger] samples@[i],
                ),
            forall|i: int| index <= i < samples@.len() ==> samples@[i] == old(samples)@[i],
        decreases samples.len() - index,
    {
        let factor = A::product(window[index], gain);
        let scaled = A::product(samples[index], factor);
        assert(is_windowed::<A>(old(samples)@[index as int], window@[index as int], gain, scaled));
        samples[index] = scaled;
        index += 1;
    }
}

/// A bin of silence.
#[verifier::allow_in_spec]
pub fn silent_bin() -> Bin
    returns
        (Bin { re: single(ZERO), im: single(ZERO) }),
{
    Bin { re: single(ZERO), im: single(ZERO) }
}

/// `after` is the bin `before` with a gain of `gain_db` decibels.
pub open spec fn is_bin_scaled<A: Arithmetic>(before: Bin, gain_db: Single, after: Bin) -> bool {
    exists|gain: Single| #[trigger]
        fast_level_gains::<A>(gain_db, gain) && products::<A>(before.re, gain, after.re)
            && products::<A>(before.im, gain, after.im)
}

/// Applies a gain in decibels to a bin.
pub fn scale_bin<A: Arithmetic>(bin: Bin, gain_db: Single) -> (r: Bin)
    ensures
        is_bin_scaled::<A>(bin, gain_db, r),
{
    let gain = A::db_to_gain_fast(gain_db);
    Bin { re: A::product(bin.re, gain), im: A::product(bin.im, gain) }
}

/// The bin that is scaled: silence below the first bin that is kept.
#[verifier::allow_in_spec]
pub fn kept_bin(bin: Bin, bin_idx: usize, first_non_dc_bin: usize) -> Bin
    returns
        (if bin_idx < first_non_dc_bin {
            silent_bin()
        } else {
            bin
        }),
{
    if bin_idx < first_non_dc_bin {
        silent_bin()
    } else {
        bin
    }
}

/// `after` are the bins of a block without the lowest ones and with a snapshot's gains applied to
/// all of them.
pub open spec fn are_shaped<A: Arithmetic>(
    before: Seq<Bin>,
    gain_difference_db: Seq<Single>,
    first_non_dc_bin: usize,
    after: Seq<Bin>,
) -> bool {
    &&& after.len() == before.len()
    &&& forall|i: int|
        0 <= i < before.len() ==> {
            let kept = kept_bin(before[i], i as usize, first_non_dc_bin);
            if i < gain_difference_db.len() {
                is_bin_scaled::<A>(kept, gain_difference_db[i], #[trigger] after[i])
            } else {
                after[i] == kept
            }
        }
}

/// Suppresses the lowest bins of a block and applies a snapshot's gains to all of them.
pub fn shape_bins<A: Arithmetic>(
    bins: &mut Vec<Bin>,
    gain_difference_db: &Vec<Single>,
    first_non_dc_bin: usize,
)
    ensures
        are_shaped::<A>(old(bins)@, gain_difference_db@, first_non_dc_bin, final(bins)@),
{
    let mut index: usize = 0;
    while index < bins.len()
        invariant
            index <= bins@.len(),
            bins@.len() == old(bins)@.len(),
            forall|i: int|
                0 <= i < index ==> {
                    let kept = kept_bin(old(bins)@[i], i as usize, first_non_dc_bin);
                    if i < gain_difference_db@.len() {
                        is_bin_scaled::<A>(kept, gain_difference_db@[i], #[trigger] bins@[i])
                    } else {
                        bins@[i] == kept
                    }
                },
            forall|i: int| index <= i < bins@.len() ==> bins@[i] == old(bins)@[i],
        decreases bins.len() - index,
    {
        let kept = kept_bin(bins[index], index, first_non_dc_bin);
        bins[index] = if index < gain_difference_db.len() {
            scale_bin::<A>(kept, gain_difference_db[index])
        } else {
            kept
        };
        index += 1;
    }
}

/// All channels have `len` samples.
pub open spec fn have_length(channels: Seq<Vec<Single>>, len: nat) -> bool {
    forall|i: int| 0 <= i < channels.len() ==> (#[trigger] channels[i])@.len() == len
}

/// The first reason for which a signal cannot be processed with a snapshot, if there is one.
pub open spec fn signal_problem(
    snapshot: FrozenIrData,
    channels: Seq<Vec<Single>>,
) -> Option<FrozenIrError> {
    match snapshot_problem(snapshot) {
        Some(problem) => Some(problem),
        None => if channels.len() != snapshot.num_channels {
            Some(
                FrozenIrError::ChannelCountMismatch(snapshot.num_channels, channels.len() as usize),
            )
        } else if channels.len() == 0 {
            Some(FrozenIrError::NoChannels)
        } else if !have_length(channels, channels[0]@.len()) {
            Some(FrozenIrError::UnequalLengths)
        } else {
            None
        },
    }
}

/// Checks that a signal can be processed with a snapshot: it has the snapshot's channels, and all
/// of them share the same length, which is returned.
pub fn check_signal(snapshot: &FrozenIrData, channels: &Vec<Vec<Single>>) -> (r: Result<
    usize,
    FrozenIrError,
>)
    ensures
        match signal_problem(*snapshot, channels@) {
            Some(problem) => r == Err::<usize, FrozenIrError>(problem),
            None => r is Ok && r->Ok_0 == channels@[0]@.len(),
        },
{
    if let Err(problem) = validate_snapshot(snapshot) {
        return Err(problem);
    }
    if channels.len() != snapshot.num_channels {
        return Err(FrozenIrError::ChannelCountMismatch(snapshot.num_channels, channels.len()));
    }
    if channels.len() == 0 {
        return Err(FrozenIrError::NoChannels);
    }
    let len: usize = channels[0].len();
    let mut index: usize = 0;
    while index < channels.len()
        invariant
            index <= channels@.len(),
            channels@.len() == snapshot.num_channels,
            channels@.len() > 0,
            snapshot_problem(*snapshot) is None,
            len == channels@[0]@.len(),
            forall|i: int| 0 <= i < index ==> (#[trigger] channels@[i])@.len() == len,
        decreases channels.len() - index,
    {
        if channels[index].len() != len {
            assert(channels@[index as int]@.len() != len);
            return Err(FrozenIrError::UnequalLengths);
        }
        index += 1;
    }
    Ok(len)
}

/// What each window of a channel goes through on its way to the output.
pub struct WindowPass {
    pub window: Vec<Single>,
    /// How often windows overlap.
    pub overlap_times: usize,
    /// Goes with each application of the window function.
    pub gain: Single,
    /// All bins below this one are suppressed.
    pub first_non_dc_bin: usize,
    /// The channel's gains.
    pub gain_difference_db: Vec<Single>,
}

/// `pass` is what the windows of a channel go through with a snapshot and a window function.
pub open spec fn is_pass<A: Arithmetic>(
    snapshot: FrozenIrData,
    channel_idx: int,
    window: Seq<Single>,
    pass: WindowPass,
) -> bool {
    &&& pass.window@ == window
    &&& pass.overlap_times == snapshot.overlap_times
    &&& is_window_gain::<A>(snapshot.overlap_times, snapshot.window_size, pass.gain)
    &&& is_first_non_dc_bin::<A>(
        snapshot.sample_rate,
        snapshot.num_bins(),
        pass.first_non_dc_bin,
    )
    &&& pass.gain_difference_db@ == snapshot.gain_difference_db@[channel_idx]@
}

impl WindowPass {
    /// What the windows of a channel go through with a snapshot and a window function.
    pub fn new<A: Arithmetic>(
        snapshot: &FrozenIrData,
        channel_idx: usize,
        window: &Vec<Single>,
    ) -> (pass: WindowPass)
        requires
            channel_idx < MAX_IR_CHANNELS,
        ensures
            is_pass::<A>(*snapshot, channel_idx as int, window@, pass),
    {
        let gain = window_gain::<A>(snapshot.overlap_times, snapshot.window_size);
        let first_non_dc_bin: usize = first_non_dc_bin_idx::<A>(
            snapshot.sample_rate,
            snapshot.num_bins(),
        );
        WindowPass {
            window: copied(window),
            overlap_times: snapshot.overlap_times,
            gain,
            first_non_dc_bin,
            gain_difference_db: copied(&snapshot.gain_difference_db[channel_idx]),
        }
    }

    /// `r` is what one window comes to, where `spectrum` is what the forward FFT gave for it.
    pub open spec fn is_inverted<A: Arithmetic, I: FnOnce(Vec<Bin>) -> Result<Vec<Single>, String>>(
        self,
        inverse: I,
        spectrum: Seq<Bin>,
        r: Result<Vec<Single>, FrozenIrError>,
    ) -> bool {
        exists|shaped: Vec<Bin>, outcome: Result<Vec<Single>, String>|
            {
                &&& are_shaped::<A>(
                    spectrum,
                    self.gain_difference_db@,
                    self.first_non_dc_bin,
                    shaped@,
                )
                &&& #[trigger] call_ensures(inverse, (shaped,), outcome)
                &&& match outcome {
                    Ok(samples) => r is Ok && are_windowed::<A>(
                        samples@,
                        self.window@,
                        self.gain,
                        r->Ok_0@,
                    ),
                    Err(cause) => r == Err::<Vec<Single>, FrozenIrError>(
                        FrozenIrError::InverseFft(cause),
                    ),
                }
            }
    }

    /// `r` is what the window with the given samples comes to.
    pub open spec fn is_rendered<
        A: Arithmetic,
        F: FnOnce(Vec<Single>) -> Result<Vec<Bin>, String>,
        I: FnOnce(Vec<Bin>) -> Result<Vec<Single>, String>,
    >(
        self,
        samples: Seq<Single>,
        forward: F,
        inverse: I,
        r: Result<Vec<Single>, FrozenIrError>,
    ) -> bool {
        exists|windowed: Vec<Single>, outcome: Result<Vec<Bin>, String>|
            {
                &&& are_windowed::<A>(samples, self.window@, self.gain, windowed@)
                &&& #[trigger] call_ensures(forward, (windowed,), outcome)
                &&& match outcome {
                    Ok(spectrum) => self.is_inverted::<A, I>(inverse, spectrum@, r),
                    Err(cause) => r == Err::<Vec<Single>, FrozenIrError>(
                        FrozenIrError::ForwardFft(cause),
                    ),
                }
            }
    }

    /// Runs one window of a channel through the frequency domain and back: window function, forward
    /// FFT, the channel's gains, inverse FFT, window function. The first FFT that fails ends this
    /// with its cause.
    pub fn render<
        A: Arithmetic,
        F: FnOnce(Vec<Single>) -> Result<Vec<Bin>, String>,
        I: FnOnce(Vec<Bin>) -> Result<Vec<Single>, String>,
    >(
        &self,
        samples: Vec<Single>,
        forward: F,
        inverse: I,
    ) -> (r: Result<Vec<Single>, FrozenIrError>)
        requires
            forall|windowed: Vec<Single>|
                windowed@.len() == samples@.len() ==> call_requires(forward, (windowed,)),
            forall|windowed: Vec<Single>, spectrum: Vec<Bin>, shaped: Vec<Bin>|
                windowed@.len() == samples@.len() && #[trigger] call_ensures(
                    forward,
                    (windowed,),
                    Ok(spectrum),
                ) && shaped@.len() == spectrum@.len() ==> #[trigger] call_requires(
                    inverse,
                    (shaped,),
                ),
        ensures
            self.is_rendered::<A, F, I>(samples@, forward, inverse, r),
    {
        let ghost before = samples@;
        let mut windowed = samples;
        apply_window::<A>(&mut windowed, &self.window, self.gain);
        let transformed = forward(windowed);
        assert(call_ensures(forward, (windowed,), transformed));
        match transformed {
            Err(cause) => Err(FrozenIrError::ForwardFft(cause)),
            Ok(bins) => {
                let ghost spectrum = bins@;
                let mut shaped = bins;
                shape_bins::<A>(&mut shaped, &self.gain_difference_db, self.first_non_dc_bin);
                let outcome = inverse(shaped);
                assert(call_ensures(inverse, (shaped,), outcome));
                match outcome {
                    Err(cause) => {
                        let r = Err(FrozenIrError::InverseFft(cause));
                        assert(self.is_inverted::<A, I>(inverse, spectrum, r));
                        r
                    },
                    Ok(samples) => {
                        let mut samples = samples;
                        apply_window::<A>(&mut samples, &self.window, self.gain);
                        let r = Ok(samples);
                        assert(self.is_inverted::<A, I>(inverse, spectrum, r));
                        r
                    },
                }
            },
        }
    }
}

/// A copy of the values.
fn copied(values: &Vec<Single>) -> (copy: Vec<Single>)
    ensures
        copy@ == values@,
{
    let mut copy: Vec<Single> = Vec::new();
    while copy.len() < values.len()
        invariant
            copy@.len() <= values@.len(),
            copy@ == values@.take(copy@.len() as int),
        decreases values.len() - copy.len(),
    {
        copy.push(values[copy.len()]);
        assert(copy@ =~= values@.take(copy@.len() as int));
    }
    assert(copy@ =~= values@);
    copy
}

/// `r` is what a channel comes to with a snapshot: `overlap_add` runs the channel's pass over all
/// windows of its samples.
pub open spec fn is_channel_processed<
    A: Arithmetic,
    F: Fn(&WindowPass, Vec<Single>) -> Result<Vec<Single>, FrozenIrError>,
>(
    snapshot: FrozenIrData,
    channel_idx: int,
    samples: Seq<Single>,
    window: Seq<Single>,
    overlap_add: F,
    r: Result<Vec<Single>, FrozenIrError>,
) -> bool {
    exists|pass: WindowPass, input: Vec<Single>|
        is_pass::<A>(snapshot, channel_idx, window, pass) && input@ == samples
            && #[trigger] call_ensures(overlap_add, (&pass, input), r)
}

/// `rendered` is what the first channels come to with a snapshot, each on its own.
pub open spec fn are_channels_processed<
    A: Arithmetic,
    F: Fn(&WindowPass, Vec<Single>) -> Result<Vec<Single>, FrozenIrError>,
>(
    snapshot: FrozenIrData,
    channels: Seq<Vec<Single>>,
    window: Seq<Single>,
    overlap_add: F,
    rendered: Seq<Vec<Single>>,
) -> bool {
    forall|i: int|
        0 <= i < rendered.len() ==> is_channel_processed::<A, F>(
            snapshot,
            i,
            channels[i]@,
            window,
            overlap_add,
            Ok(#[trigger] rendered[i]),
        )
}

/// `r` is what a signal comes to with a snapshot: all channels, each on its own, or the problem of
/// the first one that fails.
pub open spec fn is_processed<
    A: Arithmetic,
    F: Fn(&WindowPass, Vec<Single>) -> Result<Vec<Single>, FrozenIrError>,
>(
    snapshot: FrozenIrData,
    channels: Seq<Vec<Single>>,
    window: Seq<Single>,
    overlap_add: F,
    r: Result<Vec<Vec<Single>>, FrozenIrError>,
) -> bool {
    match signal_problem(snapshot, channels) {
        Some(problem) => r == Err::<Vec<Vec<Single>>, FrozenIrError>(problem),
        None => match r {
            Ok(rendered) => {
                &&& rendered@.len() == channels.len()
                &&& are_channels_processed::<A, F>(
                    snapshot,
                    channels,
                    window,
                    overlap_add,
                    rendered@,
                )
            },
            Err(problem) => exists|before: Seq<Vec<Single>>|
                {
                    &&& before.len() < channels.len()
                    &&& #[trigger] are_channels_processed::<A, F>(
                        snapshot,
                        channels,
                        window,
                        overlap_add,
                        before,
                    )
                    &&& is_channel_processed::<A, F>(
                        snapshot,
                        before.len() as int,
                        channels[before.len() as int]@,
                        window,
                        overlap_add,
                        Err(problem),
                    )
                },
        },
    }
}

/// Runs a signal through a snapshot's gains, each channel through its own. `window` is the window
/// function, and `overlap_add` runs the pass that it is given over all windows of a channel, whose
/// length it keeps.
pub fn process_signal_with_snapshot<
    A: Arithmetic,
    F: Fn(&WindowPass, Vec<Single>) -> Result<Vec<Single>, FrozenIrError>,
>(
    snapshot: &FrozenIrData,
    channels: &Vec<Vec<Single>>,
    window: &Vec<Single>,
    overlap_add: F,
) -> (r: Result<Vec<Vec<Single>>, FrozenIrError>)
    requires
        forall|channel_idx: int, pass: WindowPass, input: Vec<Single>|
            signal_problem(*snapshot, channels@) is None && 0 <= channel_idx < channels@.len()
                && #[trigger] is_pass::<A>(*snapshot, channel_idx, window@, pass) && input@
                == channels@[channel_idx]@ ==> #[trigger] call_requires(
                overlap_add,
                (&pass, input),
            ),
        forall|pass: WindowPass, input: Vec<Single>, output: Vec<Single>| #[trigger]
            call_ensures(overlap_add, (&pass, input), Ok(output)) ==> output@.len()
                == input@.len(),
    ensures
        is_processed::<A, F>(*snapshot, channels@, window@, overlap_add, r),
        r matches Ok(rendered) ==> {
            &&& rendered@.len() == snapshot.num_channels
            &&& have_length(rendered@, channels@[0]@.len())
        },
{
    if let Err(problem) = check_signal(snapshot, channels) {
        return Err(problem);
    }
    let mut rendered: Vec<Vec<Single>> = Vec::new();
    while rendered.len() < channels.len()
        invariant
            signal_problem(*snapshot, channels@) is None,
            rendered@.len() <= channels@.len(),
            forall|channel_idx: int, pass: WindowPass, input: Vec<Single>|
                signal_problem(*snapshot, channels@) is None && 0 <= channel_idx < channels@.len()
                    && #[trigger] is_pass::<A>(*snapshot, channel_idx, window@, pass) && input@
                    == channels@[channel_idx]@ ==> #[trigger] call_requires(
                    overlap_add,
                    (&pass, input),
                ),
            forall|pass: WindowPass, input: Vec<Single>, output: Vec<Single>| #[trigger]
                call_ensures(overlap_add, (&pass, input), Ok(output)) ==> output@.len()
                    == input@.len(),
            are_channels_processed::<A, F>(
                *snapshot,
                channels@,
                window@,
                overlap_add,
                rendered@,
            ),
            have_length(rendered@, channels@[0]@.len()),
        decreases channels.len() - rendered.len(),
    {
        let channel_idx: usize = rendered.len();
        let pass = WindowPass::new::<A>(snapshot, channel_idx, window);
        let input = copied(&channels[channel_idx]);
        let outcome = overlap_add(&pass, input);
        assert(call_ensures(overlap_add, (&pass, input), outcome));
        assert(is_channel_processed::<A, F>(
            *snapshot,
            channel_idx as int,
            channels@[channel_idx as int]@,
            window@,
            overlap_add,
            outcome,
        ));
        match outcome {
            Ok(output) => {
                rendered.push(output);
            },
            Err(problem) => {
                return Err(problem);
            },
        }
    }
    Ok(rendered)
}

/// What a channel comes to depends on no other channel: two snapshots that agree but for the number
/// of channels and the gains of other channels process it alike, whatever the other channels' samples
/// are.
pub proof fn law_channels_are_processed_apart<
    A: Arithmetic,
    F: Fn(&WindowPass, Vec<Single>) -> Result<Vec<Single>, FrozenIrError>,
>(
    first: FrozenIrData,
    second: FrozenIrData,
    channel_idx: int,
    samples: Seq<Single>,
    window: Seq<Single>,
    overlap_add: F,
    r: Result<Vec<Single>, FrozenIrError>,
)
    requires
        first.sample_rate == second.sample_rate,
        first.window_size == second.window_size,
        first.overlap_times == second.overlap_times,
        first.gain_difference_db@[channel_idx]@ == second.gain_difference_db@[channel_idx]@,
    ensures
        is_channel_processed::<A, F>(first, channel_idx, samples, window, overlap_add, r)
            == is_channel_processed::<A, F>(second, channel_idx, samples, window, overlap_add, r),
{
}

/// The signal that is rendered: for each channel a unit impulse after one window, followed by what
/// the tail of the response needs.
pub open spec fn impulse(window_size: int) -> Seq<Single> {
    Seq::new(
        (window_size * RENDER_LEN_MULT) as nat,
        |i: int|
            if i == window_size {
                single(ONE)
            } else {
                single(ZERO)
            },
    )
}

/// Each channel holds a unit impulse.
pub open spec fn are_impulses(snapshot: FrozenIrData, channels: Seq<Vec<Single>>) -> bool {
    &&& channels.len() == snapshot.num_channels
    &&& forall|i: int|
        0 <= i < channels.len() ==> (#[trigger] channels[i])@ == impulse(
            snapshot.window_size as int,
        )
}

/// Creates the signal that is rendered.
pub fn impulse_channels(snapshot: &FrozenIrData) -> (channels: Vec<Vec<Single>>)
    requires
        snapshot_problem(*snapshot) is None,
    ensures
        are_impulses(*snapshot, channels@),
{
    let mut channels: Vec<Vec<Single>> = Vec::new();
    while channels.len() < snapshot.num_channels
        invariant
            snapshot_problem(*snapshot) is None,
            channels@.len() <= snapshot.num_channels,
            forall|i: int|
                0 <= i < channels@.len() ==> (#[trigger] channels@[i])@ == impulse(
                    snapshot.window_size as int,
                ),
        decreases snapshot.num_channels - channels.len(),
    {
        let mut channel: Vec<Single> = Vec::new();
        channel.resize(snapshot.window_size * RENDER_LEN_MULT, single(ZERO));
        channel[snapshot.window_size] = single(ONE);
        assert(channel@ =~= impulse(snapshot.window_size as int));
        channels.push(channel);
    }
    channels
}

/// The part of a rendered channel that is exported: what follows the latency of one window after
/// the impulse.
pub open spec fn exported_section(window_size: int, channel: Seq<Single>) -> Seq<Single> {
    channel.subrange(2 * window_size, 2 * window_size + window_size * IR_LEN_MULT)
}

/// `exported` are the exported parts of the rendered channels.
pub open spec fn are_exported(
    snapshot: FrozenIrData,
    rendered: Seq<Vec<Single>>,
    exported: Seq<Vec<Single>>,
) -> bool {
    &&& exported.len() == rendered.len()
    &&& forall|i: int|
        0 <= i < exported.len() ==> (#[trigger] exported[i])@ == exported_section(
            snapshot.window_size as int,
            rendered[i]@,
        )
}

/// Cuts the exported parts out of the rendered channels.
pub fn exported_channels(snapshot: &FrozenIrData, rendered: &Vec<Vec<Single>>) -> (exported: Vec<
    Vec<Single>,
>)
    requires
        snapshot_problem(*snapshot) is None,
        have_length(rendered@, (snapshot.window_size * RENDER_LEN_MULT) as nat),
    ensures
        are_exported(*snapshot, rendered@, exported@),
{
    let start: usize = snapshot.window_size + snapshot.window_size;
    let len: usize = snapshot.exported_len();
    let mut exported: Vec<Vec<Single>> = Vec::new();
    while exported.len() < rendered.len()
        invariant
            snapshot_problem(*snapshot) is None,
            have_length(rendered@, (snapshot.window_size * RENDER_LEN_MULT) as nat),
            start == 2 * snapshot.window_size,
            len == snapshot.window_size * IR_LEN_MULT,
            exported@.len() <= rendered@.len(),
            forall|i: int|
                0 <= i < exported@.len() ==> (#[trigger] exported@[i])@ == exported_section(
                    snapshot.window_size as int,
                    rendered@[i]@,
                ),
        decreases rendered.len() - exported.len(),
    {
        let channel: usize = exported.len();
        let mut section: Vec<Single> = Vec::new();
        while section.len() < len
            invariant
                channel < rendered@.len(),
                start + len <= rendered@[channel as int]@.len(),
                start + len <= usize::MAX,
                section@.len() <= len,
                forall|i: int|
                    0 <= i < section@.len() ==> #[trigger] section@[i]
                        == rendered@[channel as int]@[start + i],
            decreases len - section.len(),
        {
            section.push(rendered[channel][start + section.len()]);
        }
        assert(section@ =~= exported_section(
            snapshot.window_size as int,
            rendered@[channel as int]@,
        ));
        exported.push(section);
    }
    exported
}

/// Renders the frozen snapshot into per-channel IR sample buffers. Frozen state is stored as spectral
/// gains, so this runs an impulse through them to turn it back into time-domain audio. `window` is
/// the window function, and `overlap_add` runs the pass that it is given over all windows of a
/// channel, whose length it keeps.
pub fn render_frozen_ir<
    A: Arithmetic,
    F: Fn(&WindowPass, Vec<Single>) -> Result<Vec<Single>, FrozenIrError>,
>(snapshot: &FrozenIrData, window: &Vec<Single>, overlap_add: F) -> (r: Result<
    Vec<Vec<Single>>,
    FrozenIrError,
>)
    requires
        forall|channel_idx: int, pass: WindowPass, input: Vec<Single>|
            snapshot_problem(*snapshot) is None && 0 <= channel_idx < snapshot.num_channels
                && #[trigger] is_pass::<A>(*snapshot, channel_idx, window@, pass) && input@
                == impulse(snapshot.window_size as int) ==> #[trigger] call_requires(
                overlap_add,
                (&pass, input),
            ),
        forall|pass: WindowPass, input: Vec<Single>, output: Vec<Single>| #[trigger]
            call_ensures(overlap_add, (&pass, input), Ok(output)) ==> output@.len()
                == input@.len(),
    ensures
        match snapshot_problem(*snapshot) {
            Some(problem) => r == Err::<Vec<Vec<Single>>, FrozenIrError>(problem),
            None => exists|
                channels: Seq<Vec<Single>>,
                outcome: Result<Vec<Vec<Single>>, FrozenIrError>,
            |
                {
                    &&& are_impulses(*snapshot, channels)
                    &&& #[trigger] is_processed::<A, F>(
                        *snapshot,
                        channels,
                        window@,
                        overlap_add,
                        outcome,
                    )
                    &&& match outcome {
                        Ok(rendered) => {
                            &&& rendered@.len() == snapshot.num_channels
                            &&& have_length(
                                rendered@,
                                (snapshot.window_size * RENDER_LEN_MULT) as nat,
                            )
                            &&& r is Ok && are_exported(*snapshot, rendered@, r->Ok_0@)
                        },
                        Err(problem) => r == Err::<Vec<Vec<Single>>, FrozenIrError>(problem),
                    }
                },
        },
{
    if let Err(problem) = validate_snapshot(snapshot) {
        return Err(problem);
    }
    let channels = impulse_channels(snapshot);
    assert(channels@[0]@ == impulse(snapshot.window_size as int));
    assert(have_length(channels@, channels@[0]@.len()));
    assert(signal_problem(*snapshot, channels@) is None);
    let outcome = process_signal_with_snapshot::<A, F>(snapshot, &channels, window, overlap_add);
    assert(is_processed::<A, F>(*snapshot, channels@, window@, overlap_add, outcome));
    match outcome {
        Ok(rendered) => Ok(exported_channels(snapshot, &rendered)),
        Err(problem) => Err(problem),
    }
}

/// What the header of an exported file says. Its samples are 32-bit floating-point values.
#[derive(Clone, Copy, PartialEq, Eq, Debug, Structural)]
pub struct WavLayout {
    pub channels: u16,
    pub sample_rate: u32,
    pub bits_per_sample: u16,
}

/// `layout` is the header for a snapshot.
pub open spec fn is_wav_layout<A: Arithmetic>(snapshot: FrozenIrData, layout: WavLayout) -> bool {
    &&& layout.channels == snapshot.num_channels
    &&& layout.bits_per_sample == 32
    &&& exists|whole: Single, rate: u64| #[trigger]
        roundings::<A>(snapshot.sample_rate, whole) && #[trigger] count_casts::<A>(
            whole.larger(single(ONE)),
            rate,
        ) && layout.sample_rate == if rate < u32::MAX {
            rate as int
        } else {
            u32::MAX as int
        }
}

/// Computes the header for a snapshot.
pub fn wav_layout<A: Arithmetic>(snapshot: &FrozenIrData) -> (layout: WavLayout)
    requires
        snapshot_problem(*snapshot) is None,
    ensures
        is_wav_layout::<A>(*snapshot, layout),
{
    let whole = A::rounded(snapshot.sample_rate);
    let bounded = whole.larger(single(ONE));
    let rate: u64 = A::to_count(bounded);
    assert(count_casts::<A>(whole.larger(single(ONE)), rate));
    let sample_rate: u32 = if rate < u32::MAX as u64 {
        rate as u32
    } else {
        u32::MAX
    };
    WavLayout { channels: snapshot.num_channels as u16, sample_rate, bits_per_sample: 32 }
}

/// The samples of all channels, frame by frame.
pub open spec fn interleaving(channels: Seq<Vec<Single>>, frames: nat) -> Seq<Single> {
    Seq::new(
        frames * channels.len(),
        |i: int| channels[i % (channels.len() as int)]@[i / (channels.len() as int)],
    )
}

/// Puts the samples of all channels into the order of an exported file.
pub fn interleaved(channels: &Vec<Vec<Single>>) -> (samples: Vec<Single>)
    requires
        channels@.len() > 0,
        have_length(channels@, channels@[0]@.len()),
    ensures
        samples@ == interleaving(channels@, channels@[0]@.len()),
{
    let frames: usize = channels[0].len();
    let count: usize = channels.len();
    let mut samples: Vec<Single> = Vec::new();
    let mut frame: usize = 0;
    while frame < frames
        invariant
            count == channels@.len(),
            count > 0,
            frames == channels@[0]@.len(),
            have_length(channels@, channels@[0]@.len()),
            frame <= frames,
            samples@ == interleaving(channels@, frame as nat),
        decreases frames - frame,
    {
        let mut channel: usize = 0;
        assert(frame * count + 0 == samples@.len());
        while channel < count
            invariant
                count == channels@.len(),
                count > 0,
                frames == channels@[0]@.len(),
                have_length(channels@, channels@[0]@.len()),
                frame < frames,
                channel <= count,
                samples@.len() == frame * count + channel,
                forall|i: int|
                    0 <= i < samples@.len() ==> #[trigger] samples@[i] == channels@[i % (
                    count as int)]@[i / (count as int)],
            decreases count - channel,
        {
            proof {
                let i = frame * count + channel;
                vstd::arithmetic::div_mod::lemma_fundamental_div_mod_converse(
                    i,
                    count as int,
                    frame as int,
                    channel as int,
                );
            }
            assert(channels@[channel as int]@.len() == frames);
            samples.push(channels[channel][frame]);
            channel += 1;
        }
        assert((frame + 1) * count == frame * count + count) by (nonlinear_arith);
        assert(samples@ =~= interleaving(channels@, (frame + 1) as nat));
        frame += 1;
    }
    samples
}

/// Frame `frame` of channel `channel` is found at `frame * channels + channel`.
pub proof fn law_interleaving_is_frame_major(
    channels: Seq<Vec<Single>>,
    frames: nat,
    frame: int,
    channel: int,
)
    requires
        0 <= frame < frames,
        0 <= channel < channels.len(),
    ensures
        0 <= frame * channels.len() + channel < interleaving(channels, frames).len(),
        interleaving(channels, frames)[frame * channels.len() + channel]
            == channels[channel]@[frame],
{
    let count = channels.len() as int;
    let i = frame * count + channel;
    vstd::arithmetic::div_mod::lemma_fundamental_div_mod_converse(i, count, frame, channel);
    assert(0 <= i < frames * count) by (nonlinear_arith)
        requires
            0 <= frame < frames,
            0 <= channel < count,
            i == frame * count + channel,
    ;
}

/// The impulse lies right before the part that is exported less one window: what is exported
/// starts one window after the impulse and ends with the signal.
pub proof fn law_export_follows_impulse(snapshot: FrozenIrData, rendered: Seq<Single>)
    requires
        snapshot_problem(snapshot) is None,
        rendered.len() == impulse(snapshot.window_size as int).len(),
    ensures
        impulse(snapshot.window_size as int)[snapshot.window_size as int] == single(ONE),
        exported_section(snapshot.window_size as int, rendered).len() == snapshot.window_size
            * IR_LEN_MULT,
        exported_section(snapshot.window_size as int, rendered) == rendered.skip(
            snapshot.window_size + snapshot.window_size,
        ),
{
    assert(exported_section(snapshot.window_size as int, rendered) =~= rendered.skip(
        snapshot.window_size + snapshot.window_size,
    ));
}

/// The values of the constants.
proof fn lemma_constants_of_windows()
    ensures
        single(FOUR).value() == 4real,
        single(FOUR).is_finite(),
        single(THREE_HALVES).value() == 1real + 1real / 2real,
        single(THREE_HALVES).is_finite(),
        single(SUPPRESSED_FREQUENCY_HZ).value() == 20real,
        single(SUPPRESSED_FREQUENCY_HZ).is_finite(),
{
    vstd::arithmetic::power2::lemma2_to64();
    assert(pow2(21) == 0x20_0000 && pow2(23) == 0x80_0000 && pow2(19) == 0x8_0000);
    assert(pow2(21) as int as real == 2097152real);
    assert(pow2(23) as int as real == 8388608real);
    assert(pow2(19) as int as real == 524288real);
    lemma_value_of(FOUR, 0x80_0000, 21);
    lemma_value_of(THREE_HALVES, 0xc0_0000, 23);
    lemma_value_of(SUPPRESSED_FREQUENCY_HZ, 0xa0_0000, 19);
}

/// Both applications of the window together undo what the unnormalized FFT of a window and the
/// overlapping windows add: the FFT multiplies by the window size, and windows that overlap
/// `overlap_times` times add up to three eighths of that number. So a snapshot of 0 dB has unity
/// gain at any overlap.
pub proof fn law_window_gains_undo_the_overlap<A: Arithmetic>(
    overlap_times: usize,
    window_size: usize,
    gain: Single,
)
    requires
        is_exact::<A>(),
        overlap_times > 0,
        window_size > 0,
        is_window_gain::<A>(overlap_times, window_size, gain),
    ensures
        gain.is_finite(),
        gain.value() > 0real,
        (gain.value() * gain.value()) * (window_size as int as real) * (
        overlap_times as int as real) * 3real == 8real,
{
    lemma_constants();
    lemma_constants_of_windows();
    let (overlap, share, scaled, inverse, size, compensation) = choose|
        overlap: Single,
        share: Single,
        scaled: Single,
        inverse: Single,
        size: Single,
        compensation: Single,
    | #[trigger]
        counts::<A>(overlap_times, overlap) && #[trigger] quotients::<A>(
            overlap,
            single(FOUR),
            share,
        ) && #[trigger] products::<A>(share, single(THREE_HALVES), scaled)
            && #[trigger] reciprocals::<A>(scaled, inverse) && #[trigger] counts::<A>(
            window_size,
            size,
        ) && #[trigger] quotients::<A>(inverse, size, compensation) && square_roots::<A>(
            compensation,
            gain,
        );
    let (o, s, n, i, w, c) = (
        overlap.value(),
        share.value(),
        scaled.value(),
        inverse.value(),
        size.value(),
        compensation.value(),
    );
    assert(s * 4real == o);
    assert(n == s * (1real + 1real / 2real));
    assert(8real * n == 3real * o) by (nonlinear_arith)
        requires
            s * 4real == o,
            n == s * (1real + 1real / 2real),
    ;
    assert(i * n == 1real);
    assert(c * w == i);
    assert(c * w * o * 3real == 8real) by (nonlinear_arith)
        requires
            8real * n == 3real * o,
            i * n == 1real,
            c * w == i,
    ;
    assert(c > 0real) by (nonlinear_arith)
        requires
            c * w * o * 3real == 8real,
            w > 0real,
            o > 0real,
    ;
    let g = gain.value();
    assert(g * g == c);
    assert(g > 0real) by (nonlinear_arith)
        requires
            g * g == c,
            c > 0real,
            g >= 0real,
    ;
}

/// Doubling the overlap, or any other change of it, scales the square of the gain inversely.
pub proof fn law_squared_window_gain_falls_with_the_overlap<A: Arithmetic>(
    first_overlap: usize,
    second_overlap: usize,
    window_size: usize,
    first: Single,
    second: Single,
)
    requires
        is_exact::<A>(),
        first_overlap > 0,
        second_overlap > 0,
        window_size > 0,
        is_window_gain::<A>(first_overlap, window_size, first),
        is_window_gain::<A>(second_overlap, window_size, second),
    ensures
        (first.value() * first.value()) * (first_overlap as int as real) == (second.value()
            * second.value()) * (second_overlap as int as real),
{
    law_window_gains_undo_the_overlap::<A>(first_overlap, window_size, first);
    law_window_gains_undo_the_overlap::<A>(second_overlap, window_size, second);
    let (a, b) = (first.value() * first.value(), second.value() * second.value());
    let (p, q) = (first_overlap as int as real, second_overlap as int as real);
    let w = window_size as int as real;
    assert(a * p == b * q) by (nonlinear_arith)
        requires
            a * w * p * 3real == 8real,
            b * w * q * 3real == 8real,
            w > 0real,
    ;
}

/// The bins that are suppressed are those that start at up to 20 Hz: the first bin that is kept is
/// the first one that starts above that.
pub proof fn law_suppressed_bins_reach_up_to_twenty_hertz<A: Arithmetic>(
    sample_rate: Single,
    num_bins: usize,
    first: usize,
)
    requires
        is_exact::<A>(),
        floors_follow::<A>(),
        sample_rate.is_finite(),
        sample_rate.value() > 0real,
        num_bins > 0,
        is_first_non_dc_bin::<A>(sample_rate, num_bins, first),
        first < usize::MAX,
    ensures
        first >= 1,
        ((first - 1) as real) * sample_rate.value() <= 40real * (num_bins as int as real),
        40real * (num_bins as int as real) < (first as int as real) * sample_rate.value(),
{
    lemma_constants();
    lemma_constants_of_windows();
    let (nyquist, count, width, ratio, whole_ratio, bins) = choose|
        nyquist: Single,
        count: Single,
        width: Single,
        ratio: Single,
        whole: Single,
        bins: u64,
    | #[trigger]
        halves::<A>(sample_rate, nyquist) && #[trigger] counts::<A>(num_bins, count)
            && #[trigger] quotients::<A>(nyquist, count, width) && #[trigger] quotients::<A>(
            single(SUPPRESSED_FREQUENCY_HZ),
            width,
            ratio,
        ) && #[trigger] floors::<A>(ratio, whole) && #[trigger] count_casts::<A>(whole, bins)
            && first == if bins < usize::MAX {
            bins + 1
        } else {
            usize::MAX as int
        };
    let (y, c, w, q) = (nyquist.value(), count.value(), width.value(), ratio.value());
    let rate = sample_rate.value();
    lemma_sign_of_product(w, c);
    assert(w > 0real);
    lemma_sign_of_product(q, w);
    assert(q > 0real);
    let n = choose|n: int| whole_ratio.value() == #[trigger] whole(n);
    assert(bins as int == n);
    let (lower, upper) = (n as real, (n + 1) as real);
    // n * w <= 20 < (n + 1) * w
    lemma_sign_of_product(q - lower, w);
    lemma_sign_of_product(upper - q, w);
    lemma_regroup(q, lower, w);
    lemma_regroup(upper, q, w);
    // times the number of bins
    lemma_sign_of_product(20real - lower * w, c);
    lemma_sign_of_product(upper * w - 20real, c);
    lemma_regroup(20real, lower * w, c);
    lemma_regroup(upper * w, 20real, c);
    lemma_regroup(lower, w, c);
    lemma_regroup(upper, w, c);
    lemma_regroup(lower, y, 2real);
    lemma_regroup(upper, y, 2real);
    assert(lower * rate == (lower * y) * 2real);
    assert(upper * rate == (upper * y) * 2real);
}

/// The sum of the first values.
pub open spec fn total_of(values: Seq<Single>, count: nat) -> real
    decreases count,
{
    if count == 0 {
        0real
    } else {
        total_of(values, (count - 1) as nat) + values[count - 1].value()
    }
}

/// The sum of the squares of the first values.
pub open spec fn total_of_squares(values: Seq<Single>, count: nat) -> real
    decreases count,
{
    if count == 0 {
        0real
    } else {
        total_of_squares(values, (count - 1) as nat) + values[count - 1].value() * values[count
            - 1].value()
    }
}

/// A sample that is windowed twice.
proof fn lemma_windowed_twice<A: Arithmetic>(
    sample: Single,
    window: Single,
    gain: Single,
    once: Single,
    twice: Single,
)
    requires
        is_exact::<A>(),
        sample.is_finite() && window.is_finite() && gain.is_finite(),
        is_windowed::<A>(sample, window, gain, once),
        is_windowed::<A>(once, window, gain, twice),
    ensures
        twice.is_finite(),
        twice.value() == (sample.value() * (gain.value() * gain.value())) * (window.value()
            * window.value()),
{
    let (s, w, g) = (sample.value(), window.value(), gain.value());
    let f = w * g;
    assert(once.is_finite() && once.value() == s * f);
    assert(twice.value() == (s * f) * f);
    lemma_three_factors(s, f, f);
    lemma_regroup(f, w, g);
    lemma_three_factors(w, g, w);
    lemma_three_factors(w * w, g, g);
    assert(f * f == (w * w) * (g * g));
    lemma_three_factors(s, w * w, g * g);
}

proof fn lemma_total_of_windowed<A: Arithmetic>(
    sample: Single,
    windows: Seq<Single>,
    gain: Single,
    once: Seq<Single>,
    twice: Seq<Single>,
    count: nat,
)
    requires
        is_exact::<A>(),
        sample.is_finite() && gain.is_finite(),
        forall|i: int| 0 <= i < count ==> (#[trigger] windows[i]).is_finite(),
        forall|i: int|
            0 <= i < count ==> is_windowed::<A>(sample, #[trigger] windows[i], gain, once[i]),
        forall|i: int|
            0 <= i < count ==> is_windowed::<A>(once[i], #[trigger] windows[i], gain, twice[i]),
    ensures
        total_of(twice, count) == (sample.value() * (gain.value() * gain.value()))
            * total_of_squares(windows, count),
    decreases count,
{
    let factor = sample.value() * (gain.value() * gain.value());
    lemma_sign_of_product(factor, 0real);
    if count > 0 {
        let last = (count - 1) as nat;
        lemma_total_of_windowed::<A>(sample, windows, gain, once, twice, last);
        lemma_windowed_twice::<A>(
            sample,
            windows[last as int],
            gain,
            once[last as int],
            twice[last as int],
        );
        lemma_regroup(
            factor,
            total_of_squares(windows, last),
            windows[last as int].value() * windows[last as int].value(),
        );
    }
}

/// What a sample adds to the windows that overlap it gives back the sample: it is windowed on the
/// way in and on the way out of each of them, and where the squares of the window function at the
/// sample add up to three eighths of the overlap, as those of a Hann window do, the results add up
/// to the sample over the window size, which is what the unnormalized FFT multiplies by.
pub proof fn law_overlapping_windows_give_back_the_sample<A: Arithmetic>(
    overlap_times: usize,
    window_size: usize,
    gain: Single,
    sample: Single,
    windows: Seq<Single>,
    once: Seq<Single>,
    twice: Seq<Single>,
)
    requires
        is_exact::<A>(),
        overlap_times > 0,
        window_size > 0,
        is_window_gain::<A>(overlap_times, window_size, gain),
        sample.is_finite(),
        windows.len() == overlap_times,
        once.len() == overlap_times,
        twice.len() == overlap_times,
        forall|i: int| 0 <= i < overlap_times ==> (#[trigger] windows[i]).is_finite(),
        forall|i: int|
            0 <= i < overlap_times ==> is_windowed::<A>(
                sample,
                #[trigger] windows[i],
                gain,
                once[i],
            ),
        forall|i: int|
            0 <= i < overlap_times ==> is_windowed::<A>(
                once[i],
                #[trigger] windows[i],
                gain,
                twice[i],
            ),
        total_of_squares(windows, overlap_times as nat) * 8real == (overlap_times as int as real)
            * 3real,
    ensures
        total_of(twice, overlap_times as nat) * (window_size as int as real) == sample.value(),
{
    law_window_gains_undo_the_overlap::<A>(overlap_times, window_size, gain);
    lemma_total_of_windowed::<A>(sample, windows, gain, once, twice, overlap_times as nat);
    let (s, g) = (sample.value(), gain.value() * gain.value());
    let (o, w) = (overlap_times as int as real, window_size as int as real);
    let squares = total_of_squares(windows, overlap_times as nat);
    let total = total_of(twice, overlap_times as nat);
    lemma_three_factors(total, 8real, w);
    lemma_three_factors(s * g, squares, 8real);
    assert(total * 8real == (s * g) * (o * 3real));
    lemma_three_factors(s * g, o * 3real, w);
    lemma_three_factors(s, g, w);
    lemma_three_factors(s, g * w, o * 3real);
    lemma_three_factors(g * w, o, 3real);
    assert((total * w) * 8real == s * 8real);
}

/// A gain multiplies both parts of a bin by the same factor, which is that of the level: the phase
/// is kept, 0 dB changes nothing, and two gains one after the other are their sum.
pub proof fn law_gains_scale_bins<A: Arithmetic>(
    exp: spec_fn(real) -> real,
    before: Bin,
    first_db: Single,
    second_db: Single,
    sum_db: Single,
    first: Bin,
    both: Bin,
    at_once: Bin,
)
    requires
        is_exact::<A>(),
        level_gains_follow::<A>(exp),
        before.re.is_finite() && before.im.is_finite(),
        first_db.is_finite() && second_db.is_finite(),
        sums::<A>(first_db, second_db, sum_db),
        is_bin_scaled::<A>(before, first_db, first),
        is_bin_scaled::<A>(first, second_db, both),
        is_bin_scaled::<A>(before, sum_db, at_once),
    ensures
        first.re.value() == before.re.value() * exp(first_db.value()),
        first.im.value() == before.im.value() * exp(first_db.value()),
        first_db.value() == 0real ==> first.re.value() == before.re.value() && first.im.value()
            == before.im.value(),
        both.re.value() == at_once.re.value(),
        both.im.value() == at_once.im.value(),
{
    let (a, b) = (exp(first_db.value()), exp(second_db.value()));
    lemma_exponential_of_sum(exp, first_db.value(), second_db.value());
    lemma_regroup(before.re.value(), a, b);
    lemma_regroup(before.im.value(), a, b);
}

/// The more the windows overlap, the smaller the gain of each of them. This needs no exact
/// arithmetic.
pub proof fn law_window_gain_does_not_grow_with_the_overlap<A: Arithmetic>(
    first_overlap: usize,
    second_overlap: usize,
    window_size: usize,
    first: Single,
    second: Single,
)
    requires
        counts_keep_order::<A>(),
        quotients_keep_order::<A>(),
        quotients_stay_positive::<A>(),
        products_keep_order::<A>(),
        roots_keep_order::<A>(),
        0 < first_overlap <= second_overlap,
        window_size > 0,
        is_window_gain::<A>(first_overlap, window_size, first),
        is_window_gain::<A>(second_overlap, window_size, second),
        forall|a: Single, b: Single|
            #![trigger counts::<A>(window_size, a), counts::<A>(window_size, b)]
            counts::<A>(window_size, a) && counts::<A>(window_size, b) ==> a == b,
        !first.is_nan() && !second.is_nan(),
    ensures
        second.at_most(first),
{
    let (o1, s1, n1, i1, w1, c1) = choose|
        overlap: Single,
        share: Single,
        scaled: Single,
        inverse: Single,
        size: Single,
        compensation: Single,
    | #[trigger]
        counts::<A>(first_overlap, overlap) && #[trigger] quotients::<A>(
            overlap,
            single(FOUR),
            share,
        ) && #[trigger] products::<A>(share, single(THREE_HALVES), scaled)
            && #[trigger] reciprocals::<A>(scaled, inverse) && #[trigger] counts::<A>(
            window_size,
            size,
        ) && #[trigger] quotients::<A>(inverse, size, compensation) && square_roots::<A>(
            compensation,
            first,
        );
    let (o2, s2, n2, i2, w2, c2) = choose|
        overlap: Single,
        share: Single,
        scaled: Single,
        inverse: Single,
        size: Single,
        compensation: Single,
    | #[trigger]
        counts::<A>(second_overlap, overlap) && #[trigger] quotients::<A>(
            overlap,
            single(FOUR),
            share,
        ) && #[trigger] products::<A>(share, single(THREE_HALVES), scaled)
            && #[trigger] reciprocals::<A>(scaled, inverse) && #[trigger] counts::<A>(
            window_size,
            size,
        ) && #[trigger] quotients::<A>(inverse, size, compensation) && square_roots::<A>(
            compensation,
            second,
        );
    assert(o1.at_most(o2));
    assert(s1.at_most(s2));
    assert(single(ZERO).below(s1) && single(ZERO).below(s2));
    assert(have_same_sign(s1, single(THREE_HALVES)) && have_same_sign(s2, single(THREE_HALVES)));
    assert(single(ZERO).below(n1));
    assert(n1.at_most(n2));
    assert(i2.at_most(i1));
    assert(w1 == w2);
    assert(c2.at_most(c1));
}

/// A block comes out without the bins that are suppressed, and with each other bin multiplied by the
/// factor for the snapshot's gain at that bin. `exp` gives the factors.
pub proof fn law_snapshots_shape_the_bins_that_are_kept<A: Arithmetic>(
    exp: spec_fn(real) -> real,
    before: Seq<Bin>,
    gain_difference_db: Seq<Single>,
    first_non_dc_bin: usize,
    after: Seq<Bin>,
    bin: int,
)
    requires
        is_exact::<A>(),
        level_gains_follow::<A>(exp),
        are_shaped::<A>(before, gain_difference_db, first_non_dc_bin, after),
        0 <= bin < before.len() <= usize::MAX,
        bin < gain_difference_db.len(),
        gain_difference_db[bin].is_finite(),
        before[bin].re.is_finite() && before[bin].im.is_finite(),
    ensures
        bin < first_non_dc_bin ==> after[bin].re.value() == 0real && after[bin].im.value() == 0real,
        bin >= first_non_dc_bin ==> after[bin].re.value() == before[bin].re.value() * exp(
            gain_difference_db[bin].value(),
        ) && after[bin].im.value() == before[bin].im.value() * exp(gain_difference_db[bin].value()),
{
    lemma_constants();
    let factor = exp(gain_difference_db[bin].value());
    lemma_sign_of_product(0real, factor);
    let kept = kept_bin(before[bin], bin as usize, first_non_dc_bin);
    assert(is_bin_scaled::<A>(kept, gain_difference_db[bin], after[bin]));
}

} // verus!
