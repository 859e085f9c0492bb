//! Output gain matching: measures the energy of the input and of the output over a fixed time and
//! computes the gain that makes them equal.

use vstd::arithmetic::power2::pow2;
use vstd::prelude::*;

use crate::arithmetic::{
    count_casts, level_gains, narrowings, products, roundings, wide_counts, wide_products,
    wide_quotients, wide_square_roots, wide_sums, widenings, Arithmetic,
};
use crate::exact::{
    floors_follow, is_exact, is_wide_exact, lemma_cancel, lemma_constants, lemma_regroup,
    lemma_selections, lemma_sign_of_product, lemma_signs, lemma_value_of, lemma_wide_constants,
    lemma_wide_order_is_by_value, level_gains_follow, roundings_follow, whole,
};
use crate::match_state::{
    law_outcome_is_taken, law_requested_match_is_begun, MatchOutcome, MatchState, StateCell,
};
use crate::shared_cells::{
    byte_is_new, exchange_alone, word_is_loaded, word_is_new, word_is_stored,
};
use crate::single::{double, single, Double, Single, ONE};

use std::sync::atomic::{AtomicU32, Ordering};

verus! {

/// The encoding of `5.0`, the length of a measurement in seconds.
pub const MATCH_DURATION_SECONDS: u32 = 0x40a0_0000;

/// The encoding of `-50.0`.
pub const OUTPUT_GAIN_MIN_DB: u32 = 0xc248_0000;

/// The encoding of `50.0`.
pub const OUTPUT_GAIN_MAX_DB: u32 = 0x4248_0000;

/// The binary64 encoding of `1.0e-12`, the mean square up to which a signal is silent.
pub const SILENCE_FLOOR: u64 = 0x3d71_9799_812d_ea11;

/// The binary64 encoding of `0.0`.
pub const WIDE_ZERO: u64 = 0x0000_0000_0000_0000;

/// Final outcome of a match request, consumed by the GUI.
#[derive(Clone, Copy, PartialEq, Eq, Debug, Structural)]
pub enum MatchResult {
    Matched(Single),
    Failed,
}

/// What publishing a result writes: a new gain where there is one, and the next state.
#[verifier::allow_in_spec]
pub fn publication(result: Option<Single>) -> (Option<Single>, MatchState)
    returns
        (match result {
            Some(output_gain) => (
                Some(output_gain),
                MatchState::finished(MatchOutcome::Matched),
            ),
            None => (None::<Single>, MatchState::finished(MatchOutcome::Failed)),
        }),
{
    match result {
        Some(output_gain) => (Some(output_gain), MatchState::finished(MatchOutcome::Matched)),
        None => (None, MatchState::finished(MatchOutcome::Failed)),
    }
}

/// The result that goes with an outcome, where `output_gain` is the gain that was published.
#[verifier::allow_in_spec]
pub fn match_result(outcome: Option<MatchOutcome>, output_gain: Single) -> Option<MatchResult>
    returns
        (match outcome {
            Some(MatchOutcome::Matched) => Some(MatchResult::Matched(output_gain)),
            Some(MatchOutcome::Failed) => Some(MatchResult::Failed),
            None => None,
        }),
{
    match outcome {
        Some(MatchOutcome::Matched) => Some(MatchResult::Matched(output_gain)),
        Some(MatchOutcome::Failed) => Some(MatchResult::Failed),
        None => None,
    }
}

/// Lock-free request/result handoff used to trigger output gain matching from the GUI and publish
/// the measured gain back from the audio thread.
pub struct MatchRuntime {
    state: StateCell,
    output_gain: AtomicU32,
}

impl MatchRuntime {
    /// Where the match is.
    pub closed spec fn state_cell(self) -> StateCell {
        self.state
    }

    /// The cell that holds the encoding of the gain that was published last.
    pub closed spec fn gain_cell(self) -> AtomicU32 {
        self.output_gain
    }

    /// A match was requested, whose gain is 1.0 until a result is published.
    pub open spec fn is_requested(self) -> bool {
        &&& word_is_stored(self.gain_cell(), ONE)
        &&& self.state_cell().is_set(MatchState::Requested)
    }

    /// The given result was published: its gain, if there is one, and then the state.
    pub open spec fn is_published(self, result: Option<Single>) -> bool {
        &&& publication(result).0 matches Some(gain) ==> word_is_stored(self.gain_cell(), gain.bits)
        &&& self.state_cell().is_set(publication(result).1)
    }

    /// `result` is what was taken, where the outcome was taken and `bits` were loaded after it.
    pub open spec fn takes_with(
        self,
        outcome: Option<MatchOutcome>,
        bits: u32,
        result: Option<MatchResult>,
    ) -> bool {
        &&& self.state_cell().is_taken(outcome)
        &&& word_is_loaded(self.gain_cell(), bits)
        &&& result == match_result(outcome, single(bits))
    }

    /// `result` is what was taken: an outcome, and the gain that was loaded after it.
    pub open spec fn is_taken(self, result: Option<MatchResult>) -> bool {
        exists|outcome: Option<MatchOutcome>, bits: u32| #[trigger]
            self.takes_with(outcome, bits, result)
    }

    /// An idle match whose gain is 1.0.
    pub fn new() -> (runtime: MatchRuntime)
        ensures
            byte_is_new(MatchState::Idle.code(), runtime.state_cell().cell()),
            word_is_new(ONE, runtime.gain_cell()),
    {
        MatchRuntime { state: StateCell::new(), output_gain: AtomicU32::new(ONE) }
    }

    /// Requests a new match run. The audio thread will pick this up on its next block.
    pub fn request(&self)
        ensures
            self.is_requested(),
    {
        self.output_gain.store(ONE, Ordering::Release);
        self.state.set(MatchState::Requested);
    }

    /// Transitions from requested to running on the audio thread. Only the caller that gets `true`
    /// back should actually run the measurement.
    pub fn begin_running_if_requested(&self) -> (begun: bool)
        ensures
            self.state_cell().is_begun(begun),
    {
        self.state.begin_running_if_requested()
    }

    /// Publishes the final result from the audio thread: the linear output gain, or `None` where
    /// the match failed.
    pub fn publish_result(&self, result: Option<Single>)
        ensures
            self.is_published(result),
    {
        let (gain, state) = publication(result);
        if let Some(output_gain) = gain {
            self.output_gain.store(output_gain.bits, Ordering::Release);
        }
        self.state.set(state);
    }

    /// Consumes a finished result on the GUI side, or returns `None` if nothing is ready yet.
    pub fn take_finished_result(&self) -> (result: Option<MatchResult>)
        ensures
            self.is_taken(result),
    {
        let outcome = self.state.take_outcome();
        let bits: u32 = self.output_gain.load(Ordering::Acquire);
        let result = match_result(outcome, single(bits));
        assert(self.takes_with(outcome, bits, result));
        result
    }
}

/// Accumulates input and output energy across a fixed-time measurement window. Lives on the audio
/// thread to avoid allocations and cross-thread mutable state while a match is in progress.
#[derive(Clone, Copy, PartialEq, Eq, Debug, Structural)]
pub struct MatchMeter {
    pub input_energy: Double,
    pub output_energy: Double,
    pub measured_frames: u64,
    pub target_frames: u64,
}

/// `r` is how many frames the given time takes, but at least one.
pub open spec fn is_frame_count<A: Arithmetic>(
    sample_rate: Single,
    seconds: Single,
    r: u64,
) -> bool {
    exists|frames: Single, whole: Single| #[trigger]
        products::<A>(sample_rate, seconds, frames) && #[trigger] roundings::<A>(frames, whole)
            && count_casts::<A>(whole.larger(single(ONE)), r)
}

/// Computes how many frames the given time takes.
pub fn frame_count<A: Arithmetic>(sample_rate: Single, seconds: Single) -> (r: u64)
    ensures
        is_frame_count::<A>(sample_rate, seconds, r),
{
    let frames = A::product(sample_rate, seconds);
    let whole = A::rounded(frames);
    A::to_count(whole.larger(single(ONE)))
}

impl MatchMeter {
    pub fn new() -> (meter: MatchMeter)
        ensures
            meter.input_energy == double(WIDE_ZERO),
            meter.output_energy == double(WIDE_ZERO),
            meter.measured_frames == 0,
            meter.target_frames == 0,
    {
        MatchMeter {
            input_energy: double(WIDE_ZERO),
            output_energy: double(WIDE_ZERO),
            measured_frames: 0,
            target_frames: 0,
        }
    }

    /// Starts a new measurement window sized to [`MATCH_DURATION_SECONDS`] at `sample_rate`.
    pub fn start<A: Arithmetic>(&mut self, sample_rate: Single)
        ensures
            final(self).input_energy == double(WIDE_ZERO),
            final(self).output_energy == double(WIDE_ZERO),
            final(self).measured_frames == 0,
            is_frame_count::<A>(
                sample_rate,
                single(MATCH_DURATION_SECONDS),
                final(self).target_frames,
            ),
    {
        self.input_energy = double(WIDE_ZERO);
        self.output_energy = double(WIDE_ZERO);
        self.measured_frames = 0;
        self.target_frames = frame_count::<A>(sample_rate, single(MATCH_DURATION_SECONDS));
    }

    #[verifier::allow_in_spec]
    pub fn is_active(&self) -> bool
        returns
            self.target_frames > 0 && self.measured_frames < self.target_frames,
    {
        self.target_frames > 0 && self.measured_frames < self.target_frames
    }

    /// Clamps `block_frames` to the number of frames still needed in the current window.
    pub fn frames_for_block(&self, block_frames: usize) -> (frames: usize)
        ensures
            !self.is_active() ==> frames == 0,
            self.is_active() ==> frames == vstd::math::min(
                block_frames as int,
                self.target_frames - self.measured_frames,
            ),
    {
        if !self.is_active() {
            return 0;
        }
        let remaining: u64 = self.target_frames - self.measured_frames;
        if remaining < block_frames as u64 {
            remaining as usize
        } else {
            block_frames
        }
    }

    /// Adds dry/input energy for up to `frames` samples from `buffer`.
    pub fn measure_input<A: Arithmetic>(&mut self, buffer: &Vec<Vec<Single>>, frames: usize)
        requires
            is_rectangular(buffer@),
        ensures
            *final(self) == (MatchMeter { input_energy: final(self).input_energy, ..*old(self) }),
            is_energy_added::<A>(
                old(self).input_energy,
                buffer@,
                frames,
                final(self).input_energy,
            ),
    {
        let energy = buffer_energy::<A>(buffer, frames);
        self.input_energy = A::wide_sum(self.input_energy, energy);
    }

    /// Adds processed/output energy and, once the measurement window is full, returns the computed
    /// output gain (or `Some(None)` if the signal was too quiet to match).
    pub fn measure_output_and_finish<A: Arithmetic>(
        &mut self,
        buffer: &Vec<Vec<Single>>,
        frames: usize,
    ) -> (result: Option<Option<Single>>)
        requires
            is_rectangular(buffer@),
            old(self).is_active() ==> (old(self).measured_frames + frames) <= u64::MAX,
            old(self).is_active() ==> (old(self).measured_frames + frames) * buffer@.len()
                <= u64::MAX,
        ensures
            frames == 0 || !old(self).is_active() ==> *final(self) == *old(self) && result is None,
            frames != 0 && old(self).is_active() ==> {
                let measured = (old(self).measured_frames + frames) as u64;
                &&& final(self).input_energy == old(self).input_energy
                &&& is_energy_added::<A>(
                    old(self).output_energy,
                    buffer@,
                    frames,
                    final(self).output_energy,
                )
                &&& final(self).measured_frames == measured
                &&& if measured < old(self).target_frames {
                    &&& final(self).target_frames == old(self).target_frames
                    &&& result is None
                } else {
                    &&& final(self).target_frames == 0
                    &&& result matches Some(gain) && is_match_gain::<A>(
                        final(self).input_energy,
                        final(self).output_energy,
                        (measured * buffer@.len()) as u64,
                        gain,
                    )
                }
            },
    {
        if frames == 0 || !self.is_active() {
            return None;
        }
        let energy = buffer_energy::<A>(buffer, frames);
        self.output_energy = A::wide_sum(self.output_energy, energy);
        self.measured_frames = self.measured_frames + frames as u64;
        if self.measured_frames < self.target_frames {
            return None;
        }
        self.target_frames = 0;
        let measured_values: u64 = self.measured_frames * buffer.len() as u64;
        Some(
            calculate_match_output_gain::<A>(
                self.input_energy,
                self.output_energy,
                measured_values,
            ),
        )
    }
}

/// Whether a mean square is that of a signal that can be matched: it is a finite number, and the
/// signal is not silent.
#[verifier::allow_in_spec]
pub fn is_matchable(mean_square: Double) -> bool
    returns
        mean_square.is_finite() && !mean_square.at_most(double(SILENCE_FLOOR)),
{
    mean_square.is_finite() && !mean_square.at_most(double(SILENCE_FLOOR))
}

/// `r` is the gain for the given energies over `value_count` values: none where there are no
/// values, where an energy or a mean square is not finite, or where one of the signals is silent,
/// else the root of the ratio of the mean squares, clamped to the allowed range.
pub open spec fn is_match_gain<A: Arithmetic>(
    input_energy: Double,
    output_energy: Double,
    value_count: u64,
    r: Option<Single>,
) -> bool {
    if value_count == 0 || !input_energy.is_finite() || !output_energy.is_finite() {
        r is None
    } else {
        exists|count: Double, input_mean_square: Double, output_mean_square: Double| #[trigger]
            wide_counts::<A>(value_count, count) && #[trigger] wide_quotients::<A>(
                input_energy,
                count,
                input_mean_square,
            ) && #[trigger] wide_quotients::<A>(output_energy, count, output_mean_square)
                && if is_matchable(input_mean_square) && is_matchable(output_mean_square) {
                r matches Some(gain) && is_clamped_root::<A>(
                    input_mean_square,
                    output_mean_square,
                    gain,
                )
            } else {
                r is None
            }
    }
}

/// `r` is `sqrt(a / b)`, clamped to the allowed output gains.
pub open spec fn is_clamped_root<A: Arithmetic>(a: Double, b: Double, r: Single) -> bool {
    exists|ratio: Double, root: Double, gain: Single, min_gain: Single, max_gain: Single| #[trigger]
        wide_quotients::<A>(a, b, ratio) && #[trigger] wide_square_roots::<A>(ratio, root)
            && #[trigger] narrowings::<A>(root, gain) && #[trigger] level_gains::<A>(
            single(OUTPUT_GAIN_MIN_DB),
            min_gain,
        ) && #[trigger] level_gains::<A>(single(OUTPUT_GAIN_MAX_DB), max_gain) && r
            == gain.clamped(min_gain, max_gain)
}

fn clamped_root<A: Arithmetic>(a: Double, b: Double) -> (r: Single)
    ensures
        is_clamped_root::<A>(a, b, r),
{
    let min_gain = A::db_to_gain(single(OUTPUT_GAIN_MIN_DB));
    let max_gain = A::db_to_gain(single(OUTPUT_GAIN_MAX_DB));
    let ratio = A::wide_quotient(a, b);
    let root = A::wide_square_root(ratio);
    let gain = A::narrowed(root);
    assert(level_gains::<A>(single(OUTPUT_GAIN_MIN_DB), min_gain));
    assert(level_gains::<A>(single(OUTPUT_GAIN_MAX_DB), max_gain));
    gain.clamped(min_gain, max_gain)
}

/// Computes the linear output gain that equalizes measured input and output energy. `value_count`
/// is the total sample count across all channels. Silent or invalid measurements return `None`,
/// otherwise the gain is clamped to the allowed range.
pub fn calculate_match_output_gain<A: Arithmetic>(
    input_energy: Double,
    output_energy: Double,
    value_count: u64,
) -> (r: Option<Single>)
    ensures
        is_match_gain::<A>(input_energy, output_energy, value_count, r),
{
    if value_count == 0 || !input_energy.is_finite() || !output_energy.is_finite() {
        return None;
    }
    let count = A::wide_count(value_count);
    let input_mean_square = A::wide_quotient(input_energy, count);
    let output_mean_square = A::wide_quotient(output_energy, count);
    if is_matchable(input_mean_square) && is_matchable(output_mean_square) {
        Some(clamped_root::<A>(input_mean_square, output_mean_square))
    } else {
        None
    }
}

/// All channels have the same number of samples.
pub open spec fn is_rectangular(channels: Seq<Vec<Single>>) -> bool {
    forall|i: int, j: int|
        0 <= i < channels.len() && 0 <= j < channels.len() ==> (#[trigger] channels[i])@.len() == (
        #[trigger] channels[j])@.len()
}

/// How many of the first `frames` frames there are.
pub open spec fn available_frames(channels: Seq<Vec<Single>>, frames: usize) -> nat {
    if channels.len() == 0 {
        0
    } else {
        vstd::math::min(frames as int, channels[0]@.len() as int) as nat
    }
}

/// `r` is `sample * sample` in binary64.
pub open spec fn is_square<A: Arithmetic>(sample: Single, r: Double) -> bool {
    exists|wide: Double| #[trigger]
        widenings::<A>(sample, wide) && wide_products::<A>(wide, wide, r)
}

/// `r` is the sum of the squares of the first `count` samples.
pub open spec fn is_channel_energy<A: Arithmetic>(
    samples: Seq<Single>,
    count: nat,
    r: Double,
) -> bool
    decreases count,
{
    if count == 0 {
        r == double(WIDE_ZERO)
    } else {
        exists|before: Double, square: Double|
            {
                &&& is_channel_energy::<A>(samples, (count - 1) as nat, before)
                &&& is_square::<A>(samples[count - 1], square)
                &&& #[trigger] wide_sums::<A>(before, square, r)
            }
    }
}

/// `r` is the sum of the energies of the first `count` channels over `frames` frames.
pub open spec fn is_energy<A: Arithmetic>(
    channels: Seq<Vec<Single>>,
    frames: nat,
    count: nat,
    r: Double,
) -> bool
    decreases count,
{
    if count == 0 {
        r == double(WIDE_ZERO)
    } else {
        exists|before: Double, energy: Double|
            {
                &&& is_energy::<A>(channels, frames, (count - 1) as nat, before)
                &&& is_channel_energy::<A>(channels[count - 1]@, frames, energy)
                &&& #[trigger] wide_sums::<A>(before, energy, r)
            }
    }
}

/// `r` is `energy` with the energy of the first `frames` frames added.
pub open spec fn is_energy_added<A: Arithmetic>(
    energy: Double,
    channels: Seq<Vec<Single>>,
    frames: usize,
    r: Double,
) -> bool {
    exists|added: Double|
        is_energy::<A>(channels, available_frames(channels, frames), channels.len(), added)
            && #[trigger] wide_sums::<A>(energy, added, r)
}

fn channel_energy<A: Arithmetic>(samples: &Vec<Single>, count: usize) -> (r: Double)
    requires
        count <= samples@.len(),
    ensures
        is_channel_energy::<A>(samples@, count as nat, r),
{
    let mut total = double(WIDE_ZERO);
    let mut index: usize = 0;
    while index < count
        invariant
            index <= count <= samples@.len(),
            is_channel_energy::<A>(samples@, index as nat, total),
        decreases count - index,
    {
        let sample = A::widened(samples[index]);
        let square = A::wide_product(sample, sample);
        let ghost before = total;
        total = A::wide_sum(total, square);
        assert(is_square::<A>(samples@[index as int], square));
        assert(wide_sums::<A>(before, square, total));
        assert(is_channel_energy::<A>(samples@, (index + 1 - 1) as nat, before));
        index += 1;
    }
    total
}

/// The energy of the first `frames` frames over all channels.
pub fn buffer_energy<A: Arithmetic>(buffer: &Vec<Vec<Single>>, frames: usize) -> (r: Double)
    requires
        is_rectangular(buffer@),
    ensures
        is_energy::<A>(buffer@, available_frames(buffer@, frames), buffer@.len(), r),
{
    let mut total = double(WIDE_ZERO);
    let mut index: usize = 0;
    while index < buffer.len()
        invariant
            index <= buffer@.len(),
            is_rectangular(buffer@),
            is_energy::<A>(buffer@, available_frames(buffer@, frames), index as nat, total),
        decreases buffer.len() - index,
    {
        assert(buffer@[0]@.len() == buffer@[index as int]@.len());
        let samples: usize = buffer[index].len();
        let count: usize = if frames < samples {
            frames
        } else {
            samples
        };
        let energy = channel_energy::<A>(&buffer[index], count);
        let ghost before = total;
        total = A::wide_sum(total, energy);
        assert(wide_sums::<A>(before, energy, total));
        index += 1;
    }
    total
}

/// A block handed to a running measurement never takes it past its end, and a measurement runs
/// until exactly its frames were measured.
pub proof fn law_blocks_fill_the_window(meter: MatchMeter, block_frames: usize, frames: usize)
    requires
        meter.is_active(),
        frames == vstd::math::min(
            block_frames as int,
            meter.target_frames - meter.measured_frames,
        ),
    ensures
        meter.measured_frames + frames <= meter.target_frames,
        meter.measured_frames + frames == meter.target_frames <==> block_frames
            >= meter.target_frames - meter.measured_frames,
{
}

/// What the cells of a match hold while no thread accesses them.
pub struct HeldMatch {
    pub state: MatchState,
    pub output_gain: Single,
}

impl HeldMatch {
    /// What a new match holds.
    pub open spec fn initial() -> HeldMatch {
        HeldMatch { state: MatchState::Idle, output_gain: single(ONE) }
    }

    /// What the cells hold after a request.
    pub open spec fn requested(self) -> HeldMatch {
        HeldMatch { state: MatchState::Requested, output_gain: single(ONE) }
    }

    /// Whether the match can be begun, and what the cells hold then.
    pub open spec fn begun(self) -> (bool, HeldMatch) {
        (self.state.begun_alone().0, HeldMatch { state: self.state.begun_alone().1, ..self })
    }

    /// What the cells hold once the given result was published.
    pub open spec fn published(self, result: Option<Single>) -> HeldMatch {
        HeldMatch {
            state: publication(result).1,
            output_gain: match publication(result).0 {
                Some(output_gain) => output_gain,
                None => self.output_gain,
            },
        }
    }

    /// What can be taken, and what the cells hold then.
    pub open spec fn taken(self) -> (Option<MatchResult>, HeldMatch) {
        (
            match_result(self.state.taken_alone().0, self.output_gain),
            HeldMatch { state: self.state.taken_alone().1, ..self },
        )
    }
}

impl MatchRuntime {
    /// `taken` is what was taken where the cells held `held` and no other thread accessed them
    /// meanwhile.
    pub open spec fn is_taken_alone(self, held: HeldMatch, taken: Option<MatchResult>) -> bool {
        exists|outcome: Option<MatchOutcome>| #[trigger]
            self.takes_with(outcome, held.output_gain.bits, taken)
                && self.state_cell().takes_with(
                held.state.code(),
                exchange_alone(held.state.code(), held.state.code(), MatchState::Idle.code()).0,
                outcome,
            )
    }

    /// `begun` tells whether the match was begun where the cells held `held` and no other thread
    /// accessed them meanwhile.
    pub open spec fn is_begun_alone(self, held: HeldMatch, begun: bool) -> bool {
        self.state_cell().begins_with(
            exchange_alone(
                held.state.code(),
                MatchState::Requested.code(),
                MatchState::Running.code(),
            ).0,
            begun,
        )
    }
}

/// What a request and a publication store is what the cells hold then, and what they do not store
/// stays.
pub proof fn law_stores_are_held(
    runtime: MatchRuntime,
    held: HeldMatch,
    result: Option<Single>,
)
    ensures
        runtime.is_requested() <==> runtime.state_cell().is_set(held.requested().state)
            && word_is_stored(runtime.gain_cell(), held.requested().output_gain.bits),
        runtime.is_published(result) <==> runtime.state_cell().is_set(held.published(result).state)
            && (result is Some ==> word_is_stored(
            runtime.gain_cell(),
            held.published(result).output_gain.bits,
        )),
        result is None ==> held.published(result).output_gain == held.output_gain,
{
}

/// What is taken and whether a match is begun, where no other thread accesses the cells, is what
/// can be taken of what they hold and whether it can be begun.
pub proof fn law_accesses_follow_what_is_held(
    runtime: MatchRuntime,
    held: HeldMatch,
    taken: Option<MatchResult>,
    begun: bool,
)
    ensures
        runtime.is_taken_alone(held, taken) ==> taken == held.taken().0 && runtime.is_taken(taken),
        runtime.is_begun_alone(held, begun) ==> begun == held.begun().0
            && runtime.state_cell().is_begun(begun),
{
    if runtime.is_taken_alone(held, taken) {
        let outcome = choose|outcome: Option<MatchOutcome>| #[trigger]
            runtime.takes_with(outcome, held.output_gain.bits, taken)
                && runtime.state_cell().takes_with(
                held.state.code(),
                exchange_alone(held.state.code(), held.state.code(), MatchState::Idle.code()).0,
                outcome,
            );
        law_outcome_is_taken(runtime.state_cell(), held.state, outcome);
    }
    if runtime.is_begun_alone(held, begun) {
        law_requested_match_is_begun(runtime.state_cell(), held.state, begun);
    }
}

/// What the GUI takes after a result was published is that result, once.
pub proof fn law_published_result_is_taken_once(
    runtime: MatchRuntime,
    held: HeldMatch,
    result: Option<Single>,
    first: Option<MatchResult>,
    second: Option<MatchResult>,
)
    requires
        runtime.is_taken_alone(held.published(result), first),
        runtime.is_taken_alone(held.published(result).taken().1, second),
    ensures
        first == Some(
            match result {
                Some(output_gain) => MatchResult::Matched(output_gain),
                None => MatchResult::Failed,
            },
        ),
        second is None,
{
    let published = held.published(result);
    law_accesses_follow_what_is_held(runtime, published, first, false);
    law_accesses_follow_what_is_held(runtime, published.taken().1, second, false);
}

/// Nothing can be taken of a match that is new, requested or running, and trying to keeps what is
/// held. A requested match is begun, once.
pub proof fn law_requested_match_begins_once(
    runtime: MatchRuntime,
    held: HeldMatch,
    first: bool,
    second: bool,
)
    requires
        runtime.is_begun_alone(held.requested(), first),
        runtime.is_begun_alone(held.requested().begun().1, second),
    ensures
        first,
        !second,
        HeldMatch::initial().taken() == (None::<MatchResult>, HeldMatch::initial()),
        !HeldMatch::initial().begun().0,
        held.requested().taken() == (None::<MatchResult>, held.requested()),
        held.requested().begun().1.taken() == (None::<MatchResult>, held.requested().begun().1),
{
    law_accesses_follow_what_is_held(runtime, held.requested(), None, first);
    law_accesses_follow_what_is_held(runtime, held.requested().begun().1, None, second);
}

/// The gain that a match finds gives the output the energy of the input: its square times the energy
/// of the output is the energy of the input, unless that takes more than 50 dB in either direction.
/// `least` and `most` are the gains of -50 dB and 50 dB.
pub proof fn law_match_gain_equalizes_the_energies<A: Arithmetic>(
    input_energy: Double,
    output_energy: Double,
    value_count: u64,
    gain: Single,
    least: Single,
    most: Single,
)
    requires
        is_exact::<A>(),
        is_wide_exact::<A>(),
        least.is_finite() && most.is_finite(),
        0real < least.value() <= most.value(),
        forall|r: Single| #[trigger]
            level_gains::<A>(single(OUTPUT_GAIN_MIN_DB), r) ==> r == least,
        forall|r: Single| #[trigger]
            level_gains::<A>(single(OUTPUT_GAIN_MAX_DB), r) ==> r == most,
        is_match_gain::<A>(input_energy, output_energy, value_count, Some(gain)),
    ensures
        gain.is_finite(),
        least.value() <= gain.value() <= most.value(),
        least.value() < gain.value() < most.value() ==> (gain.value() * gain.value())
            * output_energy.value() == input_energy.value(),
        gain.value() == most.value() ==> (gain.value() * gain.value()) * output_energy.value()
            <= input_energy.value() || least.value() == most.value(),
        gain.value() == least.value() ==> (gain.value() * gain.value()) * output_energy.value()
            >= input_energy.value() || least.value() == most.value(),
{
    lemma_wide_constants();
    let (count, i, o) = choose|
        count: Double,
        input_mean_square: Double,
        output_mean_square: Double,
    | #[trigger]
        wide_counts::<A>(value_count, count) && #[trigger] wide_quotients::<A>(
            input_energy,
            count,
            input_mean_square,
        ) && #[trigger] wide_quotients::<A>(output_energy, count, output_mean_square)
            && is_matchable(input_mean_square) && is_matchable(output_mean_square)
            && is_clamped_root::<A>(input_mean_square, output_mean_square, gain);
    assert(double(SILENCE_FLOOR).is_finite());
    lemma_wide_order_is_by_value(i, double(SILENCE_FLOOR));
    lemma_wide_order_is_by_value(o, double(SILENCE_FLOOR));
    lemma_wide_order_is_by_value(double(WIDE_ZERO), double(SILENCE_FLOOR));
    assert(i.value() > 0real && o.value() > 0real);
    let (ratio, root, exact, min_gain, max_gain) = choose|
        ratio: Double,
        root: Double,
        gain_: Single,
        min_gain: Single,
        max_gain: Single,
    | #[trigger]
        wide_quotients::<A>(i, o, ratio) && #[trigger] wide_square_roots::<A>(ratio, root)
            && #[trigger] narrowings::<A>(root, gain_) && #[trigger] level_gains::<A>(
            single(OUTPUT_GAIN_MIN_DB),
            min_gain,
        ) && #[trigger] level_gains::<A>(single(OUTPUT_GAIN_MAX_DB), max_gain) && gain
            == gain_.clamped(min_gain, max_gain);
    let (q, g, n) = (ratio.value(), exact.value(), count.value());
    assert(q * o.value() == i.value());
    lemma_sign_of_product(-q, o.value());
    lemma_regroup(0real, q, o.value());
    lemma_sign_of_product(0real, o.value());
    assert(q > 0real) by {
        if q == 0real {
            lemma_sign_of_product(q, o.value());
        }
    }
    assert(g * g == q && g >= 0real);
    lemma_selections(exact, least, most);
    assert(o.value() * n == output_energy.value());
    assert(i.value() * n == input_energy.value());
    lemma_regroup(g * g, o.value(), n);
    assert((g * g) * output_energy.value() == input_energy.value());
    lemma_sign_of_product(o.value(), n);
    let c = gain.value();
    let e = output_energy.value();
    if c == most.value() && g >= most.value() {
        lemma_squares_are_ordered(c, g, e);
    }
    if c == least.value() && g <= least.value() {
        lemma_squares_are_ordered(g, c, e);
    }
}

proof fn lemma_squares_are_ordered(a: real, b: real, weight: real)
    requires
        0real <= a <= b,
        weight >= 0real,
    ensures
        (a * a) * weight <= (b * b) * weight,
{
    lemma_sign_of_product(b - a, b);
    lemma_sign_of_product(a, b - a);
    lemma_regroup(b, a, b);
    lemma_regroup(a, b, a);
    assert(a * a <= b * b);
    lemma_sign_of_product(b * b - a * a, weight);
    lemma_regroup(b * b, a * a, weight);
}

/// The time in frames, rounded to the nearest frame, but at least one.
pub proof fn law_frame_counts_are_the_nearest<A: Arithmetic>(
    sample_rate: Single,
    seconds: Single,
    frames: u64,
)
    requires
        is_exact::<A>(),
        roundings_follow::<A>(),
        floors_follow::<A>(),
        sample_rate.is_finite() && seconds.is_finite(),
        is_frame_count::<A>(sample_rate, seconds, frames),
        frames < u64::MAX,
    ensures
        frames >= 1,
        sample_rate.value() * seconds.value() <= 1real ==> frames == 1,
        sample_rate.value() * seconds.value() >= 1real ==> {
            &&& 2real * ((frames as int as real) - sample_rate.value() * seconds.value()) <= 1real
            &&& 2real * (sample_rate.value() * seconds.value() - (frames as int as real)) <= 1real
        },
{
    lemma_constants();
    let (exact, rounded) = choose|frames_: Single, whole: Single| #[trigger]
        products::<A>(sample_rate, seconds, frames_) && #[trigger] roundings::<A>(frames_, whole)
            && count_casts::<A>(whole.larger(single(ONE)), frames);
    let n = choose|n: int| rounded.value() == #[trigger] whole(n);
    let most = if n < 1 {
        1
    } else {
        n
    };
    lemma_selections(rounded, single(ONE), single(ONE));
    assert(rounded.larger(single(ONE)).value() == whole(most));
    assert(frames as int == most);
}

/// The sum of the squares of the first samples.
pub open spec fn energy_of(samples: Seq<Single>, count: nat) -> real
    decreases count,
{
    if count == 0 {
        0real
    } else {
        energy_of(samples, (count - 1) as nat) + samples[count - 1].value() * samples[count
            - 1].value()
    }
}

/// The sum of the squares of the first samples of the first channels.
pub open spec fn energy_of_channels(channels: Seq<Vec<Single>>, frames: nat, count: nat) -> real
    decreases count,
{
    if count == 0 {
        0real
    } else {
        energy_of_channels(channels, frames, (count - 1) as nat) + energy_of(
            channels[count - 1]@,
            frames,
        )
    }
}

proof fn lemma_channel_energy<A: Arithmetic>(samples: Seq<Single>, count: nat, r: Double)
    requires
        is_wide_exact::<A>(),
        forall|i: int| 0 <= i < count ==> (#[trigger] samples[i]).is_finite(),
        is_channel_energy::<A>(samples, count, r),
    ensures
        r.is_finite(),
        r.value() == energy_of(samples, count),
    decreases count,
{
    lemma_wide_constants();
    if count > 0 {
        let (before, square) = choose|before: Double, square: Double|
            {
                &&& is_channel_energy::<A>(samples, (count - 1) as nat, before)
                &&& is_square::<A>(samples[count - 1], square)
                &&& #[trigger] wide_sums::<A>(before, square, r)
            };
        lemma_channel_energy::<A>(samples, (count - 1) as nat, before);
        let wide = choose|wide: Double| #[trigger]
            widenings::<A>(samples[count - 1], wide) && wide_products::<A>(wide, wide, square);
        assert(square.is_finite());
    }
}

proof fn lemma_energy<A: Arithmetic>(
    channels: Seq<Vec<Single>>,
    frames: nat,
    count: nat,
    r: Double,
)
    requires
        is_wide_exact::<A>(),
        forall|c: int, i: int|
            0 <= c < count && 0 <= i < frames ==> (#[trigger] channels[c]@[i]).is_finite(),
        is_energy::<A>(channels, frames, count, r),
    ensures
        r.is_finite(),
        r.value() == energy_of_channels(channels, frames, count),
    decreases count,
{
    lemma_wide_constants();
    if count > 0 {
        let (before, energy) = choose|before: Double, energy: Double|
            {
                &&& is_energy::<A>(channels, frames, (count - 1) as nat, before)
                &&& is_channel_energy::<A>(channels[count - 1]@, frames, energy)
                &&& #[trigger] wide_sums::<A>(before, energy, r)
            };
        lemma_energy::<A>(channels, frames, (count - 1) as nat, before);
        lemma_channel_energy::<A>(channels[count - 1]@, frames, energy);
    }
}

/// What a block adds to an energy is the sum of the squares of its samples, over all channels and
/// the frames that are measured.
pub proof fn law_energies_are_sums_of_squares<A: Arithmetic>(
    energy: Double,
    channels: Seq<Vec<Single>>,
    frames: usize,
    r: Double,
)
    requires
        is_wide_exact::<A>(),
        energy.is_finite(),
        forall|c: int, i: int|
            0 <= c < channels.len() && 0 <= i < available_frames(channels, frames) ==> (
            #[trigger] channels[c]@[i]).is_finite(),
        is_energy_added::<A>(energy, channels, frames, r),
    ensures
        r.is_finite(),
        r.value() - energy.value() == energy_of_channels(
            channels,
            available_frames(channels, frames),
            channels.len(),
        ),
{
    let added = choose|added: Double|
        is_energy::<A>(channels, available_frames(channels, frames), channels.len(), added)
            && #[trigger] wide_sums::<A>(energy, added, r);
    lemma_energy::<A>(channels, available_frames(channels, frames), channels.len(), added);
}

/// A gain is found where something was measured and neither signal is silent: the mean squares of
/// both are above the floor.
pub proof fn law_audible_signals_are_matched<A: Arithmetic>(
    input_energy: Double,
    output_energy: Double,
    value_count: u64,
    input_mean_square: real,
    output_mean_square: real,
    r: Option<Single>,
)
    requires
        is_wide_exact::<A>(),
        input_energy.is_finite() && output_energy.is_finite(),
        value_count > 0,
        input_mean_square * (value_count as int as real) == input_energy.value(),
        output_mean_square * (value_count as int as real) == output_energy.value(),
        is_match_gain::<A>(input_energy, output_energy, value_count, r),
    ensures
        r is Some <==> input_mean_square > double(SILENCE_FLOOR).value() && output_mean_square
            > double(SILENCE_FLOOR).value(),
        double(SILENCE_FLOOR).value() > 0real,
{
    let (count, i, o) = choose|
        count: Double,
        input_mean_square: Double,
        output_mean_square: Double,
    | #[trigger]
        wide_counts::<A>(value_count, count) && #[trigger] wide_quotients::<A>(
            input_energy,
            count,
            input_mean_square,
        ) && #[trigger] wide_quotients::<A>(output_energy, count, output_mean_square)
            && if is_matchable(input_mean_square) && is_matchable(output_mean_square) {
            r matches Some(gain) && is_clamped_root::<A>(
                input_mean_square,
                output_mean_square,
                gain,
            )
        } else {
            r is None
        };
    lemma_cancel(i.value(), input_mean_square, count.value());
    lemma_cancel(o.value(), output_mean_square, count.value());
    lemma_wide_constants();
    assert(double(SILENCE_FLOOR).is_finite());
    lemma_wide_order_is_by_value(i, double(SILENCE_FLOOR));
    lemma_wide_order_is_by_value(o, double(SILENCE_FLOOR));
    lemma_wide_order_is_by_value(double(WIDE_ZERO), double(SILENCE_FLOOR));
}

/// A measurement takes five seconds, to the nearest frame.
pub proof fn law_matches_take_five_seconds<A: Arithmetic>(sample_rate: Single, frames: u64)
    requires
        is_exact::<A>(),
        roundings_follow::<A>(),
        floors_follow::<A>(),
        sample_rate.is_finite(),
        sample_rate.value() * 5real >= 1real,
        is_frame_count::<A>(sample_rate, single(MATCH_DURATION_SECONDS), frames),
        frames < u64::MAX,
    ensures
        -1real <= 2real * ((frames as int as real) - sample_rate.value() * 5real) <= 1real,
{
    vstd::arithmetic::power2::lemma2_to64();
    assert(pow2(21) == 0x20_0000);
    assert(pow2(21) as int as real == 2097152real);
    lemma_value_of(MATCH_DURATION_SECONDS, 0xa0_0000, 21);
    law_frame_counts_are_the_nearest::<A>(sample_rate, single(MATCH_DURATION_SECONDS), frames);
}

/// The gains that a match gives reach from -50 dB to 50 dB. `exp` gives the gains of levels.
pub proof fn law_match_gains_reach_fifty_decibels<A: Arithmetic>(
    exp: spec_fn(real) -> real,
    input_mean_square: Double,
    output_mean_square: Double,
    gain: Single,
)
    requires
        is_exact::<A>(),
        is_wide_exact::<A>(),
        level_gains_follow::<A>(exp),
        exp(-50real) <= exp(50real),
        input_mean_square.is_finite() && input_mean_square.value() > 0real,
        output_mean_square.is_finite() && output_mean_square.value() > 0real,
        is_clamped_root::<A>(input_mean_square, output_mean_square, gain),
    ensures
        exp(-50real) <= gain.value() <= exp(50real),
{
    vstd::arithmetic::power2::lemma2_to64();
    assert(pow2(18) == 0x4_0000);
    assert(pow2(18) as int as real == 262144real);
    lemma_value_of(OUTPUT_GAIN_MAX_DB, 0xc8_0000, 18);
    lemma_signs(single(OUTPUT_GAIN_MAX_DB));
    assert(single(OUTPUT_GAIN_MAX_DB).negated() == single(OUTPUT_GAIN_MIN_DB));
    let (i, o) = (input_mean_square, output_mean_square);
    let (ratio, root, exact, min_gain, max_gain) = choose|
        ratio: Double,
        root: Double,
        gain_: Single,
        min_gain: Single,
        max_gain: Single,
    | #[trigger]
        wide_quotients::<A>(i, o, ratio) && #[trigger] wide_square_roots::<A>(ratio, root)
            && #[trigger] narrowings::<A>(root, gain_) && #[trigger] level_gains::<A>(
            single(OUTPUT_GAIN_MIN_DB),
            min_gain,
        ) && #[trigger] level_gains::<A>(single(OUTPUT_GAIN_MAX_DB), max_gain) && gain
            == gain_.clamped(min_gain, max_gain);
    let q = ratio.value();
    lemma_sign_of_product(q, o.value());
    assert(q > 0real);
    assert(min_gain.value() == exp(-50real));
    lemma_selections(exact, min_gain, max_gain);
}

} // verus!
