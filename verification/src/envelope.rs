//! The envelope followers, and how the channels of the sidechain are linked.

use vstd::arithmetic::power2::pow2;
use vstd::prelude::*;

use crate::arithmetic::{
    counts, differences, exponentials, magnitudes, products, quotients, sums, Arithmetic,
};
use crate::dynamics::{reciprocal, reciprocals};
use crate::exact::{
    exponentials_follow, is_exact, lemma_constants, lemma_order_is_by_value,
    lemma_cancel, lemma_power_of_exponential, lemma_quotient_undone, lemma_regroup,
    lemma_selections, lemma_sign_of_product, lemma_signs, lemma_value_of, power,
};
use crate::single::{single, Single, ONE, ZERO};

verus! {

/// The encoding of `-1.0`.
pub const MINUS_ONE: u32 = 0xbf80_0000;

/// The encoding of `1000.0`.
pub const ONE_THOUSAND: u32 = 0x447a_0000;

/// The encoding of `0.088388346`, the RMS value of a -24 dB sine wave. The envelopes start at this
/// value so extreme upwards compression does not cause pops when the window size changes.
pub const ENVELOPE_INIT_VALUE: u32 = 0x3db5_04f3;

/// The encoding of `0.15`, the time in seconds over which the envelope followers fade back from
/// being instant to using the configured timings after a reset.
pub const ENVELOPE_FOLLOWER_TIMING_FADE_SECONDS: u32 = 0x3e19_999a;

/// A complex FFT bin.
#[derive(Clone, Copy, PartialEq, Eq, Debug, Structural)]
pub struct Bin {
    pub re: Single,
    pub im: Single,
}

/// How much of the old and of the new value an envelope follower takes.
#[derive(Clone, Copy, PartialEq, Eq, Debug, Structural)]
pub struct Step {
    pub old_t: Single,
    pub new_t: Single,
}

/// The steps of an envelope follower for rising and for falling magnitudes.
#[derive(Clone, Copy, PartialEq, Eq, Debug, Structural)]
pub struct FollowerTiming {
    pub attack: Step,
    pub release: Step,
}

/// The shares of a linked magnitude.
#[derive(Clone, Copy, PartialEq, Eq, Debug, Structural)]
pub struct ChannelLink {
    pub this_channel_t: Single,
    pub other_channels_t: Single,
}

/// `r` is `sample_rate / (window_size / overlap_times)`, the rate at which windows are processed.
pub open spec fn is_effective_sample_rate<A: Arithmetic>(
    sample_rate: Single,
    window_size: usize,
    overlap_times: usize,
    r: Single,
) -> bool {
    exists|window: Single, overlap: Single, hop: Single| #[trigger]
        counts::<A>(window_size, window) && #[trigger] counts::<A>(overlap_times, overlap)
            && #[trigger] quotients::<A>(window, overlap, hop) && quotients::<A>(
            sample_rate,
            hop,
            r,
        )
}

/// Computes the rate at which windows are processed.
pub fn effective_sample_rate<A: Arithmetic>(
    sample_rate: Single,
    window_size: usize,
    overlap_times: usize,
) -> (r: Single)
    ensures
        is_effective_sample_rate::<A>(sample_rate, window_size, overlap_times, r),
{
    let window = A::from_count(window_size);
    let overlap = A::from_count(overlap_times);
    let hop = A::quotient(window, overlap);
    A::quotient(sample_rate, hop)
}

/// `step` retains `exp(-1 / (ms / 1000 * rate))` of the old value, or nothing of it where `ms` is
/// zero, and takes the rest from the new value.
pub open spec fn is_step<A: Arithmetic>(ms: Single, rate: Single, step: Step) -> bool {
    &&& if ms.equals(single(ZERO)) {
        step.old_t == single(ZERO)
    } else {
        is_retained_share::<A>(ms, rate, step.old_t)
    }
    &&& differences::<A>(single(ONE), step.old_t, step.new_t)
}

/// `r` is `exp(-1 / (ms / 1000 * rate))`.
pub open spec fn is_retained_share<A: Arithmetic>(ms: Single, rate: Single, r: Single) -> bool {
    exists|seconds: Single, windows: Single, decay: Single| #[trigger]
        quotients::<A>(ms, single(ONE_THOUSAND), seconds) && #[trigger] products::<A>(
            seconds,
            rate,
            windows,
        ) && #[trigger] quotients::<A>(single(MINUS_ONE), windows, decay) && exponentials::<A>(
            decay,
            r,
        )
}

fn retained_share<A: Arithmetic>(ms: Single, rate: Single) -> (r: Single)
    ensures
        is_retained_share::<A>(ms, rate, r),
{
    let seconds = A::quotient(ms, single(ONE_THOUSAND));
    let windows = A::product(seconds, rate);
    let decay = A::quotient(single(MINUS_ONE), windows);
    assert(quotients::<A>(ms, single(ONE_THOUSAND), seconds));
    assert(quotients::<A>(single(MINUS_ONE), windows, decay));
    A::exponential(decay)
}

fn step<A: Arithmetic>(ms: Single, rate: Single) -> (step: Step)
    ensures
        is_step::<A>(ms, rate, step),
{
    let old_t = if ms.equals(single(ZERO)) {
        single(ZERO)
    } else {
        retained_share::<A>(ms, rate)
    };
    let new_t = A::difference(single(ONE), old_t);
    assert(differences::<A>(single(ONE), old_t, new_t));
    Step { old_t, new_t }
}

/// `timing` follows the configured times, both scaled by `scale`.
pub open spec fn is_timing<A: Arithmetic>(
    attack_ms: Single,
    release_ms: Single,
    scale: Single,
    rate: Single,
    timing: FollowerTiming,
) -> bool {
    exists|attack: Single, release: Single| #[trigger]
        products::<A>(attack_ms, scale, attack) && #[trigger] products::<A>(
            release_ms,
            scale,
            release,
        ) && is_step::<A>(attack, rate, timing.attack) && is_step::<A>(
            release,
            rate,
            timing.release,
        )
}

/// Computes the steps of the envelope followers.
pub fn follower_timing<A: Arithmetic>(
    attack_ms: Single,
    release_ms: Single,
    scale: Single,
    rate: Single,
) -> (timing: FollowerTiming)
    ensures
        is_timing::<A>(attack_ms, release_ms, scale, rate, timing),
{
    let attack = A::product(attack_ms, scale);
    let release = A::product(release_ms, scale);
    FollowerTiming { attack: step::<A>(attack, rate), release: step::<A>(release, rate) }
}

/// `r` is the timing scale after the last channel of a window was processed: moved by
/// `1 / (0.15 * rate)` towards `1`, where it stays.
pub open spec fn is_faded_scale<A: Arithmetic>(scale: Single, rate: Single, r: Single) -> bool {
    exists|windows: Single, delta: Single, moved: Single| #[trigger]
        products::<A>(single(ENVELOPE_FOLLOWER_TIMING_FADE_SECONDS), rate, windows)
            && #[trigger] reciprocals::<A>(windows, delta) && #[trigger] sums::<A>(
            scale,
            delta,
            moved,
        ) && r == moved.smaller(single(ONE))
}

/// Computes the next timing scale.
pub fn faded_scale<A: Arithmetic>(scale: Single, rate: Single) -> (r: Single)
    ensures
        is_faded_scale::<A>(scale, rate, r),
{
    let windows = A::product(single(ENVELOPE_FOLLOWER_TIMING_FADE_SECONDS), rate);
    let delta = reciprocal::<A>(windows);
    let moved = A::sum(scale, delta);
    assert(products::<A>(single(ENVELOPE_FOLLOWER_TIMING_FADE_SECONDS), rate, windows));
    moved.smaller(single(ONE))
}

impl FollowerTiming {
    /// The step for moving an envelope towards a magnitude: the release step where the envelope is
    /// above the magnitude, the attack step where it is not.
    #[verifier::allow_in_spec]
    pub fn step_towards(self, envelope: Single, magnitude: Single) -> Step
        returns
            (if magnitude.below(envelope) {
                self.release
            } else {
                self.attack
            }),
    {
        if magnitude.below(envelope) {
            self.release
        } else {
            self.attack
        }
    }
}

/// `r` is `old_t * envelope + new_t * magnitude`.
pub open spec fn is_stepped<A: Arithmetic>(
    step: Step,
    envelope: Single,
    magnitude: Single,
    r: Single,
) -> bool {
    exists|kept: Single, taken: Single| #[trigger]
        products::<A>(step.old_t, envelope, kept) && #[trigger] products::<A>(
            step.new_t,
            magnitude,
            taken,
        ) && sums::<A>(kept, taken, r)
}

/// `r` is the envelope moved towards a magnitude.
pub open spec fn is_followed<A: Arithmetic>(
    timing: FollowerTiming,
    envelope: Single,
    magnitude: Single,
    r: Single,
) -> bool {
    is_stepped::<A>(timing.step_towards(envelope, magnitude), envelope, magnitude, r)
}

/// Moves an envelope towards a magnitude.
pub fn follow<A: Arithmetic>(timing: FollowerTiming, envelope: Single, magnitude: Single) -> (r:
    Single)
    ensures
        is_followed::<A>(timing, envelope, magnitude, r),
{
    let step = timing.step_towards(envelope, magnitude);
    let kept = A::product(step.old_t, envelope);
    let taken = A::product(step.new_t, magnitude);
    let r = A::sum(kept, taken);
    assert(is_stepped::<A>(step, envelope, magnitude, r));
    r
}

/// The other channels get `link / n` each of `n` channels, this channel gets what is left of `1`.
pub open spec fn is_channel_link<A: Arithmetic>(
    amount: Single,
    num_channels: usize,
    link: ChannelLink,
) -> bool {
    exists|n: Single, others: Single, taken: Single| #[trigger]
        counts::<A>(num_channels, n) && quotients::<A>(amount, n, link.other_channels_t)
            && #[trigger] differences::<A>(n, single(ONE), others) && #[trigger] products::<A>(
            link.other_channels_t,
            others,
            taken,
        ) && differences::<A>(single(ONE), taken, link.this_channel_t)
}

/// Computes the shares of the linked channels.
pub fn channel_link<A: Arithmetic>(amount: Single, num_channels: usize) -> (link: ChannelLink)
    ensures
        is_channel_link::<A>(amount, num_channels, link),
{
    let n = A::from_count(num_channels);
    let other_channels_t = A::quotient(amount, n);
    let others = A::difference(n, single(ONE));
    let taken = A::product(other_channels_t, others);
    let this_channel_t = A::difference(single(ONE), taken);
    assert(differences::<A>(n, single(ONE), others));
    assert(differences::<A>(single(ONE), taken, this_channel_t));
    let link = ChannelLink { this_channel_t, other_channels_t };
    assert(products::<A>(link.other_channels_t, others, taken));
    link
}

impl ChannelLink {
    /// The share of one channel in the linked magnitude of another.
    #[verifier::allow_in_spec]
    pub fn share(self, channel_idx: usize, other_idx: usize) -> Single
        returns
            (if other_idx == channel_idx {
                self.this_channel_t
            } else {
                self.other_channels_t
            }),
    {
        if other_idx == channel_idx {
            self.this_channel_t
        } else {
            self.other_channels_t
        }
    }
}

/// `r` is the sum over the first `count` channels of their magnitudes at a bin, each times its
/// share.
pub open spec fn is_linked_sum<A: Arithmetic>(
    spectra: Seq<Vec<Single>>,
    channel_idx: usize,
    link: ChannelLink,
    bin_idx: int,
    count: nat,
    r: Single,
) -> bool
    decreases count,
{
    if count == 0 {
        r == single(ZERO)
    } else {
        exists|before: Single, term: Single|
            #![trigger sums::<A>(before, term, r)]
            {
                &&& is_linked_sum::<A>(
                    spectra,
                    channel_idx,
                    link,
                    bin_idx,
                    (count - 1) as nat,
                    before,
                )
                &&& products::<A>(
                    spectra[count - 1]@[bin_idx],
                    link.share(channel_idx, (count - 1) as usize),
                    term,
                )
                &&& sums::<A>(before, term, r)
            }
    }
}

/// Sums up the magnitudes of all channels at a bin, each times its share.
pub fn linked_magnitude<A: Arithmetic>(
    spectra: &Vec<Vec<Single>>,
    channel_idx: usize,
    link: ChannelLink,
    bin_idx: usize,
) -> (r: Single)
    requires
        forall|i: int| 0 <= i < spectra@.len() ==> bin_idx < (#[trigger] spectra@[i])@.len(),
    ensures
        is_linked_sum::<A>(spectra@, channel_idx, link, bin_idx as int, spectra@.len(), r),
{
    let mut sum = single(ZERO);
    let mut index: usize = 0;
    while index < spectra.len()
        invariant
            index <= spectra@.len(),
            forall|i: int| 0 <= i < spectra@.len() ==> bin_idx < (#[trigger] spectra@[i])@.len(),
            is_linked_sum::<A>(spectra@, channel_idx, link, bin_idx as int, index as nat, sum),
        decreases spectra.len() - index,
    {
        let term = A::product(spectra[index][bin_idx], link.share(channel_idx, index));
        let ghost before = sum;
        sum = A::sum(sum, term);
        assert(products::<A>(
            spectra@[index as int]@[bin_idx as int],
            link.share(channel_idx, index),
            term,
        ));
        assert(sums::<A>(before, term, sum));
        assert(is_linked_sum::<A>(
            spectra@,
            channel_idx,
            link,
            bin_idx as int,
            (index + 1 - 1) as nat,
            before,
        ));
        index += 1;
    }
    sum
}

/// `linked` holds the linked magnitude of each bin for the given channel.
pub open spec fn are_linked_magnitudes<A: Arithmetic>(
    spectra: Seq<Vec<Single>>,
    channel_idx: usize,
    link: ChannelLink,
    linked: Seq<Single>,
) -> bool {
    forall|i: int|
        0 <= i < linked.len() ==> is_linked_sum::<A>(
            spectra,
            channel_idx,
            link,
            i,
            spectra.len(),
            #[trigger] linked[i],
        )
}

/// The magnitudes of `bins`.
pub open spec fn are_magnitudes<A: Arithmetic>(bins: Seq<Bin>, values: Seq<Single>) -> bool {
    &&& bins.len() == values.len()
    &&& forall|i: int|
        0 <= i < bins.len() ==> magnitudes::<A>(bins[i].re, bins[i].im, #[trigger] values[i])
}

/// The values of the constants.
proof fn lemma_constants_of_envelopes()
    ensures
        single(MINUS_ONE).value() == -1real,
        single(MINUS_ONE).is_finite(),
        single(ONE_THOUSAND).value() == 1000real,
        single(ONE_THOUSAND).is_finite(),
{
    lemma_constants();
    lemma_signs(single(ONE));
    assert(single(ONE).negated() == single(MINUS_ONE));
    vstd::arithmetic::power2::lemma2_to64();
    assert(pow2(14) == 0x4000);
    assert(pow2(14) as int as real == 16384real);
    lemma_value_of(ONE_THOUSAND, 0xfa_0000, 14);
}

/// A step towards a magnitude keeps its share of the distance: what is kept and what is taken add
/// up to one.
pub proof fn law_steps_keep_a_share_of_the_distance<A: Arithmetic>(
    attack_ms: Single,
    release_ms: Single,
    scale: Single,
    rate: Single,
    timing: FollowerTiming,
    envelope: Single,
    magnitude: Single,
    r: Single,
)
    requires
        is_exact::<A>(),
        is_timing::<A>(attack_ms, release_ms, scale, rate, timing),
        timing.attack.old_t.is_finite(),
        timing.release.old_t.is_finite(),
        envelope.is_finite(),
        magnitude.is_finite(),
        is_followed::<A>(timing, envelope, magnitude, r),
    ensures
        r.is_finite(),
        envelope.value() <= magnitude.value() ==> magnitude.value() - r.value()
            == timing.attack.old_t.value() * (magnitude.value() - envelope.value()),
        envelope.value() > magnitude.value() ==> r.value() - magnitude.value()
            == timing.release.old_t.value() * (envelope.value() - magnitude.value()),
{
    lemma_constants();
    lemma_order_is_by_value(magnitude, envelope);
    let step = timing.step_towards(envelope, magnitude);
    assert(differences::<A>(single(ONE), step.old_t, step.new_t));
    let (kept, taken) = choose|kept: Single, taken: Single| #[trigger]
        products::<A>(step.old_t, envelope, kept) && #[trigger] products::<A>(
            step.new_t,
            magnitude,
            taken,
        ) && sums::<A>(kept, taken, r);
    let (o, n, e, m) = (
        step.old_t.value(),
        step.new_t.value(),
        envelope.value(),
        magnitude.value(),
    );
    assert(n == 1real - o);
    assert(r.value() == o * e + n * m);
    assert(o * e + n * m - m == o * (e - m)) by (nonlinear_arith)
        requires
            n == 1real - o,
    ;
    assert(o * (m - e) == -(o * (e - m))) by (nonlinear_arith);
}

/// How many windows are processed in the given time.
pub open spec fn windows_in(ms: Single, scale: Single, rate: Single) -> real {
    (ms.value() * scale.value()) * rate.value() / 1000real
}

/// The share that is kept is the exponential of minus one over the number of windows in the time.
proof fn lemma_retained_share<A: Arithmetic>(
    exp: spec_fn(real) -> real,
    ms: Single,
    scale: Single,
    rate: Single,
    time: Single,
    r: Single,
)
    requires
        is_exact::<A>(),
        exponentials_follow::<A>(exp),
        ms.is_finite() && scale.is_finite() && rate.is_finite(),
        windows_in(ms, scale, rate) != 0real,
        products::<A>(ms, scale, time),
        is_retained_share::<A>(time, rate, r),
    ensures
        r.is_finite(),
        r.value() == exp(-1real / windows_in(ms, scale, rate)),
{
    lemma_constants_of_envelopes();
    let (seconds, windows, decay) = choose|seconds: Single, windows: Single, decay: Single|
        #[trigger]
        quotients::<A>(time, single(ONE_THOUSAND), seconds) && #[trigger] products::<A>(
            seconds,
            rate,
            windows,
        ) && #[trigger] quotients::<A>(single(MINUS_ONE), windows, decay) && exponentials::<A>(
            decay,
            r,
        );
    let (t, k, s, w, d) = (
        time.value(),
        rate.value(),
        seconds.value(),
        windows.value(),
        decay.value(),
    );
    let n = windows_in(ms, scale, rate);
    lemma_quotient_undone(t * k, 1000real);
    assert(s * 1000real == t);
    assert(w == s * k);
    assert(w == n) by (nonlinear_arith)
        requires
            s * 1000real == t,
            w == s * k,
            n * 1000real == t * k,
    ;
    assert(d * w == -1real);
    lemma_quotient_undone(-1real, n);
    let q = -1real / n;
    assert(d == q) by (nonlinear_arith)
        requires
            d * n == -1real,
            q * n == -1real,
            n != 0real,
    ;
}

/// The number of windows is zero exactly where the time is.
proof fn lemma_no_windows_in_no_time(ms: Single, scale: Single, rate: Single, time: real)
    requires
        time == ms.value() * scale.value(),
        windows_in(ms, scale, rate) != 0real,
    ensures
        time != 0real,
{
    if time == 0real {
        assert(time * rate.value() == 0real) by (nonlinear_arith)
            requires
                time == 0real,
        ;
        assert(0real / 1000real == 0real);
    }
}

/// What a step keeps, where there is a time.
proof fn lemma_step_keeps<A: Arithmetic>(
    exp: spec_fn(real) -> real,
    ms: Single,
    scale: Single,
    rate: Single,
    time: Single,
    step: Step,
    n: nat,
)
    requires
        is_exact::<A>(),
        exponentials_follow::<A>(exp),
        ms.is_finite() && scale.is_finite() && rate.is_finite(),
        windows_in(ms, scale, rate) != 0real,
        products::<A>(ms, scale, time),
        is_step::<A>(time, rate, step),
    ensures
        power(step.old_t.value(), n) == exp(
            (n as int as real) * (-1real / windows_in(ms, scale, rate)),
        ),
        step.old_t.value() == exp(-1real / windows_in(ms, scale, rate)),
{
    lemma_constants();
    lemma_no_windows_in_no_time(ms, scale, rate, time.value());
    lemma_order_is_by_value(time, single(ZERO));
    lemma_retained_share::<A>(exp, ms, scale, rate, time, step.old_t);
    lemma_power_of_exponential(exp, -1real / windows_in(ms, scale, rate), n);
}

/// Over the attack or the release time, the distance to the magnitude falls to `1 / e` of what it
/// was: the share that is kept in each of the `n` windows of that time, to the power of `n`, is
/// `exp(-1)`.
pub proof fn law_envelopes_settle_in_their_time<A: Arithmetic>(
    exp: spec_fn(real) -> real,
    attack_ms: Single,
    release_ms: Single,
    scale: Single,
    rate: Single,
    timing: FollowerTiming,
    n: nat,
)
    requires
        is_exact::<A>(),
        exponentials_follow::<A>(exp),
        attack_ms.is_finite() && release_ms.is_finite(),
        scale.is_finite() && rate.is_finite(),
        n > 0,
        is_timing::<A>(attack_ms, release_ms, scale, rate, timing),
    ensures
        windows_in(attack_ms, scale, rate) == n as int as real ==> power(
            timing.attack.old_t.value(),
            n,
        ) == exp(-1real),
        windows_in(release_ms, scale, rate) == n as int as real ==> power(
            timing.release.old_t.value(),
            n,
        ) == exp(-1real),
{
    let (attack, release) = choose|attack: Single, release: Single| #[trigger]
        products::<A>(attack_ms, scale, attack) && #[trigger] products::<A>(
            release_ms,
            scale,
            release,
        ) && is_step::<A>(attack, rate, timing.attack) && is_step::<A>(
            release,
            rate,
            timing.release,
        );
    let k = n as int as real;
    lemma_quotient_undone(-1real, k);
    lemma_regroup(k, -1real / k, 0real);
    if windows_in(attack_ms, scale, rate) == k {
        lemma_step_keeps::<A>(exp, attack_ms, scale, rate, attack, timing.attack, n);
    }
    if windows_in(release_ms, scale, rate) == k {
        lemma_step_keeps::<A>(exp, release_ms, scale, rate, release, timing.release, n);
    }
}

/// The share that is kept with a time of `n` times as many windows, to the power of `n`, is the share
/// that is kept with the time, for attack and release, at any rates and scales.
pub proof fn law_kept_shares_follow_the_time<A: Arithmetic>(
    exp: spec_fn(real) -> real,
    attack_ms: Single,
    release_ms: Single,
    scale: Single,
    rate: Single,
    timing: FollowerTiming,
    long_attack_ms: Single,
    long_release_ms: Single,
    long_scale: Single,
    long_rate: Single,
    long_timing: FollowerTiming,
    n: nat,
)
    requires
        is_exact::<A>(),
        exponentials_follow::<A>(exp),
        attack_ms.is_finite() && release_ms.is_finite(),
        scale.is_finite() && rate.is_finite(),
        long_attack_ms.is_finite() && long_release_ms.is_finite(),
        long_scale.is_finite() && long_rate.is_finite(),
        n > 0,
        windows_in(attack_ms, scale, rate) != 0real,
        windows_in(release_ms, scale, rate) != 0real,
        is_timing::<A>(attack_ms, release_ms, scale, rate, timing),
        is_timing::<A>(long_attack_ms, long_release_ms, long_scale, long_rate, long_timing),
    ensures
        windows_in(long_attack_ms, long_scale, long_rate) == (n as int as real) * windows_in(
            attack_ms,
            scale,
            rate,
        ) ==> power(long_timing.attack.old_t.value(), n) == timing.attack.old_t.value(),
        windows_in(long_release_ms, long_scale, long_rate) == (n as int as real) * windows_in(
            release_ms,
            scale,
            rate,
        ) ==> power(long_timing.release.old_t.value(), n) == timing.release.old_t.value(),
{
    let (attack, release) = choose|attack: Single, release: Single| #[trigger]
        products::<A>(attack_ms, scale, attack) && #[trigger] products::<A>(
            release_ms,
            scale,
            release,
        ) && is_step::<A>(attack, rate, timing.attack) && is_step::<A>(
            release,
            rate,
            timing.release,
        );
    let (long_attack, long_release) = choose|attack: Single, release: Single| #[trigger]
        products::<A>(long_attack_ms, long_scale, attack) && #[trigger] products::<A>(
            long_release_ms,
            long_scale,
            release,
        ) && is_step::<A>(attack, long_rate, long_timing.attack) && is_step::<A>(
            release,
            long_rate,
            long_timing.release,
        );
    let k = n as int as real;
    let (a, b) = (
        windows_in(attack_ms, scale, rate),
        windows_in(long_attack_ms, long_scale, long_rate),
    );
    if b == k * a {
        lemma_share_of_multiple(k, a, b);
        lemma_step_keeps::<A>(exp, attack_ms, scale, rate, attack, timing.attack, n);
        lemma_step_keeps::<A>(
            exp,
            long_attack_ms,
            long_scale,
            long_rate,
            long_attack,
            long_timing.attack,
            n,
        );
    }
    let (c, d) = (
        windows_in(release_ms, scale, rate),
        windows_in(long_release_ms, long_scale, long_rate),
    );
    if d == k * c {
        lemma_share_of_multiple(k, c, d);
        lemma_step_keeps::<A>(exp, release_ms, scale, rate, release, timing.release, n);
        lemma_step_keeps::<A>(
            exp,
            long_release_ms,
            long_scale,
            long_rate,
            long_release,
            long_timing.release,
            n,
        );
    }
}

proof fn lemma_share_of_multiple(k: real, a: real, b: real)
    requires
        k > 0real,
        a != 0real,
        b == k * a,
    ensures
        b != 0real,
        k * (-1real / b) == -1real / a,
{
    lemma_sign_of_product(k, a);
    lemma_quotient_undone(-1real, a);
    lemma_quotient_undone(-1real, b);
    let (p, q) = (-1real / a, -1real / b);
    lemma_regroup(q, k, a);
    lemma_regroup(k, q, a);
    lemma_cancel(k * q, p, a);
}

/// Without a time nothing of the old value is kept.
pub proof fn law_no_time_keeps_nothing<A: Arithmetic>(
    attack_ms: Single,
    release_ms: Single,
    scale: Single,
    rate: Single,
    timing: FollowerTiming,
)
    requires
        is_exact::<A>(),
        attack_ms.is_finite() && release_ms.is_finite() && scale.is_finite(),
        is_timing::<A>(attack_ms, release_ms, scale, rate, timing),
    ensures
        attack_ms.value() * scale.value() == 0real ==> timing.attack.old_t.value() == 0real
            && timing.attack.new_t.value() == 1real && timing.attack.old_t.is_finite(),
        release_ms.value() * scale.value() == 0real ==> timing.release.old_t.value() == 0real
            && timing.release.new_t.value() == 1real && timing.release.old_t.is_finite(),
{
    lemma_constants();
    let (attack, release) = choose|attack: Single, release: Single| #[trigger]
        products::<A>(attack_ms, scale, attack) && #[trigger] products::<A>(
            release_ms,
            scale,
            release,
        ) && is_step::<A>(attack, rate, timing.attack) && is_step::<A>(
            release,
            rate,
            timing.release,
        );
    lemma_order_is_by_value(attack, single(ZERO));
    lemma_order_is_by_value(release, single(ZERO));
    assert(differences::<A>(single(ONE), timing.attack.old_t, timing.attack.new_t));
    assert(differences::<A>(single(ONE), timing.release.old_t, timing.release.new_t));
}

/// Windows are processed `overlap_times` times in the time of a window.
pub proof fn law_windows_overlap<A: Arithmetic>(
    sample_rate: Single,
    window_size: usize,
    overlap_times: usize,
    r: Single,
)
    requires
        is_exact::<A>(),
        sample_rate.is_finite(),
        window_size > 0,
        overlap_times > 0,
        is_effective_sample_rate::<A>(sample_rate, window_size, overlap_times, r),
    ensures
        r.is_finite(),
        r.value() * (window_size as int as real) == sample_rate.value() * (
        overlap_times as int as real),
{
    let (window, overlap, hop) = choose|window: Single, overlap: Single, hop: Single| #[trigger]
        counts::<A>(window_size, window) && #[trigger] counts::<A>(overlap_times, overlap)
            && #[trigger] quotients::<A>(window, overlap, hop) && quotients::<A>(
            sample_rate,
            hop,
            r,
        );
    let (w, o, h) = (window.value(), overlap.value(), hop.value());
    assert(h * o == w);
    lemma_sign_of_product(h, o);
    lemma_regroup(r.value(), h, o);
}

/// The timing scale moves so that it takes the time of the fade to get from zero to one, and stays at
/// one.
pub proof fn law_timings_fade_in<A: Arithmetic>(scale: Single, rate: Single, r: Single)
    requires
        is_exact::<A>(),
        scale.is_finite() && rate.is_finite(),
        rate.value() > 0real,
        is_faded_scale::<A>(scale, rate, r),
    ensures
        r.is_finite(),
        r.value() <= 1real,
        r.value() < 1real ==> (r.value() - scale.value()) * rate.value() * single(
            ENVELOPE_FOLLOWER_TIMING_FADE_SECONDS,
        ).value() == 1real,
        r.value() == 1real ==> (1real - scale.value()) * rate.value() * single(
            ENVELOPE_FOLLOWER_TIMING_FADE_SECONDS,
        ).value() <= 1real,
        149real <= single(ENVELOPE_FOLLOWER_TIMING_FADE_SECONDS).value() * 1000real <= 151real,
{
    lemma_constants();
    vstd::arithmetic::power2::lemma2_to64();
    assert(pow2(26) == 0x400_0000);
    assert(pow2(26) as int as real == 67108864real);
    lemma_value_of(ENVELOPE_FOLLOWER_TIMING_FADE_SECONDS, 0x99_999a, 26);
    let (windows, delta, moved) = choose|windows: Single, delta: Single, moved: Single| #[trigger]
        products::<A>(single(ENVELOPE_FOLLOWER_TIMING_FADE_SECONDS), rate, windows)
            && #[trigger] reciprocals::<A>(windows, delta) && #[trigger] sums::<A>(
            scale,
            delta,
            moved,
        ) && r == moved.smaller(single(ONE));
    let (f, k, w, d) = (
        single(ENVELOPE_FOLLOWER_TIMING_FADE_SECONDS).value(),
        rate.value(),
        windows.value(),
        delta.value(),
    );
    assert(w == f * k);
    lemma_sign_of_product(f, k);
    assert(d * w == 1real);
    lemma_selections(moved, single(ONE), single(ONE));
    let m = moved.value();
    assert(m == scale.value() + d);
    lemma_regroup(f, k, 0real);
    lemma_regroup(d, k, f);
    assert((m - scale.value()) * k * f == 1real);
    let s = scale.value();
    lemma_regroup(1real - s, k, f);
    lemma_regroup(m - 1real, 1real - s, k * f);
    lemma_regroup(m - s, k, f);
    lemma_sign_of_product(k, f);
    lemma_sign_of_product(m - 1real, k * f);
    assert((m - s) * (k * f) == (m - 1real) * (k * f) + (1real - s) * (k * f));
}

/// The shares of all channels add up to one, and those of the others grow with the amount of linking
/// from nothing to equal shares.
pub proof fn law_linked_shares_add_up<A: Arithmetic>(
    amount: Single,
    num_channels: usize,
    link: ChannelLink,
)
    requires
        is_exact::<A>(),
        amount.is_finite(),
        num_channels > 0,
        is_channel_link::<A>(amount, num_channels, link),
    ensures
        link.this_channel_t.is_finite() && link.other_channels_t.is_finite(),
        link.this_channel_t.value() + ((num_channels - 1) as real)
            * link.other_channels_t.value() == 1real,
        link.other_channels_t.value() * (num_channels as int as real) == amount.value(),
{
    lemma_constants();
    let (n, others, taken) = choose|n: Single, others: Single, taken: Single| #[trigger]
        counts::<A>(num_channels, n) && quotients::<A>(amount, n, link.other_channels_t)
            && #[trigger] differences::<A>(n, single(ONE), others) && #[trigger] products::<A>(
            link.other_channels_t,
            others,
            taken,
        ) && differences::<A>(single(ONE), taken, link.this_channel_t);
    assert(n.value() == num_channels as int as real);
    assert(others.value() == (num_channels - 1) as real);
    lemma_regroup(link.other_channels_t.value(), others.value(), 0real);
}

/// The sum of the magnitudes of the first `count` channels at a bin.
pub open spec fn total_at(spectra: Seq<Vec<Single>>, bin_idx: int, count: nat) -> real
    decreases count,
{
    if count == 0 {
        0real
    } else {
        total_at(spectra, bin_idx, (count - 1) as nat) + spectra[count - 1]@[bin_idx].value()
    }
}

/// The linked magnitude is the channel's own, moved towards the mean of all channels by the amount of
/// linking.
pub proof fn law_linking_moves_towards_the_mean<A: Arithmetic>(
    spectra: Seq<Vec<Single>>,
    channel_idx: usize,
    amount: Single,
    link: ChannelLink,
    bin_idx: int,
    r: Single,
)
    requires
        is_exact::<A>(),
        amount.is_finite(),
        channel_idx < spectra.len() <= usize::MAX,
        forall|c: int| 0 <= c < spectra.len() ==> (#[trigger] spectra[c])@[bin_idx].is_finite(),
        is_channel_link::<A>(amount, spectra.len() as usize, link),
        is_linked_sum::<A>(spectra, channel_idx, link, bin_idx, spectra.len(), r),
    ensures
        r.is_finite(),
        ({
            let own = spectra[channel_idx as int]@[bin_idx].value();
            let n = spectra.len() as int as real;
            n * (r.value() - own) == amount.value() * (total_at(spectra, bin_idx, spectra.len()) - n
                * own)
        }),
{
    law_linked_shares_add_up::<A>(amount, spectra.len() as usize, link);
    lemma_linked_sum::<A>(spectra, channel_idx, link, bin_idx, spectra.len(), r);
    let own = spectra[channel_idx as int]@[bin_idx].value();
    let total = total_at(spectra, bin_idx, spectra.len());
    let n = spectra.len() as int as real;
    let (t, o, a) = (link.this_channel_t.value(), link.other_channels_t.value(), amount.value());
    assert((spectra.len() as usize - 1) as real == n - 1real);
    let v = r.value();
    assert(v == o * total + (t - o) * own);
    // v - own == o * total + (t - o - 1) * own == o * total - (n * o) * own == o * (total - n * own)
    lemma_regroup(n, 1real, o);
    lemma_regroup(t, o, own);
    lemma_regroup(1real, n * o, own);
    lemma_regroup(o, total, n * own);
    lemma_regroup(o, n, own);
    assert(t - o == 1real - n * o);
    assert((t - o) * own == own - (n * o) * own);
    assert(v - own == o * (total - n * own));
    lemma_regroup(n, o, total - n * own);
}

proof fn lemma_linked_sum<A: Arithmetic>(
    spectra: Seq<Vec<Single>>,
    channel_idx: usize,
    link: ChannelLink,
    bin_idx: int,
    count: nat,
    r: Single,
)
    requires
        is_exact::<A>(),
        count <= spectra.len() <= usize::MAX,
        link.this_channel_t.is_finite() && link.other_channels_t.is_finite(),
        forall|c: int| 0 <= c < spectra.len() ==> (#[trigger] spectra[c])@[bin_idx].is_finite(),
        is_linked_sum::<A>(spectra, channel_idx, link, bin_idx, count, r),
    ensures
        r.is_finite(),
        r.value() == link.other_channels_t.value() * total_at(spectra, bin_idx, count) + if channel_idx
            < count {
            (link.this_channel_t.value() - link.other_channels_t.value())
                * spectra[channel_idx as int]@[bin_idx].value()
        } else {
            0real
        },
    decreases count,
{
    lemma_constants();
    let (t, o) = (link.this_channel_t.value(), link.other_channels_t.value());
    if count > 0 {
        let (before, term) = choose|before: Single, term: Single|
            #![trigger sums::<A>(before, term, r)]
            {
                &&& is_linked_sum::<A>(
                    spectra,
                    channel_idx,
                    link,
                    bin_idx,
                    (count - 1) as nat,
                    before,
                )
                &&& products::<A>(
                    spectra[count - 1]@[bin_idx],
                    link.share(channel_idx, (count - 1) as usize),
                    term,
                )
                &&& sums::<A>(before, term, r)
            };
        lemma_linked_sum::<A>(spectra, channel_idx, link, bin_idx, (count - 1) as nat, before);
        let m = spectra[count - 1]@[bin_idx].value();
        let earlier = total_at(spectra, bin_idx, (count - 1) as nat);
        lemma_regroup(o, earlier, m);
        lemma_regroup(t, o, m);
        lemma_regroup(m, t, 0real);
        lemma_regroup(m, o, 0real);
    } else {
        assert(o * 0real == 0real);
    }
}

} // verus!
