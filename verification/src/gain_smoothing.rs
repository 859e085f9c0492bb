//! Spectral smoothing of the gains: each gain is moved towards the mean of the gains within an
//! octave or less around it.

use vstd::arithmetic::power2::pow2;
use vstd::prelude::*;

use crate::arithmetic::{counts, differences, products, quotients, sums, Arithmetic};
use crate::exact::{
    is_exact, lemma_cancel, lemma_constants, lemma_order_is_by_value, lemma_regroup,
    lemma_selections, lemma_sign_of_product, lemma_value_of,
};
use crate::single::{single, Single, EPSILON, ONE, ZERO};

verus! {

/// The encoding of `ln(2)`, one octave.
pub const GAIN_SMOOTHING_MAX_RADIUS_LN: u32 = 0x3f31_7218;

/// `prefix` holds at each index the sum of the values before it.
pub open spec fn are_prefix_sums<A: Arithmetic>(
    values: Seq<Single>,
    num_bins: int,
    prefix: Seq<Single>,
) -> bool {
    &&& prefix[0] == single(ZERO)
    &&& forall|i: int|
        0 <= i < num_bins ==> #[trigger] sums::<A>(prefix[i], values[i], prefix[i + 1])
}

/// The bin at `other` is further below `center` than the radius.
pub open spec fn is_left_of<A: Arithmetic>(
    center: Single,
    other: Single,
    radius_ln: Single,
    outside: bool,
) -> bool {
    exists|distance: Single| #[trigger]
        differences::<A>(center, other, distance) && outside == radius_ln.below(distance)
}

/// The bin at `other` is not further above `center` than the radius.
pub open spec fn is_right_within<A: Arithmetic>(
    center: Single,
    other: Single,
    radius_ln: Single,
    within: bool,
) -> bool {
    exists|distance: Single| #[trigger]
        differences::<A>(other, center, distance) && within == distance.at_most(radius_ln)
}

/// `left` is where the window of `bin` starts, looking from `from` on: the first bin that is not too
/// far below, or `bin` itself.
pub open spec fn is_window_start<A: Arithmetic>(
    ln_freqs: Seq<Single>,
    radius_ln: Single,
    bin: int,
    from: int,
    left: int,
) -> bool {
    &&& from <= left <= bin
    &&& forall|i: int|
        from <= i < left ==> is_left_of::<A>(ln_freqs[bin], #[trigger] ln_freqs[i], radius_ln, true)
    &&& left < bin ==> is_left_of::<A>(ln_freqs[bin], ln_freqs[left], radius_ln, false)
}

/// `right` is where the window of `bin` ends, looking from `from` on: the last bin before one that
/// is too far above, or before the end.
pub open spec fn is_window_end<A: Arithmetic>(
    ln_freqs: Seq<Single>,
    num_bins: int,
    radius_ln: Single,
    bin: int,
    from: int,
    right: int,
) -> bool {
    &&& from <= right < num_bins
    &&& forall|i: int|
        from < i <= right ==> is_right_within::<A>(
            ln_freqs[bin],
            #[trigger] ln_freqs[i],
            radius_ln,
            true,
        )
    &&& right + 1 < num_bins ==> is_right_within::<A>(
        ln_freqs[bin],
        ln_freqs[right + 1],
        radius_ln,
        false,
    )
}

/// The bins over which the mean for one bin is taken, both included.
pub struct Window {
    pub left: int,
    pub right: int,
}

/// `windows` are those of the bins up to `count`. They move up along with the bins, so that the
/// search for each starts where the one before was found.
pub open spec fn are_windows<A: Arithmetic>(
    ln_freqs: Seq<Single>,
    num_bins: int,
    radius_ln: Single,
    count: int,
    windows: Seq<Window>,
) -> bool {
    &&& windows.len() == count
    &&& windows[0].left == 1
    &&& windows[0].right == 1
    &&& forall|bin: int|
        1 <= bin < count ==> is_window_of::<A>(
            ln_freqs,
            num_bins,
            radius_ln,
            bin,
            windows[bin - 1],
            #[trigger] windows[bin],
        )
}

/// `window` is the one of `bin`, where `previous` is the one of the bin before it.
pub open spec fn is_window_of<A: Arithmetic>(
    ln_freqs: Seq<Single>,
    num_bins: int,
    radius_ln: Single,
    bin: int,
    previous: Window,
    window: Window,
) -> bool {
    &&& is_window_start::<A>(ln_freqs, radius_ln, bin, previous.left, window.left)
    &&& is_window_end::<A>(
        ln_freqs,
        num_bins,
        radius_ln,
        bin,
        vstd::math::max(previous.right, bin),
        window.right,
    )
}

/// `r` is `raw + ((above - below) / count - raw) * amount`.
pub open spec fn is_pulled<A: Arithmetic>(
    raw: Single,
    above: Single,
    below: Single,
    count: usize,
    amount: Single,
    r: Single,
) -> bool {
    exists|sum: Single, size: Single, mean: Single, gap: Single, step: Single| #[trigger]
        differences::<A>(above, below, sum) && #[trigger] counts::<A>(count, size)
            && #[trigger] quotients::<A>(sum, size, mean) && #[trigger] differences::<A>(
            mean,
            raw,
            gap,
        ) && #[trigger] products::<A>(gap, amount, step) && sums::<A>(raw, step, r)
}

fn pulled<A: Arithmetic>(
    raw: Single,
    above: Single,
    below: Single,
    count: usize,
    amount: Single,
) -> (r: Single)
    ensures
        is_pulled::<A>(raw, above, below, count, amount, r),
{
    let sum = A::difference(above, below);
    let size = A::from_count(count);
    let mean = A::quotient(sum, size);
    let gap = A::difference(mean, raw);
    let step = A::product(gap, amount);
    A::sum(raw, step)
}

/// The gain that a bin gets: smoothing never adds gain to the lowest bins.
#[verifier::allow_in_spec]
pub fn without_low_boost(smoothed: Single, bin_idx: usize, first_non_dc_bin: usize) -> Single
    returns
        (if bin_idx < first_non_dc_bin && single(ZERO).below(smoothed) {
            single(ZERO)
        } else {
            smoothed
        }),
{
    if bin_idx < first_non_dc_bin && single(ZERO).below(smoothed) {
        single(ZERO)
    } else {
        smoothed
    }
}

/// `r` is the smoothed gain of a bin with the given window.
pub open spec fn is_smoothed_bin<A: Arithmetic>(
    raw: Seq<Single>,
    prefix: Seq<Single>,
    window: Window,
    amount: Single,
    first_non_dc_bin: usize,
    bin: int,
    r: Single,
) -> bool {
    exists|smoothed: Single| #[trigger]
        is_pulled::<A>(
            raw[bin],
            prefix[window.right + 1],
            prefix[window.left],
            (window.right - window.left + 1) as usize,
            amount,
            smoothed,
        ) && r == without_low_boost(smoothed, bin as usize, first_non_dc_bin)
}

/// Whether smoothing leaves the gains as they are.
#[verifier::allow_in_spec]
pub fn is_smoothing_off(amount: Single, num_bins: usize) -> bool
    returns
        amount.at_most(single(EPSILON)) || num_bins <= 2,
{
    amount.at_most(single(EPSILON)) || num_bins <= 2
}

/// The radius of the windows for an amount of smoothing.
pub open spec fn is_radius<A: Arithmetic>(amount: Single, radius_ln: Single) -> bool {
    products::<A>(amount, single(GAIN_SMOOTHING_MAX_RADIUS_LN), radius_ln)
}

/// `smoothed` are the gains `raw` with the given amount of smoothing, which lies between 0 and 1,
/// and `prefix` are their sums. The first bin, which is DC, is not smoothed.
pub open spec fn are_smoothed<A: Arithmetic>(
    ln_freqs: Seq<Single>,
    raw: Seq<Single>,
    prefix: Seq<Single>,
    amount: Single,
    first_non_dc_bin: usize,
    num_bins: int,
    smoothed: Seq<Single>,
) -> bool {
    &&& are_prefix_sums::<A>(raw, num_bins, prefix)
    &&& smoothed[0] == raw[0]
    &&& exists|radius_ln: Single, windows: Seq<Window>|
        {
            &&& #[trigger] is_radius::<A>(amount, radius_ln)
            &&& #[trigger] are_windows::<A>(ln_freqs, num_bins, radius_ln, num_bins, windows)
            &&& forall|bin: int|
                1 <= bin < num_bins ==> is_smoothed_bin::<A>(
                    raw,
                    prefix,
                    windows[bin],
                    amount,
                    first_non_dc_bin,
                    bin,
                    #[trigger] smoothed[bin],
                )
        }
}

/// What smoothing does to the two lists that it writes. Only the first bins are written.
pub open spec fn is_smoothing<A: Arithmetic>(
    ln_freqs: Seq<Single>,
    raw: Seq<Single>,
    smoothing_amount: Single,
    first_non_dc_bin: usize,
    num_bins: usize,
    old_prefix: Seq<Single>,
    prefix: Seq<Single>,
    old_smoothed: Seq<Single>,
    smoothed: Seq<Single>,
) -> bool {
    let amount = smoothing_amount.clamped(single(ZERO), single(ONE));
    &&& prefix.len() == old_prefix.len()
    &&& smoothed.len() == old_smoothed.len()
    &&& forall|i: int| num_bins <= i < smoothed.len() ==> #[trigger] smoothed[i] == old_smoothed[i]
    &&& if is_smoothing_off(amount, num_bins) {
        &&& prefix == old_prefix
        &&& forall|i: int| 0 <= i < num_bins ==> #[trigger] smoothed[i] == raw[i]
    } else {
        are_smoothed::<A>(
            ln_freqs,
            raw,
            prefix,
            amount,
            first_non_dc_bin,
            num_bins as int,
            smoothed,
        )
    }
}

fn find_window_start<A: Arithmetic>(
    ln_freqs: &Vec<Single>,
    radius_ln: Single,
    bin: usize,
    from: usize,
) -> (left: usize)
    requires
        from <= bin < ln_freqs@.len(),
    ensures
        is_window_start::<A>(ln_freqs@, radius_ln, bin as int, from as int, left as int),
{
    let mut left: usize = from;
    while left < bin
        invariant
            from <= left <= bin < ln_freqs@.len(),
            forall|i: int|
                from <= i < left ==> is_left_of::<A>(
                    ln_freqs@[bin as int],
                    #[trigger] ln_freqs@[i],
                    radius_ln,
                    true,
                ),
        decreases bin - left,
    {
        let distance = A::difference(ln_freqs[bin], ln_freqs[left]);
        let outside = radius_ln.below(distance);
        assert(is_left_of::<A>(
            ln_freqs@[bin as int],
            ln_freqs@[left as int],
            radius_ln,
            outside,
        ));
        if !outside {
            return left;
        }
        left += 1;
    }
    left
}

fn find_window_end<A: Arithmetic>(
    ln_freqs: &Vec<Single>,
    num_bins: usize,
    radius_ln: Single,
    bin: usize,
    from: usize,
) -> (right: usize)
    requires
        bin < num_bins,
        from < num_bins <= ln_freqs@.len(),
    ensures
        is_window_end::<A>(
            ln_freqs@,
            num_bins as int,
            radius_ln,
            bin as int,
            from as int,
            right as int,
        ),
{
    let mut right: usize = from;
    while right + 1 < num_bins
        invariant
            bin < num_bins,
            from <= right < num_bins <= ln_freqs@.len(),
            forall|i: int|
                from < i <= right ==> is_right_within::<A>(
                    ln_freqs@[bin as int],
                    #[trigger] ln_freqs@[i],
                    radius_ln,
                    true,
                ),
        decreases num_bins - right,
    {
        let distance = A::difference(ln_freqs[right + 1], ln_freqs[bin]);
        let within = distance.at_most(radius_ln);
        assert(is_right_within::<A>(
            ln_freqs@[bin as int],
            ln_freqs@[right + 1],
            radius_ln,
            within,
        ));
        if !within {
            return right;
        }
        right += 1;
    }
    right
}

fn fill_prefix_sums<A: Arithmetic>(raw: &Vec<Single>, num_bins: usize, prefix: &mut Vec<Single>)
    requires
        num_bins <= raw@.len(),
        num_bins < old(prefix)@.len(),
    ensures
        final(prefix)@.len() == old(prefix)@.len(),
        are_prefix_sums::<A>(raw@, num_bins as int, final(prefix)@),
{
    prefix[0] = single(ZERO);
    let mut index: usize = 0;
    while index < num_bins
        invariant
            index <= num_bins <= raw@.len(),
            num_bins < prefix@.len(),
            prefix@.len() == old(prefix)@.len(),
            prefix@[0] == single(ZERO),
            forall|i: int|
                0 <= i < index ==> #[trigger] sums::<A>(prefix@[i], raw@[i], prefix@[i + 1]),
        decreases num_bins - index,
    {
        let ghost before = prefix@;
        let sum = A::sum(prefix[index], raw[index]);
        assert(sums::<A>(prefix@[index as int], raw@[index as int], sum));
        prefix[index + 1] = sum;
        assert forall|i: int| 0 <= i < index + 1 implies #[trigger] sums::<A>(
            prefix@[i],
            raw@[i],
            prefix@[i + 1],
        ) by {
            assert(prefix@[i] == before[i]);
            if i < index {
                assert(sums::<A>(before[i], raw@[i], before[i + 1]));
            }
        }
        index += 1;
    }
}

fn fill_smoothed<A: Arithmetic>(
    ln_freqs: &Vec<Single>,
    raw: &Vec<Single>,
    prefix: &Vec<Single>,
    amount: Single,
    first_non_dc_bin: usize,
    num_bins: usize,
    smoothed: &mut Vec<Single>,
)
    requires
        2 < num_bins,
        num_bins <= ln_freqs@.len(),
        num_bins <= raw@.len(),
        num_bins < prefix@.len(),
        num_bins <= old(smoothed)@.len(),
        are_prefix_sums::<A>(raw@, num_bins as int, prefix@),
    ensures
        final(smoothed)@.len() == old(smoothed)@.len(),
        forall|i: int|
            num_bins <= i < final(smoothed)@.len() ==> #[trigger] final(smoothed)@[i] == old(
                smoothed,
            )@[i],
        are_smoothed::<A>(
            ln_freqs@,
            raw@,
            prefix@,
            amount,
            first_non_dc_bin,
            num_bins as int,
            final(smoothed)@,
        ),
{
    smoothed[0] = raw[0];
    let radius_ln = A::product(amount, single(GAIN_SMOOTHING_MAX_RADIUS_LN));
    assert(is_radius::<A>(amount, radius_ln));
    let mut left: usize = 1;
    let mut right: usize = 1;
    let ghost mut windows: Seq<Window> = seq![Window { left: 1, right: 1 }];
    let mut bin: usize = 1;
    while bin < num_bins
        invariant
            2 < num_bins,
            num_bins <= ln_freqs@.len(),
            num_bins <= raw@.len(),
            num_bins < prefix@.len(),
            num_bins <= smoothed@.len(),
            smoothed@.len() == old(smoothed)@.len(),
            1 <= bin <= num_bins,
            1 <= left <= bin,
            left <= right < num_bins,
            smoothed@[0] == raw@[0],
            forall|i: int|
                num_bins <= i < smoothed@.len() ==> #[trigger] smoothed@[i] == old(smoothed)@[i],
            are_windows::<A>(ln_freqs@, num_bins as int, radius_ln, bin as int, windows),
            windows[bin - 1].left == left,
            windows[bin - 1].right == right,
            forall|i: int|
                1 <= i < bin ==> is_smoothed_bin::<A>(
                    raw@,
                    prefix@,
                    windows[i],
                    amount,
                    first_non_dc_bin,
                    i,
                    #[trigger] smoothed@[i],
                ),
        decreases num_bins - bin,
    {
        let ghost earlier = windows;
        let ghost before = smoothed@;
        left = find_window_start::<A>(ln_freqs, radius_ln, bin, left);
        let from: usize = if right < bin {
            bin
        } else {
            right
        };
        right = find_window_end::<A>(ln_freqs, num_bins, radius_ln, bin, from);
        let ghost window = Window { left: left as int, right: right as int };
        proof {
            windows = windows.push(window);
            assert forall|b: int| 1 <= b < bin + 1 implies is_window_of::<A>(
                ln_freqs@,
                num_bins as int,
                radius_ln,
                b,
                windows[b - 1],
                #[trigger] windows[b],
            ) by {
                assert(windows[b - 1] == earlier[b - 1]);
                if b < bin {
                    assert(windows[b] == earlier[b]);
                }
            }
        }
        let pull = pulled::<A>(
            raw[bin],
            prefix[right + 1],
            prefix[left],
            right - left + 1,
            amount,
        );
        assert(is_pulled::<A>(
            raw@[bin as int],
            prefix@[window.right + 1],
            prefix@[window.left],
            (window.right - window.left + 1) as usize,
            amount,
            pull,
        ));
        let value = without_low_boost(pull, bin, first_non_dc_bin);
        assert(is_smoothed_bin::<A>(
            raw@,
            prefix@,
            window,
            amount,
            first_non_dc_bin,
            bin as int,
            value,
        ));
        smoothed[bin] = value;
        assert forall|i: int| 1 <= i < bin + 1 implies is_smoothed_bin::<A>(
            raw@,
            prefix@,
            windows[i],
            amount,
            first_non_dc_bin,
            i,
            #[trigger] smoothed@[i],
        ) by {
            if i < bin {
                assert(smoothed@[i] == before[i]);
                assert(windows[i] == earlier[i]);
            }
        }
        bin += 1;
    }
}

/// Smooths the first `num_bins` gains.
pub fn smooth_gains<A: Arithmetic>(
    ln_freqs: &Vec<Single>,
    raw: &Vec<Single>,
    prefix: &mut Vec<Single>,
    smoothed: &mut Vec<Single>,
    smoothing_amount: Single,
    first_non_dc_bin: usize,
    num_bins: usize,
)
    requires
        num_bins <= ln_freqs@.len(),
        num_bins <= raw@.len(),
        num_bins < old(prefix)@.len(),
        num_bins <= old(smoothed)@.len(),
    ensures
        is_smoothing::<A>(
            ln_freqs@,
            raw@,
            smoothing_amount,
            first_non_dc_bin,
            num_bins,
            old(prefix)@,
            final(prefix)@,
            old(smoothed)@,
            final(smoothed)@,
        ),
{
    let amount = smoothing_amount.clamped(single(ZERO), single(ONE));
    if is_smoothing_off(amount, num_bins) {
        let mut index: usize = 0;
        while index < num_bins
            invariant
                index <= num_bins <= raw@.len(),
                num_bins <= smoothed@.len(),
                smoothed@.len() == old(smoothed)@.len(),
                forall|i: int| 0 <= i < index ==> #[trigger] smoothed@[i] == raw@[i],
                forall|i: int|
                    num_bins <= i < smoothed@.len() ==> #[trigger] smoothed@[i] == old(
                        smoothed,
                    )@[i],
            decreases num_bins - index,
        {
            smoothed[index] = raw[index];
            index += 1;
        }
        return ;
    }
    fill_prefix_sums::<A>(raw, num_bins, prefix);
    fill_smoothed::<A>(ln_freqs, raw, prefix, amount, first_non_dc_bin, num_bins, smoothed);
}

/// Without smoothing the gains are unchanged.
pub proof fn law_zero_smoothing_is_unchanged<A: Arithmetic>(
    ln_freqs: Seq<Single>,
    raw: Seq<Single>,
    first_non_dc_bin: usize,
    num_bins: usize,
    old_prefix: Seq<Single>,
    prefix: Seq<Single>,
    old_smoothed: Seq<Single>,
    smoothed: Seq<Single>,
)
    requires
        is_smoothing::<A>(
            ln_freqs,
            raw,
            single(ZERO),
            first_non_dc_bin,
            num_bins,
            old_prefix,
            prefix,
            old_smoothed,
            smoothed,
        ),
        num_bins <= raw.len(),
        num_bins <= smoothed.len(),
    ensures
        smoothed.take(num_bins as int) == raw.take(num_bins as int),
{
    assert(smoothed.take(num_bins as int) =~= raw.take(num_bins as int));
}

/// Smoothing gives no bin below the first one that is kept a positive gain, but for the DC bin,
/// which keeps the gain that it has.
pub proof fn law_smoothing_does_not_boost_low_bins<A: Arithmetic>(
    ln_freqs: Seq<Single>,
    raw: Seq<Single>,
    amount: Single,
    first_non_dc_bin: usize,
    num_bins: usize,
    old_prefix: Seq<Single>,
    prefix: Seq<Single>,
    old_smoothed: Seq<Single>,
    smoothed: Seq<Single>,
    bin: int,
)
    requires
        is_smoothing::<A>(
            ln_freqs,
            raw,
            amount,
            first_non_dc_bin,
            num_bins,
            old_prefix,
            prefix,
            old_smoothed,
            smoothed,
        ),
        !is_smoothing_off(amount.clamped(single(ZERO), single(ONE)), num_bins),
        1 <= bin < num_bins,
        bin < first_non_dc_bin,
    ensures
        !single(ZERO).below(smoothed[bin]),
        smoothed[0] == raw[0],
{
}

/// The window over which the mean for a bin is taken contains the bin.
pub proof fn law_windows_contain_their_bins<A: Arithmetic>(
    ln_freqs: Seq<Single>,
    num_bins: int,
    radius_ln: Single,
    windows: Seq<Window>,
    bin: int,
)
    requires
        are_windows::<A>(ln_freqs, num_bins, radius_ln, num_bins, windows),
        1 <= bin < num_bins,
    ensures
        1 <= windows[bin].left <= bin <= windows[bin].right < num_bins,
    decreases bin,
{
    assert(is_window_of::<A>(
        ln_freqs,
        num_bins,
        radius_ln,
        bin,
        windows[bin - 1],
        windows[bin],
    ));
    if bin > 1 {
        law_windows_contain_their_bins::<A>(ln_freqs, num_bins, radius_ln, windows, bin - 1);
    }
}

/// The sum of the values from one position up to another, which is left out.
pub open spec fn total_between(values: Seq<Single>, from: int, to: int) -> real
    decreases to - from,
{
    if to <= from {
        0real
    } else {
        total_between(values, from, to - 1) + values[to - 1].value()
    }
}

/// The prefix sums of numbers are numbers.
proof fn lemma_prefix_sums_are_finite<A: Arithmetic>(
    values: Seq<Single>,
    num_bins: int,
    prefix: Seq<Single>,
    index: int,
)
    requires
        is_exact::<A>(),
        are_prefix_sums::<A>(values, num_bins, prefix),
        forall|i: int| 0 <= i < num_bins ==> (#[trigger] values[i]).is_finite(),
        0 <= index <= num_bins,
    ensures
        prefix[index].is_finite(),
    decreases index,
{
    lemma_constants();
    if index > 0 {
        lemma_prefix_sums_are_finite::<A>(values, num_bins, prefix, index - 1);
        assert(sums::<A>(prefix[index - 1], values[index - 1], prefix[(index - 1) + 1]));
    }
}

/// The difference of two prefix sums is the sum of the values between them.
proof fn lemma_prefix_sums_are_totals<A: Arithmetic>(
    values: Seq<Single>,
    num_bins: int,
    prefix: Seq<Single>,
    from: int,
    to: int,
)
    requires
        is_exact::<A>(),
        are_prefix_sums::<A>(values, num_bins, prefix),
        forall|i: int| 0 <= i < num_bins ==> (#[trigger] values[i]).is_finite(),
        0 <= from <= to <= num_bins,
    ensures
        prefix[from].is_finite(),
        prefix[to].is_finite(),
        prefix[to].value() - prefix[from].value() == total_between(values, from, to),
    decreases to - from,
{
    lemma_prefix_sums_are_finite::<A>(values, num_bins, prefix, from);
    lemma_prefix_sums_are_finite::<A>(values, num_bins, prefix, to);
    if from < to {
        lemma_prefix_sums_are_totals::<A>(values, num_bins, prefix, from, to - 1);
        assert(sums::<A>(prefix[to - 1], values[to - 1], prefix[(to - 1) + 1]));
    }
}

/// What the search for a window compares.
proof fn lemma_distances<A: Arithmetic>(center: Single, other: Single, radius_ln: Single)
    requires
        is_exact::<A>(),
        center.is_finite(),
        other.is_finite(),
        radius_ln.is_finite(),
    ensures
        forall|outside: bool| #[trigger]
            is_left_of::<A>(center, other, radius_ln, outside) ==> outside == (center.value()
                - other.value() > radius_ln.value()),
        forall|within: bool| #[trigger]
            is_right_within::<A>(center, other, radius_ln, within) ==> within == (other.value()
                - center.value() <= radius_ln.value()),
{
    assert forall|outside: bool| #[trigger]
        is_left_of::<A>(center, other, radius_ln, outside) implies outside == (center.value()
        - other.value() > radius_ln.value()) by {
        let distance = choose|distance: Single| #[trigger]
            differences::<A>(center, other, distance) && outside == radius_ln.below(distance);
        lemma_order_is_by_value(radius_ln, distance);
    }
    assert forall|within: bool| #[trigger]
        is_right_within::<A>(center, other, radius_ln, within) implies within == (other.value()
        - center.value() <= radius_ln.value()) by {
        let distance = choose|distance: Single| #[trigger]
            differences::<A>(other, center, distance) && within == distance.at_most(radius_ln);
        lemma_order_is_by_value(distance, radius_ln);
        lemma_order_is_by_value(radius_ln, distance);
    }
}

/// The window of a bin holds exactly the bins whose frequency is within the radius, where the
/// frequencies grow from bin to bin.
pub proof fn law_windows_hold_the_bins_within_the_radius<A: Arithmetic>(
    ln_freqs: Seq<Single>,
    num_bins: int,
    radius_ln: Single,
    windows: Seq<Window>,
    bin: int,
    other: int,
)
    requires
        is_exact::<A>(),
        are_windows::<A>(ln_freqs, num_bins, radius_ln, num_bins, windows),
        radius_ln.is_finite(),
        radius_ln.value() >= 0real,
        forall|i: int| 1 <= i < num_bins ==> (#[trigger] ln_freqs[i]).is_finite(),
        forall|i: int, j: int|
            1 <= i <= j < num_bins ==> (#[trigger] ln_freqs[i]).value() <= (
            #[trigger] ln_freqs[j]).value(),
        1 <= bin < num_bins,
        1 <= other < num_bins,
    ensures
        (windows[bin].left <= other <= windows[bin].right) == (ln_freqs[other].value()
            - ln_freqs[bin].value() <= radius_ln.value() && ln_freqs[bin].value()
            - ln_freqs[other].value() <= radius_ln.value()),
    decreases bin,
{
    law_windows_contain_their_bins::<A>(ln_freqs, num_bins, radius_ln, windows, bin);
    assert(is_window_of::<A>(
        ln_freqs,
        num_bins,
        radius_ln,
        bin,
        windows[bin - 1],
        windows[bin],
    ));
    if bin > 1 {
        law_windows_contain_their_bins::<A>(ln_freqs, num_bins, radius_ln, windows, bin - 1);
        law_windows_hold_the_bins_within_the_radius::<A>(
            ln_freqs,
            num_bins,
            radius_ln,
            windows,
            bin - 1,
            other,
        );
    }
    let window = windows[bin];
    let previous = windows[bin - 1];
    lemma_distances::<A>(ln_freqs[bin], ln_freqs[other], radius_ln);
    assert(ln_freqs[bin - 1].value() <= ln_freqs[bin].value() || bin == 1);
    if other <= bin {
        assert(ln_freqs[other].value() <= ln_freqs[bin].value());
        if other < previous.left {
            assert(ln_freqs[bin - 1].value() - ln_freqs[other].value() > radius_ln.value());
        } else if other < window.left {
            assert(is_left_of::<A>(ln_freqs[bin], ln_freqs[other], radius_ln, true));
        } else if window.left < bin {
            lemma_distances::<A>(ln_freqs[bin], ln_freqs[window.left], radius_ln);
            assert(is_left_of::<A>(ln_freqs[bin], ln_freqs[window.left], radius_ln, false));
            assert(ln_freqs[window.left].value() <= ln_freqs[other].value());
        }
    } else {
        assert(ln_freqs[bin].value() <= ln_freqs[other].value());
        if other <= vstd::math::max(previous.right, bin) {
            assert(bin > 1);
            assert(ln_freqs[other].value() - ln_freqs[bin - 1].value() <= radius_ln.value());
        } else if other <= window.right {
            assert(is_right_within::<A>(ln_freqs[bin], ln_freqs[other], radius_ln, true));
        } else {
            lemma_distances::<A>(ln_freqs[bin], ln_freqs[window.right + 1], radius_ln);
            assert(is_right_within::<A>(
                ln_freqs[bin],
                ln_freqs[window.right + 1],
                radius_ln,
                false,
            ));
            assert(ln_freqs[window.right + 1].value() <= ln_freqs[other].value());
        }
    }
}

/// The radius of full smoothing is one octave: `ln(2)`, to 24 binary digits.
proof fn lemma_octave()
    ensures
        single(GAIN_SMOOTHING_MAX_RADIUS_LN).is_finite(),
        single(GAIN_SMOOTHING_MAX_RADIUS_LN).value() * 16777216real == 11629080real,
{
    vstd::arithmetic::power2::lemma2_to64();
    assert(pow2(24) == 0x100_0000);
    assert(pow2(24) as int as real == 16777216real);
    lemma_value_of(GAIN_SMOOTHING_MAX_RADIUS_LN, 0xb1_7218, 24);
}

/// Smoothing moves the gain of a bin the share `amount` of the way to the mean of the gains around
/// it: of those whose frequency is at most `amount` octaves away. Below the first bin that is kept
/// a gain that would be positive is 0 instead.
pub proof fn law_smoothing_moves_gains_towards_their_mean<A: Arithmetic>(
    ln_freqs: Seq<Single>,
    raw: Seq<Single>,
    amount: Single,
    first_non_dc_bin: usize,
    num_bins: usize,
    old_prefix: Seq<Single>,
    prefix: Seq<Single>,
    old_smoothed: Seq<Single>,
    smoothed: Seq<Single>,
    bin: int,
    octave: real,
    left: int,
    right: int,
    mean: real,
)
    requires
        is_exact::<A>(),
        is_smoothing::<A>(
            ln_freqs,
            raw,
            amount,
            first_non_dc_bin,
            num_bins,
            old_prefix,
            prefix,
            old_smoothed,
            smoothed,
        ),
        2 < num_bins,
        amount.is_finite(),
        single(EPSILON).below(amount),
        0real <= amount.value() <= 1real,
        forall|i: int| 0 <= i < num_bins ==> (#[trigger] raw[i]).is_finite(),
        forall|i: int| 1 <= i < num_bins ==> (#[trigger] ln_freqs[i]).is_finite(),
        forall|i: int, j: int|
            1 <= i <= j < num_bins ==> (#[trigger] ln_freqs[i]).value() <= (
            #[trigger] ln_freqs[j]).value(),
        1 <= bin < num_bins,
        octave * 16777216real == 11629080real,
        1 <= left <= bin <= right < num_bins,
        forall|i: int|
            1 <= i < num_bins ==> (left <= i <= right) == ((#[trigger] ln_freqs[i]).value()
                - ln_freqs[bin].value() <= amount.value() * octave && ln_freqs[bin].value()
                - ln_freqs[i].value() <= amount.value() * octave),
        mean * ((right - left + 1) as real) == total_between(raw, left, right + 1),
    ensures
        smoothed[bin].is_finite(),
        bin >= first_non_dc_bin ==> smoothed[bin].value() - raw[bin].value() == amount.value() * (
        mean - raw[bin].value()),
        bin < first_non_dc_bin ==> smoothed[bin].value() == (if raw[bin].value() + amount.value()
            * (mean - raw[bin].value()) > 0real {
            0real
        } else {
            raw[bin].value() + amount.value() * (mean - raw[bin].value())
        }),
{
    lemma_constants();
    lemma_octave();
    lemma_selections(amount, single(ZERO), single(ONE));
    let clamped = amount.clamped(single(ZERO), single(ONE));
    assert(clamped == amount) by {
        lemma_order_is_by_value(amount, single(ZERO));
        lemma_order_is_by_value(single(ONE), amount);
    }
    assert(!is_smoothing_off(clamped, num_bins));
    let (radius_ln, windows) = choose|radius_ln: Single, windows: Seq<Window>|
        {
            &&& #[trigger] is_radius::<A>(amount, radius_ln)
            &&& #[trigger] are_windows::<A>(
                ln_freqs,
                num_bins as int,
                radius_ln,
                num_bins as int,
                windows,
            )
            &&& forall|bin: int|
                1 <= bin < num_bins ==> is_smoothed_bin::<A>(
                    raw,
                    prefix,
                    windows[bin],
                    amount,
                    first_non_dc_bin,
                    bin,
                    #[trigger] smoothed[bin],
                )
        };
    let full = single(GAIN_SMOOTHING_MAX_RADIUS_LN).value();
    lemma_cancel(full, octave, 16777216real);
    assert(products::<A>(amount, single(GAIN_SMOOTHING_MAX_RADIUS_LN), radius_ln));
    assert(radius_ln.value() == amount.value() * octave);
    lemma_sign_of_product(amount.value(), octave);
    let window = windows[bin];
    law_windows_contain_their_bins::<A>(ln_freqs, num_bins as int, radius_ln, windows, bin);
    law_windows_hold_the_bins_within_the_radius::<A>(
        ln_freqs,
        num_bins as int,
        radius_ln,
        windows,
        bin,
        left,
    );
    law_windows_hold_the_bins_within_the_radius::<A>(
        ln_freqs,
        num_bins as int,
        radius_ln,
        windows,
        bin,
        right,
    );
    assert(ln_freqs[left].value() - ln_freqs[bin].value() <= radius_ln.value());
    assert(ln_freqs[right].value() - ln_freqs[bin].value() <= radius_ln.value());
    law_windows_hold_the_bins_within_the_radius::<A>(
        ln_freqs,
        num_bins as int,
        radius_ln,
        windows,
        bin,
        window.left,
    );
    law_windows_hold_the_bins_within_the_radius::<A>(
        ln_freqs,
        num_bins as int,
        radius_ln,
        windows,
        bin,
        window.right,
    );
    assert(ln_freqs[window.left].value() - ln_freqs[bin].value() <= radius_ln.value());
    assert(ln_freqs[window.right].value() - ln_freqs[bin].value() <= radius_ln.value());
    assert(window.left == left && window.right == right);
    assert(is_smoothed_bin::<A>(
        raw,
        prefix,
        window,
        amount,
        first_non_dc_bin,
        bin,
        smoothed[bin],
    ));
    let pulled = choose|pulled: Single| #[trigger]
        is_pulled::<A>(
            raw[bin],
            prefix[window.right + 1],
            prefix[window.left],
            (window.right - window.left + 1) as usize,
            amount,
            pulled,
        ) && smoothed[bin] == without_low_boost(pulled, bin as usize, first_non_dc_bin);
    lemma_prefix_sums_are_totals::<A>(raw, num_bins as int, prefix, left, right + 1);
    lemma_pull::<A>(
        raw[bin],
        prefix[right + 1],
        prefix[left],
        (right - left + 1) as usize,
        amount,
        pulled,
        mean,
    );
    lemma_order_is_by_value(single(ZERO), pulled);
}

/// A gain is moved a share of the way to the mean.
proof fn lemma_pull<A: Arithmetic>(
    raw: Single,
    above: Single,
    below: Single,
    count: usize,
    amount: Single,
    pulled: Single,
    mean: real,
)
    requires
        is_exact::<A>(),
        raw.is_finite() && above.is_finite() && below.is_finite() && amount.is_finite(),
        count > 0,
        is_pulled::<A>(raw, above, below, count, amount, pulled),
        mean * (count as int as real) == above.value() - below.value(),
    ensures
        pulled.is_finite(),
        pulled.value() - raw.value() == amount.value() * (mean - raw.value()),
{
    let (sum, size, quotient, gap, step) = choose|
        sum: Single,
        size: Single,
        mean: Single,
        gap: Single,
        step: Single,
    | #[trigger]
        differences::<A>(above, below, sum) && #[trigger] counts::<A>(count, size)
            && #[trigger] quotients::<A>(sum, size, mean) && #[trigger] differences::<A>(
            mean,
            raw,
            gap,
        ) && #[trigger] products::<A>(gap, amount, step) && sums::<A>(raw, step, pulled);
    lemma_cancel(quotient.value(), mean, count as int as real);
    lemma_regroup(gap.value(), amount.value(), 0real);
}

} // verus!
