//! Curve fitting without constraints: the center is the mean of the measured frequencies, and the
//! slope is fitted along with the intercept and the curve.

use vstd::prelude::*;

use crate::arithmetic::{
    counts, differences, exponentials, narrowings, natural_logs, quotients, sums, wide_differences,
    wide_products, wide_quotients, wide_sums, widenings, Arithmetic,
};
use crate::curve::{
    lemma_range_of_points, THRESHOLD_CURVE_MAX_FREQUENCY_HZ, THRESHOLD_CURVE_MIN_FREQUENCY_HZ,
};
use crate::exact::{
    exponentials_follow, is_exact, is_wide_exact, lemma_cancel, lemma_constants, lemma_regroup,
    lemma_selections, lemma_sign_of_product, lemma_three_factors, lemma_wide_constants,
    lemma_wide_order_is_by_value, logs_follow,
};
use crate::match_curve::{
    are_fit_samples, are_points_for, collect_fit_samples, fit_residual_points, miss,
    total_miss, total_weighted_miss, BaseCurve, FitSample, MatchCurveFit, WIDE_EPSILON, WIDE_ONE,
};
use crate::match_level::WIDE_ZERO;
use crate::single::{double, single, Double, Single, ZERO};

verus! {

/// The rows of three linear equations, each with its right hand side in the last column.
pub type Equations = [[Double; 4]; 3];

/// The sums of the powers of the distances from the center, alone and times the targets.
#[derive(Clone, Copy, PartialEq, Eq, Debug, Structural)]
pub struct Moments {
    pub sx0: Double,
    pub sx1: Double,
    pub sx2: Double,
    pub sx3: Double,
    pub sx4: Double,
    pub sy0: Double,
    pub sy1: Double,
    pub sy2: Double,
}

/// Moments over no samples.
#[verifier::allow_in_spec]
pub fn no_moments() -> Moments
    returns
        (Moments {
            sx0: double(WIDE_ZERO),
            sx1: double(WIDE_ZERO),
            sx2: double(WIDE_ZERO),
            sx3: double(WIDE_ZERO),
            sx4: double(WIDE_ZERO),
            sy0: double(WIDE_ZERO),
            sy1: double(WIDE_ZERO),
            sy2: double(WIDE_ZERO),
        }),
{
    Moments {
        sx0: double(WIDE_ZERO),
        sx1: double(WIDE_ZERO),
        sx2: double(WIDE_ZERO),
        sx3: double(WIDE_ZERO),
        sx4: double(WIDE_ZERO),
        sy0: double(WIDE_ZERO),
        sy1: double(WIDE_ZERO),
        sy2: double(WIDE_ZERO),
    }
}

/// `after` is `before + a * b`.
pub open spec fn is_product_added<A: Arithmetic>(
    before: Double,
    a: Double,
    b: Double,
    after: Double,
) -> bool {
    exists|product: Double| #[trigger]
        wide_products::<A>(a, b, product) && wide_sums::<A>(before, product, after)
}

fn product_added<A: Arithmetic>(before: Double, a: Double, b: Double) -> (after: Double)
    ensures
        is_product_added::<A>(before, a, b, after),
{
    let product = A::wide_product(a, b);
    A::wide_sum(before, product)
}

/// `after` is `before` with the powers of `x` and their products with `y` added.
pub open spec fn is_moment_added<A: Arithmetic>(
    before: Moments,
    x: Double,
    x2: Double,
    y: Double,
    after: Moments,
) -> bool {
    &&& wide_sums::<A>(before.sx0, double(WIDE_ONE), after.sx0)
    &&& wide_sums::<A>(before.sx1, x, after.sx1)
    &&& wide_sums::<A>(before.sx2, x2, after.sx2)
    &&& is_product_added::<A>(before.sx3, x2, x, after.sx3)
    &&& is_product_added::<A>(before.sx4, x2, x2, after.sx4)
    &&& wide_sums::<A>(before.sy0, y, after.sy0)
    &&& is_product_added::<A>(before.sy1, y, x, after.sy1)
    &&& is_product_added::<A>(before.sy2, y, x2, after.sy2)
}

/// `after` is `before` with the moments of one more sample added.
pub open spec fn is_moment_step<A: Arithmetic>(
    sample: FitSample,
    center_ln: Single,
    before: Moments,
    after: Moments,
) -> bool {
    exists|distance: Single, x: Double, x2: Double, y: Double| #[trigger]
        differences::<A>(sample.ln_freq, center_ln, distance) && #[trigger] widenings::<A>(
            distance,
            x,
        ) && #[trigger] wide_products::<A>(x, x, x2) && #[trigger] widenings::<A>(
            sample.target_db,
            y,
        ) && is_moment_added::<A>(before, x, x2, y, after)
}

fn moment_step<A: Arithmetic>(sample: FitSample, center_ln: Single, before: Moments) -> (after:
    Moments)
    ensures
        is_moment_step::<A>(sample, center_ln, before, after),
{
    let distance = A::difference(sample.ln_freq, center_ln);
    let x = A::widened(distance);
    let x2 = A::wide_product(x, x);
    let y = A::widened(sample.target_db);
    let sx0 = A::wide_sum(before.sx0, double(WIDE_ONE));
    assert(wide_sums::<A>(before.sx0, double(WIDE_ONE), sx0));
    let after = Moments {
        sx0,
        sx1: A::wide_sum(before.sx1, x),
        sx2: A::wide_sum(before.sx2, x2),
        sx3: product_added::<A>(before.sx3, x2, x),
        sx4: product_added::<A>(before.sx4, x2, x2),
        sy0: A::wide_sum(before.sy0, y),
        sy1: product_added::<A>(before.sy1, y, x),
        sy2: product_added::<A>(before.sy2, y, x2),
    };
    assert(is_moment_added::<A>(before, x, x2, y, after));
    after
}

/// `moments` are those over the first `count` samples.
pub open spec fn are_moments<A: Arithmetic>(
    samples: Seq<FitSample>,
    center_ln: Single,
    count: nat,
    moments: Moments,
) -> bool
    decreases count,
{
    if count == 0 {
        moments == no_moments()
    } else {
        exists|before: Moments|
            {
                &&& are_moments::<A>(samples, center_ln, (count - 1) as nat, before)
                &&& #[trigger] is_moment_step::<A>(samples[count - 1], center_ln, before, moments)
            }
    }
}

/// The normal equations that the moments stand for.
#[verifier::allow_in_spec]
pub fn normal_equations(m: Moments) -> Equations
    returns
        ([
            [m.sx0, m.sx1, m.sx2, m.sy0],
            [m.sx1, m.sx2, m.sx3, m.sy1],
            [m.sx2, m.sx3, m.sx4, m.sy2],
        ]),
{
    [
        [m.sx0, m.sx1, m.sx2, m.sy0],
        [m.sx1, m.sx2, m.sx3, m.sy1],
        [m.sx2, m.sx3, m.sx4, m.sy2],
    ]
}

/// The row to pivot on among the rows from `pivot` up to `count`: the one with the largest entry in
/// column `pivot`, the first of them where several are equally large.
pub open spec fn pivot_row(equations: Equations, pivot: int, count: int) -> int
    decreases count - pivot,
{
    if count <= pivot + 1 {
        pivot
    } else {
        let best = pivot_row(equations, pivot, count - 1);
        if equations@[best]@[pivot].absolute().below(equations@[count - 1]@[pivot].absolute()) {
            count - 1
        } else {
            best
        }
    }
}

fn find_pivot_row(equations: &Equations, pivot: usize) -> (best: usize)
    requires
        pivot < 3,
    ensures
        best == pivot_row(*equations, pivot as int, 3),
        pivot <= best < 3,
{
    let mut best: usize = pivot;
    let mut row: usize = pivot + 1;
    while row < 3
        invariant
            pivot < row <= 3,
            pivot <= best < row,
            best == pivot_row(*equations, pivot as int, row as int),
        decreases 3 - row,
    {
        if equations[best][pivot].absolute().below(equations[row][pivot].absolute()) {
            best = row;
        }
        row += 1;
    }
    best
}

/// `after` is `before` with two rows exchanged.
pub open spec fn are_swapped(before: Equations, first: int, second: int, after: Equations) -> bool {
    forall|row: int|
        0 <= row < 3 ==> #[trigger] after@[row] == if row == first {
            before@[second]
        } else if row == second {
            before@[first]
        } else {
            before@[row]
        }
}

/// `after` is `before` with the pivot row divided by its pivot, from the pivot's column on.
pub open spec fn is_normalized<A: Arithmetic>(
    before: Equations,
    pivot: int,
    after: Equations,
) -> bool {
    &&& forall|row: int|
        0 <= row < 3 && row != pivot ==> #[trigger] after@[row] == before@[row]
    &&& forall|column: int|
        0 <= column < 4 ==> if column < pivot {
            #[trigger] after@[pivot]@[column] == before@[pivot]@[column]
        } else {
            wide_quotients::<A>(
                before@[pivot]@[column],
                before@[pivot]@[pivot],
                after@[pivot]@[column],
            )
        }
}

/// `after` is `value - factor * scale`.
pub open spec fn is_reduced<A: Arithmetic>(
    value: Double,
    factor: Double,
    scale: Double,
    after: Double,
) -> bool {
    exists|product: Double| #[trigger]
        wide_products::<A>(factor, scale, product) && wide_differences::<A>(value, product, after)
}

fn reduced<A: Arithmetic>(value: Double, factor: Double, scale: Double) -> (after: Double)
    ensures
        is_reduced::<A>(value, factor, scale, after),
{
    let product = A::wide_product(factor, scale);
    A::wide_difference(value, product)
}

/// `after` is the row `before` with the pivot row subtracted from it as often as its entry in the
/// pivot's column says, from that column on.
pub open spec fn is_row_eliminated<A: Arithmetic>(
    before: Seq<Double>,
    pivot_row: Seq<Double>,
    pivot: int,
    after: Seq<Double>,
) -> bool {
    forall|column: int|
        0 <= column < 4 ==> if column < pivot {
            #[trigger] after[column] == before[column]
        } else {
            is_reduced::<A>(before[column], before[pivot], pivot_row[column], after[column])
        }
}

/// `after` is `before` with the pivot row eliminated from the other rows.
pub open spec fn is_eliminated<A: Arithmetic>(
    before: Equations,
    pivot: int,
    after: Equations,
) -> bool {
    &&& after@[pivot] == before@[pivot]
    &&& forall|row: int|
        0 <= row < 3 && row != pivot ==> is_row_eliminated::<A>(
            before@[row]@,
            before@[pivot]@,
            pivot,
            (#[trigger] after@[row])@,
        )
}

fn normalize<A: Arithmetic>(equations: &mut Equations, pivot: usize)
    requires
        pivot < 3,
    ensures
        is_normalized::<A>(*old(equations), pivot as int, *final(equations)),
{
    let scale = equations[pivot][pivot];
    let mut column: usize = pivot;
    while column < 4
        invariant
            pivot < 3,
            pivot <= column <= 4,
            scale == old(equations)@[pivot as int]@[pivot as int],
            forall|row: int|
                0 <= row < 3 && row != pivot ==> #[trigger] equations@[row] == old(
                    equations,
                )@[row],
            forall|c: int|
                0 <= c < 4 && (c < pivot || c >= column) ==> #[trigger] equations@[pivot as int]@[c]
                    == old(equations)@[pivot as int]@[c],
            forall|c: int|
                pivot <= c < column ==> wide_quotients::<A>(
                    old(equations)@[pivot as int]@[c],
                    scale,
                    #[trigger] equations@[pivot as int]@[c],
                ),
        decreases 4 - column,
    {
        equations[pivot][column] = A::wide_quotient(equations[pivot][column], scale);
        column += 1;
    }
}

fn eliminate_row<A: Arithmetic>(equations: &mut Equations, pivot: usize, row: usize)
    requires
        pivot < 3,
        row < 3,
        row != pivot,
    ensures
        forall|r: int|
            0 <= r < 3 && r != row ==> #[trigger] final(equations)@[r] == old(equations)@[r],
        is_row_eliminated::<A>(
            old(equations)@[row as int]@,
            old(equations)@[pivot as int]@,
            pivot as int,
            final(equations)@[row as int]@,
        ),
{
    let factor = equations[row][pivot];
    let mut column: usize = pivot;
    while column < 4
        invariant
            pivot < 3,
            row < 3,
            row != pivot,
            pivot <= column <= 4,
            factor == old(equations)@[row as int]@[pivot as int],
            forall|r: int|
                0 <= r < 3 && r != row ==> #[trigger] equations@[r] == old(equations)@[r],
            forall|c: int|
                0 <= c < 4 && (c < pivot || c >= column) ==> #[trigger] equations@[row as int]@[c]
                    == old(equations)@[row as int]@[c],
            forall|c: int|
                pivot <= c < column ==> is_reduced::<A>(
                    old(equations)@[row as int]@[c],
                    factor,
                    old(equations)@[pivot as int]@[c],
                    #[trigger] equations@[row as int]@[c],
                ),
        decreases 4 - column,
    {
        assert(equations@[pivot as int] == old(equations)@[pivot as int]);
        equations[row][column] = reduced::<A>(
            equations[row][column],
            factor,
            equations[pivot][column],
        );
        column += 1;
    }
}

/// One step of Gauss-Jordan elimination. There is no result where the pivot is zero, as far as
/// rounding can tell.
pub open spec fn is_pivoted<A: Arithmetic>(
    before: Equations,
    pivot: int,
    after: Option<Equations>,
) -> bool {
    let best = pivot_row(before, pivot, 3);
    if before@[best]@[pivot].absolute().at_most(double(WIDE_EPSILON)) {
        after is None
    } else {
        after matches Some(eliminated) && exists|swapped: Equations, normalized: Equations|
            {
                &&& #[trigger] are_swapped(before, pivot, best, swapped)
                &&& #[trigger] is_normalized::<A>(swapped, pivot, normalized)
                &&& is_eliminated::<A>(normalized, pivot, eliminated)
            }
    }
}

fn pivoted<A: Arithmetic>(before: Equations, pivot: usize) -> (after: Option<Equations>)
    requires
        pivot < 3,
    ensures
        is_pivoted::<A>(before, pivot as int, after),
{
    let best: usize = find_pivot_row(&before, pivot);
    if before[best][pivot].absolute().at_most(double(WIDE_EPSILON)) {
        return None;
    }
    let mut equations = before;
    equations[pivot] = before[best];
    equations[best] = before[pivot];
    let ghost swapped = equations;
    assert(are_swapped(before, pivot as int, best as int, swapped));
    normalize::<A>(&mut equations, pivot);
    let ghost normalized = equations;
    let mut row: usize = 0;
    while row < 3
        invariant
            pivot < 3,
            row <= 3,
            equations@[pivot as int] == normalized@[pivot as int],
            forall|r: int|
                row <= r < 3 ==> #[trigger] equations@[r] == normalized@[r],
            forall|r: int|
                0 <= r < row && r != pivot ==> is_row_eliminated::<A>(
                    normalized@[r]@,
                    normalized@[pivot as int]@,
                    pivot as int,
                    (#[trigger] equations@[r])@,
                ),
        decreases 3 - row,
    {
        if row != pivot {
            eliminate_row::<A>(&mut equations, pivot, row);
        }
        row += 1;
    }
    assert(is_eliminated::<A>(normalized, pivot as int, equations));
    Some(equations)
}

/// `r` is the solution of the equations, if they have one.
pub open spec fn is_solved<A: Arithmetic>(equations: Equations, r: Option<[Double; 3]>) -> bool {
    exists|first: Option<Equations>| #[trigger]
        is_pivoted::<A>(equations, 0, first) && match first {
            None => r is None,
            Some(one) => exists|second: Option<Equations>| #[trigger]
                is_pivoted::<A>(one, 1, second) && match second {
                    None => r is None,
                    Some(two) => exists|third: Option<Equations>| #[trigger]
                        is_pivoted::<A>(two, 2, third) && match third {
                            None => r is None,
                            Some(three) => r matches Some(values) && forall|i: int|
                                0 <= i < 3 ==> #[trigger] values@[i] == three@[i]@[3],
                        },
                },
        }
}

/// Solves three linear equations by Gauss-Jordan elimination with partial pivoting.
pub fn solve_3x3<A: Arithmetic>(equations: Equations) -> (r: Option<[Double; 3]>)
    ensures
        is_solved::<A>(equations, r),
{
    let first = pivoted::<A>(equations, 0);
    match first {
        None => None,
        Some(one) => {
            let second = pivoted::<A>(one, 1);
            match second {
                None => None,
                Some(two) => {
                    let third = pivoted::<A>(two, 2);
                    match third {
                        None => None,
                        Some(three) => Some([three[0][3], three[1][3], three[2][3]]),
                    }
                },
            }
        },
    }
}

/// `r` are the intercept, the slope and the curve of the quadratic that fits the samples best.
pub open spec fn is_quadratic_fit<A: Arithmetic>(
    samples: Seq<FitSample>,
    center_ln: Single,
    r: Option<(Single, Single, Single)>,
) -> bool {
    exists|moments: Moments, solution: Option<[Double; 3]>| #[trigger]
        are_moments::<A>(samples, center_ln, samples.len(), moments) && #[trigger] is_solved::<A>(
            normal_equations(moments),
            solution,
        ) && match (solution, r) {
            (None, None) => true,
            (Some(values), Some(fit)) => {
                &&& narrowings::<A>(values@[0], fit.0)
                &&& narrowings::<A>(values@[1], fit.1)
                &&& narrowings::<A>(values@[2], fit.2)
            },
            _ => false,
        }
}

/// Fits a quadratic around the given center.
pub fn fit_quadratic<A: Arithmetic>(samples: &[FitSample], center_ln: Single) -> (r: Option<
    (Single, Single, Single),
>)
    ensures
        is_quadratic_fit::<A>(samples@, center_ln, r),
{
    let mut moments = no_moments();
    let mut index: usize = 0;
    while index < samples.len()
        invariant
            index <= samples@.len(),
            are_moments::<A>(samples@, center_ln, index as nat, moments),
        decreases samples.len() - index,
    {
        let ghost before = moments;
        moments = moment_step::<A>(samples[index], center_ln, moments);
        assert(are_moments::<A>(samples@, center_ln, (index + 1 - 1) as nat, before));
        assert(is_moment_step::<A>(samples@[index + 1 - 1], center_ln, before, moments));
        index += 1;
    }
    let equations = normal_equations(moments);
    let solution = solve_3x3::<A>(equations);
    assert(is_solved::<A>(normal_equations(moments), solution));
    match solution {
        None => None,
        Some(values) => Some(
            (A::narrowed(values[0]), A::narrowed(values[1]), A::narrowed(values[2])),
        ),
    }
}

/// `r` is the sum of the logarithms of the first `count` frequencies.
pub open spec fn is_ln_sum<A: Arithmetic>(samples: Seq<FitSample>, count: nat, r: Single) -> bool
    decreases count,
{
    if count == 0 {
        r == single(ZERO)
    } else {
        exists|before: Single|
            {
                &&& is_ln_sum::<A>(samples, (count - 1) as nat, before)
                &&& #[trigger] sums::<A>(before, samples[count - 1].ln_freq, r)
            }
    }
}

/// `r` is the mean of the logarithms of the frequencies.
pub open spec fn is_mean_ln<A: Arithmetic>(samples: Seq<FitSample>, r: Single) -> bool {
    exists|sum: Single, count: Single|
        is_ln_sum::<A>(samples, samples.len(), sum) && #[trigger] counts::<A>(
            samples.len() as usize,
            count,
        ) && #[trigger] quotients::<A>(sum, count, r)
}

/// Computes the mean of the logarithms of the frequencies.
pub fn mean_ln_frequency<A: Arithmetic>(samples: &[FitSample]) -> (r: Single)
    ensures
        is_mean_ln::<A>(samples@, r),
{
    let mut sum = single(ZERO);
    let mut index: usize = 0;
    while index < samples.len()
        invariant
            index <= samples@.len(),
            is_ln_sum::<A>(samples@, index as nat, sum),
        decreases samples.len() - index,
    {
        let ghost before = sum;
        sum = A::sum(sum, samples[index].ln_freq);
        assert(sums::<A>(before, samples@[index + 1 - 1].ln_freq, sum));
        assert(is_ln_sum::<A>(samples@, (index + 1 - 1) as nat, before));
        index += 1;
    }
    let count = A::from_count(samples.len());
    assert(counts::<A>(samples@.len() as usize, count));
    A::quotient(sum, count)
}

/// `r` is the curve around the center `center_ln` that fits the samples.
pub open spec fn is_free_fit_around<A: Arithmetic>(
    samples: Seq<FitSample>,
    center_ln: Single,
    r: Option<MatchCurveFit>,
) -> bool {
    exists|solution: Option<(Single, Single, Single)>| #[trigger]
        is_quadratic_fit::<A>(samples, center_ln, solution) && match (solution, r) {
            (None, None) => true,
            (Some(found), Some(fit)) => {
                &&& fit.intercept == found.0
                &&& exponentials::<A>(center_ln, fit.center_frequency)
                &&& fit.slope == found.1
                &&& fit.curve == found.2
                &&& are_points_for::<A>(
                    samples,
                    BaseCurve {
                        center_ln,
                        intercept: found.0,
                        slope: found.1,
                        curve: found.2,
                    },
                    fit.points@,
                )
            },
            _ => false,
        }
}

fn free_fit_around<A: Arithmetic>(samples: &[FitSample], center_ln: Single) -> (r: Option<
    MatchCurveFit,
>)
    ensures
        is_free_fit_around::<A>(samples@, center_ln, r),
{
    let solution = fit_quadratic::<A>(samples, center_ln);
    match solution {
        None => None,
        Some((intercept, slope, curve)) => {
            let base = BaseCurve { center_ln, intercept, slope, curve };
            let points = fit_residual_points::<A>(samples, base);
            assert(are_points_for::<A>(samples@, base, points@));
            let center_frequency = A::exponential(center_ln);
            Some(MatchCurveFit { intercept, center_frequency, slope, curve, points })
        },
    }
}

/// `r` is the curve that fits the samples, its center within the range of curve points.
pub open spec fn is_free_fit<A: Arithmetic>(
    samples: Seq<FitSample>,
    r: Option<MatchCurveFit>,
) -> bool {
    exists|mean: Single, low: Single, high: Single| #[trigger]
        is_mean_ln::<A>(samples, mean) && #[trigger] natural_logs::<A>(
            single(THRESHOLD_CURVE_MIN_FREQUENCY_HZ),
            low,
        ) && #[trigger] natural_logs::<A>(single(THRESHOLD_CURVE_MAX_FREQUENCY_HZ), high)
            && is_free_fit_around::<A>(samples, mean.clamped(low, high), r)
}

fn free_fit<A: Arithmetic>(samples: &[FitSample]) -> (r: Option<MatchCurveFit>)
    ensures
        is_free_fit::<A>(samples@, r),
{
    let mean = mean_ln_frequency::<A>(samples);
    let low = A::natural_log(single(THRESHOLD_CURVE_MIN_FREQUENCY_HZ));
    let high = A::natural_log(single(THRESHOLD_CURVE_MAX_FREQUENCY_HZ));
    assert(natural_logs::<A>(single(THRESHOLD_CURVE_MIN_FREQUENCY_HZ), low));
    assert(natural_logs::<A>(single(THRESHOLD_CURVE_MAX_FREQUENCY_HZ), high));
    free_fit_around::<A>(samples, mean.clamped(low, high))
}

/// Fits a curve to the averages of the measured magnitudes.
pub fn fit_average_curve<A: Arithmetic>(
    ln_freqs: &[Single],
    magnitude_sums: &[Double],
    spectrum_count: u64,
    downwards_offset_db: Single,
) -> (r: Option<MatchCurveFit>)
    ensures
        spectrum_count == 0 ==> r is None,
        spectrum_count != 0 ==> exists|samples: Seq<FitSample>| #[trigger]
            are_fit_samples::<A>(
                ln_freqs@,
                magnitude_sums@,
                spectrum_count,
                downwards_offset_db,
                samples,
            ) && if samples.len() < 3 {
                r is None
            } else {
                is_free_fit::<A>(samples, r)
            },
{
    match collect_fit_samples::<A>(ln_freqs, magnitude_sums, spectrum_count, downwards_offset_db) {
        None => None,
        Some(samples) => free_fit::<A>(samples.as_slice()),
    }
}

/// The value in a row and a column.
pub open spec fn entry(equations: Equations, row: int, column: int) -> real {
    equations@[row]@[column].value()
}

/// All values are numbers.
pub open spec fn are_numbers(equations: Equations) -> bool {
    forall|row: int, column: int|
        0 <= row < 3 && 0 <= column < 4 ==> (#[trigger] equations@[row]@[column]).is_finite()
}

/// The first columns are those of the identity matrix.
pub open spec fn are_units(equations: Equations, count: int) -> bool {
    forall|row: int, column: int|
        0 <= row < 3 && 0 <= column < count ==> #[trigger] entry(equations, row, column) == if row
            == column {
            1real
        } else {
            0real
        }
}

/// The equation in a row holds of `x`, `y` and `z`.
pub open spec fn holds(equations: Equations, row: int, x: real, y: real, z: real) -> bool {
    entry(equations, row, 0) * x + entry(equations, row, 1) * y + entry(equations, row, 2) * z
        == entry(equations, row, 3)
}

/// All equations hold of `x`, `y` and `z`.
pub open spec fn all_hold(equations: Equations, x: real, y: real, z: real) -> bool {
    holds(equations, 0, x, y, z) && holds(equations, 1, x, y, z) && holds(equations, 2, x, y, z)
}

proof fn lemma_scaled_row(n: (real, real, real, real), scale: real, x: real, y: real, z: real)
    requires
        n.0 * x + n.1 * y + n.2 * z == n.3,
    ensures
        (n.0 * scale) * x + (n.1 * scale) * y + (n.2 * scale) * z == n.3 * scale,
{
    lemma_three_factors(n.0, scale, x);
    lemma_three_factors(n.1, scale, y);
    lemma_three_factors(n.2, scale, z);
    lemma_regroup(n.0 * x, n.1 * y, scale);
    lemma_regroup(n.0 * x + n.1 * y, n.2 * z, scale);
}

proof fn lemma_reduced_row(
    n: (real, real, real, real),
    q: (real, real, real, real),
    factor: real,
    x: real,
    y: real,
    z: real,
)
    requires
        (n.0 - factor * q.0) * x + (n.1 - factor * q.1) * y + (n.2 - factor * q.2) * z == n.3
            - factor * q.3,
        q.0 * x + q.1 * y + q.2 * z == q.3,
    ensures
        n.0 * x + n.1 * y + n.2 * z == n.3,
{
    lemma_regroup(n.0, factor * q.0, x);
    lemma_regroup(n.1, factor * q.1, y);
    lemma_regroup(n.2, factor * q.2, z);
    lemma_three_factors(factor, q.0, x);
    lemma_three_factors(factor, q.1, y);
    lemma_three_factors(factor, q.2, z);
    lemma_regroup(factor, q.0 * x, q.1 * y);
    lemma_regroup(factor, q.0 * x + q.1 * y, q.2 * z);
}

proof fn lemma_unit(equations: Equations, count: int, row: int, column: int)
    requires
        are_units(equations, count),
        0 <= row < 3,
        0 <= column < count,
    ensures
        equations@[row]@[column].value() == if row == column {
            1real
        } else {
            0real
        },
{
    assert(entry(equations, row, column) == if row == column {
        1real
    } else {
        0real
    });
}

/// Exchanging rows from the pivot on keeps the columns before it.
proof fn lemma_swapped(
    before: Equations,
    pivot: int,
    best: int,
    after: Equations,
    x: real,
    y: real,
    z: real,
)
    requires
        0 <= pivot <= best < 3,
        are_numbers(before),
        are_units(before, pivot),
        are_swapped(before, pivot, best, after),
    ensures
        are_numbers(after),
        are_units(after, pivot),
        entry(after, pivot, pivot) == entry(before, best, pivot),
        all_hold(after, x, y, z) ==> all_hold(before, x, y, z),
{
    assert(after@[0] == before@[0] || after@[0] == before@[best] || after@[0] == before@[pivot]);
    assert forall|row: int, column: int| 0 <= row < 3 && 0 <= column < pivot implies #[trigger] entry(
        after,
        row,
        column,
    ) == (if row == column {
        1real
    } else {
        0real
    }) by {
        lemma_unit(before, pivot, row, column);
        lemma_unit(before, pivot, best, column);
        lemma_unit(before, pivot, pivot, column);
        assert(after@[row] == if row == pivot {
            before@[best]
        } else if row == best {
            before@[pivot]
        } else {
            before@[row]
        });
    }
    assert(after@[pivot] == before@[best] && after@[best] == before@[pivot]);
    assert forall|row: int| 0 <= row < 3 && row != pivot && row != best implies #[trigger] after@[row]
        == before@[row] by {}
    assert(after@[1] == before@[1] || 1 == pivot || 1 == best);
    assert(after@[2] == before@[2] || 2 == pivot || 2 == best);
    assert(after@[0] == before@[0] || 0 == pivot || 0 == best);
}

/// Dividing the pivot row by its pivot makes the pivot one.
proof fn lemma_normalized<A: Arithmetic>(
    before: Equations,
    pivot: int,
    after: Equations,
    x: real,
    y: real,
    z: real,
)
    requires
        is_wide_exact::<A>(),
        0 <= pivot < 3,
        are_numbers(before),
        are_units(before, pivot),
        entry(before, pivot, pivot) != 0real,
        is_normalized::<A>(before, pivot, after),
    ensures
        are_numbers(after),
        are_units(after, pivot),
        entry(after, pivot, pivot) == 1real,
        all_hold(after, x, y, z) ==> all_hold(before, x, y, z),
{
    let scale = entry(before, pivot, pivot);
    assert forall|column: int| 0 <= column < 4 implies (#[trigger] after@[pivot]@[column]).is_finite()
        && entry(before, pivot, column) == entry(after, pivot, column) * scale by {
        assert(before@[pivot]@[column].is_finite() && before@[pivot]@[pivot].is_finite());
        if column < pivot {
            assert(entry(before, pivot, column) == 0real);
            lemma_sign_of_product(entry(after, pivot, column), scale);
        } else {
            assert(wide_quotients::<A>(
                before@[pivot]@[column],
                before@[pivot]@[pivot],
                after@[pivot]@[column],
            ));
        }
    }
    assert(after@[pivot]@[pivot].is_finite());
    lemma_cancel(entry(after, pivot, pivot), 1real, scale);
    assert forall|row: int, column: int| 0 <= row < 3 && 0 <= column < 4 implies (
    #[trigger] after@[row]@[column]).is_finite() by {
        if row != pivot {
            assert(after@[row] == before@[row]);
            assert(before@[row]@[column].is_finite());
        }
    }
    assert forall|row: int, column: int| 0 <= row < 3 && 0 <= column < pivot implies #[trigger] entry(
        after,
        row,
        column,
    ) == (if row == column {
        1real
    } else {
        0real
    }) by {
        lemma_unit(before, pivot, row, column);
        if row != pivot {
            assert(after@[row] == before@[row]);
        } else {
            assert(after@[pivot]@[column] == before@[pivot]@[column]);
        }
    }
    if all_hold(after, x, y, z) {
        let row = (
            entry(after, pivot, 0),
            entry(after, pivot, 1),
            entry(after, pivot, 2),
            entry(after, pivot, 3),
        );
        assert(after@[pivot]@[0].is_finite() && after@[pivot]@[1].is_finite());
        assert(after@[pivot]@[2].is_finite() && after@[pivot]@[3].is_finite());
        assert(holds(after, pivot, x, y, z));
        lemma_scaled_row(row, scale, x, y, z);
        assert(holds(before, pivot, x, y, z));
        assert(0 == pivot || after@[0] == before@[0]);
        assert(1 == pivot || after@[1] == before@[1]);
        assert(2 == pivot || after@[2] == before@[2]);
    }
}

proof fn lemma_eliminated_entry<A: Arithmetic>(
    before: Equations,
    pivot: int,
    after: Equations,
    row: int,
    column: int,
)
    requires
        is_wide_exact::<A>(),
        0 <= pivot < 3,
        are_numbers(before),
        are_units(before, pivot),
        is_eliminated::<A>(before, pivot, after),
        0 <= row < 3,
        row != pivot,
        0 <= column < 4,
    ensures
        after@[row]@[column].is_finite(),
        entry(after, row, column) == entry(before, row, column) - entry(before, row, pivot) * entry(
            before,
            pivot,
            column,
        ),
{
    assert(before@[row]@[column].is_finite() && before@[row]@[pivot].is_finite());
    assert(before@[pivot]@[column].is_finite());
    assert(is_row_eliminated::<A>(before@[row]@, before@[pivot]@, pivot, after@[row]@));
    let changed = after@[row]@[column];
    if column < pivot {
        assert(entry(before, pivot, column) == 0real);
        lemma_sign_of_product(entry(before, row, pivot), 0real);
        assert(changed == before@[row]@[column]);
    } else {
        assert(is_reduced::<A>(
            before@[row]@[column],
            before@[row]@[pivot],
            before@[pivot]@[column],
            changed,
        ));
        let product = choose|product: Double| #[trigger]
            wide_products::<A>(before@[row]@[pivot], before@[pivot]@[column], product)
                && wide_differences::<A>(before@[row]@[column], product, changed);
    }
}

/// Subtracting the pivot row from the others clears the pivot's column.
proof fn lemma_eliminated<A: Arithmetic>(
    before: Equations,
    pivot: int,
    after: Equations,
    x: real,
    y: real,
    z: real,
)
    requires
        is_wide_exact::<A>(),
        0 <= pivot < 3,
        are_numbers(before),
        are_units(before, pivot),
        entry(before, pivot, pivot) == 1real,
        is_eliminated::<A>(before, pivot, after),
    ensures
        are_numbers(after),
        are_units(after, pivot + 1),
        all_hold(after, x, y, z) ==> all_hold(before, x, y, z),
{
    assert forall|row: int, column: int| 0 <= row < 3 && 0 <= column < 4 implies (
    #[trigger] after@[row]@[column]).is_finite() by {
        if row != pivot {
            lemma_eliminated_entry::<A>(before, pivot, after, row, column);
        } else {
            assert(before@[row]@[column].is_finite());
        }
    }
    assert forall|row: int, column: int|
        0 <= row < 3 && 0 <= column < pivot + 1 implies #[trigger] entry(after, row, column) == (if row
        == column {
        1real
    } else {
        0real
    }) by {
        if row != pivot {
            lemma_eliminated_entry::<A>(before, pivot, after, row, column);
            lemma_sign_of_product(entry(before, row, pivot), entry(before, pivot, column));
            lemma_regroup(entry(before, row, pivot), 1real, 0real);
        }
        if column < pivot {
            lemma_unit(before, pivot, row, column);
            lemma_unit(before, pivot, pivot, column);
        }
    }
    if all_hold(after, x, y, z) {
        assert(holds(after, pivot, x, y, z));
        assert(holds(before, pivot, x, y, z));
        lemma_row_held::<A>(before, pivot, after, 0, x, y, z);
        lemma_row_held::<A>(before, pivot, after, 1, x, y, z);
        lemma_row_held::<A>(before, pivot, after, 2, x, y, z);
    }
}

proof fn lemma_row_held<A: Arithmetic>(
    before: Equations,
    pivot: int,
    after: Equations,
    row: int,
    x: real,
    y: real,
    z: real,
)
    requires
        is_wide_exact::<A>(),
        0 <= pivot < 3,
        are_numbers(before),
        are_units(before, pivot),
        is_eliminated::<A>(before, pivot, after),
        0 <= row < 3,
        holds(before, pivot, x, y, z),
        holds(after, row, x, y, z),
    ensures
        holds(before, row, x, y, z),
{
    if row != pivot {
        lemma_eliminated_entry::<A>(before, pivot, after, row, 0);
        lemma_eliminated_entry::<A>(before, pivot, after, row, 1);
        lemma_eliminated_entry::<A>(before, pivot, after, row, 2);
        lemma_eliminated_entry::<A>(before, pivot, after, row, 3);
        let n = (
            entry(before, row, 0),
            entry(before, row, 1),
            entry(before, row, 2),
            entry(before, row, 3),
        );
        let q = (
            entry(before, pivot, 0),
            entry(before, pivot, 1),
            entry(before, pivot, 2),
            entry(before, pivot, 3),
        );
        lemma_reduced_row(n, q, entry(before, row, pivot), x, y, z);
    }
}

/// The row to pivot on is one of those from the pivot on.
proof fn lemma_pivot_row(equations: Equations, pivot: int, count: int)
    requires
        0 <= pivot < count <= 3,
    ensures
        pivot <= pivot_row(equations, pivot, count) < count,
    decreases count - pivot,
{
    if count > pivot + 1 {
        lemma_pivot_row(equations, pivot, count - 1);
    }
}

/// A step of the elimination turns one more column into that of the identity matrix, and what solves
/// the equations after it solves those before it.
proof fn lemma_pivoted<A: Arithmetic>(
    before: Equations,
    pivot: int,
    after: Equations,
    x: real,
    y: real,
    z: real,
)
    requires
        is_wide_exact::<A>(),
        0 <= pivot < 3,
        are_numbers(before),
        are_units(before, pivot),
        is_pivoted::<A>(before, pivot, Some(after)),
    ensures
        are_numbers(after),
        are_units(after, pivot + 1),
        all_hold(after, x, y, z) ==> all_hold(before, x, y, z),
{
    let best = pivot_row(before, pivot, 3);
    lemma_pivot_row(before, pivot, 3);
    let (swapped, normalized) = choose|swapped: Equations, normalized: Equations|
        {
            &&& #[trigger] are_swapped(before, pivot, best, swapped)
            &&& #[trigger] is_normalized::<A>(swapped, pivot, normalized)
            &&& is_eliminated::<A>(normalized, pivot, after)
        };
    let largest = before@[best]@[pivot];
    assert(largest.is_finite());
    assert(double(WIDE_EPSILON).is_finite());
    lemma_wide_order_is_by_value(largest.absolute(), double(WIDE_EPSILON));
    lemma_wide_order_is_by_value(double(WIDE_EPSILON), double(WIDE_ZERO));
    lemma_wide_constants();
    assert(largest.value() != 0real);
    lemma_swapped(before, pivot, best, swapped, x, y, z);
    lemma_normalized::<A>(swapped, pivot, normalized, x, y, z);
    lemma_eliminated::<A>(normalized, pivot, after, x, y, z);
}

/// What the solver finds solves the equations.
pub proof fn law_solutions_solve_the_equations<A: Arithmetic>(
    equations: Equations,
    solution: [Double; 3],
)
    requires
        is_wide_exact::<A>(),
        are_numbers(equations),
        is_solved::<A>(equations, Some(solution)),
    ensures
        solution@[0].is_finite() && solution@[1].is_finite() && solution@[2].is_finite(),
        forall|row: int|
            0 <= row < 3 ==> (#[trigger] equations@[row])@[0].value() * solution@[0].value()
                + equations@[row]@[1].value() * solution@[1].value()
                + equations@[row]@[2].value() * solution@[2].value()
                == equations@[row]@[3].value(),
{
    let (x, y, z) = (solution@[0].value(), solution@[1].value(), solution@[2].value());
    let r = Some(solution);
    let first = choose|first: Option<Equations>| #[trigger]
        is_pivoted::<A>(equations, 0, first) && match first {
            None => r is None,
            Some(one) => exists|second: Option<Equations>| #[trigger]
                is_pivoted::<A>(one, 1, second) && match second {
                    None => r is None,
                    Some(two) => exists|third: Option<Equations>| #[trigger]
                        is_pivoted::<A>(two, 2, third) && match third {
                            None => r is None,
                            Some(three) => r matches Some(values) && forall|i: int|
                                0 <= i < 3 ==> #[trigger] values@[i] == three@[i]@[3],
                        },
                },
        };
    let one = first->0;
    let second = choose|second: Option<Equations>| #[trigger]
        is_pivoted::<A>(one, 1, second) && match second {
            None => r is None,
            Some(two) => exists|third: Option<Equations>| #[trigger]
                is_pivoted::<A>(two, 2, third) && match third {
                    None => r is None,
                    Some(three) => r matches Some(values) && forall|i: int|
                        0 <= i < 3 ==> #[trigger] values@[i] == three@[i]@[3],
                },
        };
    let two = second->0;
    let third = choose|third: Option<Equations>| #[trigger]
        is_pivoted::<A>(two, 2, third) && match third {
            None => r is None,
            Some(three) => r matches Some(values) && forall|i: int|
                0 <= i < 3 ==> #[trigger] values@[i] == three@[i]@[3],
        };
    let three = third->0;
    lemma_pivoted::<A>(equations, 0, one, x, y, z);
    lemma_pivoted::<A>(one, 1, two, x, y, z);
    lemma_pivoted::<A>(two, 2, three, x, y, z);
    lemma_units_hold(three, solution);
    assert(all_hold(equations, x, y, z));
    assert forall|row: int| 0 <= row < 3 implies (#[trigger] equations@[row])@[0].value()
        * solution@[0].value() + equations@[row]@[1].value() * solution@[1].value()
        + equations@[row]@[2].value() * solution@[2].value() == equations@[row]@[3].value() by {
        assert(holds(equations, row, x, y, z));
    }
}

proof fn lemma_units_hold(equations: Equations, solution: [Double; 3])
    requires
        are_numbers(equations),
        are_units(equations, 3),
        forall|i: int| 0 <= i < 3 ==> #[trigger] solution@[i] == equations@[i]@[3],
    ensures
        solution@[0].is_finite() && solution@[1].is_finite() && solution@[2].is_finite(),
        all_hold(
            equations,
            solution@[0].value(),
            solution@[1].value(),
            solution@[2].value(),
        ),
{
    let (x, y, z) = (solution@[0].value(), solution@[1].value(), solution@[2].value());
    assert(equations@[0]@[3].is_finite() && equations@[1]@[3].is_finite());
    assert(equations@[2]@[3].is_finite());
    assert(entry(equations, 0, 0) == 1real && entry(equations, 0, 1) == 0real);
    assert(entry(equations, 0, 2) == 0real && entry(equations, 1, 0) == 0real);
    assert(entry(equations, 1, 1) == 1real && entry(equations, 1, 2) == 0real);
    assert(entry(equations, 2, 0) == 0real && entry(equations, 2, 1) == 0real);
    assert(entry(equations, 2, 2) == 1real);
    assert(0real * x == 0real && 0real * y == 0real && 0real * z == 0real);
    assert(1real * x == x && 1real * y == y && 1real * z == z);
}

/// What a base curve misses over the first `count` samples, each weighted by its distance from the
/// center.
pub open spec fn total_tilted_miss(
    samples: Seq<FitSample>,
    center_ln: Single,
    slope: Single,
    intercept: Single,
    curve: Single,
    count: nat,
) -> real
    decreases count,
{
    if count == 0 {
        0real
    } else {
        total_tilted_miss(samples, center_ln, slope, intercept, curve, (count - 1) as nat) + miss(
            samples[count - 1],
            center_ln,
            slope,
            intercept,
            curve,
        ) * (samples[count - 1].ln_freq.value() - center_ln.value())
    }
}

/// Adding a product adds the product of the values.
proof fn lemma_product_added<A: Arithmetic>(before: Double, a: Double, b: Double, after: Double)
    requires
        is_wide_exact::<A>(),
        before.is_finite() && a.is_finite() && b.is_finite(),
        is_product_added::<A>(before, a, b, after),
    ensures
        after.is_finite(),
        after.value() == before.value() + a.value() * b.value(),
{
}

/// What one more sample adds to the moments.
proof fn lemma_moment_step<A: Arithmetic>(
    sample: FitSample,
    center_ln: Single,
    before: Moments,
    after: Moments,
) -> (x: real)
    requires
        is_exact::<A>(),
        is_wide_exact::<A>(),
        center_ln.is_finite() && sample.ln_freq.is_finite() && sample.target_db.is_finite(),
        before.sx0.is_finite() && before.sx1.is_finite() && before.sx2.is_finite(),
        before.sx3.is_finite() && before.sx4.is_finite() && before.sy0.is_finite(),
        before.sy1.is_finite() && before.sy2.is_finite(),
        is_moment_step::<A>(sample, center_ln, before, after),
    ensures
        x == sample.ln_freq.value() - center_ln.value(),
        after.sx0.is_finite() && after.sx1.is_finite() && after.sx2.is_finite(),
        after.sx3.is_finite() && after.sx4.is_finite() && after.sy0.is_finite(),
        after.sy1.is_finite() && after.sy2.is_finite(),
        after.sx0.value() == before.sx0.value() + 1real,
        after.sx1.value() == before.sx1.value() + x,
        after.sx2.value() == before.sx2.value() + x * x,
        after.sx3.value() == before.sx3.value() + (x * x) * x,
        after.sx4.value() == before.sx4.value() + (x * x) * (x * x),
        after.sy0.value() == before.sy0.value() + sample.target_db.value(),
        after.sy1.value() == before.sy1.value() + sample.target_db.value() * x,
        after.sy2.value() == before.sy2.value() + sample.target_db.value() * (x * x),
{
    lemma_wide_constants();
    let (distance, x, x2, y) = choose|distance: Single, x: Double, x2: Double, y: Double| #[trigger]
        differences::<A>(sample.ln_freq, center_ln, distance) && #[trigger] widenings::<A>(
            distance,
            x,
        ) && #[trigger] wide_products::<A>(x, x, x2) && #[trigger] widenings::<A>(
            sample.target_db,
            y,
        ) && is_moment_added::<A>(before, x, x2, y, after);
    lemma_product_added::<A>(before.sx3, x2, x, after.sx3);
    lemma_product_added::<A>(before.sx4, x2, x2, after.sx4);
    lemma_product_added::<A>(before.sy1, y, x, after.sy1);
    lemma_product_added::<A>(before.sy2, y, x2, after.sy2);
    x.value()
}

/// What a sample's miss adds to each of the three weighted sums.
proof fn lemma_miss_terms(i: real, s: real, c: real, t: real, x: real)
    ensures
        (t - (i + s * x + c * (x * x))) * x == t * x - i * x - s * (x * x) - c * ((x * x) * x),
        (t - (i + s * x + c * (x * x))) * (x * x) == t * (x * x) - i * (x * x) - s * ((x * x) * x)
            - c * ((x * x) * (x * x)),
{
    let q = x * x;
    let level = i + s * x + c * q;
    lemma_regroup(t, level, x);
    lemma_regroup(i + s * x, c * q, x);
    lemma_regroup(i, s * x, x);
    lemma_three_factors(s, x, x);
    lemma_three_factors(c, q, x);
    lemma_regroup(t, level, q);
    lemma_regroup(i + s * x, c * q, q);
    lemma_regroup(i, s * x, q);
    lemma_three_factors(s, x, q);
    lemma_three_factors(x, q, 1real);
    lemma_three_factors(c, q, q);
}

/// What the moments are the sums of.
proof fn lemma_moments<A: Arithmetic>(
    samples: Seq<FitSample>,
    center_ln: Single,
    slope: Single,
    intercept: Single,
    curve: Single,
    count: nat,
    moments: Moments,
)
    requires
        is_exact::<A>(),
        is_wide_exact::<A>(),
        count <= samples.len(),
        center_ln.is_finite(),
        forall|k: int|
            0 <= k < samples.len() ==> (#[trigger] samples[k]).ln_freq.is_finite()
                && samples[k].target_db.is_finite(),
        are_moments::<A>(samples, center_ln, count, moments),
    ensures
        moments.sx0.is_finite() && moments.sx1.is_finite() && moments.sx2.is_finite(),
        moments.sx3.is_finite() && moments.sx4.is_finite() && moments.sy0.is_finite(),
        moments.sy1.is_finite() && moments.sy2.is_finite(),
        moments.sy0.value() - intercept.value() * moments.sx0.value() - slope.value()
            * moments.sx1.value() - curve.value() * moments.sx2.value() == total_miss(
            samples,
            center_ln,
            slope,
            intercept,
            curve,
            count,
        ),
        moments.sy1.value() - intercept.value() * moments.sx1.value() - slope.value()
            * moments.sx2.value() - curve.value() * moments.sx3.value() == total_tilted_miss(
            samples,
            center_ln,
            slope,
            intercept,
            curve,
            count,
        ),
        moments.sy2.value() - intercept.value() * moments.sx2.value() - slope.value()
            * moments.sx3.value() - curve.value() * moments.sx4.value() == total_weighted_miss(
            samples,
            center_ln,
            slope,
            intercept,
            curve,
            count,
        ),
    decreases count,
{
    lemma_wide_constants();
    let (i, s, c) = (intercept.value(), slope.value(), curve.value());
    if count == 0 {
        lemma_sign_of_product(i, 0real);
        lemma_sign_of_product(s, 0real);
        lemma_sign_of_product(c, 0real);
    } else {
        let sample = samples[count - 1];
        let before = choose|before: Moments|
            {
                &&& are_moments::<A>(samples, center_ln, (count - 1) as nat, before)
                &&& #[trigger] is_moment_step::<A>(sample, center_ln, before, moments)
            };
        lemma_moments::<A>(
            samples,
            center_ln,
            slope,
            intercept,
            curve,
            (count - 1) as nat,
            before,
        );
        let x = lemma_moment_step::<A>(sample, center_ln, before, moments);
        let t = sample.target_db.value();
        lemma_miss_terms(i, s, c, t, x);
        lemma_regroup(i, before.sx0.value(), 1real);
        lemma_regroup(i, before.sx1.value(), x);
        lemma_regroup(i, before.sx2.value(), x * x);
        lemma_regroup(s, before.sx1.value(), x);
        lemma_regroup(s, before.sx2.value(), x * x);
        lemma_regroup(s, before.sx3.value(), (x * x) * x);
        lemma_regroup(c, before.sx2.value(), x * x);
        lemma_regroup(c, before.sx3.value(), (x * x) * x);
        lemma_regroup(c, before.sx4.value(), (x * x) * (x * x));
    }
}

/// A curve that is fitted freely misses its samples by nothing on the whole, neither in sum nor
/// weighted by the distance from the center or its square: no other quadratic would come closer in
/// the sense of least squares.
pub proof fn law_free_fit_is_by_least_squares<A: Arithmetic>(
    samples: Seq<FitSample>,
    center_ln: Single,
    intercept: Single,
    slope: Single,
    curve: Single,
)
    requires
        is_exact::<A>(),
        is_wide_exact::<A>(),
        center_ln.is_finite(),
        forall|k: int|
            0 <= k < samples.len() ==> (#[trigger] samples[k]).ln_freq.is_finite()
                && samples[k].target_db.is_finite(),
        is_quadratic_fit::<A>(samples, center_ln, Some((intercept, slope, curve))),
    ensures
        intercept.is_finite() && slope.is_finite() && curve.is_finite(),
        total_miss(samples, center_ln, slope, intercept, curve, samples.len()) == 0real,
        total_tilted_miss(samples, center_ln, slope, intercept, curve, samples.len()) == 0real,
        total_weighted_miss(samples, center_ln, slope, intercept, curve, samples.len()) == 0real,
{
    let fit = (intercept, slope, curve);
    let (m, solution) = choose|moments: Moments, solution: Option<[Double; 3]>| #[trigger]
        are_moments::<A>(samples, center_ln, samples.len(), moments) && #[trigger] is_solved::<A>(
            normal_equations(moments),
            solution,
        ) && match (solution, Some(fit)) {
            (None, None) => true,
            (Some(values), Some(fit)) => {
                &&& narrowings::<A>(values@[0], fit.0)
                &&& narrowings::<A>(values@[1], fit.1)
                &&& narrowings::<A>(values@[2], fit.2)
            },
            _ => false,
        };
    let values = solution->0;
    lemma_moments::<A>(samples, center_ln, slope, intercept, curve, samples.len(), m);
    let equations = normal_equations(m);
    assert(equations@[0]@ =~= seq![m.sx0, m.sx1, m.sx2, m.sy0]);
    assert(equations@[1]@ =~= seq![m.sx1, m.sx2, m.sx3, m.sy1]);
    assert(equations@[2]@ =~= seq![m.sx2, m.sx3, m.sx4, m.sy2]);
    assert(are_numbers(equations));
    law_solutions_solve_the_equations::<A>(equations, values);
    let (i, s, c) = (intercept.value(), slope.value(), curve.value());
    assert(values@[0].value() == i && values@[1].value() == s && values@[2].value() == c);
    lemma_regroup(m.sx0.value(), i, 0real);
    lemma_regroup(m.sx1.value(), i, 0real);
    lemma_regroup(m.sx2.value(), i, 0real);
    lemma_regroup(m.sx1.value(), s, 0real);
    lemma_regroup(m.sx2.value(), s, 0real);
    lemma_regroup(m.sx3.value(), s, 0real);
    lemma_regroup(m.sx2.value(), c, 0real);
    lemma_regroup(m.sx3.value(), c, 0real);
    lemma_regroup(m.sx4.value(), c, 0real);
    assert(equations@[0]@[0].value() * i + equations@[0]@[1].value() * s
        + equations@[0]@[2].value() * c == equations@[0]@[3].value());
    assert(equations@[1]@[0].value() * i + equations@[1]@[1].value() * s
        + equations@[1]@[2].value() * c == equations@[1]@[3].value());
    assert(equations@[2]@[0].value() * i + equations@[2]@[1].value() * s
        + equations@[2]@[2].value() * c == equations@[2]@[3].value());
}

/// The sum of the logarithms of the first frequencies.
pub open spec fn total_ln(samples: Seq<FitSample>, count: nat) -> real
    decreases count,
{
    if count == 0 {
        0real
    } else {
        total_ln(samples, (count - 1) as nat) + samples[count - 1].ln_freq.value()
    }
}

proof fn lemma_ln_sum<A: Arithmetic>(samples: Seq<FitSample>, count: nat, r: Single)
    requires
        is_exact::<A>(),
        forall|k: int| 0 <= k < count ==> (#[trigger] samples[k]).ln_freq.is_finite(),
        is_ln_sum::<A>(samples, count, r),
    ensures
        r.is_finite(),
        r.value() == total_ln(samples, count),
    decreases count,
{
    lemma_constants();
    if count > 0 {
        let before = choose|before: Single|
            {
                &&& is_ln_sum::<A>(samples, (count - 1) as nat, before)
                &&& #[trigger] sums::<A>(before, samples[count - 1].ln_freq, r)
            };
        lemma_ln_sum::<A>(samples, (count - 1) as nat, before);
    }
}

/// The samples lie around the center of a free fit: their distances from it add up to nothing.
pub proof fn law_samples_lie_around_the_center<A: Arithmetic>(samples: Seq<FitSample>, mean: Single)
    requires
        is_exact::<A>(),
        0 < samples.len() <= usize::MAX,
        forall|k: int| 0 <= k < samples.len() ==> (#[trigger] samples[k]).ln_freq.is_finite(),
        is_mean_ln::<A>(samples, mean),
    ensures
        mean.is_finite(),
        mean.value() * (samples.len() as int as real) == total_ln(samples, samples.len()),
{
    let (sum, count) = choose|sum: Single, count: Single|
        is_ln_sum::<A>(samples, samples.len(), sum) && #[trigger] counts::<A>(
            samples.len() as usize,
            count,
        ) && #[trigger] quotients::<A>(sum, count, mean);
    lemma_ln_sum::<A>(samples, samples.len(), sum);
}

/// A free fit is centered on the mean of the frequencies, on their logarithmic scale, as far as that
/// lies between 30 Hz and 22 kHz. `ln` and `exp` give logarithms and exponentials.
pub proof fn law_free_fits_are_centered_on_the_mean<A: Arithmetic>(
    ln: spec_fn(real) -> real,
    exp: spec_fn(real) -> real,
    samples: Seq<FitSample>,
    mean: real,
    fit: MatchCurveFit,
)
    requires
        is_exact::<A>(),
        logs_follow::<A>(ln),
        exponentials_follow::<A>(exp),
        ln(30real) <= ln(22000real),
        0 < samples.len() <= usize::MAX,
        forall|k: int| 0 <= k < samples.len() ==> (#[trigger] samples[k]).ln_freq.is_finite(),
        mean * (samples.len() as int as real) == total_ln(samples, samples.len()),
        is_free_fit::<A>(samples, Some(fit)),
    ensures
        fit.center_frequency.value() == exp(
            if mean < ln(30real) {
                ln(30real)
            } else if mean > ln(22000real) {
                ln(22000real)
            } else {
                mean
            },
        ),
{
    lemma_range_of_points();
    let (own_mean, low, high) = choose|mean: Single, low: Single, high: Single| #[trigger]
        is_mean_ln::<A>(samples, mean) && #[trigger] natural_logs::<A>(
            single(THRESHOLD_CURVE_MIN_FREQUENCY_HZ),
            low,
        ) && #[trigger] natural_logs::<A>(single(THRESHOLD_CURVE_MAX_FREQUENCY_HZ), high)
            && is_free_fit_around::<A>(samples, mean.clamped(low, high), Some(fit));
    law_samples_lie_around_the_center::<A>(samples, own_mean);
    lemma_cancel(own_mean.value(), mean, samples.len() as int as real);
    lemma_selections(own_mean, low, high);
    assert(exponentials::<A>(own_mean.clamped(low, high), fit.center_frequency));
}

} // verus!
