//! The analyzer graph: how values map to positions, and how curve points are edited with the
//! pointer.

use vstd::arithmetic::power2::pow2;
use vstd::prelude::*;

use crate::arithmetic::{
    differences, exponentials, natural_logs, products, quotients, sums, Arithmetic,
};
use crate::curve::{
    is_base_level, lemma_range_of_points, Curve, CurveParams, CurvePoint, MAX_THRESHOLD_CURVE_POINTS,
    THRESHOLD_CURVE_MAX_FREQUENCY_HZ, THRESHOLD_CURVE_MIN_FREQUENCY_HZ,
    THRESHOLD_CURVE_POINT_OFFSET_LIMIT_DB,
};
use crate::exact::{
    is_exact, lemma_cancel, lemma_constants, lemma_order_is_by_value, lemma_regroup,
    lemma_selections, lemma_sign_of_product, lemma_value_of,
};
use crate::match_curve::lemma_base_is_one_value;
use crate::param_writes::{flag_write, number_write, ParamTarget, ParamWrite};
use crate::params::SpectralCompressorParams;
use crate::pointer::{MouseButton, PointerEvent, Position};
use crate::single::{single, Single, ONE, ONE_HALF, ZERO};
use crate::window::BoundingBox;

verus! {

/// The encoding of `3.4011974`, the natural logarithm of 30 Hz.
pub const LN_FREQ_RANGE_START_HZ: u32 = 0x4059_ad38;

/// The encoding of `6.5976`, how far the natural logarithm of 22 kHz is above that.
pub const LN_FREQ_RANGE: u32 = 0x40d3_1f8a;

/// The encoding of `80.0`.
pub const EIGHTY: u32 = 0x42a0_0000;

/// The encoding of `100.0`.
pub const ONE_HUNDRED: u32 = 0x42c8_0000;

/// The encoding of `8.0`, how close the pointer has to be to a curve point.
pub const HIT_RADIUS: u32 = 0x4100_0000;

/// `r` is `(ln_frequency - start) / range`.
pub open spec fn is_x_t<A: Arithmetic>(ln_frequency: Single, r: Single) -> bool {
    exists|way: Single| #[trigger]
        differences::<A>(ln_frequency, single(LN_FREQ_RANGE_START_HZ), way) && quotients::<A>(
            way,
            single(LN_FREQ_RANGE),
            r,
        )
}

/// Where a frequency is in the graph: 0 is the left edge, 1 the right one.
pub fn ln_frequency_to_x_t<A: Arithmetic>(ln_frequency: Single) -> (r: Single)
    ensures
        is_x_t::<A>(ln_frequency, r),
{
    let way = A::difference(ln_frequency, single(LN_FREQ_RANGE_START_HZ));
    assert(differences::<A>(ln_frequency, single(LN_FREQ_RANGE_START_HZ), way));
    let r = A::quotient(way, single(LN_FREQ_RANGE));
    assert(quotients::<A>(way, single(LN_FREQ_RANGE), r));
    r
}

/// `r` is where the frequency `hz` is in the graph.
pub open spec fn is_frequency_x_t<A: Arithmetic>(hz: Single, r: Single) -> bool {
    exists|ln_frequency: Single| #[trigger]
        natural_logs::<A>(hz, ln_frequency) && is_x_t::<A>(ln_frequency, r)
}

/// Where a frequency in Hertz is in the graph.
pub fn frequency_to_x_t<A: Arithmetic>(hz: Single) -> (r: Single)
    ensures
        is_frequency_x_t::<A>(hz, r),
{
    let ln_frequency = A::natural_log(hz);
    ln_frequency_to_x_t::<A>(ln_frequency)
}

/// `r` is `(db + 80) / 100`.
pub open spec fn is_y_t<A: Arithmetic>(db_value: Single, r: Single) -> bool {
    exists|raised: Single| #[trigger]
        sums::<A>(db_value, single(EIGHTY), raised) && quotients::<A>(
            raised,
            single(ONE_HUNDRED),
            r,
        )
}

/// Where a level is in the graph: -80 dB is mapped to 0, +20 dB is mapped to 1, and all other values
/// are linearly interpolated from there.
pub fn db_to_unclamped_t<A: Arithmetic>(db_value: Single) -> (r: Single)
    ensures
        is_y_t::<A>(db_value, r),
{
    let raised = A::sum(db_value, single(EIGHTY));
    assert(sums::<A>(db_value, single(EIGHTY), raised));
    let r = A::quotient(raised, single(ONE_HUNDRED));
    assert(quotients::<A>(raised, single(ONE_HUNDRED), r));
    r
}

/// `r` is `t * 100 - 80`.
pub open spec fn is_t_db<A: Arithmetic>(t: Single, r: Single) -> bool {
    exists|scaled: Single| #[trigger]
        products::<A>(t, single(ONE_HUNDRED), scaled) && differences::<A>(
            scaled,
            single(EIGHTY),
            r,
        )
}

/// The level at a height of the graph.
pub fn unclamped_t_to_db<A: Arithmetic>(t: Single) -> (r: Single)
    ensures
        is_t_db::<A>(t, r),
{
    let scaled = A::product(t, single(ONE_HUNDRED));
    assert(products::<A>(t, single(ONE_HUNDRED), scaled));
    let r = A::difference(scaled, single(EIGHTY));
    assert(differences::<A>(scaled, single(EIGHTY), r));
    r
}

/// `r` is `start + size * t`.
pub open spec fn is_along<A: Arithmetic>(start: Single, size: Single, t: Single, r: Single) -> bool {
    exists|way: Single| #[trigger] products::<A>(size, t, way) && sums::<A>(start, way, r)
}

/// Computes `start + size * t`.
pub fn along<A: Arithmetic>(start: Single, size: Single, t: Single) -> (r: Single)
    ensures
        is_along::<A>(start, size, t, r),
{
    let way = A::product(size, t);
    A::sum(start, way)
}

/// `r` is `y + h * (1 - t)`: heights grow upwards, positions downwards.
pub open spec fn is_height<A: Arithmetic>(bounds: BoundingBox, t: Single, r: Single) -> bool {
    exists|depth: Single| #[trigger]
        differences::<A>(single(ONE), t, depth) && is_along::<A>(bounds.y, bounds.h, depth, r)
}

/// The position of a height.
pub fn height<A: Arithmetic>(bounds: BoundingBox, t: Single) -> (r: Single)
    ensures
        is_height::<A>(bounds, t, r),
{
    let depth = A::difference(single(ONE), t);
    assert(differences::<A>(single(ONE), t, depth));
    along::<A>(bounds.y, bounds.h, depth)
}

/// `r` is the mean of the two threshold offsets.
pub open spec fn is_display_offset<A: Arithmetic>(
    upwards_offset_db: Single,
    downwards_offset_db: Single,
    r: Single,
) -> bool {
    exists|sum: Single| #[trigger]
        sums::<A>(upwards_offset_db, downwards_offset_db, sum) && products::<A>(
            sum,
            single(ONE_HALF),
            r,
        )
}

/// How far above the threshold curve its points are shown: halfway between the two thresholds.
pub fn editable_curve_display_offset_db<A: Arithmetic>(
    upwards_offset_db: Single,
    downwards_offset_db: Single,
) -> (r: Single)
    ensures
        is_display_offset::<A>(upwards_offset_db, downwards_offset_db, r),
{
    let sum = A::sum(upwards_offset_db, downwards_offset_db);
    let r = A::product(sum, single(ONE_HALF));
    assert(products::<A>(sum, single(ONE_HALF), r));
    r
}

/// Whether a value lies between 0 and 1.
#[verifier::allow_in_spec]
pub fn is_in_graph(t: Single) -> bool
    returns
        t.is_within(single(ZERO), single(ONE)),
{
    t.is_within(single(ZERO), single(ONE))
}

/// `r` is where a point with the given frequency is shown.
pub open spec fn is_point_place<A: Arithmetic>(
    bounds: BoundingBox,
    curve: Curve,
    ln_freq: Single,
    x_t: Single,
    display_offset_db: Single,
    r: Position,
) -> bool {
    exists|level: Single, y_db: Single, y_t: Single| #[trigger]
        curve.is_level::<A>(ln_freq, level) && #[trigger] sums::<A>(level, display_offset_db, y_db)
            && #[trigger] is_y_t::<A>(y_db, y_t) && is_along::<A>(bounds.x, bounds.w, x_t, r.x)
            && is_height::<A>(bounds, y_t, r.y)
}

fn point_place<A: Arithmetic>(
    bounds: BoundingBox,
    curve: &Curve,
    ln_freq: Single,
    x_t: Single,
    display_offset_db: Single,
) -> (r: Position)
    ensures
        is_point_place::<A>(bounds, *curve, ln_freq, x_t, display_offset_db, r),
{
    let level = curve.evaluate_ln::<A>(ln_freq);
    let y_db = A::sum(level, display_offset_db);
    let y_t = db_to_unclamped_t::<A>(y_db);
    Position { x: along::<A>(bounds.x, bounds.w, x_t), y: height::<A>(bounds, y_t) }
}

/// `r` is where a curve point is shown, if it is.
pub open spec fn is_point_position<A: Arithmetic>(
    bounds: BoundingBox,
    curve: Curve,
    point: CurvePoint,
    display_offset_db: Single,
    r: Option<Position>,
) -> bool {
    if !point.enabled || !point.frequency.is_finite() {
        r is None
    } else {
        exists|ln_freq: Single, x_t: Single| #[trigger]
            natural_logs::<A>(point.clamped_frequency(), ln_freq) && #[trigger] is_x_t::<A>(
                ln_freq,
                x_t,
            ) && if is_in_graph(x_t) {
                r matches Some(position) && is_point_place::<A>(
                    bounds,
                    curve,
                    ln_freq,
                    x_t,
                    display_offset_db,
                    position,
                )
            } else {
                r is None
            }
    }
}

/// Where a curve point is shown, if it is.
pub fn point_screen_position<A: Arithmetic>(
    bounds: BoundingBox,
    curve: &Curve,
    point: CurvePoint,
    display_offset_db: Single,
) -> (r: Option<Position>)
    ensures
        is_point_position::<A>(bounds, *curve, point, display_offset_db, r),
{
    if !point.enabled || !point.frequency.is_finite() {
        return None;
    }
    let clamped = point.clamped_frequency();
    let ln_freq = A::natural_log(clamped);
    assert(natural_logs::<A>(point.clamped_frequency(), ln_freq));
    let x_t = ln_frequency_to_x_t::<A>(ln_freq);
    if !is_in_graph(x_t) {
        return None;
    }
    Some(point_place::<A>(bounds, curve, ln_freq, x_t, display_offset_db))
}

/// `r` is the square of the distance between two positions.
pub open spec fn is_distance_squared<A: Arithmetic>(a: Position, b: Position, r: Single) -> bool {
    exists|dx: Single, dy: Single, dx_squared: Single, dy_squared: Single| #[trigger]
        differences::<A>(a.x, b.x, dx) && #[trigger] differences::<A>(a.y, b.y, dy)
            && #[trigger] products::<A>(dx, dx, dx_squared) && #[trigger] products::<A>(
            dy,
            dy,
            dy_squared,
        ) && sums::<A>(dx_squared, dy_squared, r)
}

fn distance_squared<A: Arithmetic>(a: Position, b: Position) -> (r: Single)
    ensures
        is_distance_squared::<A>(a, b, r),
{
    let dx = A::difference(a.x, b.x);
    let dy = A::difference(a.y, b.y);
    let dx_squared = A::product(dx, dx);
    let dy_squared = A::product(dy, dy);
    A::sum(dx_squared, dy_squared)
}

/// `r` is the square of how close the pointer has to be to a point.
pub open spec fn is_reach_squared<A: Arithmetic>(scale_factor: Single, r: Single) -> bool {
    exists|radius: Single| #[trigger]
        products::<A>(scale_factor, single(HIT_RADIUS), radius) && products::<A>(radius, radius, r)
}

fn reach_squared<A: Arithmetic>(scale_factor: Single) -> (r: Single)
    ensures
        is_reach_squared::<A>(scale_factor, r),
{
    let radius = A::product(scale_factor, single(HIT_RADIUS));
    assert(products::<A>(scale_factor, single(HIT_RADIUS), radius));
    A::product(radius, radius)
}

/// `r` is the square of the distance of the pointer to a point that is shown and close enough.
pub open spec fn is_candidate<A: Arithmetic>(
    bounds: BoundingBox,
    curve: Curve,
    point: CurvePoint,
    display_offset_db: Single,
    pointer: Position,
    reach: Single,
    r: Option<Single>,
) -> bool {
    exists|position: Option<Position>| #[trigger]
        is_point_position::<A>(bounds, curve, point, display_offset_db, position)
            && match position {
            None => r is None,
            Some(place) => exists|distance: Single| #[trigger]
                is_distance_squared::<A>(pointer, place, distance) && r == if distance.at_most(
                    reach,
                ) {
                    Some(distance)
                } else {
                    None
                },
        }
}

fn candidate<A: Arithmetic>(
    bounds: BoundingBox,
    curve: &Curve,
    point: CurvePoint,
    display_offset_db: Single,
    pointer: Position,
    reach: Single,
) -> (r: Option<Single>)
    ensures
        is_candidate::<A>(bounds, *curve, point, display_offset_db, pointer, reach, r),
        r matches Some(distance) ==> !distance.is_nan(),
{
    match point_screen_position::<A>(bounds, curve, point, display_offset_db) {
        None => None,
        Some(place) => {
            let distance = distance_squared::<A>(pointer, place);
            if distance.at_most(reach) {
                Some(distance)
            } else {
                None
            }
        },
    }
}

/// `r` is the position of the smallest of the distances, the first of them where several are
/// equally small.
pub open spec fn is_nearest(distances: Seq<Option<Single>>, r: Option<usize>) -> bool {
    match r {
        None => forall|i: int| 0 <= i < distances.len() ==> (#[trigger] distances[i]) is None,
        Some(index) => {
            &&& index < distances.len()
            &&& distances[index as int] is Some
            &&& forall|i: int|
                0 <= i < distances.len() && (#[trigger] distances[i]) is Some ==> {
                    let this = distances[index as int]->0.order();
                    let other = distances[i]->0.order();
                    this < other || (this == other && index <= i)
                }
        },
    }
}

/// `r` is the curve point that the pointer is at, if it is at one.
pub open spec fn is_hit<A: Arithmetic>(
    view: AnalyzerView,
    pointer: Position,
    params: SpectralCompressorParams,
    r: Option<usize>,
) -> bool {
    if view.bounds.w.at_most(single(ZERO)) || view.bounds.h.at_most(single(ZERO)) {
        r is None
    } else {
        exists|curve_params: CurveParams, ln_center: Single, offset: Single, reach: Single|
            {
                &&& #[trigger] params.threshold.are_curve_params::<A>(curve_params)
                &&& #[trigger] natural_logs::<A>(curve_params.center_frequency, ln_center)
                &&& #[trigger] is_display_offset::<A>(
                    params.compressors.upwards.threshold_offset_db,
                    params.compressors.downwards.threshold_offset_db,
                    offset,
                )
                &&& #[trigger] is_reach_squared::<A>(view.scale_factor, reach)
                &&& is_hit_on::<A>(
                    view.bounds,
                    Curve { params: &curve_params, ln_center_frequency: ln_center },
                    offset,
                    pointer,
                    reach,
                    r,
                )
            }
    }
}

/// `distances` are those of the points that are close enough.
pub open spec fn are_candidates<A: Arithmetic>(
    bounds: BoundingBox,
    curve: Curve,
    display_offset_db: Single,
    pointer: Position,
    reach: Single,
    distances: Seq<Option<Single>>,
) -> bool {
    forall|i: int|
        0 <= i < distances.len() ==> is_candidate::<A>(
            bounds,
            curve,
            curve.params.points@[i],
            display_offset_db,
            pointer,
            reach,
            #[trigger] distances[i],
        )
}

/// `r` is the point of a curve that the pointer is at, if it is at one.
pub open spec fn is_hit_on<A: Arithmetic>(
    bounds: BoundingBox,
    curve: Curve,
    display_offset_db: Single,
    pointer: Position,
    reach: Single,
    r: Option<usize>,
) -> bool {
    exists|distances: Seq<Option<Single>>|
        {
            &&& distances.len() == MAX_THRESHOLD_CURVE_POINTS
            &&& #[trigger] are_candidates::<A>(
                bounds,
                curve,
                display_offset_db,
                pointer,
                reach,
                distances,
            )
            &&& is_nearest(distances, r)
        }
}

fn hit_on<A: Arithmetic>(
    bounds: BoundingBox,
    curve: &Curve,
    display_offset_db: Single,
    pointer: Position,
    reach: Single,
) -> (r: Option<usize>)
    ensures
        is_hit_on::<A>(bounds, *curve, display_offset_db, pointer, reach, r),
        r matches Some(index) ==> index < MAX_THRESHOLD_CURVE_POINTS,
{
    let mut nearest: Option<(usize, Single)> = None;
    let ghost mut distances: Seq<Option<Single>> = Seq::empty();
    let mut index: usize = 0;
    while index < MAX_THRESHOLD_CURVE_POINTS
        invariant
            index <= MAX_THRESHOLD_CURVE_POINTS,
            distances.len() == index,
            are_candidates::<A>(bounds, *curve, display_offset_db, pointer, reach, distances),
            forall|i: int|
                0 <= i < index && (#[trigger] distances[i]) is Some ==> !distances[i]->0.is_nan(),
            match nearest {
                None => is_nearest(distances, None),
                Some((i, distance)) => is_nearest(distances, Some(i)) && distances[i as int]
                    == Some(distance),
            },
        decreases MAX_THRESHOLD_CURVE_POINTS - index,
    {
        let found = candidate::<A>(
            bounds,
            curve,
            curve.params.points[index],
            display_offset_db,
            pointer,
            reach,
        );
        proof {
            let earlier = distances;
            distances = distances.push(found);
            assert(forall|i: int| 0 <= i < index ==> distances[i] == earlier[i]);
            assert(distances[index as int] == found);
        }
        if let Some(distance) = found {
            let is_nearer = match nearest {
                Some((_, nearest_distance)) => distance.below(nearest_distance),
                None => true,
            };
            if is_nearer {
                nearest = Some((index, distance));
            }
        }
        index += 1;
    }
    match nearest {
        Some((i, _)) => Some(i),
        None => None,
    }
}

/// Where the graph is and how large it is drawn.
#[derive(Clone, Copy, PartialEq, Eq, Debug, Structural)]
pub struct AnalyzerView {
    pub bounds: BoundingBox,
    pub scale_factor: Single,
}

/// The curve point that the pointer is at, if it is at one.
pub fn hit_test_point<A: Arithmetic>(
    view: AnalyzerView,
    pointer: Position,
    params: &SpectralCompressorParams,
) -> (r: Option<usize>)
    ensures
        is_hit::<A>(view, pointer, *params, r),
        r matches Some(index) ==> index < MAX_THRESHOLD_CURVE_POINTS,
{
    if view.bounds.w.at_most(single(ZERO)) || view.bounds.h.at_most(single(ZERO)) {
        return None;
    }
    let curve_params = params.threshold.curve_params::<A>();
    let curve = Curve::new::<A>(&curve_params);
    let display_offset_db = editable_curve_display_offset_db::<A>(
        params.compressors.upwards.threshold_offset_db,
        params.compressors.downwards.threshold_offset_db,
    );
    let reach = reach_squared::<A>(view.scale_factor);
    let r = hit_on::<A>(view.bounds, &curve, display_offset_db, pointer, reach);
    assert(natural_logs::<A>(curve_params.center_frequency, curve.ln_center_frequency));
    assert(is_hit_on::<A>(
        view.bounds,
        Curve { params: &curve_params, ln_center_frequency: curve.ln_center_frequency },
        display_offset_db,
        pointer,
        reach,
        r,
    ));
    r
}

/// `r` is how far along an axis a position is, between 0 and 1.
pub open spec fn is_share<A: Arithmetic>(
    start: Single,
    size: Single,
    position: Single,
    r: Single,
) -> bool {
    if size.at_most(single(ZERO)) {
        r == single(ZERO)
    } else {
        exists|way: Single, ratio: Single| #[trigger]
            differences::<A>(position, start, way) && #[trigger] quotients::<A>(way, size, ratio)
                && r == ratio.clamped(single(ZERO), single(ONE))
    }
}

/// `r` is how far up the graph a position is, between 0 and 1.
pub open spec fn is_share_from_bottom<A: Arithmetic>(
    start: Single,
    size: Single,
    position: Single,
    r: Single,
) -> bool {
    if size.at_most(single(ZERO)) {
        r == single(ZERO)
    } else {
        exists|way: Single, ratio: Single, rest: Single| #[trigger]
            differences::<A>(position, start, way) && #[trigger] quotients::<A>(way, size, ratio)
                && #[trigger] differences::<A>(single(ONE), ratio, rest) && r == rest.clamped(
                single(ZERO),
                single(ONE),
            )
    }
}

fn share<A: Arithmetic>(start: Single, size: Single, position: Single) -> (r: Single)
    ensures
        is_share::<A>(start, size, position, r),
{
    if size.at_most(single(ZERO)) {
        return single(ZERO);
    }
    let way = A::difference(position, start);
    let ratio = A::quotient(way, size);
    ratio.clamped(single(ZERO), single(ONE))
}

fn share_from_bottom<A: Arithmetic>(start: Single, size: Single, position: Single) -> (r: Single)
    ensures
        is_share_from_bottom::<A>(start, size, position, r),
{
    if size.at_most(single(ZERO)) {
        return single(ZERO);
    }
    let way = A::difference(position, start);
    let ratio = A::quotient(way, size);
    let rest = A::difference(single(ONE), ratio);
    assert(differences::<A>(single(ONE), ratio, rest));
    rest.clamped(single(ZERO), single(ONE))
}

/// The values of a curve point at a position of the graph.
#[derive(Clone, Copy, PartialEq, Eq, Debug, Structural)]
pub struct PointValues {
    pub frequency: Single,
    pub offset_db: Single,
}

/// `r` is the frequency at a share of the graph's width, and its logarithm.
pub open spec fn is_frequency_at<A: Arithmetic>(x_t: Single, ln_freq: Single, r: Single) -> bool {
    &&& is_along::<A>(single(LN_FREQ_RANGE_START_HZ), single(LN_FREQ_RANGE), x_t, ln_freq)
    &&& exists|frequency: Single| #[trigger]
        exponentials::<A>(ln_freq, frequency) && r == frequency.clamped(
            single(THRESHOLD_CURVE_MIN_FREQUENCY_HZ),
            single(THRESHOLD_CURVE_MAX_FREQUENCY_HZ),
        )
}

fn frequency_at<A: Arithmetic>(x_t: Single) -> (r: (Single, Single))
    ensures
        is_frequency_at::<A>(x_t, r.0, r.1),
{
    let ln_freq = along::<A>(single(LN_FREQ_RANGE_START_HZ), single(LN_FREQ_RANGE), x_t);
    let frequency = A::exponential(ln_freq);
    (
        ln_freq,
        frequency.clamped(
            single(THRESHOLD_CURVE_MIN_FREQUENCY_HZ),
            single(THRESHOLD_CURVE_MAX_FREQUENCY_HZ),
        ),
    )
}

/// `r` is the offset of a point that is shown at a height of the graph.
pub open spec fn is_offset_at<A: Arithmetic>(
    curve: Curve,
    ln_freq: Single,
    y_t: Single,
    display_offset_db: Single,
    r: Single,
) -> bool {
    exists|clicked_db: Single, shifted: Single, base: Single, offset: Single| #[trigger]
        is_t_db::<A>(y_t, clicked_db) && #[trigger] differences::<A>(
            clicked_db,
            display_offset_db,
            shifted,
        ) && #[trigger] is_base_level::<A>(*curve.params, curve.ln_center_frequency, ln_freq, base)
            && #[trigger] differences::<A>(shifted, base, offset) && r == offset.clamped(
            single(THRESHOLD_CURVE_POINT_OFFSET_LIMIT_DB).negated(),
            single(THRESHOLD_CURVE_POINT_OFFSET_LIMIT_DB),
        )
}

fn offset_at<A: Arithmetic>(
    curve: &Curve,
    ln_freq: Single,
    y_t: Single,
    display_offset_db: Single,
) -> (r: Single)
    ensures
        is_offset_at::<A>(*curve, ln_freq, y_t, display_offset_db, r),
{
    let clicked_db = unclamped_t_to_db::<A>(y_t);
    let shifted = A::difference(clicked_db, display_offset_db);
    let base = curve.evaluate_base_ln::<A>(ln_freq);
    let offset = A::difference(shifted, base);
    offset.clamped(
        single(THRESHOLD_CURVE_POINT_OFFSET_LIMIT_DB).negated(),
        single(THRESHOLD_CURVE_POINT_OFFSET_LIMIT_DB),
    )
}

/// `r` are the values of a curve point at a position of the graph.
pub open spec fn are_point_values<A: Arithmetic>(
    bounds: BoundingBox,
    pointer: Position,
    params: SpectralCompressorParams,
    r: PointValues,
) -> bool {
    exists|
        x_t: Single,
        y_t: Single,
        ln_freq: Single,
        curve_params: CurveParams,
        ln_center: Single,
        offset: Single,
    |
        {
            &&& #[trigger] is_share::<A>(bounds.x, bounds.w, pointer.x, x_t)
            &&& #[trigger] is_share_from_bottom::<A>(bounds.y, bounds.h, pointer.y, y_t)
            &&& #[trigger] is_frequency_at::<A>(x_t, ln_freq, r.frequency)
            &&& #[trigger] params.threshold.are_curve_params::<A>(curve_params)
            &&& #[trigger] natural_logs::<A>(curve_params.center_frequency, ln_center)
            &&& #[trigger] is_display_offset::<A>(
                params.compressors.upwards.threshold_offset_db,
                params.compressors.downwards.threshold_offset_db,
                offset,
            )
            &&& is_offset_at::<A>(
                Curve { params: &curve_params, ln_center_frequency: ln_center },
                ln_freq,
                y_t,
                offset,
                r.offset_db,
            )
        }
}

/// The values of a curve point at a position of the graph.
pub fn screen_to_point_values<A: Arithmetic>(
    bounds: BoundingBox,
    pointer: Position,
    params: &SpectralCompressorParams,
) -> (r: PointValues)
    ensures
        are_point_values::<A>(bounds, pointer, *params, r),
{
    let x_t = share::<A>(bounds.x, bounds.w, pointer.x);
    let y_t = share_from_bottom::<A>(bounds.y, bounds.h, pointer.y);
    let (ln_freq, frequency) = frequency_at::<A>(x_t);
    let curve_params = params.threshold.curve_params::<A>();
    let curve = Curve::new::<A>(&curve_params);
    let display_offset_db = editable_curve_display_offset_db::<A>(
        params.compressors.upwards.threshold_offset_db,
        params.compressors.downwards.threshold_offset_db,
    );
    let offset_db = offset_at::<A>(&curve, ln_freq, y_t, display_offset_db);
    let r = PointValues { frequency, offset_db };
    assert(is_frequency_at::<A>(x_t, ln_freq, r.frequency));
    assert(natural_logs::<A>(curve_params.center_frequency, curve.ln_center_frequency));
    assert(is_offset_at::<A>(
        Curve { params: &curve_params, ln_center_frequency: curve.ln_center_frequency },
        ln_freq,
        y_t,
        display_offset_db,
        r.offset_db,
    ));
    r
}

/// `r` is the first curve point that is not in use, if there is one.
pub open spec fn is_first_free(params: SpectralCompressorParams, r: Option<usize>) -> bool {
    match r {
        None => forall|i: int|
            0 <= i < MAX_THRESHOLD_CURVE_POINTS ==> (
            #[trigger] params.threshold.curve_points@[i]).enabled,
        Some(index) => {
            &&& index < MAX_THRESHOLD_CURVE_POINTS
            &&& !params.threshold.curve_points@[index as int].enabled
            &&& forall|i: int|
                0 <= i < index ==> (#[trigger] params.threshold.curve_points@[i]).enabled
        },
    }
}

/// The first curve point that is not in use, if there is one.
pub fn first_free_point_index(params: &SpectralCompressorParams) -> (r: Option<usize>)
    ensures
        is_first_free(*params, r),
{
    let mut index: usize = 0;
    while index < MAX_THRESHOLD_CURVE_POINTS
        invariant
            index <= MAX_THRESHOLD_CURVE_POINTS,
            forall|i: int|
                0 <= i < index ==> (#[trigger] params.threshold.curve_points@[i]).enabled,
        decreases MAX_THRESHOLD_CURVE_POINTS - index,
    {
        if !params.threshold.curve_points[index].enabled {
            return Some(index);
        }
        index += 1;
    }
    None
}

/// One step of changing parameters: hosts want to know when a gesture begins and ends.
#[derive(Clone, Copy, PartialEq, Eq, Debug, Structural)]
pub enum Gesture {
    Begin(ParamTarget),
    Change(ParamWrite),
    End(ParamTarget),
}

/// What happens to the pointer.
#[derive(Clone, Copy, PartialEq, Eq, Debug, Structural)]
pub enum PointerGrab {
    Unchanged,
    /// The graph gets all of the pointer's events.
    Captured,
    Released,
}

/// What a pointer event comes to.
pub struct AnalyzerResponse {
    pub consumed: bool,
    pub gestures: Vec<Gesture>,
    pub grab: PointerGrab,
}

/// The gestures that set whether a point is in use.
pub open spec fn enable_gestures(index: usize, enabled: bool) -> Seq<Gesture> {
    seq![
        Gesture::Begin(ParamTarget::PointEnabled(index)),
        Gesture::Change(flag_write(ParamTarget::PointEnabled(index), enabled)),
        Gesture::End(ParamTarget::PointEnabled(index)),
    ]
}

/// The gestures that start dragging a point.
pub open spec fn begin_gestures(index: usize) -> Seq<Gesture> {
    seq![
        Gesture::Begin(ParamTarget::PointFrequency(index)),
        Gesture::Begin(ParamTarget::PointOffsetDb(index)),
    ]
}

/// The gestures that move a point.
pub open spec fn move_gestures(index: usize, values: PointValues) -> Seq<Gesture> {
    seq![
        Gesture::Change(number_write(ParamTarget::PointFrequency(index), values.frequency)),
        Gesture::Change(number_write(ParamTarget::PointOffsetDb(index), values.offset_db)),
    ]
}

/// The gestures that end dragging a point.
pub open spec fn end_gestures(index: Option<usize>) -> Seq<Gesture> {
    match index {
        Some(index) => seq![
            Gesture::End(ParamTarget::PointFrequency(index)),
            Gesture::End(ParamTarget::PointOffsetDb(index)),
        ],
        None => Seq::empty(),
    }
}

/// The editing state of the analyzer graph.
#[derive(Clone, Copy, PartialEq, Eq, Debug, Structural)]
pub struct Analyzer {
    pub selected_point_index: Option<usize>,
    pub drag_active: bool,
}

impl Analyzer {
    /// Nothing is dragged.
    #[verifier::allow_in_spec]
    pub fn new() -> Analyzer
        returns
            (Analyzer { selected_point_index: None, drag_active: false }),
    {
        Analyzer { selected_point_index: None, drag_active: false }
    }

    /// A point is selected exactly while it is dragged.
    pub open spec fn wf(self) -> bool {
        &&& self.drag_active == self.selected_point_index is Some
        &&& self.selected_point_index matches Some(index) ==> index < MAX_THRESHOLD_CURVE_POINTS
    }

    /// Dragging the point at `index`.
    #[verifier::allow_in_spec]
    pub fn dragging(index: usize) -> Analyzer
        returns
            (Analyzer { selected_point_index: Some(index), drag_active: true }),
    {
        Analyzer { selected_point_index: Some(index), drag_active: true }
    }

    /// Nothing happens.
    pub open spec fn ignores(self, after: Analyzer, response: AnalyzerResponse) -> bool {
        &&& after == self
        &&& !response.consumed
        &&& response.gestures@.len() == 0
        &&& response.grab == PointerGrab::Unchanged
    }

    /// Dragging ends.
    pub open spec fn drops(self, after: Analyzer, response: AnalyzerResponse) -> bool {
        &&& after == Analyzer::new()
        &&& response.consumed
        &&& response.gestures@ == end_gestures(self.selected_point_index)
        &&& response.grab == PointerGrab::Released
    }

    /// What pressing the left button does while nothing is dragged: a point that the pointer is at
    /// is dragged, else a point that is not in use is put there and dragged.
    pub open spec fn picks_up<A: Arithmetic>(
        self,
        view: AnalyzerView,
        pointer: Position,
        params: SpectralCompressorParams,
        after: Analyzer,
        response: AnalyzerResponse,
    ) -> bool {
        &&& response.consumed
        &&& exists|hit: Option<usize>| #[trigger]
            is_hit::<A>(view, pointer, params, hit) && match hit {
                Some(index) => {
                    &&& after == Analyzer::dragging(index)
                    &&& response.gestures@ == begin_gestures(index)
                    &&& response.grab == PointerGrab::Captured
                },
                None => exists|free: Option<usize>| #[trigger]
                    is_first_free(params, free) && match free {
                        Some(index) => exists|values: PointValues| #[trigger]
                            are_point_values::<A>(view.bounds, pointer, params, values) && {
                                &&& after == Analyzer::dragging(index)
                                &&& response.gestures@ == enable_gestures(index, true)
                                    + begin_gestures(index) + move_gestures(index, values)
                                &&& response.grab == PointerGrab::Captured
                            },
                        None => {
                            &&& after == self
                            &&& response.gestures@.len() == 0
                            &&& response.grab == PointerGrab::Unchanged
                        },
                    },
            }
    }

    /// What pressing the right button does while nothing is dragged: a point that the pointer is at
    /// is no longer in use.
    pub open spec fn takes_away<A: Arithmetic>(
        self,
        view: AnalyzerView,
        pointer: Position,
        params: SpectralCompressorParams,
        after: Analyzer,
        response: AnalyzerResponse,
    ) -> bool {
        &&& after == self
        &&& response.grab == PointerGrab::Unchanged
        &&& exists|hit: Option<usize>| #[trigger]
            is_hit::<A>(view, pointer, params, hit) && match hit {
                Some(index) => response.consumed && response.gestures@ == enable_gestures(
                    index,
                    false,
                ),
                None => !response.consumed && response.gestures@.len() == 0,
            }
    }

    /// What a pointer event does, where `pointer` is where the pointer is.
    pub open spec fn handles<A: Arithmetic>(
        self,
        event: PointerEvent,
        view: AnalyzerView,
        pointer: Position,
        params: SpectralCompressorParams,
        after: Analyzer,
        response: AnalyzerResponse,
    ) -> bool {
        if event.is_left_press() {
            if self.drag_active {
                self.drops(after, response)
            } else {
                self.picks_up::<A>(view, pointer, params, after, response)
            }
        } else if event.is_right_press() {
            if self.drag_active {
                self.drops(after, response)
            } else {
                self.takes_away::<A>(view, pointer, params, after, response)
            }
        } else {
            match event {
                PointerEvent::Up(MouseButton::Left) => if self.drag_active {
                    self.drops(after, response)
                } else {
                    self.ignores(after, response)
                },
                PointerEvent::Moved(position) => if self.drag_active {
                    &&& after == self
                    &&& response.consumed
                    &&& response.grab == PointerGrab::Unchanged
                    &&& match self.selected_point_index {
                        Some(index) => exists|values: PointValues| #[trigger]
                            are_point_values::<A>(view.bounds, position, params, values)
                                && response.gestures@ == move_gestures(index, values),
                        None => response.gestures@.len() == 0,
                    }
                } else {
                    self.ignores(after, response)
                },
                _ => self.ignores(after, response),
            }
        }
    }

    fn finish_drag(&mut self) -> (response: AnalyzerResponse)
        ensures
            old(self).drops(*final(self), response),
    {
        let mut gestures: Vec<Gesture> = Vec::new();
        if let Some(index) = self.selected_point_index {
            gestures.push(Gesture::End(ParamTarget::PointFrequency(index)));
            gestures.push(Gesture::End(ParamTarget::PointOffsetDb(index)));
        }
        assert(gestures@ =~= end_gestures(self.selected_point_index));
        *self = Analyzer::new();
        AnalyzerResponse { consumed: true, gestures, grab: PointerGrab::Released }
    }

    fn pick_up<A: Arithmetic>(
        &mut self,
        view: AnalyzerView,
        pointer: Position,
        params: &SpectralCompressorParams,
    ) -> (response: AnalyzerResponse)
        requires
            old(self).wf(),
        ensures
            final(self).wf(),
            old(self).picks_up::<A>(view, pointer, *params, *final(self), response),
    {
        let mut gestures: Vec<Gesture> = Vec::new();
        let hit = hit_test_point::<A>(view, pointer, params);
        if let Some(index) = hit {
            gestures.push(Gesture::Begin(ParamTarget::PointFrequency(index)));
            gestures.push(Gesture::Begin(ParamTarget::PointOffsetDb(index)));
            assert(gestures@ =~= begin_gestures(index));
            *self = Analyzer::dragging(index);
            return AnalyzerResponse { consumed: true, gestures, grab: PointerGrab::Captured };
        }
        let free = first_free_point_index(params);
        match free {
            Some(index) => {
                let values = screen_to_point_values::<A>(view.bounds, pointer, params);
                gestures.push(Gesture::Begin(ParamTarget::PointEnabled(index)));
                gestures.push(Gesture::Change(flag_write(ParamTarget::PointEnabled(index), true)));
                gestures.push(Gesture::End(ParamTarget::PointEnabled(index)));
                gestures.push(Gesture::Begin(ParamTarget::PointFrequency(index)));
                gestures.push(Gesture::Begin(ParamTarget::PointOffsetDb(index)));
                gestures.push(
                    Gesture::Change(
                        number_write(ParamTarget::PointFrequency(index), values.frequency),
                    ),
                );
                gestures.push(
                    Gesture::Change(number_write(ParamTarget::PointOffsetDb(index), values.offset_db)),
                );
                assert(gestures@ =~= enable_gestures(index, true) + begin_gestures(index)
                    + move_gestures(index, values));
                *self = Analyzer::dragging(index);
                AnalyzerResponse { consumed: true, gestures, grab: PointerGrab::Captured }
            },
            None => AnalyzerResponse { consumed: true, gestures, grab: PointerGrab::Unchanged },
        }
    }

    fn take_away<A: Arithmetic>(
        &self,
        view: AnalyzerView,
        pointer: Position,
        params: &SpectralCompressorParams,
    ) -> (response: AnalyzerResponse)
        ensures
            self.takes_away::<A>(view, pointer, *params, *self, response),
    {
        let mut gestures: Vec<Gesture> = Vec::new();
        let hit = hit_test_point::<A>(view, pointer, params);
        let consumed = hit.is_some();
        if let Some(index) = hit {
            gestures.push(Gesture::Begin(ParamTarget::PointEnabled(index)));
            gestures.push(Gesture::Change(flag_write(ParamTarget::PointEnabled(index), false)));
            gestures.push(Gesture::End(ParamTarget::PointEnabled(index)));
            assert(gestures@ =~= enable_gestures(index, false));
        }
        AnalyzerResponse { consumed, gestures, grab: PointerGrab::Unchanged }
    }

    /// Handles a pointer event.
    pub fn event<A: Arithmetic>(
        &mut self,
        event: PointerEvent,
        view: AnalyzerView,
        pointer: Position,
        params: &SpectralCompressorParams,
    ) -> (response: AnalyzerResponse)
        requires
            old(self).wf(),
        ensures
            final(self).wf(),
            old(self).handles::<A>(event, view, pointer, *params, *final(self), response),
    {
        let is_press = event.is_left_press() || event.is_right_press();
        if is_press && self.drag_active {
            return self.finish_drag();
        }
        if event.is_left_press() {
            return self.pick_up::<A>(view, pointer, params);
        }
        if event.is_right_press() {
            return self.take_away::<A>(view, pointer, params);
        }
        let mut gestures: Vec<Gesture> = Vec::new();
        let mut consumed = false;
        if self.drag_active {
            match event {
                PointerEvent::Up(MouseButton::Left) => {
                    return self.finish_drag();
                },
                PointerEvent::Moved(position) => {
                    if let Some(index) = self.selected_point_index {
                        let values = screen_to_point_values::<A>(view.bounds, position, params);
                        gestures.push(
                            Gesture::Change(
                                number_write(ParamTarget::PointFrequency(index), values.frequency),
                            ),
                        );
                        gestures.push(
                            Gesture::Change(
                                number_write(ParamTarget::PointOffsetDb(index), values.offset_db),
                            ),
                        );
                        assert(gestures@ =~= move_gestures(index, values));
                    }
                    consumed = true;
                },
                _ => {},
            }
        }
        AnalyzerResponse { consumed, gestures, grab: PointerGrab::Unchanged }
    }
}

/// The points that are put or dragged in the graph stay in the range that curve points may have, as
/// long as what is computed for them is a number.
pub proof fn law_edited_points_are_in_range<A: Arithmetic>(
    bounds: BoundingBox,
    pointer: Position,
    params: SpectralCompressorParams,
    values: PointValues,
)
    requires
        are_point_values::<A>(bounds, pointer, params, values),
        !values.frequency.is_nan(),
        !values.offset_db.is_nan(),
    ensures
        values.frequency.is_within(
            single(THRESHOLD_CURVE_MIN_FREQUENCY_HZ),
            single(THRESHOLD_CURVE_MAX_FREQUENCY_HZ),
        ),
        values.offset_db.is_within(
            single(THRESHOLD_CURVE_POINT_OFFSET_LIMIT_DB).negated(),
            single(THRESHOLD_CURVE_POINT_OFFSET_LIMIT_DB),
        ),
{
}

/// The values of the constants.
pub proof fn lemma_constants_of_the_graph()
    ensures
        single(EIGHTY).value() == 80real && single(EIGHTY).is_finite(),
        single(ONE_HUNDRED).value() == 100real && single(ONE_HUNDRED).is_finite(),
        single(HIT_RADIUS).value() == 8real && single(HIT_RADIUS).is_finite(),
        single(ONE_HALF).value() * 2real == 1real && single(ONE_HALF).is_finite(),
        single(LN_FREQ_RANGE_START_HZ).value() * 4194304real == 14265656real,
        single(LN_FREQ_RANGE_START_HZ).is_finite(),
        single(LN_FREQ_RANGE).value() * 2097152real == 13836170real,
        single(LN_FREQ_RANGE).is_finite(),
{
    vstd::arithmetic::power2::lemma2_to64();
    assert(pow2(17) == 0x2_0000 && pow2(20) == 0x10_0000 && pow2(21) == 0x20_0000);
    assert(pow2(22) == 0x40_0000 && pow2(24) == 0x100_0000);
    assert(pow2(17) as int as real == 131072real);
    assert(pow2(20) as int as real == 1048576real);
    assert(pow2(21) as int as real == 2097152real);
    assert(pow2(22) as int as real == 4194304real);
    assert(pow2(24) as int as real == 16777216real);
    lemma_value_of(EIGHTY, 0xa0_0000, 17);
    lemma_value_of(ONE_HUNDRED, 0xc8_0000, 17);
    lemma_value_of(HIT_RADIUS, 0x80_0000, 20);
    lemma_value_of(ONE_HALF, 0x80_0000, 24);
    lemma_value_of(LN_FREQ_RANGE_START_HZ, 0xd9_ad38, 22);
    lemma_value_of(LN_FREQ_RANGE, 0xd3_1f8a, 21);
}

/// The graph reaches linearly from -80 dB at its bottom to +20 dB at its top, and the level at the
/// height of a level is that level.
pub proof fn law_levels_span_the_height<A: Arithmetic>(db: Single, t: Single, back: Single)
    requires
        is_exact::<A>(),
        db.is_finite(),
        is_y_t::<A>(db, t),
        is_t_db::<A>(t, back),
    ensures
        t.is_finite() && back.is_finite(),
        db.value() == -80real ==> t.value() == 0real,
        db.value() == 20real ==> t.value() == 1real,
        t.value() * 100real == db.value() + 80real,
        back.value() == db.value(),
{
    lemma_constants_of_the_graph();
    let raised = choose|raised: Single| #[trigger]
        sums::<A>(db, single(EIGHTY), raised) && quotients::<A>(raised, single(ONE_HUNDRED), t);
    assert(t.value() * 100real == db.value() + 80real);
    let scaled = choose|scaled: Single| #[trigger]
        products::<A>(t, single(ONE_HUNDRED), scaled) && differences::<A>(
            scaled,
            single(EIGHTY),
            back,
        );
}

/// The graph reaches, on a logarithmic scale, from `ln(30)` to `ln(22000)`, to the precision of the
/// encodings of where it starts and of how wide it is. The frequency at the position of a frequency
/// is that frequency.
pub proof fn law_frequencies_span_the_width<A: Arithmetic>(
    start: real,
    range: real,
    ln_frequency: Single,
    x_t: Single,
    ln_back: Single,
    frequency: Single,
)
    requires
        is_exact::<A>(),
        start * 4194304real == 14265656real,
        range * 2097152real == 13836170real,
        ln_frequency.is_finite(),
        is_x_t::<A>(ln_frequency, x_t),
        is_frequency_at::<A>(x_t, ln_back, frequency),
    ensures
        x_t.is_finite() && ln_back.is_finite(),
        x_t.value() * range == ln_frequency.value() - start,
        ln_frequency.value() == start ==> x_t.value() == 0real,
        ln_frequency.value() == start + range ==> x_t.value() == 1real,
        ln_back.value() == ln_frequency.value(),
{
    lemma_constants_of_the_graph();
    lemma_cancel(single(LN_FREQ_RANGE_START_HZ).value(), start, 4194304real);
    lemma_cancel(single(LN_FREQ_RANGE).value(), range, 2097152real);
    let way = choose|way: Single| #[trigger]
        differences::<A>(ln_frequency, single(LN_FREQ_RANGE_START_HZ), way) && quotients::<A>(
            way,
            single(LN_FREQ_RANGE),
            x_t,
        );
    assert(x_t.value() * range == ln_frequency.value() - start);
    lemma_sign_of_product(x_t.value(), range);
    if ln_frequency.value() == start + range {
        lemma_cancel(x_t.value(), 1real, range);
    }
    let along = choose|along: Single| #[trigger]
        products::<A>(single(LN_FREQ_RANGE), x_t, along) && sums::<A>(
            single(LN_FREQ_RANGE_START_HZ),
            along,
            ln_back,
        );
    lemma_regroup(range, x_t.value(), 0real);
}

/// How far along an axis a position is: 0 before its start, 1 behind its end, and between them the
/// share of the way from the one to the other. From the bottom it is the rest of the way.
pub proof fn law_shares_measure_positions<A: Arithmetic>(
    start: Single,
    size: Single,
    position: Single,
    share: Single,
    from_bottom: Single,
)
    requires
        is_exact::<A>(),
        start.is_finite() && size.is_finite() && position.is_finite(),
        size.value() > 0real,
        is_share::<A>(start, size, position, share),
        is_share_from_bottom::<A>(start, size, position, from_bottom),
    ensures
        share.is_finite() && from_bottom.is_finite(),
        position.value() <= start.value() ==> share.value() == 0real && from_bottom.value() == 1real,
        position.value() >= start.value() + size.value() ==> share.value() == 1real
            && from_bottom.value() == 0real,
        start.value() <= position.value() <= start.value() + size.value() ==> share.value()
            * size.value() == position.value() - start.value(),
        share.value() + from_bottom.value() == 1real,
{
    lemma_constants();
    lemma_order_is_by_value(size, single(ZERO));
    let s = size.value();
    let (way, ratio) = choose|way: Single, ratio: Single| #[trigger]
        differences::<A>(position, start, way) && #[trigger] quotients::<A>(way, size, ratio)
            && share == ratio.clamped(single(ZERO), single(ONE));
    let (other_way, other_ratio, rest) = choose|way: Single, ratio: Single, rest: Single| #[trigger]
        differences::<A>(position, start, way) && #[trigger] quotients::<A>(way, size, ratio)
            && #[trigger] differences::<A>(single(ONE), ratio, rest) && from_bottom == rest.clamped(
            single(ZERO),
            single(ONE),
        );
    lemma_cancel(ratio.value(), other_ratio.value(), s);
    lemma_selections(ratio, single(ZERO), single(ONE));
    lemma_selections(rest, single(ZERO), single(ONE));
    let r = ratio.value();
    assert(r * s == position.value() - start.value());
    lemma_sign_of_product(r, s);
    lemma_sign_of_product(r - 1real, s);
    lemma_sign_of_product(1real - r, s);
    lemma_sign_of_product(-r, s);
    lemma_regroup(r, 1real, s);
    lemma_regroup(1real, r, s);
    lemma_regroup(0real, r, s);
    lemma_sign_of_product(0real, s);
}

/// The position of a share of an axis is where that share is measured: the start for 0, the end for
/// 1, and the other way round for heights.
pub proof fn law_positions_are_where_shares_are_measured<A: Arithmetic>(
    bounds: BoundingBox,
    t: Single,
    x: Single,
    y: Single,
    x_share: Single,
    y_share: Single,
)
    requires
        is_exact::<A>(),
        bounds.x.is_finite() && bounds.y.is_finite(),
        bounds.w.is_finite() && bounds.h.is_finite(),
        bounds.w.value() > 0real,
        bounds.h.value() > 0real,
        t.is_finite(),
        0real <= t.value() <= 1real,
        is_along::<A>(bounds.x, bounds.w, t, x),
        is_height::<A>(bounds, t, y),
        is_share::<A>(bounds.x, bounds.w, x, x_share),
        is_share_from_bottom::<A>(bounds.y, bounds.h, y, y_share),
    ensures
        x.is_finite() && y.is_finite(),
        t.value() == 0real ==> x.value() == bounds.x.value() && y.value() == bounds.y.value()
            + bounds.h.value(),
        t.value() == 1real ==> x.value() == bounds.x.value() + bounds.w.value() && y.value()
            == bounds.y.value(),
        x_share.value() == t.value(),
        y_share.value() == t.value(),
{
    lemma_constants();
    lemma_order_is_by_value(bounds.w, single(ZERO));
    lemma_order_is_by_value(bounds.h, single(ZERO));
    let (w, h) = (bounds.w.value(), bounds.h.value());
    let way = choose|way: Single| #[trigger]
        products::<A>(bounds.w, t, way) && sums::<A>(bounds.x, way, x);
    let depth = choose|depth: Single| #[trigger]
        differences::<A>(single(ONE), t, depth) && is_along::<A>(bounds.y, bounds.h, depth, y);
    let down = choose|way: Single| #[trigger]
        products::<A>(bounds.h, depth, way) && sums::<A>(bounds.y, way, y);
    lemma_sign_of_product(w, t.value());
    lemma_sign_of_product(h, depth.value());
    let (x_way, x_ratio) = choose|way: Single, ratio: Single| #[trigger]
        differences::<A>(x, bounds.x, way) && #[trigger] quotients::<A>(way, bounds.w, ratio)
            && x_share == ratio.clamped(single(ZERO), single(ONE));
    lemma_regroup(w, t.value(), 0real);
    lemma_cancel(x_ratio.value(), t.value(), w);
    lemma_selections(x_ratio, single(ZERO), single(ONE));
    let (y_way, y_ratio, rest) = choose|way: Single, ratio: Single, rest: Single| #[trigger]
        differences::<A>(y, bounds.y, way) && #[trigger] quotients::<A>(way, bounds.h, ratio)
            && #[trigger] differences::<A>(single(ONE), ratio, rest) && y_share == rest.clamped(
            single(ZERO),
            single(ONE),
        );
    lemma_regroup(h, depth.value(), 0real);
    lemma_cancel(y_ratio.value(), depth.value(), h);
    lemma_selections(rest, single(ZERO), single(ONE));
}

/// Curve points are shown halfway between the two thresholds.
pub proof fn law_points_are_shown_between_the_thresholds<A: Arithmetic>(
    upwards_offset_db: Single,
    downwards_offset_db: Single,
    shown: Single,
)
    requires
        is_exact::<A>(),
        upwards_offset_db.is_finite() && downwards_offset_db.is_finite(),
        is_display_offset::<A>(upwards_offset_db, downwards_offset_db, shown),
    ensures
        shown.is_finite(),
        shown.value() - upwards_offset_db.value() == downwards_offset_db.value() - shown.value(),
{
    lemma_constants_of_the_graph();
    let sum = choose|sum: Single| #[trigger]
        sums::<A>(upwards_offset_db, downwards_offset_db, sum) && products::<A>(
            sum,
            single(ONE_HALF),
            shown,
        );
    let half = single(ONE_HALF).value();
    lemma_regroup(sum.value(), half, 2real);
    assert(shown.value() * 2real == sum.value() * (half * 2real));
}

/// The pointer is close enough to a point where their distance is at most eight pixels.
pub proof fn law_points_are_hit_within_eight_pixels<A: Arithmetic>(
    pointer: Position,
    place: Position,
    scale_factor: Single,
    distance: Single,
    reach: Single,
)
    requires
        is_exact::<A>(),
        pointer.x.is_finite() && pointer.y.is_finite(),
        place.x.is_finite() && place.y.is_finite(),
        scale_factor.is_finite(),
        is_distance_squared::<A>(pointer, place, distance),
        is_reach_squared::<A>(scale_factor, reach),
    ensures
        distance.is_finite() && reach.is_finite(),
        distance.at_most(reach) == ((pointer.x.value() - place.x.value()) * (pointer.x.value()
            - place.x.value()) + (pointer.y.value() - place.y.value()) * (pointer.y.value()
            - place.y.value()) <= (scale_factor.value() * 8real) * (scale_factor.value() * 8real)),
{
    lemma_constants_of_the_graph();
    let (dx, dy, dx_squared, dy_squared) = choose|
        dx: Single,
        dy: Single,
        dx_squared: Single,
        dy_squared: Single,
    | #[trigger]
        differences::<A>(pointer.x, place.x, dx) && #[trigger] differences::<A>(
            pointer.y,
            place.y,
            dy,
        ) && #[trigger] products::<A>(dx, dx, dx_squared) && #[trigger] products::<A>(
            dy,
            dy,
            dy_squared,
        ) && sums::<A>(dx_squared, dy_squared, distance);
    let radius = choose|radius: Single| #[trigger]
        products::<A>(scale_factor, single(HIT_RADIUS), radius) && products::<A>(
            radius,
            radius,
            reach,
        );
    lemma_order_is_by_value(distance, reach);
}

/// A point that is put or dragged to a height of the graph is shown there: the level of the base
/// curve, with the point's offset and with what all points are shown above the curve, is the level
/// at that height. Where that would take an offset beyond 60 dB, the point gets the nearest one.
pub proof fn law_edited_points_are_shown_at_the_pointer<A: Arithmetic>(
    curve: Curve,
    ln_freq: Single,
    y_t: Single,
    display_offset_db: Single,
    base: Single,
    offset_db: Single,
)
    requires
        is_exact::<A>(),
        curve.params.intercept.is_finite() && curve.params.slope.is_finite(),
        curve.params.curve.is_finite() && curve.ln_center_frequency.is_finite(),
        ln_freq.is_finite() && y_t.is_finite() && display_offset_db.is_finite(),
        is_base_level::<A>(*curve.params, curve.ln_center_frequency, ln_freq, base),
        is_offset_at::<A>(curve, ln_freq, y_t, display_offset_db, offset_db),
    ensures
        offset_db.is_finite(),
        -60real <= offset_db.value() <= 60real,
        ({
            let missing = y_t.value() * 100real - 80real - base.value()
                - display_offset_db.value();
            &&& -60real <= missing <= 60real ==> offset_db.value() == missing
            &&& missing > 60real ==> offset_db.value() == 60real
            &&& missing < -60real ==> offset_db.value() == -60real
        }),
{
    lemma_constants_of_the_graph();
    lemma_range_of_points();
    let limit = single(THRESHOLD_CURVE_POINT_OFFSET_LIMIT_DB);
    let (clicked_db, shifted, own_base, offset) = choose|
        clicked_db: Single,
        shifted: Single,
        base: Single,
        offset: Single,
    | #[trigger]
        is_t_db::<A>(y_t, clicked_db) && #[trigger] differences::<A>(
            clicked_db,
            display_offset_db,
            shifted,
        ) && #[trigger] is_base_level::<A>(*curve.params, curve.ln_center_frequency, ln_freq, base)
            && #[trigger] differences::<A>(shifted, base, offset) && offset_db == offset.clamped(
            limit.negated(),
            limit,
        );
    let scaled = choose|scaled: Single| #[trigger]
        products::<A>(y_t, single(ONE_HUNDRED), scaled) && differences::<A>(
            scaled,
            single(EIGHTY),
            clicked_db,
        );
    let center = curve.ln_center_frequency;
    lemma_base_is_one_value::<A>(*curve.params, center, center, ln_freq, base, own_base);
    lemma_selections(offset, limit.negated(), limit);
}

/// A change of a target has begun and has not ended.
pub open spec fn is_changing(gestures: Seq<Gesture>, target: ParamTarget) -> bool
    decreases gestures.len(),
{
    if gestures.len() == 0 {
        false
    } else if gestures.last() == Gesture::Begin(target) {
        true
    } else if gestures.last() == Gesture::End(target) {
        false
    } else {
        is_changing(gestures.drop_last(), target)
    }
}

proof fn lemma_changing_after(gestures: Seq<Gesture>, gesture: Gesture, target: ParamTarget)
    ensures
        is_changing(gestures.push(gesture), target) == (gesture == Gesture::Begin(target) || (gesture
            != Gesture::End(target) && is_changing(gestures, target))),
{
    assert(gestures.push(gesture).drop_last() =~= gestures);
}

/// While a point is dragged, its frequency and its offset are being changed and nothing else is. Once
/// it is dropped, nothing is being changed any more, and the pointer is free.
pub proof fn law_drags_end_what_they_begin<A: Arithmetic>(
    before: Analyzer,
    view: AnalyzerView,
    pointer: Position,
    params: SpectralCompressorParams,
    dragging: Analyzer,
    picked: AnalyzerResponse,
    after: Analyzer,
    dropped: AnalyzerResponse,
    target: ParamTarget,
)
    requires
        before.wf(),
        !before.drag_active,
        before.picks_up::<A>(view, pointer, params, dragging, picked),
        dragging.drag_active,
        dragging.drops(after, dropped),
    ensures
        picked.grab is Captured && dropped.grab is Released,
        dragging.selected_point_index is Some,
        is_changing(picked.gestures@, target) == (target == ParamTarget::PointFrequency(
            dragging.selected_point_index->0,
        ) || target == ParamTarget::PointOffsetDb(dragging.selected_point_index->0)),
        !is_changing(picked.gestures@ + dropped.gestures@, target),
        !after.drag_active && after.selected_point_index is None,
{
    let index = dragging.selected_point_index->0;
    let (frequency, offset, enabled) = (
        ParamTarget::PointFrequency(index),
        ParamTarget::PointOffsetDb(index),
        ParamTarget::PointEnabled(index),
    );
    let none = Seq::<Gesture>::empty();
    let all = picked.gestures@;
    if all.len() == 2 {
        let one = none.push(Gesture::Begin(frequency));
        assert(all =~= one.push(Gesture::Begin(offset)));
        lemma_changing_after(none, Gesture::Begin(frequency), target);
        lemma_changing_after(one, Gesture::Begin(offset), target);
    } else {
        let one = none.push(Gesture::Begin(enabled));
        let two = one.push(all[1]);
        let three = two.push(Gesture::End(enabled));
        let four = three.push(Gesture::Begin(frequency));
        let five = four.push(Gesture::Begin(offset));
        let six = five.push(all[5]);
        assert(all =~= six.push(all[6]));
        lemma_changing_after(none, Gesture::Begin(enabled), target);
        lemma_changing_after(one, all[1], target);
        lemma_changing_after(two, Gesture::End(enabled), target);
        lemma_changing_after(three, Gesture::Begin(frequency), target);
        lemma_changing_after(four, Gesture::Begin(offset), target);
        lemma_changing_after(five, all[5], target);
        lemma_changing_after(six, all[6], target);
    }
    let first = all.push(Gesture::End(frequency));
    assert(all + dropped.gestures@ =~= first.push(Gesture::End(offset)));
    lemma_changing_after(all, Gesture::End(frequency), target);
    lemma_changing_after(first, Gesture::End(offset), target);
}

} // verus!
