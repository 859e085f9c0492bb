//! Abstractions for the parameterized threshold curve, shared by the compressor bank and the
//! editor.

use vstd::arithmetic::power2::{lemma_pow2_pos, pow2};
use vstd::prelude::*;

use crate::arithmetic::{
    differences, have_same_sign, natural_logs, products, products_keep_order, quotients, sums,
    sums_keep_order, Arithmetic,
};
use crate::exact::{
    is_exact, lemma_cancel, lemma_constants, lemma_order_is_by_value, lemma_regroup,
    lemma_selections, lemma_sign_of_product, lemma_signs, lemma_value_of, logs_follow,
};
use crate::single::{single, Single, EPSILON, ONE, THREE, TWO, ZERO};

verus! {

/// How many point slots a threshold curve has.
pub const MAX_THRESHOLD_CURVE_POINTS: usize = 8;

/// The encoding of `30.0`, the lowest frequency of a curve point.
pub const THRESHOLD_CURVE_MIN_FREQUENCY_HZ: u32 = 0x41f0_0000;

/// The encoding of `22000.0`, the highest frequency of a curve point.
pub const THRESHOLD_CURVE_MAX_FREQUENCY_HZ: u32 = 0x46ab_e000;

/// The encoding of `60.0`, the largest offset of a curve point in either direction.
pub const THRESHOLD_CURVE_POINT_OFFSET_LIMIT_DB: u32 = 0x4270_0000;

/// A user-editable offset at one frequency.
#[derive(Clone, Copy, PartialEq, Eq, Debug, Structural)]
pub struct CurvePoint {
    pub enabled: bool,
    pub frequency: Single,
    pub offset_db: Single,
}

impl Default for CurvePoint {
    fn default() -> (point: CurvePoint)
        ensures
            point == no_point(),
    {
        no_point()
    }
}

/// A slot that is not in use, with all of its values zero.
#[verifier::allow_in_spec]
pub fn no_point() -> CurvePoint
    returns
        (CurvePoint { enabled: false, frequency: single(ZERO), offset_db: single(ZERO) }),
{
    CurvePoint { enabled: false, frequency: single(ZERO), offset_db: single(ZERO) }
}

/// Slots that are not in use.
pub fn no_points() -> (points: [CurvePoint; MAX_THRESHOLD_CURVE_POINTS])
    ensures
        forall|i: int| 0 <= i < MAX_THRESHOLD_CURVE_POINTS ==> points@[i] == no_point(),
{
    [
        no_point(),
        no_point(),
        no_point(),
        no_point(),
        no_point(),
        no_point(),
        no_point(),
        no_point(),
    ]
}

impl CurvePoint {
    /// Whether the point takes part in the curve.
    #[verifier::allow_in_spec]
    pub fn is_usable(self) -> bool
        returns
            self.enabled && self.frequency.is_finite() && self.offset_db.is_finite(),
    {
        self.enabled && self.frequency.is_finite() && self.offset_db.is_finite()
    }

    /// The point's frequency, moved into the range that curve points may have.
    #[verifier::allow_in_spec]
    pub fn clamped_frequency(self) -> Single
        returns
            self.frequency.clamped(
                single(THRESHOLD_CURVE_MIN_FREQUENCY_HZ),
                single(THRESHOLD_CURVE_MAX_FREQUENCY_HZ),
            ),
    {
        self.frequency.clamped(
            single(THRESHOLD_CURVE_MIN_FREQUENCY_HZ),
            single(THRESHOLD_CURVE_MAX_FREQUENCY_HZ),
        )
    }
}

/// Parameters for a curve.
#[derive(Clone, Copy, PartialEq, Eq, Debug)]
pub struct CurveParams {
    /// The compressor threshold at the center frequency. This is the intercept of the polynomial.
    pub intercept: Single,
    /// The center frequency. The curve is a polynomial `intercept + slope*x + curve*(x^2)` that
    /// evaluates to a decibel value, where `x = ln(frequency) - ln(center_frequency)`.
    pub center_frequency: Single,
    /// The slope for the curve, in the log/log domain.
    pub slope: Single,
    /// The third coefficient of the polynomial. Positive values turn the curve into a v-shaped
    /// curve, negative values attenuate everything outside of the center frequency.
    pub curve: Single,
    /// User-editable point offsets layered on top of the quadratic curve.
    pub points: [CurvePoint; MAX_THRESHOLD_CURVE_POINTS],
}

/// Evaluates the threshold curve in log-log space.
pub struct Curve<'a> {
    pub params: &'a CurveParams,
    /// The natural logarithm of [`CurveParams::center_frequency`].
    pub ln_center_frequency: Single,
}

/// A usable curve point as the curve sees it.
#[derive(Clone, Copy, PartialEq, Eq, Debug, Structural)]
pub struct CurveNode {
    pub ln_freq: Single,
    pub offset_db: Single,
}

/// `node` stands for the usable point `point`.
pub open spec fn is_node<A: Arithmetic>(point: CurvePoint, node: CurveNode) -> bool {
    &&& node.offset_db == point.offset_db
    &&& natural_logs::<A>(point.clamped_frequency(), node.ln_freq)
}

/// `nodes` stand for the usable ones among `points`, in the order of the slots.
pub open spec fn are_nodes<A: Arithmetic>(points: Seq<CurvePoint>, nodes: Seq<CurveNode>) -> bool
    decreases points.len(),
{
    if points.len() == 0 {
        nodes.len() == 0
    } else if points.last().is_usable() {
        &&& nodes.len() > 0
        &&& is_node::<A>(points.last(), nodes.last())
        &&& are_nodes::<A>(points.drop_last(), nodes.drop_last())
    } else {
        are_nodes::<A>(points.drop_last(), nodes)
    }
}

/// `left` is the node with the highest frequency that is not above `ln_freq`, the first of them
/// where several share it.
pub open spec fn is_left_neighbour(
    nodes: Seq<CurveNode>,
    ln_freq: Single,
    left: Option<CurveNode>,
) -> bool {
    match left {
        None => forall|i: int| 0 <= i < nodes.len() ==> !(#[trigger] nodes[i]).ln_freq.at_most(ln_freq),
        Some(node) => exists|i: int|
            {
                &&& 0 <= i < nodes.len()
                &&& #[trigger] nodes[i] == node
                &&& node.ln_freq.at_most(ln_freq)
                &&& forall|j: int|
                    0 <= j < nodes.len() && (#[trigger] nodes[j]).ln_freq.at_most(ln_freq)
                        ==> nodes[j].ln_freq.order() < node.ln_freq.order() || (j >= i
                        && nodes[j].ln_freq.order() == node.ln_freq.order())
            },
    }
}

/// `right` is the node with the lowest frequency that is not below `ln_freq`, the first of them
/// where several share it.
pub open spec fn is_right_neighbour(
    nodes: Seq<CurveNode>,
    ln_freq: Single,
    right: Option<CurveNode>,
) -> bool {
    match right {
        None => forall|i: int| 0 <= i < nodes.len() ==> !ln_freq.at_most((#[trigger] nodes[i]).ln_freq),
        Some(node) => exists|i: int|
            {
                &&& 0 <= i < nodes.len()
                &&& #[trigger] nodes[i] == node
                &&& ln_freq.at_most(node.ln_freq)
                &&& forall|j: int|
                    0 <= j < nodes.len() && ln_freq.at_most((#[trigger] nodes[j]).ln_freq)
                        ==> nodes[j].ln_freq.order() > node.ln_freq.order() || (j >= i
                        && nodes[j].ln_freq.order() == node.ln_freq.order())
            },
    }
}

/// `r` is the offset at `ln_freq` between two nodes: the left offset where they are not apart,
/// else a smoothstep from the left to the right offset.
pub open spec fn is_blend<A: Arithmetic>(
    left: CurveNode,
    right: CurveNode,
    ln_freq: Single,
    r: Single,
) -> bool {
    exists|width: Single| #[trigger]
        differences::<A>(right.ln_freq, left.ln_freq, width) && if width.absolute().at_most(
            single(EPSILON),
        ) {
            r == left.offset_db
        } else {
            exists|way: Single, ratio: Single| #[trigger]
                differences::<A>(ln_freq, left.ln_freq, way) && #[trigger] quotients::<A>(
                    way,
                    width,
                    ratio,
                ) && is_smoothstep::<A>(
                    left.offset_db,
                    right.offset_db,
                    ratio.clamped(single(ZERO), single(ONE)),
                    r,
                )
        }
}

/// `r` is `from + (to - from) * (t * t * (3 - 2 * t))`.
pub open spec fn is_smoothstep<A: Arithmetic>(
    from: Single,
    to: Single,
    t: Single,
    r: Single,
) -> bool {
    exists|square: Single, double_t: Single, falloff: Single, weight: Single, rise: Single, step: Single|
        #[trigger] products::<A>(t, t, square) && #[trigger] products::<A>(single(TWO), t, double_t)
            && #[trigger] differences::<A>(single(THREE), double_t, falloff) && #[trigger] products::<A>(
            square,
            falloff,
            weight,
        ) && #[trigger] differences::<A>(to, from, rise) && #[trigger] products::<A>(rise, weight, step)
            && sums::<A>(from, step, r)
}

/// `r` is the offset that the neighbours `left` and `right` of `ln_freq` give.
pub open spec fn is_offset_between<A: Arithmetic>(
    left: Option<CurveNode>,
    right: Option<CurveNode>,
    ln_freq: Single,
    r: Single,
) -> bool {
    match (left, right) {
        (None, None) => r == single(ZERO),
        (Some(node), None) => r == node.offset_db,
        (None, Some(node)) => r == node.offset_db,
        (Some(left), Some(right)) => is_blend::<A>(left, right, ln_freq, r),
    }
}

/// `r` is the offset that `points` add to the curve at `ln_freq`.
pub open spec fn is_point_offset<A: Arithmetic>(
    points: Seq<CurvePoint>,
    ln_freq: Single,
    r: Single,
) -> bool {
    exists|nodes: Seq<CurveNode>, left: Option<CurveNode>, right: Option<CurveNode>|
        #![trigger are_nodes::<A>(points, nodes), is_left_neighbour(nodes, ln_freq, left), is_right_neighbour(nodes, ln_freq, right)]
        {
            &&& are_nodes::<A>(points, nodes)
            &&& is_left_neighbour(nodes, ln_freq, left)
            &&& is_right_neighbour(nodes, ln_freq, right)
            &&& is_offset_between::<A>(left, right, ln_freq, r)
        }
}

/// `r` is `intercept + slope * x + curve * x * x` where `x` is `ln_freq - ln_center_frequency`.
pub open spec fn is_base_level<A: Arithmetic>(
    params: CurveParams,
    ln_center_frequency: Single,
    ln_freq: Single,
    r: Single,
) -> bool {
    exists|x: Single| #[trigger]
        differences::<A>(ln_freq, ln_center_frequency, x) && is_quadratic::<A>(
            params.intercept,
            params.slope,
            params.curve,
            x,
            r,
        )
}

/// `r` is `intercept + slope * x + curve * x * x`.
pub open spec fn is_quadratic<A: Arithmetic>(
    intercept: Single,
    slope: Single,
    curve: Single,
    x: Single,
    r: Single,
) -> bool {
    exists|linear: Single, scaled: Single, bent: Single, line: Single| #[trigger]
        products::<A>(slope, x, linear) && #[trigger] products::<A>(curve, x, scaled)
            && #[trigger] products::<A>(scaled, x, bent) && #[trigger] sums::<A>(
            intercept,
            linear,
            line,
        ) && sums::<A>(line, bent, r)
}

/// Computes `intercept + slope * x + curve * x * x`.
pub fn quadratic<A: Arithmetic>(intercept: Single, slope: Single, curve: Single, x: Single) -> (r:
    Single)
    ensures
        is_quadratic::<A>(intercept, slope, curve, x, r),
{
    let linear = A::product(slope, x);
    let scaled = A::product(curve, x);
    let bent = A::product(scaled, x);
    let line = A::sum(intercept, linear);
    A::sum(line, bent)
}

/// Computes `from + (to - from) * (t * t * (3 - 2 * t))`.
fn smoothstep<A: Arithmetic>(from: Single, to: Single, t: Single) -> (r: Single)
    ensures
        is_smoothstep::<A>(from, to, t, r),
{
    let square = A::product(t, t);
    let double_t = A::product(single(TWO), t);
    let falloff = A::difference(single(THREE), double_t);
    let weight = A::product(square, falloff);
    let rise = A::difference(to, from);
    let step = A::product(rise, weight);
    assert(products::<A>(single(TWO), t, double_t));
    assert(differences::<A>(single(THREE), double_t, falloff));
    A::sum(from, step)
}

/// Computes the offset at `ln_freq` between two nodes.
fn blend<A: Arithmetic>(left: CurveNode, right: CurveNode, ln_freq: Single) -> (r: Single)
    ensures
        is_blend::<A>(left, right, ln_freq, r),
{
    let width = A::difference(right.ln_freq, left.ln_freq);
    if width.absolute().at_most(single(EPSILON)) {
        left.offset_db
    } else {
        let way = A::difference(ln_freq, left.ln_freq);
        let ratio = A::quotient(way, width);
        let t = ratio.clamped(single(ZERO), single(ONE));
        smoothstep::<A>(left.offset_db, right.offset_db, t)
    }
}

impl<'a> Curve<'a> {
    /// The curve's center is the logarithm of the center frequency of its parameters.
    pub open spec fn is_centered<A: Arithmetic>(self) -> bool {
        natural_logs::<A>(self.params.center_frequency, self.ln_center_frequency)
    }

    /// `r` is the value of the whole curve at `ln_freq`.
    pub open spec fn is_level<A: Arithmetic>(self, ln_freq: Single, r: Single) -> bool {
        exists|base: Single, offset: Single|
            #![trigger is_base_level::<A>(*self.params, self.ln_center_frequency, ln_freq, base), is_point_offset::<A>(self.params.points@, ln_freq, offset)]
            {
                &&& is_base_level::<A>(*self.params, self.ln_center_frequency, ln_freq, base)
                &&& is_point_offset::<A>(self.params.points@, ln_freq, offset)
                &&& sums::<A>(base, offset, r)
            }
    }

    pub fn new<A: Arithmetic>(params: &'a CurveParams) -> (curve: Curve<'a>)
        ensures
            curve.params == params,
            curve.is_centered::<A>(),
    {
        Curve { params, ln_center_frequency: A::natural_log(params.center_frequency) }
    }

    /// Evaluate the curve for the natural logarithm of the frequency value. This can be used as an
    /// optimization to avoid computing these logarithms all the time.
    pub fn evaluate_ln<A: Arithmetic>(&self, ln_freq: Single) -> (r: Single)
        ensures
            self.is_level::<A>(ln_freq, r),
    {
        let base = self.evaluate_base_ln::<A>(ln_freq);
        let offset = self.point_offset_ln::<A>(ln_freq);
        A::sum(base, offset)
    }

    /// Evaluate the polynomial part of the curve.
    pub fn evaluate_base_ln<A: Arithmetic>(&self, ln_freq: Single) -> (r: Single)
        ensures
            is_base_level::<A>(*self.params, self.ln_center_frequency, ln_freq, r),
    {
        let x = A::difference(ln_freq, self.ln_center_frequency);
        quadratic::<A>(self.params.intercept, self.params.slope, self.params.curve, x)
    }

    /// Evaluate the offset that the curve points add.
    pub fn point_offset_ln<A: Arithmetic>(&self, ln_freq: Single) -> (r: Single)
        ensures
            is_point_offset::<A>(self.params.points@, ln_freq, r),
    {
        let mut left: Option<CurveNode> = None;
        let mut right: Option<CurveNode> = None;
        let ghost mut nodes: Seq<CurveNode> = Seq::empty();
        let ghost points = self.params.points@;
        let mut index: usize = 0;
        while index < MAX_THRESHOLD_CURVE_POINTS
            invariant
                index <= MAX_THRESHOLD_CURVE_POINTS,
                points == self.params.points@,
                are_nodes::<A>(points.take(index as int), nodes),
                is_left_neighbour(nodes, ln_freq, left),
                is_right_neighbour(nodes, ln_freq, right),
            decreases MAX_THRESHOLD_CURVE_POINTS - index,
        {
            let point = self.params.points[index];
            proof {
                assert(points.take(index + 1).drop_last() =~= points.take(index as int));
                assert(points.take(index + 1).last() == point);
            }
            if point.is_usable() {
                let node = CurveNode {
                    ln_freq: A::natural_log(point.clamped_frequency()),
                    offset_db: point.offset_db,
                };
                let ghost earlier = nodes;
                proof {
                    nodes = nodes.push(node);
                    assert(nodes.drop_last() =~= earlier);
                    assert(forall|j: int| 0 <= j < earlier.len() ==> nodes[j] == earlier[j]);
                    assert(nodes[earlier.len() as int] == node);
                }
                let goes_left = match left {
                    None => true,
                    Some(other) => other.ln_freq.below(node.ln_freq),
                };
                if node.ln_freq.at_most(ln_freq) && goes_left {
                    left = Some(node);
                } else {
                    proof {
                        if let Some(other) = left {
                            let i = choose|i: int|
                                {
                                    &&& 0 <= i < earlier.len()
                                    &&& #[trigger] earlier[i] == other
                                    &&& other.ln_freq.at_most(ln_freq)
                                    &&& forall|j: int|
                                        0 <= j < earlier.len() && (
                                        #[trigger] earlier[j]).ln_freq.at_most(ln_freq)
                                            ==> earlier[j].ln_freq.order() < other.ln_freq.order()
                                            || (j >= i && earlier[j].ln_freq.order()
                                            == other.ln_freq.order())
                                };
                            assert(nodes[i] == other);
                        }
                    }
                }
                let goes_right = match right {
                    None => true,
                    Some(other) => node.ln_freq.below(other.ln_freq),
                };
                if ln_freq.at_most(node.ln_freq) && goes_right {
                    right = Some(node);
                } else {
                    proof {
                        if let Some(other) = right {
                            let i = choose|i: int|
                                {
                                    &&& 0 <= i < earlier.len()
                                    &&& #[trigger] earlier[i] == other
                                    &&& ln_freq.at_most(other.ln_freq)
                                    &&& forall|j: int|
                                        0 <= j < earlier.len() && ln_freq.at_most(
                                            (#[trigger] earlier[j]).ln_freq,
                                        ) ==> earlier[j].ln_freq.order() > other.ln_freq.order()
                                            || (j >= i && earlier[j].ln_freq.order()
                                            == other.ln_freq.order())
                                };
                            assert(nodes[i] == other);
                        }
                    }
                }
            }
            index += 1;
        }
        proof {
            assert(points.take(MAX_THRESHOLD_CURVE_POINTS as int) =~= points);
        }
        match (left, right) {
            (None, None) => single(ZERO),
            (Some(node), None) => node.offset_db,
            (None, Some(node)) => node.offset_db,
            (Some(left_node), Some(right_node)) => blend::<A>(left_node, right_node, ln_freq),
        }
    }
}

proof fn lemma_unusable_points_have_no_nodes<A: Arithmetic>(
    points: Seq<CurvePoint>,
    nodes: Seq<CurveNode>,
)
    requires
        forall|i: int| 0 <= i < points.len() ==> !(#[trigger] points[i]).is_usable(),
        are_nodes::<A>(points, nodes),
    ensures
        nodes.len() == 0,
    decreases points.len(),
{
    if points.len() > 0 {
        assert(!points[points.len() - 1].is_usable());
        assert forall|i: int| 0 <= i < points.drop_last().len() implies !(
        #[trigger] points.drop_last()[i]).is_usable() by {
            assert(!points[i].is_usable());
        }
        lemma_unusable_points_have_no_nodes::<A>(points.drop_last(), nodes);
    }
}

/// Without a usable point the points add nothing to the curve.
pub proof fn law_no_usable_points_add_nothing<A: Arithmetic>(
    points: Seq<CurvePoint>,
    ln_freq: Single,
    r: Single,
)
    requires
        forall|i: int| 0 <= i < points.len() ==> !(#[trigger] points[i]).is_usable(),
        is_point_offset::<A>(points, ln_freq, r),
    ensures
        r == single(ZERO),
{
    let (nodes, left, right) = choose|
        nodes: Seq<CurveNode>,
        left: Option<CurveNode>,
        right: Option<CurveNode>,
    |
        #![trigger are_nodes::<A>(points, nodes), is_left_neighbour(nodes, ln_freq, left), is_right_neighbour(nodes, ln_freq, right)]
        {
            &&& are_nodes::<A>(points, nodes)
            &&& is_left_neighbour(nodes, ln_freq, left)
            &&& is_right_neighbour(nodes, ln_freq, right)
            &&& is_offset_between::<A>(left, right, ln_freq, r)
        };
    lemma_unusable_points_have_no_nodes::<A>(points, nodes);
}

/// Without a usable point the level is that of the base curve with zero added. In an arithmetic that
/// keeps the order of its operands, it is the level of the base curve.
pub proof fn law_no_usable_points_leave_the_base_curve<A: Arithmetic>(
    curve: Curve<'_>,
    ln_freq: Single,
    r: Single,
) -> (base: Single)
    requires
        forall|i: int|
            0 <= i < curve.params.points@.len() ==> !(
            #[trigger] curve.params.points@[i]).is_usable(),
        curve.is_level::<A>(ln_freq, r),
    ensures
        is_base_level::<A>(*curve.params, curve.ln_center_frequency, ln_freq, base),
        sums::<A>(base, single(ZERO), r),
        sums_keep_order::<A>() && !r.is_nan() ==> r.equals(base),
{
    let (base, offset) = choose|base: Single, offset: Single|
        #![trigger is_base_level::<A>(*curve.params, curve.ln_center_frequency, ln_freq, base), is_point_offset::<A>(curve.params.points@, ln_freq, offset)]
        {
            &&& is_base_level::<A>(*curve.params, curve.ln_center_frequency, ln_freq, base)
            &&& is_point_offset::<A>(curve.params.points@, ln_freq, offset)
            &&& sums::<A>(base, offset, r)
        };
    law_no_usable_points_add_nothing::<A>(curve.params.points@, ln_freq, offset);
    base
}

/// A curve without a slope bends away from its center: where the curve coefficient is positive the
/// levels are not below the intercept and do not sink with the distance `x` from the center, where
/// it is negative they are not above it and do not rise. Levels at the same distance on both sides
/// of the center are the same. All this holds of an arithmetic that keeps the order of its operands.
pub proof fn law_curve_bends_away_from_its_center<A: Arithmetic>(
    intercept: Single,
    slope: Single,
    curve: Single,
    x: Single,
    y: Single,
    near: Single,
    far: Single,
)
    requires
        sums_keep_order::<A>(),
        products_keep_order::<A>(),
        slope.equals(single(ZERO)),
        is_quadratic::<A>(intercept, slope, curve, x, near),
        is_quadratic::<A>(intercept, slope, curve, y, far),
        !near.is_nan(),
        !far.is_nan(),
        x.absolute().at_most(y.absolute()),
    ensures
        single(ZERO).at_most(curve) ==> intercept.at_most(near) && near.at_most(far),
        curve.at_most(single(ZERO)) ==> near.at_most(intercept) && far.at_most(near),
        single(ZERO).at_most(curve) && !near.equals(intercept) ==> intercept.below(near),
        curve.at_most(single(ZERO)) && !near.equals(intercept) ==> near.below(intercept),
        !curve.is_nan(),
        y.absolute().at_most(x.absolute()) ==> near.equals(far),
{
    let (linear, scaled, bent, line) = choose|
        linear: Single,
        scaled: Single,
        bent: Single,
        line: Single,
    | #[trigger]
        products::<A>(slope, x, linear) && #[trigger] products::<A>(curve, x, scaled)
            && #[trigger] products::<A>(scaled, x, bent) && #[trigger] sums::<A>(
            intercept,
            linear,
            line,
        ) && sums::<A>(line, bent, near);
    let (far_linear, far_scaled, far_bent, far_line) = choose|
        linear: Single,
        scaled: Single,
        bent: Single,
        line: Single,
    | #[trigger]
        products::<A>(slope, y, linear) && #[trigger] products::<A>(curve, y, scaled)
            && #[trigger] products::<A>(scaled, y, bent) && #[trigger] sums::<A>(
            intercept,
            linear,
            line,
        ) && sums::<A>(line, bent, far);
    lemma_bend_has_sign_of_curve::<A>(intercept, slope, curve, x, linear, scaled, bent, line);
    lemma_bend_has_sign_of_curve::<A>(
        intercept,
        slope,
        curve,
        y,
        far_linear,
        far_scaled,
        far_bent,
        far_line,
    );
    assert(scaled.absolute().at_most(far_scaled.absolute()));
    assert(bent.absolute().at_most(far_bent.absolute()));
    if y.absolute().at_most(x.absolute()) {
        assert(far_scaled.absolute().at_most(scaled.absolute()));
        assert(far_bent.absolute().at_most(bent.absolute()));
    }
}

/// Without a slope the line is the intercept, and the bend has the sign of the curve coefficient.
proof fn lemma_bend_has_sign_of_curve<A: Arithmetic>(
    intercept: Single,
    slope: Single,
    curve: Single,
    x: Single,
    linear: Single,
    scaled: Single,
    bent: Single,
    line: Single,
)
    requires
        sums_keep_order::<A>(),
        products_keep_order::<A>(),
        slope.equals(single(ZERO)),
        products::<A>(slope, x, linear),
        products::<A>(curve, x, scaled),
        products::<A>(scaled, x, bent),
        sums::<A>(intercept, linear, line),
        !line.is_nan(),
        !bent.is_nan(),
    ensures
        line.equals(intercept),
        !curve.is_nan() && !x.is_nan() && !scaled.is_nan(),
        single(ZERO).at_most(curve) ==> single(ZERO).at_most(bent),
        curve.at_most(single(ZERO)) ==> bent.at_most(single(ZERO)),
{
    assert(!linear.is_nan());
    assert(!scaled.is_nan());
    assert(linear.equals(single(ZERO)));
    assert(have_same_sign(curve, x) || have_same_sign(curve, x.negated()));
}

/// The level of a curve without a slope at two frequencies, the second one of which lies at least as
/// far from the center: it bends away from the center, upwards where the curve coefficient is
/// positive and downwards where it is negative, and equally on both sides.
pub proof fn law_base_curve_is_v_shaped<A: Arithmetic>(
    params: CurveParams,
    ln_center: Single,
    ln_near: Single,
    ln_far: Single,
    near: Single,
    far: Single,
)
    requires
        sums_keep_order::<A>(),
        products_keep_order::<A>(),
        params.slope.equals(single(ZERO)),
        is_base_level::<A>(params, ln_center, ln_near, near),
        is_base_level::<A>(params, ln_center, ln_far, far),
        !near.is_nan(),
        !far.is_nan(),
        forall|x: Single, y: Single| #[trigger]
            differences::<A>(ln_near, ln_center, x) && #[trigger] differences::<A>(
                ln_far,
                ln_center,
                y,
            ) ==> x.absolute().at_most(y.absolute()),
    ensures
        single(ZERO).at_most(params.curve) ==> params.intercept.at_most(near) && near.at_most(far),
        params.curve.at_most(single(ZERO)) ==> near.at_most(params.intercept) && far.at_most(near),
        !near.equals(params.intercept) ==> {
            &&& single(ZERO).at_most(params.curve) ==> params.intercept.below(near)
            &&& params.curve.at_most(single(ZERO)) ==> near.below(params.intercept)
        },
        (forall|x: Single, y: Single| #[trigger]
            differences::<A>(ln_near, ln_center, x) && #[trigger] differences::<A>(
                ln_far,
                ln_center,
                y,
            ) ==> y.absolute().at_most(x.absolute())) ==> near.equals(far),
{
    let x = choose|x: Single| #[trigger]
        differences::<A>(ln_near, ln_center, x) && is_quadratic::<A>(
            params.intercept,
            params.slope,
            params.curve,
            x,
            near,
        );
    let y = choose|x: Single| #[trigger]
        differences::<A>(ln_far, ln_center, x) && is_quadratic::<A>(
            params.intercept,
            params.slope,
            params.curve,
            x,
            far,
        );
    law_curve_bends_away_from_its_center::<A>(
        params.intercept,
        params.slope,
        params.curve,
        x,
        y,
        near,
        far,
    );
}

/// The points differ at most where neither of them is usable.
pub open spec fn have_same_usable_points(a: Seq<CurvePoint>, b: Seq<CurvePoint>) -> bool {
    &&& a.len() == b.len()
    &&& forall|i: int|
        0 <= i < a.len() ==> #[trigger] a[i] == #[trigger] b[i] || (!a[i].is_usable()
            && !b[i].is_usable())
}

proof fn lemma_same_usable_points_have_same_nodes<A: Arithmetic>(
    a: Seq<CurvePoint>,
    b: Seq<CurvePoint>,
    nodes: Seq<CurveNode>,
)
    requires
        have_same_usable_points(a, b),
        are_nodes::<A>(a, nodes),
    ensures
        are_nodes::<A>(b, nodes),
    decreases a.len(),
{
    if a.len() > 0 {
        let last = a.len() - 1;
        assert(a[last] == b[last] || (!a[last].is_usable() && !b[last].is_usable()));
        assert forall|i: int| 0 <= i < a.drop_last().len() implies #[trigger] a.drop_last()[i]
            == #[trigger] b.drop_last()[i] || (!a.drop_last()[i].is_usable()
            && !b.drop_last()[i].is_usable()) by {
            assert(a[i] == b[i] || (!a[i].is_usable() && !b[i].is_usable()));
        }
        if a.last().is_usable() {
            lemma_same_usable_points_have_same_nodes::<A>(
                a.drop_last(),
                b.drop_last(),
                nodes.drop_last(),
            );
        } else {
            lemma_same_usable_points_have_same_nodes::<A>(a.drop_last(), b.drop_last(), nodes);
        }
    }
}

/// Points that are not usable are ignored, whatever their frequency and their offset are.
pub proof fn law_unusable_points_are_ignored<A: Arithmetic>(
    a: Seq<CurvePoint>,
    b: Seq<CurvePoint>,
    ln_freq: Single,
    r: Single,
)
    requires
        have_same_usable_points(a, b),
        is_point_offset::<A>(a, ln_freq, r),
    ensures
        is_point_offset::<A>(b, ln_freq, r),
{
    let (nodes, left, right) = choose|
        nodes: Seq<CurveNode>,
        left: Option<CurveNode>,
        right: Option<CurveNode>,
    |
        #![trigger are_nodes::<A>(a, nodes), is_left_neighbour(nodes, ln_freq, left), is_right_neighbour(nodes, ln_freq, right)]
        {
            &&& are_nodes::<A>(a, nodes)
            &&& is_left_neighbour(nodes, ln_freq, left)
            &&& is_right_neighbour(nodes, ln_freq, right)
            &&& is_offset_between::<A>(left, right, ln_freq, r)
        };
    lemma_same_usable_points_have_same_nodes::<A>(a, b, nodes);
    assert(are_nodes::<A>(b, nodes));
}

proof fn lemma_usable_points_have_nodes<A: Arithmetic>(
    points: Seq<CurvePoint>,
    nodes: Seq<CurveNode>,
)
    requires
        exists|i: int| 0 <= i < points.len() && (#[trigger] points[i]).is_usable(),
        are_nodes::<A>(points, nodes),
    ensures
        nodes.len() > 0,
    decreases points.len(),
{
    let i = choose|i: int| 0 <= i < points.len() && (#[trigger] points[i]).is_usable();
    if !points.last().is_usable() {
        assert(points.drop_last()[i].is_usable());
        lemma_usable_points_have_nodes::<A>(points.drop_last(), nodes);
    }
}

/// Above all usable points the offset is that of the highest one.
pub proof fn law_offset_is_held_above_all_points<A: Arithmetic>(
    points: Seq<CurvePoint>,
    ln_freq: Single,
    r: Single,
)
    requires
        is_point_offset::<A>(points, ln_freq, r),
        exists|i: int| 0 <= i < points.len() && (#[trigger] points[i]).is_usable(),
        forall|nodes: Seq<CurveNode>, i: int| #[trigger]
            are_nodes::<A>(points, nodes) && 0 <= i < nodes.len() ==> (#[trigger] nodes[i]).ln_freq.below(
                ln_freq,
            ),
    ensures
        exists|nodes: Seq<CurveNode>, k: int|
            {
                &&& #[trigger] are_nodes::<A>(points, nodes)
                &&& 0 <= k < nodes.len()
                &&& (#[trigger] nodes[k]).offset_db == r
                &&& forall|j: int|
                    0 <= j < nodes.len() ==> (#[trigger] nodes[j]).ln_freq.order()
                        <= nodes[k].ln_freq.order()
            },
{
    let (nodes, left, right) = choose|
        nodes: Seq<CurveNode>,
        left: Option<CurveNode>,
        right: Option<CurveNode>,
    |
        #![trigger are_nodes::<A>(points, nodes), is_left_neighbour(nodes, ln_freq, left), is_right_neighbour(nodes, ln_freq, right)]
        {
            &&& are_nodes::<A>(points, nodes)
            &&& is_left_neighbour(nodes, ln_freq, left)
            &&& is_right_neighbour(nodes, ln_freq, right)
            &&& is_offset_between::<A>(left, right, ln_freq, r)
        };
    lemma_usable_points_have_nodes::<A>(points, nodes);
    assert(nodes[0].ln_freq.at_most(ln_freq));
    assert(right is None);
    let k = choose|k: int|
        {
            &&& 0 <= k < nodes.len()
            &&& #[trigger] nodes[k] == left->0
            &&& left->0.ln_freq.at_most(ln_freq)
            &&& forall|j: int|
                0 <= j < nodes.len() && (#[trigger] nodes[j]).ln_freq.at_most(ln_freq)
                    ==> nodes[j].ln_freq.order() < left->0.ln_freq.order() || (j >= k
                    && nodes[j].ln_freq.order() == left->0.ln_freq.order())
        };
    assert(nodes[k].offset_db == r);
    assert forall|j: int| 0 <= j < nodes.len() implies (#[trigger] nodes[j]).ln_freq.order()
        <= nodes[k].ln_freq.order() by {
        assert(nodes[j].ln_freq.at_most(ln_freq));
    }
}

/// Below all usable points the offset is that of the lowest one.
pub proof fn law_offset_is_held_below_all_points<A: Arithmetic>(
    points: Seq<CurvePoint>,
    ln_freq: Single,
    r: Single,
)
    requires
        is_point_offset::<A>(points, ln_freq, r),
        exists|i: int| 0 <= i < points.len() && (#[trigger] points[i]).is_usable(),
        forall|nodes: Seq<CurveNode>, i: int| #[trigger]
            are_nodes::<A>(points, nodes) && 0 <= i < nodes.len() ==> ln_freq.below(
                (#[trigger] nodes[i]).ln_freq,
            ),
    ensures
        exists|nodes: Seq<CurveNode>, k: int|
            {
                &&& #[trigger] are_nodes::<A>(points, nodes)
                &&& 0 <= k < nodes.len()
                &&& (#[trigger] nodes[k]).offset_db == r
                &&& forall|j: int|
                    0 <= j < nodes.len() ==> nodes[k].ln_freq.order() <= (
                    #[trigger] nodes[j]).ln_freq.order()
            },
{
    let (nodes, left, right) = choose|
        nodes: Seq<CurveNode>,
        left: Option<CurveNode>,
        right: Option<CurveNode>,
    |
        #![trigger are_nodes::<A>(points, nodes), is_left_neighbour(nodes, ln_freq, left), is_right_neighbour(nodes, ln_freq, right)]
        {
            &&& are_nodes::<A>(points, nodes)
            &&& is_left_neighbour(nodes, ln_freq, left)
            &&& is_right_neighbour(nodes, ln_freq, right)
            &&& is_offset_between::<A>(left, right, ln_freq, r)
        };
    lemma_usable_points_have_nodes::<A>(points, nodes);
    assert(ln_freq.at_most(nodes[0].ln_freq));
    assert(left is None);
    let k = choose|k: int|
        {
            &&& 0 <= k < nodes.len()
            &&& #[trigger] nodes[k] == right->0
            &&& ln_freq.at_most(right->0.ln_freq)
            &&& forall|j: int|
                0 <= j < nodes.len() && ln_freq.at_most((#[trigger] nodes[j]).ln_freq)
                    ==> nodes[j].ln_freq.order() > right->0.ln_freq.order() || (j >= k
                    && nodes[j].ln_freq.order() == right->0.ln_freq.order())
        };
    assert(nodes[k].offset_db == r);
    assert forall|j: int| 0 <= j < nodes.len() implies nodes[k].ln_freq.order() <= (
    #[trigger] nodes[j]).ln_freq.order() by {
        assert(ln_freq.at_most(nodes[j].ln_freq));
    }
}

/// `logs` are the logarithms of the frequencies of the usable points.
pub open spec fn are_logs<A: Arithmetic>(points: Seq<CurvePoint>, logs: Seq<Single>) -> bool {
    &&& logs.len() == points.len()
    &&& forall|i: int|
        0 <= i < points.len() && (#[trigger] points[i]).is_usable() ==> natural_logs::<A>(
            points[i].clamped_frequency(),
            logs[i],
        )
}

/// The nodes for points with the given logarithms.
pub open spec fn nodes_of(points: Seq<CurvePoint>, logs: Seq<Single>) -> Seq<CurveNode>
    decreases points.len(),
{
    if points.len() == 0 {
        Seq::empty()
    } else {
        let earlier = nodes_of(points.drop_last(), logs.drop_last());
        if points.last().is_usable() {
            earlier.push(CurveNode { ln_freq: logs.last(), offset_db: points.last().offset_db })
        } else {
            earlier
        }
    }
}

proof fn lemma_nodes_have_logs<A: Arithmetic>(
    points: Seq<CurvePoint>,
    nodes: Seq<CurveNode>,
) -> (logs: Seq<Single>)
    requires
        are_nodes::<A>(points, nodes),
    ensures
        are_logs::<A>(points, logs),
        nodes == nodes_of(points, logs),
    decreases points.len(),
{
    if points.len() == 0 {
        assert(nodes =~= Seq::empty());
        Seq::empty()
    } else if points.last().is_usable() {
        let earlier = lemma_nodes_have_logs::<A>(points.drop_last(), nodes.drop_last());
        let logs = earlier.push(nodes.last().ln_freq);
        assert(logs.drop_last() =~= earlier);
        assert(nodes =~= nodes_of(points, logs));
        assert forall|i: int|
            0 <= i < points.len() && (#[trigger] points[i]).is_usable() implies natural_logs::<A>(
            points[i].clamped_frequency(),
            logs[i],
        ) by {
            if i < points.len() - 1 {
                assert(points.drop_last()[i].is_usable());
            }
        }
        logs
    } else {
        let earlier = lemma_nodes_have_logs::<A>(points.drop_last(), nodes);
        let logs = earlier.push(single(ZERO));
        assert(logs.drop_last() =~= earlier);
        assert forall|i: int|
            0 <= i < points.len() && (#[trigger] points[i]).is_usable() implies natural_logs::<A>(
            points[i].clamped_frequency(),
            logs[i],
        ) by {
            assert(points.drop_last()[i].is_usable());
        }
        logs
    }
}

proof fn lemma_logs_give_nodes<A: Arithmetic>(points: Seq<CurvePoint>, logs: Seq<Single>)
    requires
        are_logs::<A>(points, logs),
    ensures
        are_nodes::<A>(points, nodes_of(points, logs)),
    decreases points.len(),
{
    if points.len() > 0 {
        assert forall|i: int|
            0 <= i < points.drop_last().len() && (
            #[trigger] points.drop_last()[i]).is_usable() implies natural_logs::<A>(
            points.drop_last()[i].clamped_frequency(),
            logs.drop_last()[i],
        ) by {
            assert(points[i].is_usable());
        }
        lemma_logs_give_nodes::<A>(points.drop_last(), logs.drop_last());
        if points.last().is_usable() {
            assert(points[points.len() - 1].is_usable());
            assert(nodes_of(points, logs).drop_last() =~= nodes_of(
                points.drop_last(),
                logs.drop_last(),
            ));
        }
    }
}

/// `node` stands for a usable point.
pub open spec fn is_node_among(
    points: Seq<CurvePoint>,
    logs: Seq<Single>,
    node: CurveNode,
) -> bool {
    exists|i: int|
        {
            &&& 0 <= i < points.len()
            &&& (#[trigger] points[i]).is_usable()
            &&& node == (CurveNode { ln_freq: logs[i], offset_db: points[i].offset_db })
        }
}

proof fn lemma_nodes_are_those_of_usable_points(
    points: Seq<CurvePoint>,
    logs: Seq<Single>,
    node: CurveNode,
)
    requires
        logs.len() == points.len(),
    ensures
        nodes_of(points, logs).contains(node) <==> is_node_among(points, logs, node),
    decreases points.len(),
{
    if points.len() > 0 {
        let earlier_points = points.drop_last();
        let earlier_logs = logs.drop_last();
        let earlier = nodes_of(earlier_points, earlier_logs);
        let last = points.len() - 1;
        lemma_nodes_are_those_of_usable_points(earlier_points, earlier_logs, node);
        if is_node_among(points, logs, node) {
            let i = choose|i: int|
                {
                    &&& 0 <= i < points.len()
                    &&& (#[trigger] points[i]).is_usable()
                    &&& node == (CurveNode { ln_freq: logs[i], offset_db: points[i].offset_db })
                };
            if i < last {
                assert(earlier_points[i].is_usable());
                assert(is_node_among(earlier_points, earlier_logs, node));
                let k = choose|k: int| 0 <= k < earlier.len() && earlier[k] == node;
                assert(nodes_of(points, logs)[k] == node);
            } else {
                assert(nodes_of(points, logs)[earlier.len() as int] == node);
            }
        }
        if nodes_of(points, logs).contains(node) {
            let k = choose|k: int|
                0 <= k < nodes_of(points, logs).len() && nodes_of(points, logs)[k] == node;
            if k < earlier.len() {
                assert(earlier[k] == node);
                assert(earlier.contains(node));
                let i = choose|i: int|
                    {
                        &&& 0 <= i < earlier_points.len()
                        &&& (#[trigger] earlier_points[i]).is_usable()
                        &&& node == (CurveNode {
                            ln_freq: earlier_logs[i],
                            offset_db: earlier_points[i].offset_db,
                        })
                    };
                assert(points[i].is_usable());
            } else {
                assert(points[last].is_usable());
            }
        }
    }
}

/// No two nodes share a frequency.
pub open spec fn are_apart(nodes: Seq<CurveNode>) -> bool {
    forall|i: int, j: int|
        0 <= i < j < nodes.len() ==> (#[trigger] nodes[i]).ln_freq.order() != (
        #[trigger] nodes[j]).ln_freq.order()
}

proof fn lemma_first_index(nodes: Seq<CurveNode>, node: CurveNode) -> (i: int)
    requires
        nodes.contains(node),
    ensures
        0 <= i < nodes.len(),
        nodes[i] == node,
        forall|j: int| 0 <= j < i ==> #[trigger] nodes[j] != node,
    decreases nodes.len(),
{
    if nodes.drop_last().contains(node) {
        let i = lemma_first_index(nodes.drop_last(), node);
        assert forall|j: int| 0 <= j < i implies #[trigger] nodes[j] != node by {
            assert(nodes.drop_last()[j] != node);
        }
        i
    } else {
        let k = choose|k: int| 0 <= k < nodes.len() && nodes[k] == node;
        if k < nodes.len() - 1 {
            assert(nodes.drop_last()[k] == node);
        }
        assert forall|j: int| 0 <= j < nodes.len() - 1 implies #[trigger] nodes[j] != node by {
            assert(nodes.drop_last()[j] == nodes[j]);
        }
        nodes.len() - 1
    }
}

proof fn lemma_neighbours_do_not_depend_on_order(
    a: Seq<CurveNode>,
    b: Seq<CurveNode>,
    ln_freq: Single,
    left: Option<CurveNode>,
    right: Option<CurveNode>,
)
    requires
        are_apart(a),
        forall|node: CurveNode| a.contains(node) <==> #[trigger] b.contains(node),
        is_left_neighbour(a, ln_freq, left),
        is_right_neighbour(a, ln_freq, right),
    ensures
        is_left_neighbour(b, ln_freq, left),
        is_right_neighbour(b, ln_freq, right),
{
    assert forall|j: int| 0 <= j < b.len() implies a.contains(#[trigger] b[j]) by {
        assert(b.contains(b[j]));
    }
    match left {
        None => {
            assert forall|j: int| 0 <= j < b.len() implies !(#[trigger] b[j]).ln_freq.at_most(
                ln_freq,
            ) by {
                let k = choose|k: int| 0 <= k < a.len() && a[k] == b[j];
                assert(!a[k].ln_freq.at_most(ln_freq));
            }
        },
        Some(node) => {
            assert(a.contains(node));
            assert(b.contains(node));
            let i = lemma_first_index(b, node);
            assert forall|j: int|
                0 <= j < b.len() && (#[trigger] b[j]).ln_freq.at_most(
                    ln_freq,
                ) implies b[j].ln_freq.order() < node.ln_freq.order() || (j >= i
                && b[j].ln_freq.order() == node.ln_freq.order()) by {
                let k = choose|k: int| 0 <= k < a.len() && a[k] == b[j];
                assert(a[k].ln_freq.at_most(ln_freq));
            }
        },
    }
    match right {
        None => {
            assert forall|j: int| 0 <= j < b.len() implies !ln_freq.at_most(
                (#[trigger] b[j]).ln_freq,
            ) by {
                let k = choose|k: int| 0 <= k < a.len() && a[k] == b[j];
                assert(!ln_freq.at_most(a[k].ln_freq));
            }
        },
        Some(node) => {
            assert(a.contains(node));
            assert(b.contains(node));
            let i = lemma_first_index(b, node);
            assert forall|j: int|
                0 <= j < b.len() && ln_freq.at_most(
                    (#[trigger] b[j]).ln_freq,
                ) implies b[j].ln_freq.order() > node.ln_freq.order() || (j >= i
                && b[j].ln_freq.order() == node.ln_freq.order()) by {
                let k = choose|k: int| 0 <= k < a.len() && a[k] == b[j];
                assert(ln_freq.at_most(a[k].ln_freq));
            }
        },
    }
}

/// The points of `b` are those of `a` in another order: slot `i` of `b` holds slot `order[i]` of
/// `a`, and every slot of `a` is held by one of `b`.
pub open spec fn is_reordered(a: Seq<CurvePoint>, order: Seq<int>, b: Seq<CurvePoint>) -> bool {
    &&& b.len() == a.len()
    &&& order.len() == a.len()
    &&& forall|i: int|
        0 <= i < b.len() ==> 0 <= #[trigger] order[i] < a.len() && b[i] == a[order[i]]
    &&& forall|k: int| 0 <= k < a.len() ==> #[trigger] order.contains(k)
}

/// The points need not be sorted: where no two usable points share a frequency, the offset does not
/// depend on the slots that they are in.
pub proof fn law_order_of_points_does_not_matter<A: Arithmetic>(
    a: Seq<CurvePoint>,
    order: Seq<int>,
    b: Seq<CurvePoint>,
    ln_freq: Single,
    r: Single,
)
    requires
        is_reordered(a, order, b),
        forall|nodes: Seq<CurveNode>| #[trigger] are_nodes::<A>(a, nodes) ==> are_apart(nodes),
        is_point_offset::<A>(a, ln_freq, r),
    ensures
        is_point_offset::<A>(b, ln_freq, r),
{
    let (nodes, left, right) = choose|
        nodes: Seq<CurveNode>,
        left: Option<CurveNode>,
        right: Option<CurveNode>,
    |
        #![trigger are_nodes::<A>(a, nodes), is_left_neighbour(nodes, ln_freq, left), is_right_neighbour(nodes, ln_freq, right)]
        {
            &&& are_nodes::<A>(a, nodes)
            &&& is_left_neighbour(nodes, ln_freq, left)
            &&& is_right_neighbour(nodes, ln_freq, right)
            &&& is_offset_between::<A>(left, right, ln_freq, r)
        };
    let logs = lemma_nodes_have_logs::<A>(a, nodes);
    let reordered_logs = Seq::new(a.len(), |i: int| logs[order[i]]);
    let reordered = nodes_of(b, reordered_logs);
    assert forall|i: int| 0 <= i < b.len() && (#[trigger] b[i]).is_usable() implies natural_logs::<
        A,
    >(b[i].clamped_frequency(), reordered_logs[i]) by {
        assert(0 <= order[i] < a.len());
        assert(a[order[i]].is_usable());
    }
    lemma_logs_give_nodes::<A>(b, reordered_logs);
    assert forall|node: CurveNode| nodes.contains(node) <==> #[trigger] reordered.contains(node) by {
        lemma_nodes_are_those_of_usable_points(a, logs, node);
        lemma_nodes_are_those_of_usable_points(b, reordered_logs, node);
        if is_node_among(a, logs, node) {
            let k = choose|k: int|
                {
                    &&& 0 <= k < a.len()
                    &&& (#[trigger] a[k]).is_usable()
                    &&& node == (CurveNode { ln_freq: logs[k], offset_db: a[k].offset_db })
                };
            assert(order.contains(k));
            let i = choose|i: int| 0 <= i < order.len() && order[i] == k;
            assert(b[i].is_usable());
        }
        if is_node_among(b, reordered_logs, node) {
            let i = choose|i: int|
                {
                    &&& 0 <= i < b.len()
                    &&& (#[trigger] b[i]).is_usable()
                    &&& node == (CurveNode {
                        ln_freq: reordered_logs[i],
                        offset_db: b[i].offset_db,
                    })
                };
            assert(0 <= order[i] < a.len());
            assert(a[order[i]].is_usable());
        }
    }
    lemma_neighbours_do_not_depend_on_order(nodes, reordered, ln_freq, left, right);
    assert(are_nodes::<A>(b, reordered));
}

/// The range of the points: 30 Hz to 22 kHz, and 60 dB in either direction.
pub proof fn lemma_range_of_points()
    ensures
        single(THRESHOLD_CURVE_MIN_FREQUENCY_HZ).value() == 30real,
        single(THRESHOLD_CURVE_MIN_FREQUENCY_HZ).is_finite(),
        single(THRESHOLD_CURVE_MAX_FREQUENCY_HZ).value() == 22000real,
        single(THRESHOLD_CURVE_MAX_FREQUENCY_HZ).is_finite(),
        single(THRESHOLD_CURVE_POINT_OFFSET_LIMIT_DB).value() == 60real,
        single(THRESHOLD_CURVE_POINT_OFFSET_LIMIT_DB).is_finite(),
        single(THRESHOLD_CURVE_POINT_OFFSET_LIMIT_DB).negated().value() == -60real,
        single(THRESHOLD_CURVE_POINT_OFFSET_LIMIT_DB).negated().is_finite(),
{
    vstd::arithmetic::power2::lemma2_to64();
    assert(pow2(19) == 0x8_0000 && pow2(9) == 0x200 && pow2(18) == 0x4_0000);
    assert(pow2(19) as int as real == 524288real);
    assert(pow2(9) as int as real == 512real);
    assert(pow2(18) as int as real == 262144real);
    lemma_value_of(THRESHOLD_CURVE_MIN_FREQUENCY_HZ, 0xf0_0000, 19);
    lemma_value_of(THRESHOLD_CURVE_MAX_FREQUENCY_HZ, 0xab_e000, 9);
    lemma_value_of(THRESHOLD_CURVE_POINT_OFFSET_LIMIT_DB, 0xf0_0000, 18);
    lemma_signs(single(THRESHOLD_CURVE_POINT_OFFSET_LIMIT_DB));
}

/// The points move the level in the direction of their offset: a negative offset never puts the
/// curve above its base, a positive one never below it.
pub proof fn law_offsets_move_the_level_in_their_direction<A: Arithmetic>(
    curve: Curve<'_>,
    ln_freq: Single,
    r: Single,
) -> (parts: (Single, Single))
    requires
        sums_keep_order::<A>(),
        curve.is_level::<A>(ln_freq, r),
        !r.is_nan(),
    ensures
        is_base_level::<A>(*curve.params, curve.ln_center_frequency, ln_freq, parts.0),
        is_point_offset::<A>(curve.params.points@, ln_freq, parts.1),
        parts.1.at_most(single(ZERO)) ==> r.at_most(parts.0),
        single(ZERO).at_most(parts.1) ==> parts.0.at_most(r),
{
    choose|base: Single, offset: Single|
        #![trigger is_base_level::<A>(*curve.params, curve.ln_center_frequency, ln_freq, base), is_point_offset::<A>(curve.params.points@, ln_freq, offset)]
        {
            &&& is_base_level::<A>(*curve.params, curve.ln_center_frequency, ln_freq, base)
            &&& is_point_offset::<A>(curve.params.points@, ln_freq, offset)
            &&& sums::<A>(base, offset, r)
        }
}

/// The value of the quadratic.
pub proof fn lemma_quadratic_value<A: Arithmetic>(
    intercept: Single,
    slope: Single,
    curve: Single,
    x: Single,
    r: Single,
)
    requires
        is_exact::<A>(),
        intercept.is_finite() && slope.is_finite() && curve.is_finite() && x.is_finite(),
        is_quadratic::<A>(intercept, slope, curve, x, r),
    ensures
        r.is_finite(),
        r.value() == intercept.value() + slope.value() * x.value() + curve.value() * (x.value()
            * x.value()),
{
    let (linear, scaled, bent, line) = choose|
        linear: Single,
        scaled: Single,
        bent: Single,
        line: Single,
    | #[trigger]
        products::<A>(slope, x, linear) && #[trigger] products::<A>(curve, x, scaled)
            && #[trigger] products::<A>(scaled, x, bent) && #[trigger] sums::<A>(
            intercept,
            linear,
            line,
        ) && sums::<A>(line, bent, r);
    lemma_regroup(curve.value(), x.value(), x.value());
}

/// At the same distance from the center on both sides, the base curve's levels have a mean that lies
/// over the intercept by the curve coefficient times the square of the distance, and differ by the
/// slope times twice the distance. At the center the level is the intercept.
pub proof fn law_base_curve_tilts_and_bends<A: Arithmetic>(
    params: CurveParams,
    ln_center: Single,
    ln_above: Single,
    ln_below: Single,
    above: Single,
    below: Single,
)
    requires
        is_exact::<A>(),
        params.intercept.is_finite() && params.slope.is_finite() && params.curve.is_finite(),
        ln_center.is_finite() && ln_above.is_finite() && ln_below.is_finite(),
        ln_above.value() - ln_center.value() == ln_center.value() - ln_below.value(),
        is_base_level::<A>(params, ln_center, ln_above, above),
        is_base_level::<A>(params, ln_center, ln_below, below),
    ensures
        above.is_finite() && below.is_finite(),
        ({
            let x = ln_above.value() - ln_center.value();
            &&& (above.value() + below.value()) / 2real == params.intercept.value()
                + params.curve.value() * (x * x)
            &&& above.value() - below.value() == params.slope.value() * (2real * x)
        }),
        ln_above.value() == ln_center.value() ==> above.value() == params.intercept.value(),
{
    let p = choose|x: Single| #[trigger]
        differences::<A>(ln_above, ln_center, x) && is_quadratic::<A>(
            params.intercept,
            params.slope,
            params.curve,
            x,
            above,
        );
    let q = choose|x: Single| #[trigger]
        differences::<A>(ln_below, ln_center, x) && is_quadratic::<A>(
            params.intercept,
            params.slope,
            params.curve,
            x,
            below,
        );
    lemma_quadratic_value::<A>(params.intercept, params.slope, params.curve, p, above);
    lemma_quadratic_value::<A>(params.intercept, params.slope, params.curve, q, below);
    let (x, y) = (p.value(), q.value());
    assert(y == 0real - x);
    lemma_regroup(0real, x, y);
    lemma_regroup(x, 0real, x);
    lemma_sign_of_product(0real, y);
    lemma_sign_of_product(x, 0real);
    assert(y * y == x * x);
    lemma_regroup(params.slope.value(), x, x);
    lemma_regroup(params.slope.value(), 0real, x);
    lemma_sign_of_product(params.slope.value(), 0real);
    assert(2real * x == x + x);
    lemma_sign_of_product(x, x);
    lemma_sign_of_product(params.curve.value(), x * x);
    lemma_sign_of_product(params.slope.value(), x);
}

/// Between two nodes the offset stays between theirs, is their mean halfway, is symmetric around
/// that, and leaves and meets them flat: near a node it moves with the square of the distance.
pub proof fn law_offsets_are_blended_smoothly<A: Arithmetic>(
    from: Single,
    to: Single,
    t: Single,
    opposite_t: Single,
    r: Single,
    opposite: Single,
)
    requires
        is_exact::<A>(),
        from.is_finite() && to.is_finite() && t.is_finite() && opposite_t.is_finite(),
        0real <= t.value() <= 1real,
        opposite_t.value() == 1real - t.value(),
        is_smoothstep::<A>(from, to, t, r),
        is_smoothstep::<A>(from, to, opposite_t, opposite),
    ensures
        r.is_finite() && opposite.is_finite(),
        r.value() + opposite.value() == from.value() + to.value(),
        from.value() <= to.value() ==> from.value() <= r.value() <= to.value(),
        to.value() <= from.value() ==> to.value() <= r.value() <= from.value(),
        from.value() <= to.value() ==> r.value() - from.value() <= (to.value() - from.value()) * (
        3real * (t.value() * t.value())),
        to.value() <= from.value() ==> from.value() - r.value() <= (from.value() - to.value()) * (
        3real * (t.value() * t.value())),
        t.value() == 0real ==> r.value() == from.value(),
        t.value() == 1real ==> r.value() == to.value(),
        2real * t.value() == 1real ==> 2real * r.value() == from.value() + to.value(),
{
    let w = lemma_smoothstep_value::<A>(from, to, t, r);
    let v = lemma_smoothstep_value::<A>(from, to, opposite_t, opposite);
    let (x, y) = (t.value(), opposite_t.value());
    let rise = to.value() - from.value();
    lemma_weight(x);
    lemma_weight(y);
    // (1 - x)^2 * (1 + 2x) == 1 - x^2 * (3 - 2x)
    lemma_opposite_weight(x, y);
    assert(w + v == 1real);
    lemma_regroup(rise, w, v);
    lemma_sign_of_product(rise, w);
    lemma_sign_of_product(-rise, w);
    lemma_sign_of_product(rise, 1real - w);
    lemma_sign_of_product(-rise, 1real - w);
    lemma_regroup(rise, 1real, w);
    lemma_regroup(0real, rise, w);
    lemma_regroup(0real, rise, 1real - w);
    lemma_sign_of_product(0real, w);
    lemma_sign_of_product(0real, 1real - w);
    let bound = 3real * (x * x);
    lemma_regroup(rise, bound, w);
    lemma_sign_of_product(rise, bound - w);
    lemma_sign_of_product(-rise, bound - w);
    lemma_regroup(0real, rise, bound - w);
    lemma_regroup(0real, rise, bound);
    lemma_sign_of_product(0real, bound - w);
    lemma_sign_of_product(0real, bound);
    lemma_sign_of_product(x, x);
    assert(x == 0real ==> w == 0real);
    assert(x == 1real ==> w == 1real);
    assert(2real * x == 1real ==> x == y);
    assert(2real * x == 1real ==> w == v);
}

/// The weight of the second offset, and that it is what the second one gets of the distance.
proof fn lemma_smoothstep_value<A: Arithmetic>(from: Single, to: Single, t: Single, r: Single) -> (w:
    real)
    requires
        is_exact::<A>(),
        from.is_finite() && to.is_finite() && t.is_finite(),
        is_smoothstep::<A>(from, to, t, r),
    ensures
        r.is_finite(),
        w == (t.value() * t.value()) * (3real - 2real * t.value()),
        r.value() == from.value() + (to.value() - from.value()) * w,
{
    lemma_constants();
    let (square, double_t, falloff, weight, rise, step) = choose|
        square: Single,
        double_t: Single,
        falloff: Single,
        weight: Single,
        rise: Single,
        step: Single,
    | #[trigger]
        products::<A>(t, t, square) && #[trigger] products::<A>(single(TWO), t, double_t)
            && #[trigger] differences::<A>(single(THREE), double_t, falloff)
            && #[trigger] products::<A>(square, falloff, weight) && #[trigger] differences::<A>(
            to,
            from,
            rise,
        ) && #[trigger] products::<A>(rise, weight, step) && sums::<A>(from, step, r);
    weight.value()
}

proof fn lemma_weight(x: real)
    requires
        0real <= x <= 1real,
    ensures
        0real <= (x * x) * (3real - 2real * x) <= 1real,
        (x * x) * (3real - 2real * x) <= 3real * (x * x),
        x == 0real ==> (x * x) * (3real - 2real * x) == 0real,
        x == 1real ==> (x * x) * (3real - 2real * x) == 1real,
{
    let square = x * x;
    lemma_sign_of_product(x, x);
    lemma_sign_of_product(square, 3real - 2real * x);
    lemma_sign_of_product(square, 2real * x);
    lemma_regroup(square, 3real, 2real * x);
    lemma_regroup(square, 3real, 0real);
    // 1 - x^2 * (3 - 2x) == (1 - x)^2 * (1 + 2x)
    let rest = 1real - x;
    lemma_opposite_weight(x, rest);
    lemma_sign_of_product(rest, rest);
    lemma_sign_of_product(rest * rest, 3real - 2real * rest);
}

proof fn lemma_opposite_weight(x: real, y: real)
    requires
        y == 1real - x,
    ensures
        (x * x) * (3real - 2real * x) + (y * y) * (3real - 2real * y) == 1real,
{
    lemma_regroup(1real, x, y);
    lemma_regroup(x, 1real, x);
    let (p, q) = (x * x, y * y);
    assert(y * y == 1real * y - x * y);
    assert(x * y == x * 1real - x * x);
    assert(q == 1real - 2real * x + p);
    lemma_regroup(p, 3real, 2real * x);
    lemma_regroup(q, 1real, 2real * x);
    assert(3real - 2real * y == 1real + 2real * x);
    assert(q * (1real + 2real * x) == q * 1real + q * (2real * x));
    lemma_regroup(1real - 2real * x, p, 2real * x);
    assert(q * (2real * x) == (1real - 2real * x) * (2real * x) + p * (2real * x));
    lemma_regroup(1real, 2real * x, 2real * x);
    assert((2real * x) * (2real * x) == 4real * p) by (nonlinear_arith)
        requires
            p == x * x,
    ;
    assert(p * 3real == 3real * p);
}

/// The offset of one node alone.
proof fn lemma_offset_of_one_node<A: Arithmetic>(
    points: Seq<CurvePoint>,
    ln: spec_fn(real) -> real,
    i: int,
    ln_freq: Single,
    offset: Single,
)
    requires
        is_exact::<A>(),
        logs_follow::<A>(ln),
        0 <= i < points.len(),
        points[i].is_usable(),
        ln_freq.is_finite(),
        (forall|j: int|
            0 <= j < points.len() && j != i ==> !(#[trigger] points[j]).is_usable()) || (
        ln_freq.value() == ln(points[i].clamped_frequency().value()) && forall|j: int|
            0 <= j < points.len() && j != i && (#[trigger] points[j]).is_usable() ==> ln(
                points[j].clamped_frequency().value(),
            ) != ln_freq.value()),
        is_point_offset::<A>(points, ln_freq, offset),
    ensures
        offset == points[i].offset_db,
{
    let (nodes, left, right) = choose|
        nodes: Seq<CurveNode>,
        left: Option<CurveNode>,
        right: Option<CurveNode>,
    |
        #![trigger are_nodes::<A>(points, nodes), is_left_neighbour(nodes, ln_freq, left), is_right_neighbour(nodes, ln_freq, right)]
        {
            &&& are_nodes::<A>(points, nodes)
            &&& is_left_neighbour(nodes, ln_freq, left)
            &&& is_right_neighbour(nodes, ln_freq, right)
            &&& is_offset_between::<A>(left, right, ln_freq, offset)
        };
    let logs = lemma_nodes_have_logs::<A>(points, nodes);
    let node = CurveNode { ln_freq: logs[i], offset_db: points[i].offset_db };
    lemma_nodes_are_those_of_usable_points(points, logs, node);
    assert(nodes.contains(node));
    let k = choose|k: int| 0 <= k < nodes.len() && nodes[k] == node;
    assert forall|j: int| 0 <= j < points.len() && (#[trigger] points[j]).is_usable() implies
        logs[j].is_finite() && logs[j].value() == ln(points[j].clamped_frequency().value()) by {
        lemma_clamped_frequency(points[j]);
    }
    lemma_order_is_by_value(node.ln_freq, ln_freq);
    lemma_order_is_by_value(ln_freq, node.ln_freq);
    assert(nodes[k].ln_freq.at_most(ln_freq) || ln_freq.at_most(nodes[k].ln_freq));
    assert(left is Some || right is Some);
    if left is Some {
        lemma_only_node::<A>(points, ln, i, ln_freq, nodes, logs, k, left->0);
    }
    if right is Some {
        lemma_only_node::<A>(points, ln, i, ln_freq, nodes, logs, k, right->0);
    }
    if left is Some && right is Some {
        lemma_constants();
        let width = choose|width: Single| #[trigger]
            differences::<A>(right->0.ln_freq, left->0.ln_freq, width) && if width.absolute().at_most(
                single(EPSILON),
            ) {
                offset == left->0.offset_db
            } else {
                exists|way: Single, ratio: Single| #[trigger]
                    differences::<A>(ln_freq, left->0.ln_freq, way) && #[trigger] quotients::<A>(
                        way,
                        width,
                        ratio,
                    ) && is_smoothstep::<A>(
                        left->0.offset_db,
                        right->0.offset_db,
                        ratio.clamped(single(ZERO), single(ONE)),
                        offset,
                    )
            };
        assert(width.value() == 0real);
        lemma_signs(width);
        lemma_order_is_by_value(width.absolute(), single(ZERO));
        assert(width.absolute().at_most(single(ZERO)));
        assert(single(ZERO).at_most(single(EPSILON)));
    }
}

/// The clamped frequency of a point is a positive number.
pub proof fn lemma_clamped_frequency(point: CurvePoint)
    requires
        point.frequency.is_finite(),
    ensures
        point.clamped_frequency().is_finite(),
        30real <= point.clamped_frequency().value() <= 22000real,
        30real <= point.frequency.value() <= 22000real ==> point.clamped_frequency().value()
            == point.frequency.value(),
{
    lemma_range_of_points();
    lemma_selections(
        point.frequency,
        single(THRESHOLD_CURVE_MIN_FREQUENCY_HZ),
        single(THRESHOLD_CURVE_MAX_FREQUENCY_HZ),
    );
}

/// A neighbour can only be the one node.
proof fn lemma_only_node<A: Arithmetic>(
    points: Seq<CurvePoint>,
    ln: spec_fn(real) -> real,
    i: int,
    ln_freq: Single,
    nodes: Seq<CurveNode>,
    logs: Seq<Single>,
    k: int,
    neighbour: CurveNode,
)
    requires
        0 <= i < points.len() && points[i].is_usable(),
        logs.len() == points.len(),
        nodes == nodes_of(points, logs),
        ln_freq.is_finite(),
        0 <= k < nodes.len(),
        nodes[k] == (CurveNode { ln_freq: logs[i], offset_db: points[i].offset_db }),
        forall|j: int|
            0 <= j < points.len() && (#[trigger] points[j]).is_usable() ==> logs[j].is_finite()
                && logs[j].value() == ln(points[j].clamped_frequency().value()),
        (forall|j: int|
            0 <= j < points.len() && j != i ==> !(#[trigger] points[j]).is_usable()) || (
        ln_freq.value() == ln(points[i].clamped_frequency().value()) && forall|j: int|
            0 <= j < points.len() && j != i && (#[trigger] points[j]).is_usable() ==> ln(
                points[j].clamped_frequency().value(),
            ) != ln_freq.value()),
        is_left_neighbour(nodes, ln_freq, Some(neighbour)) || is_right_neighbour(
            nodes,
            ln_freq,
            Some(neighbour),
        ),
    ensures
        neighbour == nodes[k],
{
    assert(nodes.contains(neighbour));
    lemma_nodes_are_those_of_usable_points(points, logs, neighbour);
    let j = choose|j: int|
        {
            &&& 0 <= j < points.len()
            &&& (#[trigger] points[j]).is_usable()
            &&& neighbour == (CurveNode { ln_freq: logs[j], offset_db: points[j].offset_db })
        };
    if j != i {
        lemma_order_is_by_value(logs[i], ln_freq);
        lemma_order_is_by_value(ln_freq, logs[i]);
        lemma_order_is_by_value(logs[j], ln_freq);
        lemma_order_is_by_value(ln_freq, logs[j]);
        lemma_order_is_by_value(logs[i], logs[j]);
        lemma_order_is_by_value(logs[j], logs[i]);
        assert(nodes[k].ln_freq.at_most(ln_freq) && ln_freq.at_most(nodes[k].ln_freq));
        assert(false);
    }
}

/// The level lies over the base curve by the point's offset, with its sign: at the frequency of a
/// point where the others lie elsewhere, and at every frequency where it is the only one in use.
pub proof fn law_curve_passes_through_its_points<A: Arithmetic>(
    curve: Curve<'_>,
    ln: spec_fn(real) -> real,
    i: int,
    ln_freq: Single,
    r: Single,
) -> (base: Single)
    requires
        is_exact::<A>(),
        logs_follow::<A>(ln),
        curve.params.intercept.is_finite() && curve.params.slope.is_finite()
            && curve.params.curve.is_finite() && curve.ln_center_frequency.is_finite(),
        ln_freq.is_finite(),
        0 <= i < curve.params.points@.len(),
        curve.params.points@[i].is_usable(),
        (forall|j: int|
            0 <= j < curve.params.points@.len() && j != i ==> !(
            #[trigger] curve.params.points@[j]).is_usable()) || (ln_freq.value() == ln(
            curve.params.points@[i].clamped_frequency().value(),
        ) && forall|j: int|
            0 <= j < curve.params.points@.len() && j != i && (
            #[trigger] curve.params.points@[j]).is_usable() ==> ln(
                curve.params.points@[j].clamped_frequency().value(),
            ) != ln_freq.value()),
        curve.is_level::<A>(ln_freq, r),
    ensures
        is_base_level::<A>(*curve.params, curve.ln_center_frequency, ln_freq, base),
        base.is_finite() && r.is_finite(),
        r.value() == base.value() + curve.params.points@[i].offset_db.value(),
{
    let (base, offset) = choose|base: Single, offset: Single|
        #![trigger is_base_level::<A>(*curve.params, curve.ln_center_frequency, ln_freq, base), is_point_offset::<A>(curve.params.points@, ln_freq, offset)]
        {
            &&& is_base_level::<A>(*curve.params, curve.ln_center_frequency, ln_freq, base)
            &&& is_point_offset::<A>(curve.params.points@, ln_freq, offset)
            &&& sums::<A>(base, offset, r)
        };
    lemma_offset_of_one_node::<A>(curve.params.points@, ln, i, ln_freq, offset);
    let x = choose|x: Single| #[trigger]
        differences::<A>(ln_freq, curve.ln_center_frequency, x) && is_quadratic::<A>(
            curve.params.intercept,
            curve.params.slope,
            curve.params.curve,
            x,
            base,
        );
    lemma_quadratic_value::<A>(
        curve.params.intercept,
        curve.params.slope,
        curve.params.curve,
        x,
        base,
    );
    base
}

/// Between two nodes the curve leaves the one and meets the other flat, stays between them, and is
/// symmetric around the middle, where it has their mean offset. `way` and `width` are the distances
/// of the frequency and of the second node from the first one.
pub proof fn law_offsets_between_nodes_are_smooth<A: Arithmetic>(
    left: CurveNode,
    right: CurveNode,
    ln_freq: Single,
    mirrored: Single,
    r: Single,
    opposite: Single,
)
    requires
        is_exact::<A>(),
        left.ln_freq.is_finite() && right.ln_freq.is_finite(),
        left.offset_db.is_finite() && right.offset_db.is_finite(),
        ln_freq.is_finite() && mirrored.is_finite(),
        right.ln_freq.value() - left.ln_freq.value() > single(EPSILON).value(),
        left.ln_freq.value() <= ln_freq.value() <= right.ln_freq.value(),
        ln_freq.value() + mirrored.value() == left.ln_freq.value() + right.ln_freq.value(),
        is_blend::<A>(left, right, ln_freq, r),
        is_blend::<A>(left, right, mirrored, opposite),
    ensures
        ({
            let (from, to) = (left.offset_db.value(), right.offset_db.value());
            let (way, width) = (
                ln_freq.value() - left.ln_freq.value(),
                right.ln_freq.value() - left.ln_freq.value(),
            );
            &&& r.is_finite() && opposite.is_finite()
            &&& r.value() + opposite.value() == from + to
            &&& from <= to ==> from <= r.value() <= to
            &&& to <= from ==> to <= r.value() <= from
            &&& from <= to ==> (r.value() - from) * (width * width) <= (to - from) * (3real * (way
                * way))
            &&& to <= from ==> (from - r.value()) * (width * width) <= (from - to) * (3real * (way
                * way))
            &&& way == 0real ==> r.value() == from
            &&& way == width ==> r.value() == to
            &&& 2real * way == width ==> 2real * r.value() == from + to
        }),
{
    lemma_epsilon();
    let t = lemma_blend_ratio::<A>(left, right, ln_freq, r);
    let u = lemma_blend_ratio::<A>(left, right, mirrored, opposite);
    let (way, width) = (
        ln_freq.value() - left.ln_freq.value(),
        right.ln_freq.value() - left.ln_freq.value(),
    );
    let (x, y) = (t.value(), u.value());
    assert(x * width == way);
    assert(y * width == width - way);
    lemma_regroup(1real, x, width);
    lemma_cancel(y, 1real - x, width);
    law_offsets_are_blended_smoothly::<A>(left.offset_db, right.offset_db, t, u, r, opposite);
    // (x * width)^2 == way^2
    lemma_regroup(x, width, x * width);
    lemma_regroup(width, x, width);
    lemma_regroup(x, x, width * width);
    lemma_regroup(x, width, width);
    assert(way * way == (x * x) * (width * width)) by {
        assert(way * way == x * (width * (x * width)));
        assert(width * (x * width) == (width * x) * width);
        assert(width * x == x * width);
        assert((x * width) * width == x * (width * width));
    }
    let area = width * width;
    let square = x * x;
    lemma_sign_of_product(width, width);
    let rise = right.offset_db.value() - left.offset_db.value();
    let gone = r.value() - left.offset_db.value();
    if left.offset_db.value() <= right.offset_db.value() {
        lemma_flat_start(gone, rise, square, area, way * way);
    }
    if right.offset_db.value() <= left.offset_db.value() {
        lemma_flat_start(
            left.offset_db.value() - r.value(),
            left.offset_db.value() - right.offset_db.value(),
            square,
            area,
            way * way,
        );
    }
    if way == 0real {
        lemma_cancel(x, 0real, width);
    }
    if way == width {
        lemma_cancel(x, 1real, width);
    }
    if 2real * way == width {
        lemma_regroup(2real, x, width);
        lemma_cancel(2real * x, 1real, width);
    }
}

proof fn lemma_epsilon()
    ensures
        single(EPSILON).value() > 0real,
        single(EPSILON).is_finite(),
{
    lemma_value_of(EPSILON, 0x80_0000, 46);
    lemma_pow2_pos(46);
    let (v, p) = (single(EPSILON).value(), pow2(46) as int as real);
    lemma_sign_of_product(v, p);
}

proof fn lemma_flat_start(gone: real, rise: real, square: real, area: real, product: real)
    requires
        gone <= rise * (3real * square),
        area >= 0real,
        product == square * area,
    ensures
        gone * area <= rise * (3real * product),
{
    let bound = rise * (3real * square);
    lemma_sign_of_product(bound - gone, area);
    lemma_regroup(bound, gone, area);
    lemma_regroup(rise, 3real * square, area);
    lemma_regroup(3real, square, area);
}

/// The share of the way, where the nodes are apart.
proof fn lemma_blend_ratio<A: Arithmetic>(
    left: CurveNode,
    right: CurveNode,
    ln_freq: Single,
    r: Single,
) -> (t: Single)
    requires
        is_exact::<A>(),
        left.ln_freq.is_finite() && right.ln_freq.is_finite() && ln_freq.is_finite(),
        right.ln_freq.value() - left.ln_freq.value() > single(EPSILON).value(),
        left.ln_freq.value() <= ln_freq.value() <= right.ln_freq.value(),
        is_blend::<A>(left, right, ln_freq, r),
    ensures
        t.is_finite(),
        0real <= t.value() <= 1real,
        t.value() * (right.ln_freq.value() - left.ln_freq.value()) == ln_freq.value()
            - left.ln_freq.value(),
        is_smoothstep::<A>(left.offset_db, right.offset_db, t, r),
{
    lemma_constants();
    lemma_epsilon();
    let width = choose|width: Single| #[trigger]
        differences::<A>(right.ln_freq, left.ln_freq, width) && if width.absolute().at_most(
            single(EPSILON),
        ) {
            r == left.offset_db
        } else {
            exists|way: Single, ratio: Single| #[trigger]
                differences::<A>(ln_freq, left.ln_freq, way) && #[trigger] quotients::<A>(
                    way,
                    width,
                    ratio,
                ) && is_smoothstep::<A>(
                    left.offset_db,
                    right.offset_db,
                    ratio.clamped(single(ZERO), single(ONE)),
                    r,
                )
        };
    lemma_signs(width);
    assert(single(EPSILON).is_finite());
    lemma_order_is_by_value(width.absolute(), single(EPSILON));
    let (way, ratio) = choose|way: Single, ratio: Single| #[trigger]
        differences::<A>(ln_freq, left.ln_freq, way) && #[trigger] quotients::<A>(
            way,
            width,
            ratio,
        ) && is_smoothstep::<A>(
            left.offset_db,
            right.offset_db,
            ratio.clamped(single(ZERO), single(ONE)),
            r,
        );
    let (q, w) = (ratio.value(), width.value());
    lemma_regroup(q, 1real, w);
    lemma_sign_of_product(-q, w);
    lemma_sign_of_product(q - 1real, w);
    lemma_regroup(0real, q, w);
    lemma_sign_of_product(0real, w);
    assert(q >= 0real);
    assert(q <= 1real);
    lemma_selections(ratio, single(ZERO), single(ONE));
    ratio.clamped(single(ZERO), single(ONE))
}

} // verus!
