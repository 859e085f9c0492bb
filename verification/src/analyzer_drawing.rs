//! What the analyzer graph shows, as shapes to be drawn.

use vstd::arithmetic::power2::pow2;
use vstd::prelude::*;

use crate::analyzer::AnalyzerData;
use crate::analyzer_view::{
    along, db_to_unclamped_t, editable_curve_display_offset_db, frequency_to_x_t, height, is_along,
    is_display_offset, is_frequency_x_t, is_height, is_in_graph, is_point_position, is_x_t,
    is_y_t, lemma_constants_of_the_graph, point_screen_position, AnalyzerView, EIGHTY,
    LN_FREQ_RANGE, LN_FREQ_RANGE_START_HZ, ONE_HUNDRED,
};
use crate::arithmetic::{
    ceilings, count_casts, counts, differences, gain_levels, natural_logs, products, quotients,
    sums, Arithmetic,
};
use crate::curve::{Curve, MAX_THRESHOLD_CURVE_POINTS};
use crate::dynamics::{half, halves};
use crate::exact::{
    ceilings_follow, floors_follow, is_exact, lemma_cancel, lemma_constants,
    lemma_order_is_by_value, lemma_regroup, lemma_selections, lemma_sign_of_product, lemma_signs,
    lemma_three_factors, lemma_value_of, logs_follow, whole,
};
use crate::match_curve::present;
use crate::pointer::Position;
use crate::single::{single, Single, ONE, ONE_HALF, THREE, TWO, ZERO};
use crate::window::BoundingBox;

verus! {

/// The encoding of `1.5`.
pub const SPECTRUM_LINE_WIDTH: u32 = 0x3fc0_0000;

/// The encoding of `5.0`.
pub const LABEL_PADDING: u32 = 0x40a0_0000;

/// The encoding of `11.0`.
pub const LABEL_FONT_SIZE: u32 = 0x4130_0000;

/// The encoding of `4.5`.
pub const POINT_RADIUS: u32 = 0x4090_0000;

/// The encoding of `0.2`. Smaller gains are not shown.
pub const SHOWN_GAIN_DB: u32 = 0x3e4c_cccd;

/// The encoding of `40.0`, the gain that reaches from the center to the edge of the graph.
pub const LARGEST_GAIN_DB: u32 = 0x4220_0000;

/// How many vertices a threshold curve has at most.
pub const MAX_CURVE_VERTICES: u64 = 100;

/// How many frequencies are marked in the graph.
pub const GUIDE_COUNT: usize = 4;

/// A line between two positions.
#[derive(Clone, Copy, PartialEq, Eq, Debug, Structural)]
pub struct Line {
    pub from: Position,
    pub to: Position,
}

/// The frequencies that are marked: 30 Hz, 100 Hz, 1 kHz and 10 kHz.
#[verifier::allow_in_spec]
pub fn guide_frequency(index: usize) -> Single
    returns
        (if index == 0 {
            single(0x41f0_0000)
        } else if index == 1 {
            single(0x42c8_0000)
        } else if index == 2 {
            single(0x447a_0000)
        } else {
            single(0x461c_4000)
        }),
{
    if index == 0 {
        single(0x41f0_0000)
    } else if index == 1 {
        single(0x42c8_0000)
    } else if index == 2 {
        single(0x447a_0000)
    } else {
        single(0x461c_4000)
    }
}

/// How a marked frequency is labelled.
pub open spec fn guide_text_of(index: usize) -> Seq<char> {
    if index == 0 {
        "30 Hz"@
    } else if index == 1 {
        "100 Hz"@
    } else if index == 2 {
        "1 kHz"@
    } else {
        "10 kHz"@
    }
}

/// How a marked frequency is labelled.
pub fn guide_text(index: usize) -> (text: &'static str)
    ensures
        text@ == guide_text_of(index),
{
    if index == 0 {
        "30 Hz"
    } else if index == 1 {
        "100 Hz"
    } else if index == 2 {
        "1 kHz"
    } else {
        "10 kHz"
    }
}

/// `r` is the line for a marked frequency, if it lies in the graph.
pub open spec fn is_guide_line<A: Arithmetic>(
    bounds: BoundingBox,
    index: usize,
    r: Option<Line>,
) -> bool {
    exists|x_t: Single| #[trigger]
        is_frequency_x_t::<A>(guide_frequency(index), x_t) && if is_in_graph(x_t) {
            r matches Some(line) && {
                &&& is_along::<A>(bounds.x, bounds.w, x_t, line.from.x)
                &&& line.to.x == line.from.x
                &&& line.from.y == bounds.y
                &&& sums::<A>(bounds.y, bounds.h, line.to.y)
            }
        } else {
            r is None
        }
}

fn guide_line<A: Arithmetic>(bounds: BoundingBox, index: usize) -> (r: Option<Line>)
    ensures
        is_guide_line::<A>(bounds, index, r),
{
    let frequency = guide_frequency(index);
    let x_t = frequency_to_x_t::<A>(frequency);
    assert(is_frequency_x_t::<A>(guide_frequency(index), x_t));
    if !is_in_graph(x_t) {
        return None;
    }
    let x = along::<A>(bounds.x, bounds.w, x_t);
    let bottom = A::sum(bounds.y, bounds.h);
    Some(Line { from: Position { x, y: bounds.y }, to: Position { x, y: bottom } })
}

/// `options` are the lines for the first marked frequencies.
pub open spec fn are_guide_lines<A: Arithmetic>(
    bounds: BoundingBox,
    options: Seq<Option<Line>>,
) -> bool {
    forall|i: int|
        0 <= i < options.len() ==> is_guide_line::<A>(bounds, i as usize, #[trigger] options[i])
}

/// The lines at the marked frequencies.
pub fn draw_frequency_guide_lines<A: Arithmetic>(bounds: BoundingBox) -> (lines: Vec<Line>)
    ensures
        exists|options: Seq<Option<Line>>|
            {
                &&& #[trigger] are_guide_lines::<A>(bounds, options)
                &&& options.len() == GUIDE_COUNT
                &&& lines@ == present(options)
            },
{
    let mut lines: Vec<Line> = Vec::new();
    let ghost mut options: Seq<Option<Line>> = Seq::empty();
    let mut index: usize = 0;
    while index < GUIDE_COUNT
        invariant
            index <= GUIDE_COUNT,
            options.len() == index,
            are_guide_lines::<A>(bounds, options),
            lines@ == present(options),
        decreases GUIDE_COUNT - index,
    {
        let line = guide_line::<A>(bounds, index);
        proof {
            let earlier = options;
            options = options.push(line);
            assert(options.drop_last() =~= earlier);
        }
        if let Some(shown) = line {
            lines.push(shown);
        }
        index += 1;
    }
    lines
}

/// The label of a marked frequency.
#[derive(Clone, Copy, PartialEq, Eq, Debug, Structural)]
pub struct GuideLabel {
    /// Which of the marked frequencies it is.
    pub index: usize,
    pub position: Position,
}

/// `r` is where the label right of a line is: between the paddings at both edges, or in the middle
/// where there is no room.
pub open spec fn is_label_x<A: Arithmetic>(
    bounds: BoundingBox,
    padding: Single,
    line_x: Single,
    r: Single,
) -> bool {
    exists|min_x: Single, right: Single, max_x: Single| #[trigger]
        sums::<A>(bounds.x, padding, min_x) && #[trigger] sums::<A>(bounds.x, bounds.w, right)
            && #[trigger] differences::<A>(right, padding, max_x) && if min_x.at_most(max_x) {
            exists|label_x: Single| #[trigger]
                sums::<A>(line_x, padding, label_x) && r == label_x.clamped(min_x, max_x)
        } else {
            is_along::<A>(bounds.x, bounds.w, single(ONE_HALF), r)
        }
}

fn label_x<A: Arithmetic>(bounds: BoundingBox, padding: Single, line_x: Single) -> (r: Single)
    ensures
        is_label_x::<A>(bounds, padding, line_x, r),
{
    let min_x = A::sum(bounds.x, padding);
    let right = A::sum(bounds.x, bounds.w);
    let max_x = A::difference(right, padding);
    if min_x.at_most(max_x) {
        let label_x = A::sum(line_x, padding);
        label_x.clamped(min_x, max_x)
    } else {
        along::<A>(bounds.x, bounds.w, single(ONE_HALF))
    }
}

/// `r` is the label for a marked frequency, if it lies in the graph.
pub open spec fn is_guide_label<A: Arithmetic>(
    bounds: BoundingBox,
    padding: Single,
    label_y: Single,
    index: usize,
    r: Option<GuideLabel>,
) -> bool {
    exists|x_t: Single| #[trigger]
        is_frequency_x_t::<A>(guide_frequency(index), x_t) && if is_in_graph(x_t) {
            r matches Some(label) && {
                &&& label.index == index
                &&& label.position.y == label_y
                &&& exists|line_x: Single| #[trigger]
                    is_along::<A>(bounds.x, bounds.w, x_t, line_x) && is_label_x::<A>(
                        bounds,
                        padding,
                        line_x,
                        label.position.x,
                    )
            }
        } else {
            r is None
        }
}

fn guide_label<A: Arithmetic>(
    bounds: BoundingBox,
    padding: Single,
    label_y: Single,
    index: usize,
) -> (r: Option<GuideLabel>)
    ensures
        is_guide_label::<A>(bounds, padding, label_y, index, r),
{
    let frequency = guide_frequency(index);
    let x_t = frequency_to_x_t::<A>(frequency);
    assert(is_frequency_x_t::<A>(guide_frequency(index), x_t));
    if !is_in_graph(x_t) {
        return None;
    }
    let line_x = along::<A>(bounds.x, bounds.w, x_t);
    let x = label_x::<A>(bounds, padding, line_x);
    Some(GuideLabel { index, position: Position { x, y: label_y } })
}

/// `options` are the labels for the first marked frequencies.
pub open spec fn are_guide_labels<A: Arithmetic>(
    bounds: BoundingBox,
    padding: Single,
    label_y: Single,
    options: Seq<Option<GuideLabel>>,
) -> bool {
    forall|i: int|
        0 <= i < options.len() ==> is_guide_label::<A>(
            bounds,
            padding,
            label_y,
            i as usize,
            #[trigger] options[i],
        )
}

/// The labels of the marked frequencies, and the size of their text.
pub struct GuideLabels {
    pub font_size: Single,
    pub labels: Vec<GuideLabel>,
}

/// `r` are the labels of the marked frequencies.
pub open spec fn are_labels<A: Arithmetic>(view: AnalyzerView, r: GuideLabels) -> bool {
    &&& products::<A>(view.scale_factor, single(LABEL_FONT_SIZE), r.font_size)
    &&& exists|padding: Single, label_y: Single, options: Seq<Option<GuideLabel>>|
        {
            &&& #[trigger] products::<A>(view.scale_factor, single(LABEL_PADDING), padding)
            &&& #[trigger] sums::<A>(view.bounds.y, padding, label_y)
            &&& #[trigger] are_guide_labels::<A>(view.bounds, padding, label_y, options)
            &&& options.len() == GUIDE_COUNT
            &&& r.labels@ == present(options)
        }
}

/// The labels of the marked frequencies.
pub fn draw_frequency_guide_labels<A: Arithmetic>(view: AnalyzerView) -> (r: GuideLabels)
    ensures
        are_labels::<A>(view, r),
{
    let font_size = A::product(view.scale_factor, single(LABEL_FONT_SIZE));
    assert(products::<A>(view.scale_factor, single(LABEL_FONT_SIZE), font_size));
    let padding = A::product(view.scale_factor, single(LABEL_PADDING));
    assert(products::<A>(view.scale_factor, single(LABEL_PADDING), padding));
    let label_y = A::sum(view.bounds.y, padding);
    let mut labels: Vec<GuideLabel> = Vec::new();
    let ghost mut options: Seq<Option<GuideLabel>> = Seq::empty();
    let mut index: usize = 0;
    while index < GUIDE_COUNT
        invariant
            index <= GUIDE_COUNT,
            options.len() == index,
            are_guide_labels::<A>(view.bounds, padding, label_y, options),
            labels@ == present(options),
        decreases GUIDE_COUNT - index,
    {
        let label = guide_label::<A>(view.bounds, padding, label_y, index);
        proof {
            let earlier = options;
            options = options.push(label);
            assert(options.drop_last() =~= earlier);
        }
        if let Some(shown) = label {
            labels.push(shown);
        }
        index += 1;
    }
    GuideLabels { font_size, labels }
}

/// `r` is the frequency of a bin, which need not be a whole one.
pub open spec fn is_bin_frequency<A: Arithmetic>(
    bin: Single,
    num_bins: usize,
    nyquist_hz: Single,
    r: Single,
) -> bool {
    exists|n: Single, ratio: Single| #[trigger]
        counts::<A>(num_bins, n) && #[trigger] quotients::<A>(bin, n, ratio) && products::<A>(
            ratio,
            nyquist_hz,
            r,
        )
}

/// `r` is where a bin is in the graph.
pub open spec fn is_bin_t<A: Arithmetic>(
    bin: Single,
    num_bins: usize,
    nyquist_hz: Single,
    r: Single,
) -> bool {
    exists|frequency: Single| #[trigger]
        is_bin_frequency::<A>(bin, num_bins, nyquist_hz, frequency) && is_frequency_x_t::<A>(
            frequency,
            r,
        )
}

fn bin_t<A: Arithmetic>(bin: Single, num_bins: usize, nyquist_hz: Single) -> (r: Single)
    ensures
        is_bin_t::<A>(bin, num_bins, nyquist_hz, r),
{
    let n = A::from_count(num_bins);
    let ratio = A::quotient(bin, n);
    let frequency = A::product(ratio, nyquist_hz);
    assert(is_bin_frequency::<A>(bin, num_bins, nyquist_hz, frequency));
    frequency_to_x_t::<A>(frequency)
}

/// `r` is where the bin with the given index is in the graph.
pub open spec fn is_index_t<A: Arithmetic>(
    bin_idx: usize,
    num_bins: usize,
    nyquist_hz: Single,
    r: Single,
) -> bool {
    exists|bin: Single| #[trigger]
        counts::<A>(bin_idx, bin) && is_bin_t::<A>(bin, num_bins, nyquist_hz, r)
}

fn index_t<A: Arithmetic>(bin_idx: usize, num_bins: usize, nyquist_hz: Single) -> (r: Single)
    ensures
        is_index_t::<A>(bin_idx, num_bins, nyquist_hz, r),
{
    let bin = A::from_count(bin_idx);
    bin_t::<A>(bin, num_bins, nyquist_hz)
}

/// `r` is how high a magnitude reaches: 0 is -80 dB or lower, and 1 is +20 dB or higher.
pub open spec fn is_magnitude_height<A: Arithmetic>(magnitude: Single, r: Single) -> bool {
    exists|level: Single, t: Single| #[trigger]
        gain_levels::<A>(magnitude, level) && #[trigger] is_y_t::<A>(level, t) && r == t.clamped(
            single(ZERO),
            single(ONE),
        )
}

fn magnitude_height<A: Arithmetic>(magnitude: Single) -> (r: Single)
    ensures
        is_magnitude_height::<A>(magnitude, r),
{
    let level = A::gain_to_db(magnitude);
    let t = db_to_unclamped_t::<A>(level);
    t.clamped(single(ZERO), single(ONE))
}

/// Whether a bin lies at or beyond an edge of the graph.
#[verifier::allow_in_spec]
pub fn is_outside(t: Single) -> bool
    returns
        t.at_most(single(ZERO)) || single(ONE).at_most(t),
{
    t.at_most(single(ZERO)) || single(ONE).at_most(t)
}

/// What the bars of the spectrum have come to.
pub struct BarsState {
    pub bars: Vec<Line>,
    /// Where the last bin that was looked at is.
    pub previous_x: Single,
    /// The bin at which the bars give way to a mesh, if there is one.
    pub mesh_bin: Option<usize>,
}

/// [`BarsState`], as contracts speak of it.
pub struct BarsModel {
    pub bars: Seq<Line>,
    pub previous_x: Single,
    pub mesh_bin: Option<usize>,
}

impl View for BarsState {
    type V = BarsModel;

    open spec fn view(&self) -> BarsModel {
        BarsModel {
            bars: self.bars@,
            previous_x: self.previous_x,
            mesh_bin: self.mesh_bin,
        }
    }
}

/// The bin before the given one.
#[verifier::allow_in_spec]
pub fn bin_before(bin_idx: usize) -> usize
    returns
        (if bin_idx == 0 {
            0usize
        } else {
            (bin_idx - 1) as usize
        }),
{
    if bin_idx == 0 {
        0
    } else {
        bin_idx - 1
    }
}

/// `bar` is the bar at a position, with the height of a magnitude.
pub open spec fn is_bar<A: Arithmetic>(
    bounds: BoundingBox,
    x: Single,
    magnitude: Single,
    bar: Line,
) -> bool {
    &&& bar.from.x == x
    &&& bar.to.x == x
    &&& exists|h: Single| #[trigger]
        is_magnitude_height::<A>(magnitude, h) && is_height::<A>(bounds, h, bar.from.y)
    &&& sums::<A>(bounds.y, bounds.h, bar.to.y)
}

fn bar<A: Arithmetic>(bounds: BoundingBox, x: Single, magnitude: Single) -> (bar: Line)
    ensures
        is_bar::<A>(bounds, x, magnitude, bar),
{
    let h = magnitude_height::<A>(magnitude);
    let top = height::<A>(bounds, h);
    let bottom = A::sum(bounds.y, bounds.h);
    Line { from: Position { x, y: top }, to: Position { x, y: bottom } }
}

/// `after` is what the bars come to with a bin at `x`: a bar more where it is far enough from the
/// one before, else the start of the mesh, one bin earlier so that there is no gap.
pub open spec fn is_bar_placed<A: Arithmetic>(
    bounds: BoundingBox,
    closest: Single,
    bin_idx: usize,
    x: Single,
    magnitude: Single,
    before: BarsModel,
    after: BarsModel,
) -> bool {
    exists|gap: Single| #[trigger]
        differences::<A>(x, before.previous_x, gap) && if gap.below(closest) {
            after == (BarsModel {
                bars: before.bars,
                previous_x: x,
                mesh_bin: Some(bin_before(bin_idx)),
            })
        } else {
            exists|bar: Line| #[trigger]
                is_bar::<A>(bounds, x, magnitude, bar) && after == (BarsModel {
                    bars: before.bars.push(bar),
                    previous_x: x,
                    mesh_bin: None,
                })
        }
}

/// `after` is what the bars come to with one bin more. Once the mesh has started there are no more
/// bars.
pub open spec fn is_bars_step<A: Arithmetic>(
    scene: SpectrumScene,
    followers: Seq<Single>,
    bin_idx: usize,
    before: BarsModel,
    after: BarsModel,
) -> bool {
    if before.mesh_bin is Some {
        after == before
    } else {
        exists|t: Single| #[trigger]
            is_index_t::<A>(bin_idx, scene.num_bins, scene.nyquist_hz, t) && if is_outside(t) {
                after == before
            } else {
                exists|x: Single| #[trigger]
                    is_along::<A>(scene.bounds.x, scene.bounds.w, t, x) && is_bar_placed::<A>(
                        scene.bounds,
                        scene.closest,
                        bin_idx,
                        x,
                        followers[bin_idx as int],
                        before,
                        after,
                    )
            }
    }
}

/// What the drawing of the spectrum depends on, besides the magnitudes.
#[derive(Clone, Copy, PartialEq, Eq, Debug, Structural)]
pub struct SpectrumScene {
    pub bounds: BoundingBox,
    pub num_bins: usize,
    pub nyquist_hz: Single,
    pub line_width: Single,
    /// How close two bars may be.
    pub closest: Single,
}

/// `state` is what the bars of the first `count` bins come to.
pub open spec fn are_bars<A: Arithmetic>(
    scene: SpectrumScene,
    followers: Seq<Single>,
    start_x: Single,
    count: nat,
    state: BarsModel,
) -> bool
    decreases count,
{
    if count == 0 {
        state == (BarsModel { bars: Seq::empty(), previous_x: start_x, mesh_bin: None })
    } else {
        exists|before: BarsModel|
            {
                &&& are_bars::<A>(scene, followers, start_x, (count - 1) as nat, before)
                &&& #[trigger] is_bars_step::<A>(
                    scene,
                    followers,
                    (count - 1) as usize,
                    before,
                    state,
                )
            }
    }
}

fn place_bar<A: Arithmetic>(
    scene: SpectrumScene,
    bin_idx: usize,
    x: Single,
    magnitude: Single,
    state: &mut BarsState,
)
    requires
        old(state).mesh_bin is None,
    ensures
        is_bar_placed::<A>(
            scene.bounds,
            scene.closest,
            bin_idx,
            x,
            magnitude,
            old(state)@,
            final(state)@,
        ),
{
    let gap = A::difference(x, state.previous_x);
    if gap.below(scene.closest) {
        state.mesh_bin = Some(bin_before(bin_idx));
    } else {
        let shown = bar::<A>(scene.bounds, x, magnitude);
        assert(is_bar::<A>(scene.bounds, x, magnitude, shown));
        state.bars.push(shown);
    }
    state.previous_x = x;
    assert(differences::<A>(x, old(state)@.previous_x, gap));
}

fn bars<A: Arithmetic>(scene: SpectrumScene, followers: &Vec<Single>, start_x: Single) -> (state:
    BarsState)
    ensures
        are_bars::<A>(
            scene,
            followers@,
            start_x,
            shown_bins(scene.num_bins, followers@),
            state@,
        ),
{
    let count: usize = if scene.num_bins < followers.len() {
        scene.num_bins
    } else {
        followers.len()
    };
    let mut state = BarsState { bars: Vec::new(), previous_x: start_x, mesh_bin: None };
    assert(state@.bars =~= Seq::empty());
    let mut bin_idx: usize = 0;
    while bin_idx < count
        invariant
            count == shown_bins(scene.num_bins, followers@),
            bin_idx <= count <= followers@.len(),
            are_bars::<A>(scene, followers@, start_x, bin_idx as nat, state@),
        decreases count - bin_idx,
    {
        let ghost before = state@;
        if state.mesh_bin.is_none() {
            let t = index_t::<A>(bin_idx, scene.num_bins, scene.nyquist_hz);
            if !is_outside(t) {
                let x = along::<A>(scene.bounds.x, scene.bounds.w, t);
                place_bar::<A>(scene, bin_idx, x, followers[bin_idx], &mut state);
            }
        }
        assert(is_bars_step::<A>(
            scene,
            followers@,
            (bin_idx + 1 - 1) as usize,
            before,
            state@,
        ));
        assert(are_bars::<A>(scene, followers@, start_x, (bin_idx + 1 - 1) as nat, before));
        bin_idx += 1;
    }
    state
}

/// How many bins are shown.
pub open spec fn shown_bins(num_bins: usize, values: Seq<Single>) -> nat {
    vstd::math::min(num_bins as int, values.len() as int) as nat
}

/// `r` is `y + max(h * (1 - t) - line_width / 2, 0)`: the mesh is not stroked, so it is half a line
/// higher than the bars.
pub open spec fn is_mesh_top<A: Arithmetic>(
    bounds: BoundingBox,
    t: Single,
    line_width: Single,
    r: Single,
) -> bool {
    exists|depth: Single, way: Single, reach: Single, raised: Single| #[trigger]
        differences::<A>(single(ONE), t, depth) && #[trigger] products::<A>(bounds.h, depth, way)
            && #[trigger] halves::<A>(line_width, reach) && #[trigger] differences::<A>(
            way,
            reach,
            raised,
        ) && sums::<A>(bounds.y, raised.larger(single(ZERO)), r)
}

fn mesh_top<A: Arithmetic>(bounds: BoundingBox, t: Single, line_width: Single) -> (r: Single)
    ensures
        is_mesh_top::<A>(bounds, t, line_width, r),
{
    let depth = A::difference(single(ONE), t);
    assert(differences::<A>(single(ONE), t, depth));
    let way = A::product(bounds.h, depth);
    let reach = half::<A>(line_width);
    let raised = A::difference(way, reach);
    A::sum(bounds.y, raised.larger(single(ZERO)))
}

/// `r` is the vertex of the mesh at a bin, if it lies in the graph.
pub open spec fn is_mesh_vertex<A: Arithmetic>(
    scene: SpectrumScene,
    bin_idx: usize,
    magnitude: Single,
    bottom: Single,
    r: Option<Position>,
) -> bool {
    exists|t: Single| #[trigger]
        is_index_t::<A>(bin_idx, scene.num_bins, scene.nyquist_hz, t) && if is_outside(t) {
            r is None
        } else {
            r matches Some(vertex) && {
                &&& is_along::<A>(scene.bounds.x, scene.bounds.w, t, vertex.x)
                &&& exists|h: Single| #[trigger]
                    is_magnitude_height::<A>(magnitude, h) && if single(ZERO).below(h) {
                        is_mesh_top::<A>(scene.bounds, h, scene.line_width, vertex.y)
                    } else {
                        vertex.y == bottom
                    }
            }
        }
}

fn mesh_vertex<A: Arithmetic>(
    scene: SpectrumScene,
    bin_idx: usize,
    magnitude: Single,
    bottom: Single,
) -> (r: Option<Position>)
    ensures
        is_mesh_vertex::<A>(scene, bin_idx, magnitude, bottom, r),
{
    let t = index_t::<A>(bin_idx, scene.num_bins, scene.nyquist_hz);
    if is_outside(t) {
        return None;
    }
    let x = along::<A>(scene.bounds.x, scene.bounds.w, t);
    let h = magnitude_height::<A>(magnitude);
    let y = if single(ZERO).below(h) {
        mesh_top::<A>(scene.bounds, h, scene.line_width)
    } else {
        bottom
    };
    Some(Position { x, y })
}

/// `options` are the vertices of the mesh at the bins from `start` on.
pub open spec fn are_mesh_vertices<A: Arithmetic>(
    scene: SpectrumScene,
    followers: Seq<Single>,
    start: usize,
    bottom: Single,
    options: Seq<Option<Position>>,
) -> bool {
    forall|i: int|
        0 <= i < options.len() ==> is_mesh_vertex::<A>(
            scene,
            (start + i) as usize,
            followers[start + i],
            bottom,
            #[trigger] options[i],
        )
}

/// `vertices` are those of the mesh.
pub open spec fn is_mesh<A: Arithmetic>(
    scene: SpectrumScene,
    followers: Seq<Single>,
    start: usize,
    bottom: Single,
    vertices: Seq<Position>,
) -> bool {
    exists|options: Seq<Option<Position>>|
        {
            &&& #[trigger] are_mesh_vertices::<A>(scene, followers, start, bottom, options)
            &&& options.len() == if start < shown_bins(scene.num_bins, followers) {
                shown_bins(scene.num_bins, followers) - start
            } else {
                0
            }
            &&& vertices == present(options)
        }
}

fn mesh<A: Arithmetic>(
    scene: SpectrumScene,
    followers: &Vec<Single>,
    start: usize,
    bottom: Single,
) -> (vertices: Vec<Position>)
    ensures
        is_mesh::<A>(scene, followers@, start, bottom, vertices@),
{
    let count: usize = if scene.num_bins < followers.len() {
        scene.num_bins
    } else {
        followers.len()
    };
    let mut vertices: Vec<Position> = Vec::new();
    let ghost mut options: Seq<Option<Position>> = Seq::empty();
    let mut bin_idx: usize = start;
    while bin_idx < count
        invariant
            count == shown_bins(scene.num_bins, followers@),
            count <= followers@.len(),
            start <= bin_idx,
            start <= count ==> bin_idx <= count,
            start > count ==> bin_idx == start,
            options.len() == bin_idx - start,
            are_mesh_vertices::<A>(scene, followers@, start, bottom, options),
            vertices@ == present(options),
        decreases count - bin_idx,
    {
        let vertex = mesh_vertex::<A>(scene, bin_idx, followers[bin_idx], bottom);
        proof {
            let earlier = options;
            options = options.push(vertex);
            assert(options.drop_last() =~= earlier);
            assert(start + (bin_idx - start) == bin_idx);
        }
        if let Some(shown) = vertex {
            vertices.push(shown);
        }
        bin_idx += 1;
    }
    assert(are_mesh_vertices::<A>(scene, followers@, start, bottom, options));
    vertices
}

/// The spectrum: bars where the bins are far enough apart, and a mesh after that. The mesh starts at
/// the bottom left, follows the vertices and ends at the bottom right.
pub struct SpectrumShape {
    pub line_width: Single,
    pub bars: Vec<Line>,
    pub mesh_start: Position,
    pub mesh_top: Vec<Position>,
    pub mesh_end: Position,
}

/// `scene` is what the drawing of the spectrum depends on, and `start_x` lies left of all bars.
pub open spec fn is_scene<A: Arithmetic>(
    view: AnalyzerView,
    num_bins: usize,
    nyquist_hz: Single,
    scene: SpectrumScene,
    start_x: Single,
) -> bool {
    &&& scene.bounds == view.bounds
    &&& scene.num_bins == num_bins
    &&& scene.nyquist_hz == nyquist_hz
    &&& products::<A>(view.scale_factor, single(SPECTRUM_LINE_WIDTH), scene.line_width)
    &&& sums::<A>(scene.line_width, single(ONE_HALF), scene.closest)
    &&& differences::<A>(view.bounds.x, single(TWO), start_x)
}

fn scene<A: Arithmetic>(view: AnalyzerView, num_bins: usize, nyquist_hz: Single) -> (r: (
    SpectrumScene,
    Single,
))
    ensures
        is_scene::<A>(view, num_bins, nyquist_hz, r.0, r.1),
{
    let line_width = A::product(view.scale_factor, single(SPECTRUM_LINE_WIDTH));
    assert(products::<A>(view.scale_factor, single(SPECTRUM_LINE_WIDTH), line_width));
    let closest = A::sum(line_width, single(ONE_HALF));
    assert(sums::<A>(line_width, single(ONE_HALF), closest));
    let start_x = A::difference(view.bounds.x, single(TWO));
    assert(differences::<A>(view.bounds.x, single(TWO), start_x));
    let scene = SpectrumScene { bounds: view.bounds, num_bins, nyquist_hz, line_width, closest };
    assert(products::<A>(view.scale_factor, single(SPECTRUM_LINE_WIDTH), scene.line_width));
    assert(sums::<A>(scene.line_width, single(ONE_HALF), scene.closest));
    (scene, start_x)
}

/// The bin at which the mesh starts.
#[verifier::allow_in_spec]
pub fn mesh_start_bin(mesh_bin: Option<usize>, num_bins: usize) -> usize
    returns
        (match mesh_bin {
            Some(bin) => bin,
            None => num_bins,
        }),
{
    match mesh_bin {
        Some(bin) => bin,
        None => num_bins,
    }
}

/// `shape` is the spectrum.
pub open spec fn is_spectrum<A: Arithmetic>(
    view: AnalyzerView,
    data: AnalyzerData,
    nyquist_hz: Single,
    shape: SpectrumShape,
) -> bool {
    exists|scene: SpectrumScene, start_x: Single, state: BarsModel, t: Single, bottom: Single|
        {
            &&& #[trigger] is_scene::<A>(view, data.num_bins, nyquist_hz, scene, start_x)
            &&& #[trigger] are_bars::<A>(
                scene,
                data.envelope_followers@,
                start_x,
                shown_bins(data.num_bins, data.envelope_followers@),
                state,
            )
            &&& #[trigger] is_index_t::<A>(
                mesh_start_bin(state.mesh_bin, data.num_bins),
                data.num_bins,
                nyquist_hz,
                t,
            )
            &&& #[trigger] sums::<A>(view.bounds.y, view.bounds.h, bottom)
            &&& shape.line_width == scene.line_width
            &&& shape.bars@ == state.bars
            &&& is_along::<A>(view.bounds.x, view.bounds.w, t, shape.mesh_start.x)
            &&& shape.mesh_start.y == bottom
            &&& is_mesh::<A>(
                scene,
                data.envelope_followers@,
                mesh_start_bin(state.mesh_bin, data.num_bins),
                bottom,
                shape.mesh_top@,
            )
            &&& shape.mesh_end.x == if shape.mesh_top@.len() > 0 {
                shape.mesh_top@.last().x
            } else {
                state.previous_x
            }
            &&& shape.mesh_end.y == bottom
        }
}

/// The spectrum analyzer part of the analyzer.
pub fn draw_spectrum<A: Arithmetic>(
    view: AnalyzerView,
    data: &AnalyzerData,
    nyquist_hz: Single,
) -> (shape: SpectrumShape)
    ensures
        is_spectrum::<A>(view, *data, nyquist_hz, shape),
{
    let (scene, start_x) = scene::<A>(view, data.num_bins, nyquist_hz);
    let state = bars::<A>(scene, &data.envelope_followers, start_x);
    let ghost model = state@;
    let start: usize = mesh_start_bin(state.mesh_bin, data.num_bins);
    let t = index_t::<A>(start, data.num_bins, nyquist_hz);
    assert(is_index_t::<A>(
        mesh_start_bin(model.mesh_bin, data.num_bins),
        data.num_bins,
        nyquist_hz,
        t,
    ));
    let mesh_x = along::<A>(view.bounds.x, view.bounds.w, t);
    let bottom = A::sum(view.bounds.y, view.bounds.h);
    let mesh_top = mesh::<A>(scene, &data.envelope_followers, start, bottom);
    let end_x = if mesh_top.len() > 0 {
        mesh_top[mesh_top.len() - 1].x
    } else {
        state.previous_x
    };
    assert(are_bars::<A>(
        scene,
        data.envelope_followers@,
        start_x,
        shown_bins(data.num_bins, data.envelope_followers@),
        model,
    ));
    SpectrumShape {
        line_width: scene.line_width,
        bars: state.bars,
        mesh_start: Position { x: mesh_x, y: bottom },
        mesh_top,
        mesh_end: Position { x: end_x, y: bottom },
    }
}

/// `r` is a vertex of a threshold curve.
pub open spec fn is_curve_vertex<A: Arithmetic>(
    bounds: BoundingBox,
    curve: Curve,
    offset_db: Single,
    index: usize,
    num_points: usize,
    r: Position,
) -> bool {
    exists|
        i: Single,
        last: Single,
        x_t: Single,
        ln_freq: Single,
        level: Single,
        y_db: Single,
        y_t: Single,
    |
        {
            &&& #[trigger] counts::<A>(index, i)
            &&& #[trigger] counts::<A>((num_points - 1) as usize, last)
            &&& #[trigger] quotients::<A>(i, last, x_t)
            &&& #[trigger] is_along::<A>(
                single(LN_FREQ_RANGE_START_HZ),
                single(LN_FREQ_RANGE),
                x_t,
                ln_freq,
            )
            &&& #[trigger] curve.is_level::<A>(ln_freq, level)
            &&& #[trigger] sums::<A>(level, offset_db, y_db)
            &&& #[trigger] is_y_t::<A>(y_db, y_t)
            &&& is_along::<A>(bounds.x, bounds.w, x_t, r.x)
            &&& is_height::<A>(bounds, y_t, r.y)
        }
}

fn curve_vertex<A: Arithmetic>(
    bounds: BoundingBox,
    curve: &Curve,
    offset_db: Single,
    index: usize,
    num_points: usize,
) -> (r: Position)
    requires
        index < num_points,
    ensures
        is_curve_vertex::<A>(bounds, *curve, offset_db, index, num_points, r),
{
    let i = A::from_count(index);
    let last = A::from_count(num_points - 1);
    assert(counts::<A>((num_points - 1) as usize, last));
    let x_t = A::quotient(i, last);
    let ln_freq = along::<A>(single(LN_FREQ_RANGE_START_HZ), single(LN_FREQ_RANGE), x_t);
    assert(is_along::<A>(
        single(LN_FREQ_RANGE_START_HZ),
        single(LN_FREQ_RANGE),
        x_t,
        ln_freq,
    ));
    let level = curve.evaluate_ln::<A>(ln_freq);
    let y_db = A::sum(level, offset_db);
    let y_t = db_to_unclamped_t::<A>(y_db);
    Position { x: along::<A>(bounds.x, bounds.w, x_t), y: height::<A>(bounds, y_t) }
}

/// `vertices` are those of a threshold curve.
pub open spec fn is_curve_line<A: Arithmetic>(
    bounds: BoundingBox,
    curve: Curve,
    offset_db: Single,
    num_points: usize,
    vertices: Seq<Position>,
) -> bool {
    &&& vertices.len() == num_points
    &&& forall|i: int|
        0 <= i < vertices.len() ==> is_curve_vertex::<A>(
            bounds,
            curve,
            offset_db,
            i as usize,
            num_points,
            #[trigger] vertices[i],
        )
}

fn curve_line<A: Arithmetic>(
    bounds: BoundingBox,
    curve: &Curve,
    offset_db: Single,
    num_points: usize,
) -> (vertices: Vec<Position>)
    ensures
        is_curve_line::<A>(bounds, *curve, offset_db, num_points, vertices@),
{
    let mut vertices: Vec<Position> = Vec::new();
    let mut index: usize = 0;
    while index < num_points
        invariant
            index <= num_points,
            vertices@.len() == index,
            forall|i: int|
                0 <= i < index ==> is_curve_vertex::<A>(
                    bounds,
                    *curve,
                    offset_db,
                    i as usize,
                    num_points,
                    #[trigger] vertices@[i],
                ),
        decreases num_points - index,
    {
        vertices.push(curve_vertex::<A>(bounds, curve, offset_db, index, num_points));
        index += 1;
    }
    vertices
}

/// `r` is how many vertices a curve has: as many as there are pixels, but no more than 100.
pub open spec fn is_vertex_count<A: Arithmetic>(width: Single, r: usize) -> bool {
    exists|whole: Single, pixels: u64| #[trigger]
        ceilings::<A>(width, whole) && #[trigger] count_casts::<A>(whole, pixels) && r
            == vstd::math::min(pixels as int, MAX_CURVE_VERTICES as int)
}

fn vertex_count<A: Arithmetic>(width: Single) -> (r: usize)
    ensures
        is_vertex_count::<A>(width, r),
{
    let whole = A::ceiled(width);
    let pixels: u64 = A::to_count(whole);
    if pixels < MAX_CURVE_VERTICES {
        pixels as usize
    } else {
        100
    }
}

/// `options` are where the points of a curve are shown.
pub open spec fn are_point_positions<A: Arithmetic>(
    bounds: BoundingBox,
    curve: Curve,
    display_offset_db: Single,
    options: Seq<Option<Position>>,
) -> bool {
    forall|i: int|
        0 <= i < options.len() ==> is_point_position::<A>(
            bounds,
            curve,
            curve.params.points@[i],
            display_offset_db,
            #[trigger] options[i],
        )
}

/// `centers` are those of the points of a curve that are shown.
pub open spec fn are_centers<A: Arithmetic>(
    bounds: BoundingBox,
    curve: Curve,
    display_offset_db: Single,
    centers: Seq<Position>,
) -> bool {
    exists|options: Seq<Option<Position>>|
        {
            &&& #[trigger] are_point_positions::<A>(bounds, curve, display_offset_db, options)
            &&& options.len() == MAX_THRESHOLD_CURVE_POINTS
            &&& centers == present(options)
        }
}

/// Where the points of a curve are shown.
pub fn draw_curve_points<A: Arithmetic>(
    bounds: BoundingBox,
    curve: &Curve,
    display_offset_db: Single,
) -> (centers: Vec<Position>)
    ensures
        are_centers::<A>(bounds, *curve, display_offset_db, centers@),
{
    let mut centers: Vec<Position> = Vec::new();
    let ghost mut options: Seq<Option<Position>> = Seq::empty();
    let mut index: usize = 0;
    while index < MAX_THRESHOLD_CURVE_POINTS
        invariant
            index <= MAX_THRESHOLD_CURVE_POINTS,
            options.len() == index,
            are_point_positions::<A>(bounds, *curve, display_offset_db, options),
            centers@ == present(options),
        decreases MAX_THRESHOLD_CURVE_POINTS - index,
    {
        let position = point_screen_position::<A>(
            bounds,
            curve,
            curve.params.points[index],
            display_offset_db,
        );
        proof {
            let earlier = options;
            options = options.push(position);
            assert(options.drop_last() =~= earlier);
        }
        if let Some(center) = position {
            centers.push(center);
        }
        index += 1;
    }
    assert(are_point_positions::<A>(bounds, *curve, display_offset_db, options));
    centers
}

/// The two threshold curves, and the circles for the curve points.
pub struct ThresholdShape {
    pub line_width: Single,
    pub upwards: Vec<Position>,
    pub downwards: Vec<Position>,
    pub point_radius: Single,
    pub point_stroke_width: Single,
    pub point_centers: Vec<Position>,
}

/// The widths and sizes for a scale factor.
pub open spec fn has_threshold_sizes<A: Arithmetic>(
    scale_factor: Single,
    shape: ThresholdShape,
) -> bool {
    &&& products::<A>(scale_factor, single(THREE), shape.line_width)
    &&& products::<A>(scale_factor, single(POINT_RADIUS), shape.point_radius)
    &&& products::<A>(scale_factor, single(SPECTRUM_LINE_WIDTH), shape.point_stroke_width)
}

/// `shape` is the threshold curve with both of its offsets.
pub open spec fn is_threshold_shape<A: Arithmetic>(
    view: AnalyzerView,
    data: AnalyzerData,
    shape: ThresholdShape,
) -> bool {
    &&& has_threshold_sizes::<A>(view.scale_factor, shape)
    &&& exists|ln_center: Single, num_points: usize, offset: Single|
        {
            let curve = Curve { params: &data.curve_params, ln_center_frequency: ln_center };
            &&& #[trigger] natural_logs::<A>(data.curve_params.center_frequency, ln_center)
            &&& #[trigger] is_vertex_count::<A>(view.bounds.w, num_points)
            &&& #[trigger] is_display_offset::<A>(
                data.curve_offsets_db.0,
                data.curve_offsets_db.1,
                offset,
            )
            &&& is_curve_line::<A>(
                view.bounds,
                curve,
                data.curve_offsets_db.0,
                num_points,
                shape.upwards@,
            )
            &&& is_curve_line::<A>(
                view.bounds,
                curve,
                data.curve_offsets_db.1,
                num_points,
                shape.downwards@,
            )
            &&& are_centers::<A>(view.bounds, curve, offset, shape.point_centers@)
        }
}

/// Overlays the threshold curve over the spectrum analyzer.
pub fn draw_threshold_curve<A: Arithmetic>(view: AnalyzerView, data: &AnalyzerData) -> (shape:
    ThresholdShape)
    ensures
        is_threshold_shape::<A>(view, *data, shape),
{
    let line_width = A::product(view.scale_factor, single(THREE));
    assert(products::<A>(view.scale_factor, single(THREE), line_width));
    let point_radius = A::product(view.scale_factor, single(POINT_RADIUS));
    assert(products::<A>(view.scale_factor, single(POINT_RADIUS), point_radius));
    let point_stroke_width = A::product(view.scale_factor, single(SPECTRUM_LINE_WIDTH));
    assert(products::<A>(view.scale_factor, single(SPECTRUM_LINE_WIDTH), point_stroke_width));
    let curve = Curve::new::<A>(&data.curve_params);
    let num_points: usize = vertex_count::<A>(view.bounds.w);
    let (upwards_offset_db, downwards_offset_db) = data.curve_offsets_db;
    let display_offset_db = editable_curve_display_offset_db::<A>(
        upwards_offset_db,
        downwards_offset_db,
    );
    let shape = ThresholdShape {
        line_width,
        upwards: curve_line::<A>(view.bounds, &curve, upwards_offset_db, num_points),
        downwards: curve_line::<A>(view.bounds, &curve, downwards_offset_db, num_points),
        point_radius,
        point_stroke_width,
        point_centers: draw_curve_points::<A>(view.bounds, &curve, display_offset_db),
    };
    assert(has_threshold_sizes::<A>(view.scale_factor, shape));
    assert(natural_logs::<A>(data.curve_params.center_frequency, curve.ln_center_frequency));
    assert(is_display_offset::<A>(
        data.curve_offsets_db.0,
        data.curve_offsets_db.1,
        display_offset_db,
    ));
    shape
}

/// A bar of the gain reduction display, from the center of the graph to `y`.
#[derive(Clone, Copy, PartialEq, Eq, Debug, Structural)]
pub struct GainBar {
    /// Whether the gain is negative.
    pub downwards: bool,
    pub left: Single,
    pub right: Single,
    pub center: Single,
    pub y: Single,
}

/// `r` is where the bar of a bin starts: half a bin before the bin, and the first one at the edge.
pub open spec fn is_bar_start<A: Arithmetic>(
    bin_idx: usize,
    num_bins: usize,
    nyquist_hz: Single,
    r: Single,
) -> bool {
    if bin_idx == 0 {
        r == single(ZERO)
    } else {
        exists|bin: Single, edge: Single| #[trigger]
            counts::<A>(bin_idx, bin) && #[trigger] differences::<A>(bin, single(ONE_HALF), edge)
                && is_bin_t::<A>(edge, num_bins, nyquist_hz, r)
    }
}

/// `r` is where the bar of a bin ends: half a bin after the bin, and the last one at the edge.
pub open spec fn is_bar_end<A: Arithmetic>(
    bin_idx: usize,
    num_bins: usize,
    nyquist_hz: Single,
    r: Single,
) -> bool {
    if bin_idx == num_bins - 1 {
        r == single(ONE)
    } else {
        exists|bin: Single, edge: Single| #[trigger]
            counts::<A>(bin_idx, bin) && #[trigger] sums::<A>(bin, single(ONE_HALF), edge)
                && is_bin_t::<A>(edge, num_bins, nyquist_hz, r)
    }
}

fn bar_start<A: Arithmetic>(bin_idx: usize, num_bins: usize, nyquist_hz: Single) -> (r: Single)
    ensures
        is_bar_start::<A>(bin_idx, num_bins, nyquist_hz, r),
{
    if bin_idx == 0 {
        return single(ZERO);
    }
    let bin = A::from_count(bin_idx);
    let edge = A::difference(bin, single(ONE_HALF));
    assert(differences::<A>(bin, single(ONE_HALF), edge));
    bin_t::<A>(edge, num_bins, nyquist_hz)
}

fn bar_end<A: Arithmetic>(bin_idx: usize, num_bins: usize, nyquist_hz: Single) -> (r: Single)
    requires
        bin_idx < num_bins,
    ensures
        is_bar_end::<A>(bin_idx, num_bins, nyquist_hz, r),
{
    if bin_idx == num_bins - 1 {
        return single(ONE);
    }
    let bin = A::from_count(bin_idx);
    let edge = A::sum(bin, single(ONE_HALF));
    assert(sums::<A>(bin, single(ONE_HALF), edge));
    bin_t::<A>(edge, num_bins, nyquist_hz)
}

/// `r` is `(-gain + 40) / 80`, between 0 and 1.
pub open spec fn is_gain_t<A: Arithmetic>(gain_db: Single, r: Single) -> bool {
    exists|raised: Single, t: Single| #[trigger]
        sums::<A>(gain_db.negated(), single(LARGEST_GAIN_DB), raised)
            && #[trigger] quotients::<A>(raised, single(EIGHTY), t) && r == t.clamped(
            single(ZERO),
            single(ONE),
        )
}

fn gain_t<A: Arithmetic>(gain_db: Single) -> (r: Single)
    ensures
        is_gain_t::<A>(gain_db, r),
{
    let raised = A::sum(gain_db.negated(), single(LARGEST_GAIN_DB));
    assert(sums::<A>(gain_db.negated(), single(LARGEST_GAIN_DB), raised));
    let t = A::quotient(raised, single(EIGHTY));
    assert(quotients::<A>(raised, single(EIGHTY), t));
    t.clamped(single(ZERO), single(ONE))
}

/// `bar` is the bar between two positions for a gain.
pub open spec fn is_gain_bar_between<A: Arithmetic>(
    bounds: BoundingBox,
    t_start: Single,
    t_end: Single,
    gain_db: Single,
    bar: GainBar,
) -> bool {
    &&& bar.downwards == gain_db.below(single(ZERO))
    &&& is_along::<A>(bounds.x, bounds.w, t_start.larger(single(ZERO)), bar.left)
    &&& is_along::<A>(bounds.x, bounds.w, t_end.smaller(single(ONE)), bar.right)
    &&& is_along::<A>(bounds.y, bounds.h, single(ONE_HALF), bar.center)
    &&& exists|t: Single| #[trigger]
        is_gain_t::<A>(gain_db, t) && is_along::<A>(bounds.y, bounds.h, t, bar.y)
}

/// `r` is the bar of a bin, if it is shown: small gains are not, nor bins outside of the graph.
pub open spec fn is_gain_bar<A: Arithmetic>(
    bounds: BoundingBox,
    num_bins: usize,
    nyquist_hz: Single,
    bin_idx: usize,
    gain_db: Single,
    r: Option<GainBar>,
) -> bool {
    if gain_db.absolute().below(single(SHOWN_GAIN_DB)) {
        r is None
    } else {
        exists|t_start: Single, t_end: Single| #[trigger]
            is_bar_start::<A>(bin_idx, num_bins, nyquist_hz, t_start) && #[trigger] is_bar_end::<A>(
                bin_idx,
                num_bins,
                nyquist_hz,
                t_end,
            ) && if t_end.below(single(ZERO)) || single(ONE).below(t_start) {
                r is None
            } else {
                r matches Some(bar) && is_gain_bar_between::<A>(
                    bounds,
                    t_start,
                    t_end,
                    gain_db,
                    bar,
                )
            }
    }
}

fn gain_bar<A: Arithmetic>(
    bounds: BoundingBox,
    num_bins: usize,
    nyquist_hz: Single,
    bin_idx: usize,
    gain_db: Single,
) -> (r: Option<GainBar>)
    requires
        bin_idx < num_bins,
    ensures
        is_gain_bar::<A>(bounds, num_bins, nyquist_hz, bin_idx, gain_db, r),
{
    if gain_db.absolute().below(single(SHOWN_GAIN_DB)) {
        return None;
    }
    let t_start = bar_start::<A>(bin_idx, num_bins, nyquist_hz);
    let t_end = bar_end::<A>(bin_idx, num_bins, nyquist_hz);
    if t_end.below(single(ZERO)) || single(ONE).below(t_start) {
        return None;
    }
    let t = gain_t::<A>(gain_db);
    let bar = GainBar {
        downwards: gain_db.below(single(ZERO)),
        left: along::<A>(bounds.x, bounds.w, t_start.larger(single(ZERO))),
        right: along::<A>(bounds.x, bounds.w, t_end.smaller(single(ONE))),
        center: along::<A>(bounds.y, bounds.h, single(ONE_HALF)),
        y: along::<A>(bounds.y, bounds.h, t),
    };
    assert(is_gain_bar_between::<A>(bounds, t_start, t_end, gain_db, bar));
    Some(bar)
}

/// `options` are the bars of the first bins.
pub open spec fn are_gain_bars<A: Arithmetic>(
    bounds: BoundingBox,
    num_bins: usize,
    nyquist_hz: Single,
    gains: Seq<Single>,
    options: Seq<Option<GainBar>>,
) -> bool {
    forall|i: int|
        0 <= i < options.len() ==> is_gain_bar::<A>(
            bounds,
            num_bins,
            nyquist_hz,
            i as usize,
            gains[i],
            #[trigger] options[i],
        )
}

/// `bars` are the gain reduction display.
pub open spec fn is_gain_reduction<A: Arithmetic>(
    bounds: BoundingBox,
    data: AnalyzerData,
    nyquist_hz: Single,
    bars: Seq<GainBar>,
) -> bool {
    exists|options: Seq<Option<GainBar>>|
        {
            &&& #[trigger] are_gain_bars::<A>(
                bounds,
                data.num_bins,
                nyquist_hz,
                data.gain_difference_db@,
                options,
            )
            &&& options.len() == shown_bins(data.num_bins, data.gain_difference_db@)
            &&& bars == present(options)
        }
}

/// Overlays the gain reduction display over the spectrum analyzer. 0 dB would be a flat line in the
/// center of the graph, 40 dB of gain reduction reach down to its bottom, and 40 dB of additional
/// gain up to its top.
pub fn draw_gain_reduction<A: Arithmetic>(
    bounds: BoundingBox,
    data: &AnalyzerData,
    nyquist_hz: Single,
) -> (bars: Vec<GainBar>)
    ensures
        is_gain_reduction::<A>(bounds, *data, nyquist_hz, bars@),
{
    let count: usize = if data.num_bins < data.gain_difference_db.len() {
        data.num_bins
    } else {
        data.gain_difference_db.len()
    };
    let mut bars: Vec<GainBar> = Vec::new();
    let ghost mut options: Seq<Option<GainBar>> = Seq::empty();
    let mut bin_idx: usize = 0;
    while bin_idx < count
        invariant
            count == shown_bins(data.num_bins, data.gain_difference_db@),
            bin_idx <= count,
            options.len() == bin_idx,
            are_gain_bars::<A>(
                bounds,
                data.num_bins,
                nyquist_hz,
                data.gain_difference_db@,
                options,
            ),
            bars@ == present(options),
        decreases count - bin_idx,
    {
        let bar = gain_bar::<A>(
            bounds,
            data.num_bins,
            nyquist_hz,
            bin_idx,
            data.gain_difference_db[bin_idx],
        );
        proof {
            let earlier = options;
            options = options.push(bar);
            assert(options.drop_last() =~= earlier);
        }
        if let Some(shown) = bar {
            bars.push(shown);
        }
        bin_idx += 1;
    }
    assert(are_gain_bars::<A>(
        bounds,
        data.num_bins,
        nyquist_hz,
        data.gain_difference_db@,
        options,
    ));
    bars
}

/// Whether there is a graph to draw.
#[verifier::allow_in_spec]
pub fn is_drawable(bounds: BoundingBox) -> bool
    returns
        !bounds.w.equals(single(ZERO)) && !bounds.h.equals(single(ZERO)),
{
    !bounds.w.equals(single(ZERO)) && !bounds.h.equals(single(ZERO))
}

/// `r` is where the middle of the border's line is.
pub open spec fn is_border<A: Arithmetic>(
    bounds: BoundingBox,
    width: Single,
    r: BoundingBox,
) -> bool {
    exists|inset: Single| #[trigger]
        halves::<A>(width, inset) && sums::<A>(bounds.x, inset, r.x) && sums::<A>(
            bounds.y,
            inset,
            r.y,
        ) && differences::<A>(bounds.w, width, r.w) && differences::<A>(bounds.h, width, r.h)
}

/// Where the middle of the border's line is.
pub fn border<A: Arithmetic>(bounds: BoundingBox, width: Single) -> (r: BoundingBox)
    ensures
        is_border::<A>(bounds, width, r),
{
    let inset = half::<A>(width);
    BoundingBox {
        x: A::sum(bounds.x, inset),
        y: A::sum(bounds.y, inset),
        w: A::difference(bounds.w, width),
        h: A::difference(bounds.h, width),
    }
}

/// The values of the constants.
proof fn lemma_constants_of_drawing()
    ensures
        single(SPECTRUM_LINE_WIDTH).value() * 2real == 3real,
        single(SPECTRUM_LINE_WIDTH).is_finite(),
        single(POINT_RADIUS).value() * 2real == 9real && single(POINT_RADIUS).is_finite(),
        single(LARGEST_GAIN_DB).value() == 40real && single(LARGEST_GAIN_DB).is_finite(),
        single(SHOWN_GAIN_DB).value() * 67108864real == 13421773real,
        single(SHOWN_GAIN_DB).is_finite(),
{
    vstd::arithmetic::power2::lemma2_to64();
    assert(pow2(18) == 0x4_0000 && pow2(21) == 0x20_0000);
    assert(pow2(23) == 0x80_0000 && pow2(26) == 0x400_0000);
    assert(pow2(18) as int as real == 262144real);
    assert(pow2(21) as int as real == 2097152real);
    assert(pow2(23) as int as real == 8388608real);
    assert(pow2(26) as int as real == 67108864real);
    lemma_value_of(SPECTRUM_LINE_WIDTH, 0xc0_0000, 23);
    lemma_value_of(POINT_RADIUS, 0x90_0000, 21);
    lemma_value_of(LARGEST_GAIN_DB, 0xa0_0000, 18);
    lemma_value_of(SHOWN_GAIN_DB, 0xcc_cccd, 26);
}

/// The marked frequencies are those that their labels name.
pub proof fn law_guides_mark_the_frequencies_of_their_labels()
    ensures
        guide_frequency(0).value() == 30real && guide_text_of(0) == "30 Hz"@,
        guide_frequency(1).value() == 100real && guide_text_of(1) == "100 Hz"@,
        guide_frequency(2).value() == 1000real && guide_text_of(2) == "1 kHz"@,
        guide_frequency(3).value() == 10000real && guide_text_of(3) == "10 kHz"@,
{
    vstd::arithmetic::power2::lemma2_to64();
    assert(pow2(10) == 0x400 && pow2(14) == 0x4000);
    assert(pow2(17) == 0x2_0000 && pow2(19) == 0x8_0000);
    assert(pow2(10) as int as real == 1024real);
    assert(pow2(14) as int as real == 16384real);
    assert(pow2(17) as int as real == 131072real);
    assert(pow2(19) as int as real == 524288real);
    lemma_value_of(0x41f0_0000, 0xf0_0000, 19);
    lemma_value_of(0x42c8_0000, 0xc8_0000, 17);
    lemma_value_of(0x447a_0000, 0xfa_0000, 14);
    lemma_value_of(0x461c_4000, 0x9c_4000, 10);
}

/// The value of a position along an axis.
proof fn lemma_along<A: Arithmetic>(start: Single, size: Single, t: Single, r: Single)
    requires
        is_exact::<A>(),
        start.is_finite() && size.is_finite() && t.is_finite(),
        is_along::<A>(start, size, t, r),
    ensures
        r.is_finite(),
        r.value() == start.value() + size.value() * t.value(),
{
}

/// A label keeps its distance from both sides of the graph. It stands that far to the right of its
/// line where there is room, and in the middle of a graph that is too narrow.
pub proof fn law_labels_stay_in_the_graph<A: Arithmetic>(
    bounds: BoundingBox,
    padding: Single,
    line_x: Single,
    r: Single,
)
    requires
        is_exact::<A>(),
        bounds.x.is_finite() && bounds.w.is_finite(),
        padding.is_finite() && line_x.is_finite(),
        is_label_x::<A>(bounds, padding, line_x, r),
    ensures
        r.is_finite(),
        2real * padding.value() <= bounds.w.value() ==> {
            let wanted = line_x.value() + padding.value();
            let least = bounds.x.value() + padding.value();
            let most = bounds.x.value() + bounds.w.value() - padding.value();
            &&& least <= r.value() <= most
            &&& least <= wanted <= most ==> r.value() == wanted
            &&& wanted < least ==> r.value() == least
            &&& wanted > most ==> r.value() == most
        },
        2real * padding.value() > bounds.w.value() ==> r.value() - bounds.x.value()
            == bounds.x.value() + bounds.w.value() - r.value(),
{
    lemma_constants_of_the_graph();
    let (min_x, right, max_x) = choose|min_x: Single, right: Single, max_x: Single| #[trigger]
        sums::<A>(bounds.x, padding, min_x) && #[trigger] sums::<A>(bounds.x, bounds.w, right)
            && #[trigger] differences::<A>(right, padding, max_x) && if min_x.at_most(max_x) {
            exists|label_x: Single| #[trigger]
                sums::<A>(line_x, padding, label_x) && r == label_x.clamped(min_x, max_x)
        } else {
            is_along::<A>(bounds.x, bounds.w, single(ONE_HALF), r)
        };
    lemma_order_is_by_value(min_x, max_x);
    if min_x.at_most(max_x) {
        let label_x = choose|label_x: Single| #[trigger]
            sums::<A>(line_x, padding, label_x) && r == label_x.clamped(min_x, max_x);
        lemma_selections(label_x, min_x, max_x);
    } else {
        lemma_along::<A>(bounds.x, bounds.w, single(ONE_HALF), r);
        lemma_regroup(bounds.w.value(), single(ONE_HALF).value(), 2real);
        lemma_regroup(bounds.w.value(), 1real, 0real);
    }
}

/// Where a bin, or a position between bins, is in the graph: at the logarithm of its share of the
/// Nyquist frequency.
proof fn lemma_bin_t<A: Arithmetic>(
    ln: spec_fn(real) -> real,
    bin: Single,
    num_bins: usize,
    nyquist_hz: Single,
    frequency: real,
    start: real,
    range: real,
    r: Single,
)
    requires
        is_exact::<A>(),
        logs_follow::<A>(ln),
        bin.is_finite() && nyquist_hz.is_finite(),
        bin.value() > 0real,
        nyquist_hz.value() > 0real,
        num_bins > 0,
        frequency * (num_bins as int as real) == bin.value() * nyquist_hz.value(),
        start * 4194304real == 14265656real,
        range * 2097152real == 13836170real,
        is_bin_t::<A>(bin, num_bins, nyquist_hz, r),
    ensures
        r.is_finite(),
        r.value() * range == ln(frequency) - start,
{
    lemma_constants_of_the_graph();
    lemma_cancel(single(LN_FREQ_RANGE_START_HZ).value(), start, 4194304real);
    lemma_cancel(single(LN_FREQ_RANGE).value(), range, 2097152real);
    let own_frequency = choose|frequency: Single| #[trigger]
        is_bin_frequency::<A>(bin, num_bins, nyquist_hz, frequency) && is_frequency_x_t::<A>(
            frequency,
            r,
        );
    let (n, ratio) = choose|n: Single, ratio: Single| #[trigger]
        counts::<A>(num_bins, n) && #[trigger] quotients::<A>(bin, n, ratio) && products::<A>(
            ratio,
            nyquist_hz,
            own_frequency,
        );
    let (count, q, f) = (n.value(), ratio.value(), nyquist_hz.value());
    lemma_sign_of_product(q, count);
    assert(q > 0real);
    lemma_sign_of_product(q, f);
    lemma_three_factors(q, f, count);
    lemma_cancel(own_frequency.value(), frequency, count);
    let ln_frequency = choose|ln_frequency: Single| #[trigger]
        natural_logs::<A>(own_frequency, ln_frequency) && is_x_t::<A>(ln_frequency, r);
    let way = choose|way: Single| #[trigger]
        differences::<A>(ln_frequency, single(LN_FREQ_RANGE_START_HZ), way) && quotients::<A>(
            way,
            single(LN_FREQ_RANGE),
            r,
        );
}

/// A bin is shown at its share of the Nyquist frequency, on the logarithmic scale of the graph.
pub proof fn law_bins_are_shown_at_their_frequency<A: Arithmetic>(
    ln: spec_fn(real) -> real,
    bin_idx: usize,
    num_bins: usize,
    nyquist_hz: Single,
    frequency: real,
    start: real,
    range: real,
    r: Single,
)
    requires
        is_exact::<A>(),
        logs_follow::<A>(ln),
        nyquist_hz.is_finite(),
        nyquist_hz.value() > 0real,
        bin_idx > 0,
        num_bins > 0,
        frequency * (num_bins as int as real) == (bin_idx as int as real) * nyquist_hz.value(),
        start * 4194304real == 14265656real,
        range * 2097152real == 13836170real,
        is_index_t::<A>(bin_idx, num_bins, nyquist_hz, r),
    ensures
        r.value() * range == ln(frequency) - start,
{
    let bin = choose|bin: Single| #[trigger]
        counts::<A>(bin_idx, bin) && is_bin_t::<A>(bin, num_bins, nyquist_hz, r);
    lemma_bin_t::<A>(ln, bin, num_bins, nyquist_hz, frequency, start, range, r);
}

/// The bar of a bin reaches to the bar of the next one: they meet halfway between the two bins. The
/// first bar starts at the left edge and the last one ends at the right edge.
pub proof fn law_bars_meet_halfway_between_bins<A: Arithmetic>(
    ln: spec_fn(real) -> real,
    bin_idx: usize,
    num_bins: usize,
    nyquist_hz: Single,
    frequency: real,
    start: real,
    range: real,
    end: Single,
    next: Single,
    first: Single,
    last: Single,
)
    requires
        is_exact::<A>(),
        logs_follow::<A>(ln),
        nyquist_hz.is_finite(),
        nyquist_hz.value() > 0real,
        bin_idx + 1 < num_bins,
        frequency * (num_bins as int as real) * 2real == ((2 * bin_idx + 1) as real)
            * nyquist_hz.value(),
        start * 4194304real == 14265656real,
        range * 2097152real == 13836170real,
        is_bar_end::<A>(bin_idx, num_bins, nyquist_hz, end),
        is_bar_start::<A>((bin_idx + 1) as usize, num_bins, nyquist_hz, next),
        is_bar_start::<A>(0, num_bins, nyquist_hz, first),
        is_bar_end::<A>((num_bins - 1) as usize, num_bins, nyquist_hz, last),
    ensures
        end.value() * range == ln(frequency) - start,
        next.value() * range == ln(frequency) - start,
        first.value() == 0real,
        last.value() == 1real,
{
    lemma_constants();
    lemma_constants_of_the_graph();
    let f = nyquist_hz.value();
    let middle = ((2 * bin_idx + 1) as real) / 2real;
    lemma_regroup(2real, middle, f);
    assert(2real * middle == (2 * bin_idx + 1) as real);
    assert(2real * (middle * f) == ((2 * bin_idx + 1) as real) * f);
    let (bin, edge) = choose|bin: Single, edge: Single| #[trigger]
        counts::<A>(bin_idx, bin) && #[trigger] sums::<A>(bin, single(ONE_HALF), edge)
            && is_bin_t::<A>(edge, num_bins, nyquist_hz, end);
    assert(edge.value() == middle);
    lemma_bin_t::<A>(ln, edge, num_bins, nyquist_hz, frequency, start, range, end);
    let (next_bin, next_edge) = choose|bin: Single, edge: Single| #[trigger]
        counts::<A>((bin_idx + 1) as usize, bin) && #[trigger] differences::<A>(
            bin,
            single(ONE_HALF),
            edge,
        ) && is_bin_t::<A>(edge, num_bins, nyquist_hz, next);
    assert(next_edge.value() == middle);
    lemma_bin_t::<A>(ln, next_edge, num_bins, nyquist_hz, frequency, start, range, next);
}

/// A magnitude reaches up to its level: -80 dB and less to the bottom, 20 dB and more to the top.
pub proof fn law_magnitudes_reach_up_to_their_level<A: Arithmetic>(
    magnitude: Single,
    level: real,
    r: Single,
)
    requires
        is_exact::<A>(),
        forall|l: Single| #[trigger]
            gain_levels::<A>(magnitude, l) ==> l.is_finite() && l.value() == level,
        is_magnitude_height::<A>(magnitude, r),
    ensures
        r.is_finite(),
        level <= -80real ==> r.value() == 0real,
        level >= 20real ==> r.value() == 1real,
        -80real <= level <= 20real ==> r.value() * 100real == level + 80real,
{
    lemma_constants();
    lemma_constants_of_the_graph();
    let (own_level, t) = choose|level: Single, t: Single| #[trigger]
        gain_levels::<A>(magnitude, level) && #[trigger] is_y_t::<A>(level, t) && r == t.clamped(
            single(ZERO),
            single(ONE),
        );
    let raised = choose|raised: Single| #[trigger]
        sums::<A>(own_level, single(EIGHTY), raised) && quotients::<A>(
            raised,
            single(ONE_HUNDRED),
            t,
        );
    assert(t.value() * 100real == level + 80real);
    lemma_selections(t, single(ZERO), single(ONE));
}

/// The top of the mesh lies half a line above where a bar of the same height would end, but not
/// above the graph.
pub proof fn law_mesh_covers_half_a_line_more_than_bars<A: Arithmetic>(
    bounds: BoundingBox,
    t: Single,
    line_width: Single,
    bar_top: Single,
    mesh_top: Single,
)
    requires
        is_exact::<A>(),
        bounds.y.is_finite() && bounds.h.is_finite(),
        t.is_finite() && line_width.is_finite(),
        is_height::<A>(bounds, t, bar_top),
        is_mesh_top::<A>(bounds, t, line_width, mesh_top),
    ensures
        mesh_top.is_finite(),
        2real * (bar_top.value() - bounds.y.value()) >= line_width.value() ==> 2real * (
        bar_top.value() - mesh_top.value()) == line_width.value(),
        2real * (bar_top.value() - bounds.y.value()) <= line_width.value() ==> mesh_top.value()
            == bounds.y.value(),
{
    lemma_constants();
    let bar_depth = choose|depth: Single| #[trigger]
        differences::<A>(single(ONE), t, depth) && is_along::<A>(
            bounds.y,
            bounds.h,
            depth,
            bar_top,
        );
    lemma_along::<A>(bounds.y, bounds.h, bar_depth, bar_top);
    let (depth, way, reach, raised) = choose|
        depth: Single,
        way: Single,
        reach: Single,
        raised: Single,
    | #[trigger]
        differences::<A>(single(ONE), t, depth) && #[trigger] products::<A>(bounds.h, depth, way)
            && #[trigger] halves::<A>(line_width, reach) && #[trigger] differences::<A>(
            way,
            reach,
            raised,
        ) && sums::<A>(bounds.y, raised.larger(single(ZERO)), mesh_top);
    assert(way.value() == bar_top.value() - bounds.y.value());
    lemma_selections(raised, single(ZERO), single(ZERO));
}

/// The lines of the spectrum are one and a half pixels wide, and bars that would come closer than
/// half a pixel to each other give way to a mesh. The bars are measured from two pixels left of the
/// graph on.
pub proof fn law_bars_keep_half_a_pixel_apart<A: Arithmetic>(
    view: AnalyzerView,
    num_bins: usize,
    nyquist_hz: Single,
    scene: SpectrumScene,
    start_x: Single,
)
    requires
        is_exact::<A>(),
        view.scale_factor.is_finite() && view.bounds.x.is_finite(),
        is_scene::<A>(view, num_bins, nyquist_hz, scene, start_x),
    ensures
        2real * scene.line_width.value() == 3real * view.scale_factor.value(),
        2real * (scene.closest.value() - scene.line_width.value()) == 1real,
        view.bounds.x.value() - start_x.value() == 2real,
{
    lemma_constants();
    lemma_constants_of_the_graph();
    lemma_constants_of_drawing();
    lemma_regroup(view.scale_factor.value(), single(SPECTRUM_LINE_WIDTH).value(), 2real);
}

/// The lines of the threshold curves are three pixels wide, and the circles of their points have a
/// radius of four and a half pixels and an outline of one and a half.
pub proof fn law_threshold_sizes_follow_the_scale<A: Arithmetic>(
    scale_factor: Single,
    shape: ThresholdShape,
)
    requires
        is_exact::<A>(),
        scale_factor.is_finite(),
        has_threshold_sizes::<A>(scale_factor, shape),
    ensures
        shape.line_width.value() == 3real * scale_factor.value(),
        2real * shape.point_radius.value() == 9real * scale_factor.value(),
        2real * shape.point_stroke_width.value() == 3real * scale_factor.value(),
{
    lemma_constants();
    lemma_constants_of_drawing();
    lemma_regroup(scale_factor.value(), single(POINT_RADIUS).value(), 2real);
    lemma_regroup(scale_factor.value(), single(SPECTRUM_LINE_WIDTH).value(), 2real);
}

/// The vertices of a threshold curve are spread evenly from the left edge to the right one, each at
/// the height of the curve's level with the offset. `level_at` is the level for the logarithm of a
/// frequency.
pub proof fn law_curve_vertices_lie_on_the_curve<A: Arithmetic>(
    level_at: spec_fn(real) -> real,
    bounds: BoundingBox,
    curve: Curve,
    offset_db: Single,
    index: usize,
    num_points: usize,
    x_t: real,
    start: real,
    range: real,
    r: Position,
)
    requires
        is_exact::<A>(),
        bounds.x.is_finite() && bounds.y.is_finite(),
        bounds.w.is_finite() && bounds.h.is_finite() && offset_db.is_finite(),
        index < num_points,
        num_points >= 2,
        x_t * ((num_points - 1) as real) == index as int as real,
        start * 4194304real == 14265656real,
        range * 2097152real == 13836170real,
        forall|ln_freq: Single, level: Single| #[trigger]
            curve.is_level::<A>(ln_freq, level) && ln_freq.is_finite() ==> level.is_finite()
                && level.value() == level_at(ln_freq.value()),
        is_curve_vertex::<A>(bounds, curve, offset_db, index, num_points, r),
    ensures
        r.x.value() - bounds.x.value() == bounds.w.value() * x_t,
        100real * (bounds.y.value() + bounds.h.value() - r.y.value()) == bounds.h.value() * (
        level_at(start + range * x_t) + offset_db.value() + 80real),
{
    lemma_constants();
    lemma_constants_of_the_graph();
    lemma_cancel(single(LN_FREQ_RANGE_START_HZ).value(), start, 4194304real);
    lemma_cancel(single(LN_FREQ_RANGE).value(), range, 2097152real);
    let (i, last, x, ln_freq, level, y_db, y_t) = choose|
        i: Single,
        last: Single,
        x_t: Single,
        ln_freq: Single,
        level: Single,
        y_db: Single,
        y_t: Single,
    |
        {
            &&& #[trigger] counts::<A>(index, i)
            &&& #[trigger] counts::<A>((num_points - 1) as usize, last)
            &&& #[trigger] quotients::<A>(i, last, x_t)
            &&& #[trigger] is_along::<A>(
                single(LN_FREQ_RANGE_START_HZ),
                single(LN_FREQ_RANGE),
                x_t,
                ln_freq,
            )
            &&& #[trigger] curve.is_level::<A>(ln_freq, level)
            &&& #[trigger] sums::<A>(level, offset_db, y_db)
            &&& #[trigger] is_y_t::<A>(y_db, y_t)
            &&& is_along::<A>(bounds.x, bounds.w, x_t, r.x)
            &&& is_height::<A>(bounds, y_t, r.y)
        };
    lemma_cancel(x.value(), x_t, (num_points - 1) as real);
    lemma_along::<A>(single(LN_FREQ_RANGE_START_HZ), single(LN_FREQ_RANGE), x, ln_freq);
    lemma_along::<A>(bounds.x, bounds.w, x, r.x);
    let raised = choose|raised: Single| #[trigger]
        sums::<A>(y_db, single(EIGHTY), raised) && quotients::<A>(
            raised,
            single(ONE_HUNDRED),
            y_t,
        );
    let depth = choose|depth: Single| #[trigger]
        differences::<A>(single(ONE), y_t, depth) && is_along::<A>(bounds.y, bounds.h, depth, r.y);
    lemma_along::<A>(bounds.y, bounds.h, depth, r.y);
    let h = bounds.h.value();
    lemma_regroup(h, 1real, y_t.value());
    lemma_regroup(h, y_t.value(), 100real);
}

/// A threshold curve has a vertex for each pixel that it is wide, also for one that is not whole,
/// but at most 100.
pub proof fn law_curves_have_a_vertex_for_each_pixel<A: Arithmetic>(width: Single, r: usize)
    requires
        floors_follow::<A>(),
        ceilings_follow::<A>(),
        width.is_finite(),
        width.value() > 0real,
        is_vertex_count::<A>(width, r),
    ensures
        1 <= r <= 100,
        width.value() >= 100real ==> r == 100,
        width.value() <= 100real ==> (r as int as real) - 1real < width.value() && width.value()
            <= r as int as real,
{
    let (rounded, pixels) = choose|whole: Single, pixels: u64| #[trigger]
        ceilings::<A>(width, whole) && #[trigger] count_casts::<A>(whole, pixels) && r
            == vstd::math::min(pixels as int, MAX_CURVE_VERTICES as int);
    let n = choose|n: int| rounded.value() == #[trigger] whole(n);
    assert(pixels as int == n || pixels == u64::MAX);
    assert(n as real - 1real < width.value() && width.value() <= n as real);
}

/// The bar of a gain reaches from the middle of the graph down for a negative one and up for a
/// positive one: by half the graph for 40 dB or more, and for less by its share of that.
pub proof fn law_gain_bars_reach_from_the_middle<A: Arithmetic>(
    bounds: BoundingBox,
    t_start: Single,
    t_end: Single,
    gain_db: Single,
    bar: GainBar,
)
    requires
        is_exact::<A>(),
        bounds.x.is_finite() && bounds.y.is_finite(),
        bounds.w.is_finite() && bounds.h.is_finite(),
        t_start.is_finite() && t_end.is_finite() && gain_db.is_finite(),
        is_gain_bar_between::<A>(bounds, t_start, t_end, gain_db, bar),
    ensures
        2real * (bar.center.value() - bounds.y.value()) == bounds.h.value(),
        -40real <= gain_db.value() <= 40real ==> 80real * (bar.y.value() - bar.center.value())
            == bounds.h.value() * (-gain_db.value()),
        gain_db.value() >= 40real ==> bar.y.value() == bounds.y.value(),
        gain_db.value() <= -40real ==> bar.y.value() == bounds.y.value() + bounds.h.value(),
        bar.downwards == (gain_db.value() < 0real),
        bar.left.value() - bounds.x.value() == bounds.w.value() * (if t_start.value() < 0real {
            0real
        } else {
            t_start.value()
        }),
        bar.right.value() - bounds.x.value() == bounds.w.value() * (if t_end.value() > 1real {
            1real
        } else {
            t_end.value()
        }),
{
    lemma_constants();
    lemma_constants_of_the_graph();
    lemma_constants_of_drawing();
    lemma_signs(gain_db);
    lemma_order_is_by_value(gain_db, single(ZERO));
    lemma_selections(t_start, single(ZERO), single(ZERO));
    lemma_selections(t_end, single(ONE), single(ONE));
    lemma_along::<A>(bounds.x, bounds.w, t_start.larger(single(ZERO)), bar.left);
    lemma_along::<A>(bounds.x, bounds.w, t_end.smaller(single(ONE)), bar.right);
    lemma_along::<A>(bounds.y, bounds.h, single(ONE_HALF), bar.center);
    let t = choose|t: Single| #[trigger]
        is_gain_t::<A>(gain_db, t) && is_along::<A>(bounds.y, bounds.h, t, bar.y);
    let (raised, unclamped) = choose|raised: Single, u: Single| #[trigger]
        sums::<A>(gain_db.negated(), single(LARGEST_GAIN_DB), raised)
            && #[trigger] quotients::<A>(raised, single(EIGHTY), u) && t == u.clamped(
            single(ZERO),
            single(ONE),
        );
    lemma_selections(unclamped, single(ZERO), single(ONE));
    lemma_along::<A>(bounds.y, bounds.h, t, bar.y);
    let (h, g) = (bounds.h.value(), gain_db.value());
    assert(unclamped.value() * 80real == -g + 40real);
    lemma_regroup(h, single(ONE_HALF).value(), 2real);
    lemma_regroup(h, 1real, 0real);
    lemma_regroup(h, t.value(), 80real);
    lemma_regroup(h, 40real, g);
    lemma_regroup(h, -g, 40real);
    lemma_sign_of_product(h, 0real);
}

/// Gains of less than 0.2 dB are not shown.
pub proof fn law_small_gains_are_not_shown<A: Arithmetic>(
    bounds: BoundingBox,
    num_bins: usize,
    nyquist_hz: Single,
    bin_idx: usize,
    gain_db: Single,
    least: real,
    r: Option<GainBar>,
)
    requires
        gain_db.is_finite(),
        least * 67108864real == 13421773real,
        is_gain_bar::<A>(bounds, num_bins, nyquist_hz, bin_idx, gain_db, r),
    ensures
        -least < gain_db.value() < least ==> r is None,
        r is Some ==> gain_db.value() <= -least || gain_db.value() >= least,
{
    lemma_constants_of_drawing();
    lemma_cancel(single(SHOWN_GAIN_DB).value(), least, 67108864real);
    lemma_signs(gain_db);
    lemma_order_is_by_value(gain_db.absolute(), single(SHOWN_GAIN_DB));
}

/// The middle of the border's line lies half its width inside of the bounds, on all sides.
pub proof fn law_borders_lie_inside<A: Arithmetic>(
    bounds: BoundingBox,
    width: Single,
    r: BoundingBox,
)
    requires
        is_exact::<A>(),
        bounds.x.is_finite() && bounds.y.is_finite(),
        bounds.w.is_finite() && bounds.h.is_finite() && width.is_finite(),
        is_border::<A>(bounds, width, r),
    ensures
        2real * (r.x.value() - bounds.x.value()) == width.value(),
        2real * (r.y.value() - bounds.y.value()) == width.value(),
        2real * (bounds.x.value() + bounds.w.value() - r.x.value() - r.w.value())
            == width.value(),
        2real * (bounds.y.value() + bounds.h.value() - r.y.value() - r.h.value())
            == width.value(),
{
    lemma_constants();
    let inset = choose|inset: Single| #[trigger]
        halves::<A>(width, inset) && sums::<A>(bounds.x, inset, r.x) && sums::<A>(
            bounds.y,
            inset,
            r.y,
        ) && differences::<A>(bounds.w, width, r.w) && differences::<A>(bounds.h, width, r.h);
    assert(inset.value() * 2real == width.value());
}

} // verus!
