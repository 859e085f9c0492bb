use polarity_sc_dark::analyzer::AnalyzerData;
use polarity_sc_dark::analyzer_drawing::{
    border, draw_frequency_guide_labels, draw_frequency_guide_lines, draw_gain_reduction,
    draw_spectrum, draw_threshold_curve, guide_text, is_drawable,
};
use polarity_sc_dark::analyzer_view::{
    db_to_unclamped_t, editable_curve_display_offset_db, first_free_point_index,
    frequency_to_x_t, hit_test_point, point_screen_position, unclamped_t_to_db, Analyzer,
    AnalyzerView, Gesture, PointerGrab,
};
use polarity_sc_dark::arithmetic::Arithmetic;
use polarity_sc_dark::buttons::{
    awaited_match, ClearCurveButton, CurvePresetButton, CurvePresetButtonAction, DeltaButton,
    ExportIrButton, MatchCurveButton, MatchCurveEvent, PollStep,
};
use polarity_sc_dark::curve::{Curve, CurvePoint};
use polarity_sc_dark::curve_preset::CurvePresetError;
use polarity_sc_dark::editor_layout::{
    global_row, strip_prefix, threshold_entry, GlobalRow, ThresholdRow,
};
use polarity_sc_dark::editor_model::{EditorAction, EditorEvent, ExportUiModel};
use polarity_sc_dark::frozen_ir::FrozenIrData;
use polarity_sc_dark::handoff::SnapshotReader;
use polarity_sc_dark::match_curve::{MatchCurveFit, MatchCurveResult, MatchCurveRuntime};
use polarity_sc_dark::match_level::MatchResult;
use polarity_sc_dark::param_writes::{ParamTarget, ParamValue, ParamWrite};
use polarity_sc_dark::params::{
    curve_point_name, slope_from_text, slope_text, CompressorBankParams, CompressorParam,
    CompressorParams, CurvePointParam, FloatRange, GlobalParams, SpectralCompressorParams,
    ThresholdMode, ThresholdParam, ThresholdParams, Unit, ValueText,
};
use polarity_sc_dark::pointer::{MouseButton, PointerEvent, Position};
use polarity_sc_dark::preset_list::CurvePresetList;
use polarity_sc_dark::single::{double, single, Double, Single};
use polarity_sc_dark::updates::{Direction, ParameterChange};
use polarity_sc_dark::window::{contains, restores_hover, BoundingBox, ViziaEditor};
use std::sync::atomic::{AtomicBool, Ordering};
use std::sync::Arc;

/// Computes with the machine's own floating-point unit.
struct Hardware;

fn s(value: f32) -> Single {
    single(value.to_bits())
}

fn f(value: Single) -> f32 {
    f32::from_bits(value.bits)
}

fn d(value: f64) -> Double {
    double(value.to_bits())
}

fn w(value: Double) -> f64 {
    f64::from_bits(value.bits)
}

impl Arithmetic for Hardware {
    fn sum(a: Single, b: Single) -> Single {
        s(f(a) + f(b))
    }

    fn difference(a: Single, b: Single) -> Single {
        s(f(a) - f(b))
    }

    fn product(a: Single, b: Single) -> Single {
        s(f(a) * f(b))
    }

    fn quotient(a: Single, b: Single) -> Single {
        s(f(a) / f(b))
    }

    fn square_root(a: Single) -> Single {
        s(f(a).sqrt())
    }

    fn natural_log(a: Single) -> Single {
        s(f(a).ln())
    }

    fn exponential(a: Single) -> Single {
        s(f(a).exp())
    }

    fn rounded(a: Single) -> Single {
        s(f(a).round())
    }

    fn floored(a: Single) -> Single {
        s(f(a).floor())
    }

    fn ceiled(a: Single) -> Single {
        s(f(a).ceil())
    }

    fn from_count(n: usize) -> Single {
        s(n as f32)
    }

    fn to_count(a: Single) -> u64 {
        f(a) as u64
    }

    fn magnitude(re: Single, im: Single) -> Single {
        s(f(re).hypot(f(im)))
    }

    fn gain_to_db(a: Single) -> Single {
        s(f(a).max(1e-5).log10() * 20.0)
    }

    fn gain_to_db_fast_epsilon(a: Single) -> Single {
        s(f(a).max(1e-5).ln() * (std::f32::consts::LOG10_E * 20.0))
    }

    fn db_to_gain(a: Single) -> Single {
        if f(a) > -100.0 {
            s(10.0f32.powf(f(a) * 0.05))
        } else {
            s(0.0)
        }
    }

    fn db_to_gain_fast(a: Single) -> Single {
        s((f(a) * (std::f32::consts::LN_10 / 20.0)).exp())
    }

    fn widened(a: Single) -> Double {
        d(f(a) as f64)
    }

    fn narrowed(a: Double) -> Single {
        s(w(a) as f32)
    }

    fn wide_count(n: u64) -> Double {
        d(n as f64)
    }

    fn wide_sum(a: Double, b: Double) -> Double {
        d(w(a) + w(b))
    }

    fn wide_difference(a: Double, b: Double) -> Double {
        d(w(a) - w(b))
    }

    fn wide_product(a: Double, b: Double) -> Double {
        d(w(a) * w(b))
    }

    fn wide_quotient(a: Double, b: Double) -> Double {
        d(w(a) / w(b))
    }

    fn wide_square_root(a: Double) -> Double {
        d(w(a).sqrt())
    }

    fn text(a: Single) -> String {
        format!("{}", f(a))
    }

    fn text_with_two_decimals(a: Single) -> String {
        format!("{:.2}", f(a))
    }

    fn text_with_sign(a: Single) -> String {
        format!("{:+.2}", f(a))
    }

    fn parsed(text: &str) -> Option<Single> {
        text.parse::<f32>().ok().map(s)
    }
}

fn params() -> SpectralCompressorParams {
    SpectralCompressorParams {
        threshold: ThresholdParams::new(),
        compressors: CompressorBankParams::new(),
        global: GlobalParams {
            compressor_attack_ms: s(150.0),
            compressor_release_ms: s(300.0),
            compressor_freeze: false,
        },
        editor_open: true,
    }
}

fn graph() -> AnalyzerView {
    AnalyzerView {
        bounds: BoundingBox { x: s(10.0), y: s(20.0), w: s(200.0), h: s(100.0) },
        scale_factor: s(1.0),
    }
}

fn at(x: f32, y: f32) -> Position {
    Position { x: s(x), y: s(y) }
}

fn near(a: Single, b: f32) -> bool {
    (f(a) - b).abs() < 1.0e-3
}

#[test]
fn levels_and_frequencies_are_mapped_to_the_graph() {
    assert_eq!(f(db_to_unclamped_t::<Hardware>(s(-80.0))), 0.0);
    assert_eq!(f(db_to_unclamped_t::<Hardware>(s(20.0))), 1.0);
    assert_eq!(f(unclamped_t_to_db::<Hardware>(s(0.5))), -30.0);
    assert!(near(frequency_to_x_t::<Hardware>(s(30.0)), 0.0));
    assert!(near(frequency_to_x_t::<Hardware>(s(22_000.0)), 1.0));
    assert_eq!(f(editable_curve_display_offset_db::<Hardware>(s(3.0), s(-7.0))), -2.0);
}

#[test]
fn a_click_adds_a_point_and_dragging_moves_it() {
    let mut analyzer = Analyzer::new();
    let mut params = params();
    params.threshold.threshold_db = s(-20.0);
    params.threshold.curve_slope = s(3.0);

    let response = analyzer.event::<Hardware>(
        PointerEvent::Down(MouseButton::Left),
        graph(),
        at(10.0, 70.0),
        &params,
    );
    assert!(response.consumed);
    assert_eq!(response.grab, PointerGrab::Captured);
    assert!(analyzer.drag_active);
    assert_eq!(analyzer.selected_point_index, Some(0));
    let changes: Vec<ParamWrite> = response
        .gestures
        .iter()
        .filter_map(|gesture| match gesture {
            Gesture::Change(write) => Some(*write),
            _ => None,
        })
        .collect();
    assert_eq!(
        changes[0],
        ParamWrite { target: ParamTarget::PointEnabled(0), value: ParamValue::Flag(true) }
    );
    assert_eq!(changes[1].target, ParamTarget::PointFrequency(0));
    assert!(matches!(changes[1].value, ParamValue::Number(hz) if near(hz, 30.0)));
    // The middle of the graph is at -30 dB, 10 dB below the curve
    assert_eq!(changes[2].target, ParamTarget::PointOffsetDb(0));
    assert!(matches!(changes[2].value, ParamValue::Number(db) if near(db, -10.0)));

    let response = analyzer.event::<Hardware>(
        PointerEvent::Moved(at(210.0, 500.0)),
        graph(),
        at(10.0, 70.0),
        &params,
    );
    assert!(response.consumed);
    assert_eq!(response.gestures.len(), 2);
    assert!(matches!(
        response.gestures[1],
        Gesture::Change(ParamWrite { value: ParamValue::Number(db), .. }) if f(db) == -60.0
    ));

    let response = analyzer.event::<Hardware>(
        PointerEvent::Up(MouseButton::Left),
        graph(),
        at(10.0, 70.0),
        &params,
    );
    assert_eq!(response.grab, PointerGrab::Released);
    assert_eq!(
        response.gestures,
        vec![
            Gesture::End(ParamTarget::PointFrequency(0)),
            Gesture::End(ParamTarget::PointOffsetDb(0)),
        ]
    );
    assert!(!analyzer.drag_active);
}

#[test]
fn points_are_hit_and_removed() {
    let mut analyzer = Analyzer::new();
    let mut params = params();
    params.threshold.curve_points[4].enabled = true;
    params.threshold.curve_points[4].frequency = s(1_000.0);
    params.threshold.curve_points[4].offset_db = s(0.0);
    let curve_params = params.threshold.curve_params::<Hardware>();
    let curve = Curve::new::<Hardware>(&curve_params);
    let position = point_screen_position::<Hardware>(
        graph().bounds,
        &curve,
        curve_params.points[4],
        s(0.0),
    )
    .unwrap();

    assert_eq!(hit_test_point::<Hardware>(graph(), position, &params), Some(4));
    let close = at(f(position.x) + 7.5, f(position.y));
    assert_eq!(hit_test_point::<Hardware>(graph(), close, &params), Some(4));
    let far = at(f(position.x) + 8.5, f(position.y));
    assert_eq!(hit_test_point::<Hardware>(graph(), far, &params), None);

    let response = analyzer.event::<Hardware>(
        PointerEvent::Down(MouseButton::Right),
        graph(),
        position,
        &params,
    );
    assert!(response.consumed);
    assert_eq!(
        response.gestures[1],
        Gesture::Change(ParamWrite {
            target: ParamTarget::PointEnabled(4),
            value: ParamValue::Flag(false)
        })
    );
    let response = analyzer.event::<Hardware>(
        PointerEvent::Down(MouseButton::Right),
        graph(),
        far,
        &params,
    );
    assert!(!response.consumed);
}

#[test]
fn a_full_graph_takes_no_more_points() {
    let mut analyzer = Analyzer::new();
    let mut params = params();
    for point in &mut params.threshold.curve_points {
        point.enabled = true;
        point.frequency = s(20_000.0);
    }
    assert_eq!(first_free_point_index(&params), None);

    let response = analyzer.event::<Hardware>(
        PointerEvent::Down(MouseButton::Left),
        graph(),
        at(10.0, 20.0),
        &params,
    );
    assert!(response.consumed);
    assert!(response.gestures.is_empty());
    assert!(!analyzer.drag_active);
}

fn data(num_bins: usize) -> AnalyzerData {
    let mut data = AnalyzerData::default();
    data.curve_params = params().threshold.curve_params::<Hardware>();
    data.num_bins = num_bins;
    data
}

#[test]
fn frequencies_are_marked_and_labelled() {
    let lines = draw_frequency_guide_lines::<Hardware>(graph().bounds);
    // 30 Hz lies exactly at the edge or a rounding error outside of it
    assert!(lines.len() == 4 || lines.len() == 3);
    let last = lines[lines.len() - 1];
    let x = 10.0 + 200.0 * (10_000.0f32.ln() - 30.0f32.ln()) / (22_000.0f32.ln() - 30.0f32.ln());
    assert!(near(last.from.x, x));
    assert_eq!((f(last.from.y), f(last.to.y)), (20.0, 120.0));

    let labels = draw_frequency_guide_labels::<Hardware>(graph());
    assert_eq!(f(labels.font_size), 11.0);
    let last = labels.labels[labels.labels.len() - 1];
    assert_eq!(guide_text(last.index), "10 kHz");
    assert!(near(last.position.x, x + 5.0));
    assert_eq!(f(last.position.y), 25.0);

    let narrow = AnalyzerView {
        bounds: BoundingBox { w: s(6.0), ..graph().bounds },
        ..graph()
    };
    let labels = draw_frequency_guide_labels::<Hardware>(narrow);
    assert!(labels.labels.iter().all(|label| f(label.position.x) == 13.0));
}

#[test]
fn the_spectrum_is_bars_and_then_a_mesh() {
    let mut data = data(1_025);
    data.envelope_followers.fill(s(1.0));
    let shape = draw_spectrum::<Hardware>(graph(), &data, s(24_000.0));

    assert_eq!(f(shape.line_width), 1.5);
    assert!(shape.bars.len() > 3);
    for bars in shape.bars.windows(2) {
        assert!(f(bars[1].from.x) - f(bars[0].from.x) >= 2.0);
    }
    // 0 dB is at 80% of the height
    assert!(shape.bars.iter().all(|bar| near(bar.from.y, 40.0) && near(bar.to.y, 120.0)));
    assert!(shape.mesh_top.iter().all(|vertex| near(vertex.y, 39.25)));
    assert_eq!(f(shape.mesh_start.y), 120.0);
    assert_eq!(shape.mesh_end.x, shape.mesh_top[shape.mesh_top.len() - 1].x);
    assert!(f(shape.mesh_end.x) < 210.0);

    data.envelope_followers.fill(s(0.0));
    let silent = draw_spectrum::<Hardware>(graph(), &data, s(24_000.0));
    assert!(silent.mesh_top.iter().all(|vertex| f(vertex.y) == 120.0));
}

#[test]
fn threshold_curves_are_drawn_with_their_offsets() {
    let mut data = data(1_025);
    data.curve_params.intercept = s(-30.0);
    data.curve_params.slope = s(0.0);
    data.curve_params.curve = s(0.0);
    data.curve_offsets_db = (s(10.0), s(-10.0));
    data.curve_params.points[2] =
        CurvePoint { enabled: true, frequency: s(1_000.0), offset_db: s(0.0) };
    let shape = draw_threshold_curve::<Hardware>(graph(), &data);

    assert_eq!(shape.upwards.len(), 100);
    assert_eq!(f(shape.line_width), 3.0);
    assert!(shape.upwards.iter().all(|vertex| near(vertex.y, 60.0)));
    assert!(shape.downwards.iter().all(|vertex| near(vertex.y, 80.0)));
    assert_eq!(f(shape.upwards[0].x), 10.0);
    assert_eq!(f(shape.upwards[99].x), 210.0);
    assert_eq!(f(shape.point_radius), 4.5);
    assert_eq!(shape.point_centers.len(), 1);
    assert!(near(shape.point_centers[0].y, 70.0));

    let narrow = AnalyzerView { bounds: BoundingBox { w: s(7.5), ..graph().bounds }, ..graph() };
    assert_eq!(draw_threshold_curve::<Hardware>(narrow, &data).upwards.len(), 8);
}

#[test]
fn gain_reduction_is_drawn_from_the_center() {
    let mut data = data(1_025);
    data.gain_difference_db.fill(s(0.0));
    data.gain_difference_db[0] = s(-20.0);
    data.gain_difference_db[100] = s(40.0);
    data.gain_difference_db[200] = s(0.1);
    data.gain_difference_db[1_024] = s(-90.0);
    let bars = draw_gain_reduction::<Hardware>(graph().bounds, &data, s(22_000.0));

    assert_eq!(bars.len(), 2);
    assert!(bars.iter().all(|bar| f(bar.center) == 70.0));
    // The first bin ends below 30 Hz, so that only two are left
    assert!(!bars[0].downwards);
    assert_eq!(f(bars[0].y), 20.0);
    assert!(f(bars[0].left) < f(bars[0].right));
    assert!(bars[1].downwards);
    assert_eq!((f(bars[1].right), f(bars[1].y)), (210.0, 120.0));
    let first = &draw_gain_reduction::<Hardware>(graph().bounds, &data, s(96_000.0))[0];
    assert!(first.downwards);
    assert_eq!(f(first.left), 10.0);
    assert_eq!(f(first.y), 95.0);
}

#[test]
fn the_border_runs_inside_of_the_graph() {
    let inner = border::<Hardware>(graph().bounds, s(2.0));
    assert_eq!((f(inner.x), f(inner.y), f(inner.w), f(inner.h)), (11.0, 21.0, 198.0, 98.0));
    assert!(is_drawable(graph().bounds));
    assert!(!is_drawable(BoundingBox { h: s(0.0), ..graph().bounds }));
}

#[test]
fn waiting_for_a_level_match_ends() {
    let found = MatchResult::Matched(s(2.0));
    assert_eq!(awaited_match(Some(found), false), Some(found));
    assert_eq!(awaited_match(Some(found), true), Some(found));
    assert_eq!(awaited_match(None, true), Some(MatchResult::Failed));
    assert_eq!(awaited_match(None, false), None);
}

#[test]
fn buttons_react_to_left_clicks() {
    let flag = Arc::new(AtomicBool::new(false));
    let delta = DeltaButton::new(flag.clone());
    assert!(!delta.is_checked());
    assert!(delta.event(PointerEvent::Down(MouseButton::Left)));
    assert!(delta.is_checked());
    assert!(delta.event(PointerEvent::TripleClick(MouseButton::Left)));
    assert!(!delta.is_checked());
    assert!(!delta.event(PointerEvent::Down(MouseButton::Right)));
    assert!(!delta.event(PointerEvent::Up(MouseButton::Left)));

    let clear = ClearCurveButton::new();
    assert_eq!(
        clear.event(PointerEvent::DoubleClick(MouseButton::Left)),
        Some(MatchCurveEvent::ClearRequested)
    );
    assert_eq!(clear.event(PointerEvent::Other), None);

    flag.store(true, Ordering::Relaxed);
    let runtime = Arc::new(MatchCurveRuntime::new());
    let button = MatchCurveButton::new(runtime.clone(), flag.clone());
    let click = button.event(PointerEvent::Down(MouseButton::Left), s(1.0)).unwrap();
    assert_eq!(click.emitted, MatchCurveEvent::Started);
    assert!(click.disables_bypass);
    assert!(!flag.load(Ordering::Relaxed));
    assert!(runtime.begin_running_if_requested());
    assert_eq!(button.poll(false), PollStep::Wait);
    assert_eq!(
        button.poll(true),
        PollStep::Emit(MatchCurveEvent::Result(MatchCurveResult::Failed))
    );
    let fit = MatchCurveFit::default();
    runtime.publish_result(Some(fit));
    assert_eq!(
        button.poll(false),
        PollStep::Emit(MatchCurveEvent::Result(MatchCurveResult::Matched(fit)))
    );

    let save = CurvePresetButton::new(CurvePresetButtonAction::SaveRequested);
    let press = PointerEvent::Down(MouseButton::Left);
    assert_eq!(save.event(press, false), (true, Some(CurvePresetButtonAction::SaveRequested)));
    assert_eq!(save.event(press, true), (true, None));
    assert_eq!(save.event(PointerEvent::Other, false), (false, None));
}

fn snapshots() -> (triple_buffer::Input<FrozenIrData>, SnapshotReader) {
    let (input, output) = triple_buffer::TripleBuffer::<FrozenIrData>::default().split();
    (input, SnapshotReader::new(Arc::new(atomic_refcell::AtomicRefCell::new(output))))
}

#[test]
fn only_captured_snapshots_are_exported() {
    let (mut input, reader) = snapshots();
    assert!(!reader.can_export());
    assert!(reader.snapshot_to_export().is_none());

    let mut snapshot = FrozenIrData::default();
    snapshot.valid = true;
    snapshot.window_size = 2048;
    input.write(snapshot);
    assert!(reader.can_export());
    assert_eq!(reader.handle().snapshot_to_export().unwrap().window_size, 2048);

    let button = ExportIrButton::new(reader.handle());
    let (consumed, exported) = button.event(PointerEvent::Down(MouseButton::Left), false);
    assert!(consumed);
    assert_eq!(exported.unwrap().window_size, 2048);
    assert!(button.event(PointerEvent::Down(MouseButton::Left), true).1.is_none());
}

fn model() -> ExportUiModel {
    ExportUiModel::build(CurvePresetList::new(Vec::new()), false)
}

#[test]
fn matches_are_reported_and_applied() {
    let mut model = model();
    let params = ThresholdParams::new();
    assert_eq!(model.status_text, "");
    assert_eq!(model.curve_preset_options.len(), 8);
    assert_eq!(model.curve_preset_options[0], "Preset...");

    model.respond::<Hardware>(EditorEvent::MatchStarted, &params);
    assert_eq!(model.status_text, "Matching...");
    let response = model.respond::<Hardware>(
        EditorEvent::MatchFinished(MatchResult::Matched(s(10.0))),
        &params,
    );
    assert_eq!(model.status_text, "Matched +20.00 dB");
    assert!(matches!(
        response.action,
        EditorAction::SetParameters(writes)
            if writes == vec![ParamWrite {
                target: ParamTarget::OutputGain,
                value: ParamValue::Number(s(10.0))
            }]
    ));
    model.respond::<Hardware>(EditorEvent::MatchFinished(MatchResult::Failed), &params);
    assert_eq!(model.status_text, "Match failed: signal too quiet.");

    model.respond::<Hardware>(EditorEvent::MatchCurveStarted, &params);
    assert_eq!(model.status_text, "Matching curve...");
    let matched = MatchCurveResult::Matched(MatchCurveFit::default());
    model.respond::<Hardware>(EditorEvent::MatchCurveFinished(matched), &params);
    assert_eq!(model.status_text, "Curve matched");
    let failed = MatchCurveResult::Failed;
    model.respond::<Hardware>(EditorEvent::MatchCurveFinished(failed), &params);
    assert_eq!(model.status_text, "Match curve failed: signal too quiet.");
    model.respond::<Hardware>(EditorEvent::ClearCurveRequested, &params);
    assert_eq!(model.status_text, "Curve cleared");
}

#[test]
fn presets_are_saved_chosen_and_deleted() {
    let mut model = model();
    let params = ThresholdParams::new();

    let response =
        model.respond::<Hardware>(EditorEvent::SaveRequested { folder_known: true }, &params);
    assert!(matches!(response.action, EditorAction::ChoosePresetFile));
    let response = model.respond::<Hardware>(
        EditorEvent::SaveDialogFinished(Some(Some("Mine.json".to_string()))),
        &params,
    );
    let EditorAction::WritePreset(save) = response.action else {
        panic!("the preset is not written");
    };
    assert_eq!(save.file_name, "Mine.json");
    model.respond::<Hardware>(
        EditorEvent::PresetWritten { preset: save.preset, outcome: Ok(5) },
        &params,
    );
    assert_eq!(model.status_text, "Saved preset: Mine");
    assert_eq!(model.selected_curve_preset_index, 8);
    assert!(model.can_delete_curve_preset);
    assert_eq!(model.curve_preset_options[8], "Mine");

    let response = model.respond::<Hardware>(EditorEvent::DeleteRequested, &params);
    assert!(matches!(
        response.action,
        EditorAction::RemovePresetFile { path: 5, ref name } if name == "Mine"
    ));
    model.respond::<Hardware>(
        EditorEvent::PresetRemoved { name: "Mine".to_string(), outcome: Ok(()) },
        &params,
    );
    assert_eq!(model.status_text, "Deleted preset: Mine");
    assert_eq!(model.curve_preset_options.len(), 8);
    assert!(!model.can_delete_curve_preset);

    let response = model.respond::<Hardware>(EditorEvent::PresetChosen(1), &params);
    assert!(matches!(response.action, EditorAction::SetParameters(_)));
    assert!(!model.can_delete_curve_preset);
}

#[test]
fn failures_are_shown() {
    let mut model = model();
    let params = ThresholdParams::new();

    model.respond::<Hardware>(EditorEvent::SaveRequested { folder_known: false }, &params);
    assert_eq!(model.status_text, "Could not find preset folder");
    model.respond::<Hardware>(
        EditorEvent::SaveDialogFinished(Some(Some("Lead.json".to_string()))),
        &params,
    );
    assert_eq!(
        model.status_text,
        "Save failed: Built-in preset 'Lead' cannot be overwritten"
    );
    model.respond::<Hardware>(EditorEvent::SaveDialogFinished(None), &params);
    assert_eq!(model.status_text, "");
    model.respond::<Hardware>(EditorEvent::DeleteRequested, &params);
    assert_eq!(model.status_text, "Select a user preset to delete");
    model.respond::<Hardware>(
        EditorEvent::PresetRemoved {
            name: "Mine".to_string(),
            outcome: Err(CurvePresetError::Io("in use".to_string())),
        },
        &params,
    );
    assert_eq!(model.status_text, "Delete failed: in use");
}

#[test]
fn parameter_changes_update_the_export_button() {
    let (mut input, reader) = snapshots();
    let mut model = model();
    let params = ThresholdParams::new();

    model.handle::<Hardware>(EditorEvent::ParametersChanged, &params, &reader);
    assert!(!model.can_export);
    let mut snapshot = FrozenIrData::default();
    snapshot.valid = true;
    input.write(snapshot);
    model.handle::<Hardware>(EditorEvent::ParametersChanged, &params, &reader);
    assert!(model.can_export);
}

#[test]
fn parameters_have_their_rows() {
    assert_eq!(global_row("Window Size"), GlobalRow::FftWindow);
    assert_eq!(global_row("Window Overlap"), GlobalRow::Hidden);
    assert_eq!(global_row("Mix"), GlobalRow::Widget);
    assert_eq!(global_row("Freeze"), GlobalRow::Freeze);
    assert_eq!(global_row("Other"), GlobalRow::Hidden);
    assert_eq!(threshold_entry("Threshold Center", false).row, ThresholdRow::Anchor);
    assert!(threshold_entry("Threshold Slope", false).draws_curve_controls);
    assert!(!threshold_entry("Threshold Slope", true).draws_curve_controls);
    assert_eq!(threshold_entry("Mode", false).row, ThresholdRow::Mode);
    assert_eq!(strip_prefix("Upwards Ratio", "Upwards "), Some("Ratio".to_string()));
    assert_eq!(strip_prefix("Ratio", "Upwards "), None);
}

#[test]
fn modes_are_chosen_by_position() {
    for index in 0..3 {
        assert_eq!(ThresholdMode::at_index(index).unwrap().to_index(), index);
    }
    assert_eq!(ThresholdMode::at_index(3), None);
    assert_eq!(ThresholdMode::Internal.chosen(1), Some(ThresholdMode::SidechainMatch));
    assert_eq!(ThresholdMode::Internal.chosen(0), None);
}

#[test]
fn windows_keep_their_scale_while_they_are_open() {
    let open = Arc::new(AtomicBool::new(false));
    let editor = ViziaEditor::new(open.clone());
    assert_eq!(editor.scale_factor(), None);
    assert!(editor.set_scale_factor(s(1.5)));
    assert_eq!(editor.scale_factor(), Some(s(1.5)));
    editor.opened();
    assert!(!editor.set_scale_factor(s(2.0)));
    assert_eq!(editor.scale_factor(), Some(s(1.5)));
    assert!(editor.dropped(true));
    assert!(!editor.dropped(false));
    assert!(!open.load(Ordering::Relaxed));

    assert!(!editor.take_parameters_changed());
    editor.param_values_changed();
    editor.param_values_changed();
    assert!(editor.take_parameters_changed());
    assert!(!editor.take_parameters_changed());

    let bounds = graph().bounds;
    assert!(contains::<Hardware>(bounds, at(10.0, 20.0)));
    assert!(!contains::<Hardware>(bounds, at(210.0, 20.0)));
    assert!(restores_hover::<Hardware>(false, bounds, at(50.0, 50.0)));
    assert!(!restores_hover::<Hardware>(true, bounds, at(50.0, 50.0)));
}

#[test]
fn slopes_are_shown_with_the_pink_noise_tilt() {
    assert_eq!(slope_text::<Hardware>(s(0.0)), "3.00");
    assert_eq!(slope_from_text::<Hardware>("3.00 dB/oct"), Some(s(0.0)));
    assert_eq!(slope_from_text::<Hardware>("0"), Some(s(3.0)));
    assert_eq!(slope_from_text::<Hardware>("steep"), None);
    let unchanged = ThresholdParams::new().curve_params::<Hardware>();
    assert_eq!(f(unchanged.slope), -3.0);
}

fn linear(min: f32, max: f32) -> FloatRange {
    FloatRange::Linear { min: s(min), max: s(max) }
}

fn skewed(min: f32, max: f32, skew: f32) -> FloatRange {
    FloatRange::Skewed { min: s(min), max: s(max), skew: s(skew) }
}

fn symmetrical(max: f32) -> FloatRange {
    FloatRange::SymmetricalSkewed { min: s(-max), max: s(max), skew: s(-2.0), center: s(0.0) }
}

#[test]
fn threshold_settings_have_their_defaults_and_ranges() {
    let cases = [
        (ThresholdParam::ThresholdDb, "Global Threshold", -12.0, linear(-100.0, 20.0)),
        (
            ThresholdParam::CenterFrequency,
            "Threshold Center",
            1_000.0,
            skewed(20.0, 20_000.0, -2.0),
        ),
        (ThresholdParam::CurveSlope, "Threshold Slope", 0.0, symmetrical(36.0)),
        (ThresholdParam::CurveCurve, "Threshold Curve", 0.0, symmetrical(24.0)),
        (ThresholdParam::ScChannelLink, "SC Channel Link", 0.8, linear(0.0, 1.0)),
        (ThresholdParam::GainSmoothing, "Smoothing", 0.0, linear(0.0, 1.0)),
    ];
    for (param, name, default, range) in cases {
        let setting = param.setting();
        assert_eq!(param.name(), name);
        assert_eq!(f(setting.default), default);
        assert_eq!(setting.range, range);
        assert!(!setting.hidden);
    }

    let slope = ThresholdParam::CurveSlope.setting();
    assert_eq!(slope.step_size, Some(s(0.01)));
    assert_eq!(slope.unit.suffix(), " dB/oct");
    assert_eq!(slope.text, ValueText::Tilt);
    assert!(ThresholdParam::CurveCurve.setting().hidden_in_generic_ui);
    assert_eq!(ThresholdParam::CurveCurve.setting().unit.suffix(), " dB/oct\u{b2}");
    assert_eq!(ThresholdParam::ThresholdDb.setting().step_size, Some(s(0.1)));
    assert_eq!(ThresholdParam::CenterFrequency.setting().text, ValueText::HzThenKhz);
    assert_eq!(ThresholdParam::GainSmoothing.setting().change, ParameterChange::Nothing);
    assert_eq!(ThresholdParam::ThresholdDb.setting().change, ParameterChange::Curve);
}

#[test]
fn compressor_settings_have_their_defaults_and_ranges() {
    let cases = [
        (CompressorParam::ThresholdOffsetDb, "Downwards Offset", 0.0, linear(-50.0, 50.0)),
        (CompressorParam::Ratio, "Downwards Ratio", 1.0, skewed(1.0, 500.0, -2.0)),
        (
            CompressorParam::HighFreqRatioRolloff,
            "Downwards Hi-Freq Rolloff",
            0.0,
            linear(0.0, 1.0),
        ),
        (CompressorParam::KneeWidthDb, "Downwards Knee", 6.0, skewed(0.0, 36.0, -1.0)),
    ];
    for (param, name, default, range) in cases {
        let setting = param.setting(Direction::Downwards);
        assert_eq!(param.name(Direction::Downwards), name);
        assert_eq!(f(setting.default), default);
        assert_eq!(setting.range, range);
    }

    let rolloff = CompressorParam::HighFreqRatioRolloff;
    assert_eq!(f(rolloff.setting(Direction::Upwards).default), 0.75);
    assert_eq!(
        rolloff.setting(Direction::Upwards).change,
        ParameterChange::Ratios(Direction::Upwards)
    );
    assert_eq!(CompressorParam::Ratio.name(Direction::Upwards), "Upwards Ratio");
    assert_eq!(
        CompressorParam::KneeWidthDb.setting(Direction::Upwards).change,
        ParameterChange::Knees(Direction::Upwards)
    );
    assert_eq!(f(CompressorParams::new(Direction::Upwards).ratio), 1.0);
}

#[test]
fn curve_points_have_their_defaults_and_ranges() {
    let frequency = CurvePointParam::Frequency.setting();
    assert_eq!(f(frequency.default), 1_000.0);
    assert_eq!(frequency.range, skewed(30.0, 22_000.0, -2.0));
    assert!(frequency.hidden && frequency.hidden_in_generic_ui);
    let offset = CurvePointParam::OffsetDb.setting();
    assert_eq!(offset.range, linear(-60.0, 60.0));
    assert_eq!(offset.unit, Unit::Decibels);
    assert_eq!(curve_point_name(0, "Enabled"), "Curve Point 1 Enabled");
    assert_eq!(curve_point_name(7, "Offset"), "Curve Point 8 Offset");
    assert!(!ThresholdParams::new().curve_points[3].enabled);
}
