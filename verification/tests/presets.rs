use polarity_sc_dark::curve::{CurvePoint, MAX_THRESHOLD_CURVE_POINTS};
use polarity_sc_dark::curve_preset::{
    disabled_point, extension, file_stem, is_preset_file, plan_delete, plan_save, validate_preset,
    with_json_extension, CurvePreset, CurvePresetEntry, CurvePresetError, CurvePresetSource,
    PresetField, PresetProblem, UserCurvePoint, UserCurvePresetFile,
};
use polarity_sc_dark::match_curve::MatchCurveFit;
use polarity_sc_dark::param_writes::{
    apply_curve_preset, apply_match_curve, clear_match_curve, ParamTarget, ParamValue, ParamWrite,
};
use polarity_sc_dark::preset_list::{
    collect_user_presets, remove_named, upsert, CurvePresetList, FolderEvent, LoadedCurvePresets,
    PresetFile,
};
use polarity_sc_dark::single::{single, Single};
use polarity_sc_dark::text::{comes_before, decimal, joined, trim};

fn s(value: f32) -> Single {
    single(value.to_bits())
}

fn f(value: Single) -> f32 {
    f32::from_bits(value.bits)
}

fn enabled(frequency: f32, offset_db: f32) -> CurvePoint {
    CurvePoint { enabled: true, frequency: s(frequency), offset_db: s(offset_db) }
}

fn test_preset(name: &str) -> CurvePreset {
    let mut points = [disabled_point(); MAX_THRESHOLD_CURVE_POINTS];
    points[0] = enabled(100.0, 1.0);
    points[1] = enabled(1_000.0, -1.0);
    CurvePreset {
        name: name.to_string(),
        threshold_db: s(-12.0),
        center_frequency: s(1_000.0),
        curve_slope: s(0.0),
        curve_curve: s(0.0),
        points,
    }
}

/// A preset folder that is held in memory. A path is the position of its file.
#[derive(Default)]
struct Folder {
    files: Vec<(String, UserCurvePresetFile)>,
}

impl Folder {
    fn save(
        &mut self,
        file_name: &str,
        preset: CurvePreset,
    ) -> Result<CurvePresetEntry, CurvePresetError> {
        let save = plan_save(Some(file_name.to_string()), preset)?;
        let path = match self.files.iter().position(|(name, _)| *name == save.file_name) {
            Some(path) => {
                self.files[path].1 = save.file;
                path
            }
            None => {
                self.files.push((save.file_name, save.file));
                self.files.len() - 1
            }
        };
        Ok(CurvePresetEntry {
            preset: save.preset,
            source: CurvePresetSource::User,
            path: Some(path),
        })
    }

    fn load(&self) -> LoadedCurvePresets {
        let events = self
            .files
            .iter()
            .enumerate()
            .filter(|(_, (name, _))| is_preset_file(name))
            .map(|(path, (name, file))| {
                FolderEvent::File(PresetFile {
                    path,
                    path_text: name.clone(),
                    contents: Ok(file.clone()),
                })
            })
            .collect();
        collect_user_presets(&events)
    }
}

#[test]
fn built_in_presets_fit_existing_curve_parameter_limits() {
    for entry in CurvePreset::built_in_entries() {
        validate_preset(&entry.preset).expect("built-in preset should be valid");
    }
}

#[test]
fn only_user_presets_apply_curve_anchor_parameters() {
    assert!(!CurvePresetSource::BuiltIn.applies_anchor_parameters());
    assert!(CurvePresetSource::User.applies_anchor_parameters());
}

fn number(value: Single) -> serde_json::Value {
    serde_json::Value::from(f(value) as f64)
}

fn read_number(value: &serde_json::Value) -> Single {
    s(value.as_f64().unwrap() as f32)
}

fn to_json(file: &UserCurvePresetFile) -> String {
    let mut object = serde_json::Map::new();
    object.insert("version".to_string(), serde_json::Value::from(file.version));
    object.insert("name".to_string(), serde_json::Value::from(file.name.clone()));
    object.insert("threshold_db".to_string(), number(file.threshold_db));
    object.insert("center_frequency".to_string(), number(file.center_frequency));
    object.insert("curve_slope".to_string(), number(file.curve_slope));
    object.insert("curve_curve".to_string(), number(file.curve_curve));
    let points: Vec<serde_json::Value> = file
        .points
        .iter()
        .map(|point| {
            let mut object = serde_json::Map::new();
            object.insert("enabled".to_string(), serde_json::Value::from(point.enabled));
            object.insert("frequency".to_string(), number(point.frequency));
            object.insert("offset_db".to_string(), number(point.offset_db));
            serde_json::Value::from(object)
        })
        .collect();
    object.insert("points".to_string(), serde_json::Value::from(points));
    serde_json::to_string(&serde_json::Value::from(object)).unwrap()
}

fn from_json(json: &str) -> UserCurvePresetFile {
    let value: serde_json::Value = serde_json::from_str(json).unwrap();
    UserCurvePresetFile {
        version: value["version"].as_u64().unwrap() as u32,
        name: value["name"].as_str().unwrap().to_string(),
        threshold_db: read_number(&value["threshold_db"]),
        center_frequency: read_number(&value["center_frequency"]),
        curve_slope: read_number(&value["curve_slope"]),
        curve_curve: read_number(&value["curve_curve"]),
        points: value["points"]
            .as_array()
            .unwrap()
            .iter()
            .map(|point| UserCurvePoint {
                enabled: point["enabled"].as_bool().unwrap(),
                frequency: read_number(&point["frequency"]),
                offset_db: read_number(&point["offset_db"]),
            })
            .collect(),
    }
}

#[test]
fn serializes_and_deserializes_user_preset() {
    let preset = test_preset("Custom");
    let json = to_json(&UserCurvePresetFile::from(&preset));
    let file = from_json(&json);
    let restored = CurvePreset::try_from(&file).unwrap();

    assert_eq!(restored.name, "Custom");
    assert_eq!(f(restored.points[0].frequency), 100.0);
    assert!(restored.points[0].enabled);
    assert_eq!(restored.points, preset.points);
}

#[test]
fn built_in_names_are_not_overwritten() {
    let mut folder = Folder::default();
    let err = folder.save("Lead.json", test_preset("Ignored")).unwrap_err();

    assert!(matches!(err, CurvePresetError::BuiltInName(_)));
    assert_eq!(err.message(), "Built-in preset 'Lead' cannot be overwritten");
}

#[test]
fn user_presets_load_after_built_ins_and_are_sorted() {
    let mut folder = Folder::default();
    folder.save("Zulu.json", test_preset("Ignored")).unwrap();
    folder.save("Alpha.json", test_preset("Ignored")).unwrap();

    let mut loaded = CurvePreset::built_in_entries();
    loaded.extend(folder.load().entries);

    let built_in_count = CurvePreset::built_in_entries().len();
    assert_eq!(loaded[built_in_count - 1].source, CurvePresetSource::BuiltIn);
    assert_eq!(loaded[built_in_count].preset.name, "Alpha");
    assert_eq!(loaded[built_in_count + 1].preset.name, "Zulu");

    let list = CurvePresetList::new(folder.load().entries);
    assert_eq!(list.get(built_in_count - 1).unwrap().source, CurvePresetSource::BuiltIn);
    assert_eq!(list.get(built_in_count).unwrap().preset.name, "Alpha");
    assert_eq!(list.get(built_in_count + 1).unwrap().preset.name, "Zulu");
    assert!(list.get(built_in_count + 2).is_none());
}

#[test]
fn saving_same_dialog_path_overwrites_existing_file() {
    let mut folder = Folder::default();
    let first = folder.save("Custom.json", test_preset("Ignored")).unwrap();
    let mut replacement = test_preset("Custom");
    replacement.threshold_db = s(-24.0);
    let second = folder.save("Custom.json", replacement).unwrap();

    assert_eq!(first.path, second.path);

    let loaded = folder.load();
    assert_eq!(loaded.entries.len(), 1);
    assert_eq!(f(loaded.entries[0].preset.threshold_db), -24.0);
}

#[test]
fn save_dialog_path_uses_file_stem_as_preset_name() {
    let mut folder = Folder::default();
    let entry = folder.save("Dialog Name.json", test_preset("Ignored")).unwrap();

    assert_eq!(entry.preset.name, "Dialog Name");
    assert_eq!(entry.path, Some(0));
    assert_eq!(folder.files[0].0, "Dialog Name.json");
}

#[test]
fn delete_rejects_built_in_presets() {
    let entry =
        CurvePreset::built_in_entries().into_iter().next().expect("missing built-in presets");
    let err = plan_delete(&entry).unwrap_err();

    assert!(matches!(err, CurvePresetError::BuiltInName(_)));
}

#[test]
fn only_presets_with_a_file_can_be_deleted() {
    let mut entry =
        CurvePresetEntry { preset: test_preset("Mine"), source: CurvePresetSource::User, path: None };
    let err = plan_delete(&entry).unwrap_err();
    assert!(matches!(err, CurvePresetError::NoUserPresetPath));
    assert_eq!(err.message(), "No user preset file is selected");

    entry.path = Some(4);
    assert!(matches!(plan_delete(&entry), Ok(4)));
}

#[test]
fn presets_need_a_name() {
    let err = plan_save(None, test_preset("Ignored")).unwrap_err();
    assert!(matches!(err, CurvePresetError::EmptyName));
    let err = plan_save(Some("   .json".to_string()), test_preset("Ignored")).unwrap_err();
    assert!(matches!(err, CurvePresetError::EmptyName));
    assert_eq!(err.message(), "Preset name cannot be empty");

    let save = plan_save(Some("  Wide \u{3000}.preset".to_string()), test_preset("x")).unwrap();
    assert_eq!(save.preset.name, "Wide");
    assert_eq!(save.file.name, "Wide");
    assert_eq!(save.file_name, "  Wide \u{3000}.preset");
}

#[test]
fn presets_out_of_range_are_refused() {
    let good = test_preset("Good");
    assert!(validate_preset(&good).is_ok());
    let mut off = good.clone();
    off.points[0] = enabled(29.0, 1.0);
    let mut loud = good.clone();
    loud.points[1] = enabled(100.0, 60.5);

    let cases = [
        (CurvePreset { threshold_db: s(20.5), ..good.clone() }, PresetField::Threshold),
        (
            CurvePreset { center_frequency: s(f32::NAN), ..good.clone() },
            PresetField::CenterFrequency,
        ),
        (CurvePreset { curve_slope: s(-36.5), ..good.clone() }, PresetField::CurveSlope),
        (CurvePreset { curve_curve: s(24.5), ..good.clone() }, PresetField::CurveAmount),
        (off, PresetField::PointFrequency),
        (loud, PresetField::PointOffset),
    ];
    for (preset, field) in cases {
        let err = validate_preset(&preset).unwrap_err();
        assert!(matches!(
            err,
            CurvePresetError::Validation(PresetProblem::OutOfRange(found)) if found == field
        ));
    }

    let mut unused = good.clone();
    unused.points[5] = CurvePoint { enabled: false, frequency: s(1.0), offset_db: s(900.0) };
    assert!(validate_preset(&unused).is_ok());
}

#[test]
fn files_of_other_formats_are_refused() {
    let mut file = UserCurvePresetFile::from(&test_preset("Custom"));
    file.version = 2;
    let err = CurvePreset::try_from(&file).unwrap_err();
    assert_eq!(err.message(), "Unsupported preset format version 2");

    file.version = 1;
    file.points.pop();
    let err = CurvePreset::try_from(&file).unwrap_err();
    assert_eq!(err.message(), "Expected 8 curve points, found 7");

    file.name = " ".to_string();
    let err = CurvePreset::try_from(&file).unwrap_err();
    assert!(matches!(err, CurvePresetError::EmptyName));
}

#[test]
fn problems_with_the_folder_become_warnings() {
    let good = UserCurvePresetFile::from(&test_preset("Good"));
    let events = vec![
        FolderEvent::FolderFailed { folder: "/presets".to_string(), cause: "locked".to_string() },
        FolderEvent::EntryFailed { cause: "gone".to_string() },
        FolderEvent::File(PresetFile {
            path: 0,
            path_text: "/presets/bad.json".to_string(),
            contents: Err(CurvePresetError::Serialize("no object".to_string())),
        }),
        FolderEvent::File(PresetFile {
            path: 1,
            path_text: "/presets/io.json".to_string(),
            contents: Err(CurvePresetError::Io("no access".to_string())),
        }),
        FolderEvent::File(PresetFile {
            path: 2,
            path_text: "/presets/good.json".to_string(),
            contents: Ok(good.clone()),
        }),
        FolderEvent::File(PresetFile {
            path: 3,
            path_text: "/presets/twin.json".to_string(),
            contents: Ok(good),
        }),
    ];
    let loaded = collect_user_presets(&events);

    assert_eq!(
        loaded.warnings,
        vec![
            "Could not read /presets: locked",
            "Could not read preset directory entry: gone",
            "Could not load /presets/bad.json: no object",
            "Could not load /presets/io.json: no access",
        ]
    );
    assert_eq!(loaded.entries.len(), 1);
    assert_eq!(loaded.entries[0].path, Some(2));
}

#[test]
fn the_first_path_wins_among_presets_of_one_name() {
    let file = |path: usize, threshold_db: f32| {
        let mut preset = test_preset("Twin");
        preset.threshold_db = s(threshold_db);
        FolderEvent::File(PresetFile {
            path,
            path_text: format!("/presets/{path}.json"),
            contents: Ok(UserCurvePresetFile::from(&preset)),
        })
    };
    let loaded = collect_user_presets(&vec![file(7, -7.0), file(3, -3.0), file(5, -5.0)]);

    assert_eq!(loaded.entries.len(), 1);
    assert_eq!(loaded.entries[0].path, Some(3));
    assert_eq!(f(loaded.entries[0].preset.threshold_db), -3.0);
}

#[test]
fn entries_are_replaced_by_name() {
    let entry = |name: &str, path: usize| CurvePresetEntry {
        preset: test_preset(name),
        source: CurvePresetSource::User,
        path: Some(path),
    };
    let mut entries = vec![entry("Alpha", 0), entry("Zulu", 1)];

    assert_eq!(upsert(&mut entries, entry("Mike", 2)), 1);
    assert_eq!(upsert(&mut entries, entry("Alpha", 3)), 0);
    assert_eq!(entries.len(), 3);
    assert_eq!(entries[0].path, Some(3));

    remove_named(&mut entries, "Mike");
    assert_eq!(entries.len(), 2);
    assert_eq!(entries[1].preset.name, "Zulu");
}

#[test]
fn file_names_are_taken_apart_at_their_last_dot() {
    assert_eq!(file_stem("a.b.json"), "a.b");
    assert_eq!(file_stem(".json"), ".json");
    assert_eq!(file_stem("plain"), "plain");
    assert_eq!(extension("a.b.json"), Some("json".to_string()));
    assert_eq!(extension(".json"), None);
    assert_eq!(extension("plain"), None);
    assert_eq!(with_json_extension("a.txt"), "a.txt");
    assert_eq!(with_json_extension("plain"), "plain.json");
    for name in ["plain", "a.txt", ".json", "a.", "", ".", ".."] {
        let once = with_json_extension(name);
        assert_eq!(with_json_extension(&once), once);
    }
    assert_eq!(with_json_extension(".json"), ".json.json");
    assert_eq!(with_json_extension("a."), "a.");
    assert_eq!(with_json_extension(""), "");
    assert_eq!(with_json_extension("."), ".");
    assert!(is_preset_file("a.json"));
    assert!(!is_preset_file("a.JSON"));
}

#[test]
fn built_in_presets_are_complete() {
    let entries = CurvePreset::built_in_entries();
    assert_eq!(entries.len(), 7);
    assert!(entries.iter().all(|entry| entry.source == CurvePresetSource::BuiltIn));
    assert!(entries.iter().all(|entry| entry.path.is_none()));
    assert!(entries.iter().all(|entry| f(entry.preset.threshold_db) == -12.0));
    let last = &entries[6].preset;
    let last_enabled = last.points.iter().rev().find(|point| point.enabled).unwrap();
    assert_eq!((f(last_enabled.frequency), f(last_enabled.offset_db)), (14_000.0, 4.0));
    assert!(CurvePreset::is_built_in_name("Lead"));
    assert!(!CurvePreset::is_built_in_name("lead"));
}

fn target_of(write: &ParamWrite) -> ParamTarget {
    write.target
}

#[test]
fn built_in_presets_do_not_move_the_anchor() {
    let preset = test_preset("Custom");
    let built_in = apply_curve_preset(&preset, CurvePresetSource::BuiltIn);
    let user = apply_curve_preset(&preset, CurvePresetSource::User);

    assert!(!built_in.iter().any(|write| target_of(write) == ParamTarget::CenterFrequency));
    assert!(!built_in.iter().any(|write| target_of(write) == ParamTarget::CurveSlope));
    assert!(user.iter().any(|write| target_of(write) == ParamTarget::CenterFrequency));
    assert!(built_in.iter().any(|write| *write
        == ParamWrite {
            target: ParamTarget::ThresholdDb,
            value: ParamValue::Number(s(-12.0))
        }));
    assert!(user.iter().any(|write| *write
        == ParamWrite { target: ParamTarget::PointEnabled(1), value: ParamValue::Flag(true) }));
}

#[test]
fn matched_curves_are_written_and_cleared() {
    let mut fit = MatchCurveFit::default();
    fit.intercept = s(-30.0);
    fit.curve = s(0.5);
    let writes = apply_match_curve(&fit);
    assert!(writes.iter().any(|write| *write
        == ParamWrite {
            target: ParamTarget::CurveCurve,
            value: ParamValue::Number(s(0.5))
        }));
    assert!(!writes.iter().any(|write| target_of(write) == ParamTarget::CenterFrequency));
    assert!(!writes.iter().any(|write| target_of(write) == ParamTarget::CurveSlope));

    let cleared = clear_match_curve();
    assert!(cleared.iter().any(|write| *write
        == ParamWrite { target: ParamTarget::PointEnabled(7), value: ParamValue::Flag(false) }));
}

#[test]
fn texts_are_ordered_and_trimmed() {
    assert_eq!(trim(" \t a b\u{a0}\n"), "a b");
    assert_eq!(trim(" \u{2003} "), "");
    assert!(comes_before("Alpha", "Zulu"));
    assert!(comes_before("Al", "Alpha"));
    assert!(!comes_before("Alpha", "Alpha"));
    assert!(comes_before("z", "\u{e9}"));
    assert_eq!(decimal(0), "0");
    assert_eq!(decimal(16_385), "16385");
    assert_eq!(joined("a", "b"), "ab");
}

#[test]
fn deleting_undoes_saving() {
    let mut folder = Folder::default();
    let first = folder.save("Alpha.json", test_preset("x")).unwrap();
    let second = folder.save("Zulu.json", test_preset("x")).unwrap();
    let third = folder.save("Mike.json", test_preset("x")).unwrap();
    let mut entries = vec![first, second];

    upsert(&mut entries, third);
    remove_named(&mut entries, "Mike");

    let names: Vec<&str> = entries.iter().map(|entry| entry.preset.name.as_str()).collect();
    assert_eq!(names, vec!["Alpha", "Zulu"]);
}
