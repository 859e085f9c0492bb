//! The state of the editor's header and of its preset controls.
//!
//! Events come in, and what has to be done outside of the model comes out: setting parameters,
//! asking for a file name, writing and removing files.

use vstd::prelude::*;

use crate::arithmetic::{gain_levels, signed_texts, Arithmetic};
use crate::curve::{no_points, MAX_THRESHOLD_CURVE_POINTS};
use crate::curve_preset::{
    can_save, file_stem_text, is_save_problem, plan_delete, plan_save, with_json_extension_text,
    CurvePreset, CurvePresetEntry, CurvePresetError, CurvePresetSource, PresetSave,
};
use crate::handoff::SnapshotReader;
use crate::match_curve::MatchCurveResult;
use crate::match_level::MatchResult;
use crate::param_writes::{
    apply_curve_preset, apply_match_curve, clear_match_curve, clear_writes, fit_writes,
    number_write, preset_writes, ParamTarget, ParamWrite,
};
use crate::params::ThresholdParams;
use crate::preset_list::{
    all_from, has_name, is_position, is_upserted, remove_named, upsert, CurvePresetList,
};
use crate::single::Single;
use crate::text::{joined, trimmed};

verus! {

/// Editor-local state for the status label, the preset controls and the export button's enabled
/// flag.
pub struct ExportUiModel {
    pub can_export: bool,
    pub status_text: String,
    /// Zero where no preset is selected, else one more than the position of the preset.
    pub selected_curve_preset_index: usize,
    pub can_delete_curve_preset: bool,
    pub curve_preset_options: Vec<String>,
    pub presets: CurvePresetList,
}

/// What happens to the editor.
pub enum EditorEvent {
    MatchStarted,
    MatchFinished(MatchResult),
    MatchCurveStarted,
    MatchCurveFinished(MatchCurveResult),
    ClearCurveRequested,
    /// An entry of the preset list was chosen, where entry zero is the list's title.
    PresetChosen(usize),
    /// A preset is to be saved, and the preset folder is known or not.
    SaveRequested { folder_known: bool },
    /// The dialog for the file to save to was closed, with the name of the chosen file. The file
    /// may have no name that is text.
    SaveDialogFinished(Option<Option<String>>),
    /// A preset was written to a file, or could not be written.
    PresetWritten { preset: CurvePreset, outcome: Result<usize, CurvePresetError> },
    DeleteRequested,
    /// The file of the preset with the given name was removed, or could not be removed.
    PresetRemoved { name: String, outcome: Result<(), CurvePresetError> },
    /// A parameter was changed from the editor or the host.
    ParametersChanged,
}

/// What is to be done.
pub enum EditorAction {
    Nothing,
    /// Set parameters, and tell the widgets that they changed.
    SetParameters(Vec<ParamWrite>),
    /// Ask for the file to save a preset to.
    ChoosePresetFile,
    WritePreset(PresetSave),
    RemovePresetFile { path: usize, name: String },
}

/// What an event comes to: an action, and whether the export button is to be updated.
pub struct EditorResponse {
    pub action: EditorAction,
    pub refreshes_export: bool,
}

/// `options` are the entries of the preset list: its title and the names of the presets.
pub open spec fn are_options(entries: Seq<CurvePresetEntry>, options: Seq<String>) -> bool {
    &&& options.len() == entries.len() + 1
    &&& options[0]@ == "Preset..."@
    &&& forall|i: int|
        1 <= i < options.len() ==> (#[trigger] options[i])@ == entries[i - 1].preset.name@
}

/// The entries of the preset list.
pub fn curve_preset_options(presets: &CurvePresetList) -> (options: Vec<String>)
    ensures
        are_options(presets.entries(), options@),
{
    let mut options: Vec<String> = Vec::new();
    options.push("Preset...".to_owned());
    let mut index: usize = 0;
    while index < presets.built_in.len()
        invariant
            index <= presets.built_in@.len(),
            options@.len() == index + 1,
            options@[0]@ == "Preset..."@,
            forall|i: int|
                1 <= i < options@.len() ==> (#[trigger] options@[i])@
                    == presets.entries()[i - 1].preset.name@,
        decreases presets.built_in.len() - index,
    {
        assert(presets.entries()[index as int] == presets.built_in@[index as int]);
        options.push(presets.built_in[index].preset.name.clone());
        index += 1;
    }
    let ghost offset = presets.built_in@.len();
    let mut index: usize = 0;
    while index < presets.user.len()
        invariant
            index <= presets.user@.len(),
            offset == presets.built_in@.len(),
            options@.len() == offset + index + 1,
            options@[0]@ == "Preset..."@,
            forall|i: int|
                1 <= i < options@.len() ==> (#[trigger] options@[i])@
                    == presets.entries()[i - 1].preset.name@,
        decreases presets.user.len() - index,
    {
        assert(presets.entries()[offset + index] == presets.user@[index as int]);
        options.push(presets.user[index].preset.name.clone());
        index += 1;
    }
    options
}

/// `preset` is the current curve, without a name.
pub open spec fn is_current_preset(params: ThresholdParams, preset: CurvePreset) -> bool {
    &&& preset.name@.len() == 0
    &&& preset.threshold_db == params.threshold_db
    &&& preset.center_frequency == params.center_frequency
    &&& preset.curve_slope == params.curve_slope
    &&& preset.curve_curve == params.curve_curve
    &&& forall|i: int|
        0 <= i < MAX_THRESHOLD_CURVE_POINTS ==> #[trigger] preset.points@[i]
            == params.curve_points@[i].curve_point()
}

/// The current curve, without a name.
pub fn current_curve_preset(params: &ThresholdParams) -> (preset: CurvePreset)
    ensures
        is_current_preset(*params, preset),
{
    let mut points = no_points();
    let mut index: usize = 0;
    while index < MAX_THRESHOLD_CURVE_POINTS
        invariant
            index <= MAX_THRESHOLD_CURVE_POINTS,
            forall|i: int|
                0 <= i < index ==> #[trigger] points@[i] == params.curve_points@[i].curve_point(),
        decreases MAX_THRESHOLD_CURVE_POINTS - index,
    {
        points[index] = params.curve_points[index].curve_point();
        index += 1;
    }
    CurvePreset {
        name: String::new(),
        threshold_db: params.threshold_db,
        center_frequency: params.center_frequency,
        curve_slope: params.curve_slope,
        curve_curve: params.curve_curve,
        points,
    }
}

/// `text` tells how much gain was set.
pub open spec fn is_matched_text<A: Arithmetic>(output_gain: Single, text: Seq<char>) -> bool {
    exists|level: Single, number: String| #[trigger]
        gain_levels::<A>(output_gain, level) && #[trigger] signed_texts::<A>(level, number) && text
            == "Matched "@ + number@ + " dB"@
}

fn matched_text<A: Arithmetic>(output_gain: Single) -> (text: String)
    ensures
        is_matched_text::<A>(output_gain, text@),
{
    let level = A::gain_to_db(output_gain);
    let number = A::text_with_sign(level);
    let mut text = joined("Matched ", number.as_str());
    text.append(" dB");
    text
}

impl ExportUiModel {
    /// The presets are in order, the preset list shows them, the selected position is one of it, and
    /// a preset can be deleted if and only if one of the user's is selected.
    pub open spec fn wf(self) -> bool {
        &&& self.presets.wf()
        &&& are_options(self.presets.entries(), self.curve_preset_options@)
        &&& self.selected_curve_preset_index <= self.presets.entries().len()
        &&& self.can_delete_curve_preset == self.selects_user_preset()
        &&& self.presets.entries().len() < usize::MAX
    }

    /// There is an entry at the selected position.
    pub open spec fn selects_preset(self) -> bool {
        1 <= self.selected_curve_preset_index <= self.presets.entries().len()
    }

    /// The selected entry.
    pub open spec fn selected_entry(self) -> CurvePresetEntry {
        self.presets.entries()[self.selected_curve_preset_index - 1]
    }

    /// The selected preset is one of the user's.
    pub open spec fn selects_user_preset(self) -> bool {
        self.selects_preset() && self.selected_entry().source == CurvePresetSource::User
    }

    /// The model of an editor that was just opened.
    pub fn build(presets: CurvePresetList, can_export: bool) -> (model: ExportUiModel)
        requires
            presets.wf(),
            presets.entries().len() < usize::MAX,
        ensures
            model.wf(),
            model.can_export == can_export,
            model.status_text@.len() == 0,
            model.selected_curve_preset_index == 0,
            model.presets == presets,
    {
        let curve_preset_options = curve_preset_options(&presets);
        ExportUiModel {
            can_export,
            status_text: String::new(),
            selected_curve_preset_index: 0,
            can_delete_curve_preset: false,
            curve_preset_options,
            presets,
        }
    }

    /// The selected entry, if there is one.
    pub fn selected_curve_preset_entry(&self) -> (entry: Option<&CurvePresetEntry>)
        ensures
            match entry {
                Some(found) => self.selects_preset() && *found == self.selected_entry(),
                None => !self.selects_preset(),
            },
    {
        if self.selected_curve_preset_index == 0 {
            None
        } else {
            self.presets.get(self.selected_curve_preset_index - 1)
        }
    }

    fn refresh_curve_preset_delete_enabled(&mut self)
        ensures
            *final(self) == (ExportUiModel {
                can_delete_curve_preset: old(self).selects_user_preset(),
                ..*old(self)
            }),
    {
        let can_delete = match self.selected_curve_preset_entry() {
            Some(entry) => match entry.source {
                CurvePresetSource::User => true,
                CurvePresetSource::BuiltIn => false,
            },
            None => false,
        };
        self.can_delete_curve_preset = can_delete;
    }

    fn select(&mut self, index: usize)
        ensures
            *final(self) == (ExportUiModel {
                selected_curve_preset_index: index,
                can_delete_curve_preset: final(self).can_delete_curve_preset,
                ..*old(self)
            }),
            final(self).can_delete_curve_preset == final(self).selects_user_preset(),
    {
        self.selected_curve_preset_index = index;
        self.refresh_curve_preset_delete_enabled();
    }

    /// Only the status changes, to the given text.
    pub open spec fn shows(self, text: Seq<char>, after: ExportUiModel) -> bool {
        &&& after == (ExportUiModel { status_text: after.status_text, ..self })
        &&& after.status_text@ == text
    }

    /// The status and the selected preset change.
    pub open spec fn selects(self, index: usize, text: Seq<char>, after: ExportUiModel) -> bool {
        &&& after == (ExportUiModel {
            status_text: after.status_text,
            selected_curve_preset_index: index,
            can_delete_curve_preset: after.can_delete_curve_preset,
            ..self
        })
        &&& after.status_text@ == text
        &&& after.can_delete_curve_preset == after.selects_user_preset()
    }

    /// A saved preset was added to the list and is selected.
    pub open spec fn has_saved(self, entry: CurvePresetEntry, after: ExportUiModel) -> bool {
        &&& after.can_export == self.can_export
        &&& after.presets.built_in == self.presets.built_in
        &&& is_upserted(self.presets.user@, entry, after.presets.user@)
        &&& after.selects_preset()
        &&& after.selected_entry() == entry
        &&& after.status_text@ == "Saved preset: "@ + entry.preset.name@
    }

    /// The preset with the given name was taken out of the list.
    pub open spec fn has_removed(self, name: Seq<char>, after: ExportUiModel) -> bool {
        &&& after.can_export == self.can_export
        &&& after.presets.built_in == self.presets.built_in
        &&& if has_name(self.presets.user@, name) {
            exists|position: int| #[trigger]
                is_position(self.presets.user@, name, position) && position
                    < self.presets.user@.len() && after.presets.user@
                    == self.presets.user@.remove(position)
        } else {
            after.presets.user@ == self.presets.user@
        }
        &&& !has_name(after.presets.user@, name)
        &&& after.selected_curve_preset_index == 0
        &&& after.status_text@ == "Deleted preset: "@ + name
    }

    /// The current curve is written to a file with the given name, or the user is told why it cannot
    /// be saved.
    pub open spec fn saves_to(
        self,
        name: Option<Seq<char>>,
        params: ThresholdParams,
        after: ExportUiModel,
        action: EditorAction,
    ) -> bool {
        exists|preset: CurvePreset| #[trigger]
            is_current_preset(params, preset) && match action {
                EditorAction::WritePreset(save) => {
                    &&& after == self
                    &&& can_save(name, preset)
                    &&& save.preset == (CurvePreset { name: save.preset.name, ..preset })
                    &&& save.preset.name@ == trimmed(file_stem_text(name->0))
                    &&& save.file.holds(save.preset)
                    &&& save.file_name@ == with_json_extension_text(name->0)
                },
                EditorAction::Nothing => exists|problem: CurvePresetError| #[trigger]
                    is_save_problem(name, preset, problem) && self.selects(
                        0,
                        "Save failed: "@ + problem.message_text(),
                        after,
                    ),
                _ => false,
            }
    }

    fn save_to(&mut self, file_name: Option<String>, params: &ThresholdParams) -> (response:
        EditorResponse)
        requires
            old(self).wf(),
        ensures
            final(self).wf(),
            !response.refreshes_export,
            old(self).saves_to(
                match file_name {
                    Some(text) => Some(text@),
                    None => None,
                },
                *params,
                *final(self),
                response.action,
            ),
    {
        let preset = current_curve_preset(params);
        assert(is_current_preset(*params, preset));
        match plan_save(file_name, preset) {
            Ok(save) => EditorResponse {
                action: EditorAction::WritePreset(save),
                refreshes_export: false,
            },
            Err(problem) => {
                self.select(0);
                self.status_text = joined("Save failed: ", problem.message().as_str());
                assert(is_save_problem(
                    match file_name {
                        Some(text) => Some(text@),
                        None => None,
                    },
                    preset,
                    problem,
                ));
                nothing(false)
            },
        }
    }

    /// What an event does to the model, and what it comes to.
    pub open spec fn responds<A: Arithmetic>(
        self,
        event: EditorEvent,
        params: ThresholdParams,
        after: ExportUiModel,
        response: EditorResponse,
    ) -> bool {
        match event {
            EditorEvent::MatchStarted => {
                &&& self.shows("Matching..."@, after)
                &&& response.action is Nothing
                &&& !response.refreshes_export
            },
            EditorEvent::MatchFinished(MatchResult::Matched(output_gain)) => {
                &&& self.shows(after.status_text@, after)
                &&& is_matched_text::<A>(output_gain, after.status_text@)
                &&& response.action matches EditorAction::SetParameters(writes)
                &&& writes@ == seq![number_write(ParamTarget::OutputGain, output_gain)]
                &&& response.refreshes_export
            },
            EditorEvent::MatchFinished(MatchResult::Failed) => {
                &&& self.shows("Match failed: signal too quiet."@, after)
                &&& response.action is Nothing
                &&& response.refreshes_export
            },
            EditorEvent::MatchCurveStarted => {
                &&& self.shows("Matching curve..."@, after)
                &&& response.action is Nothing
                &&& !response.refreshes_export
            },
            EditorEvent::MatchCurveFinished(MatchCurveResult::Matched(fit)) => {
                &&& self.selects(0, "Curve matched"@, after)
                &&& response.action matches EditorAction::SetParameters(writes)
                &&& writes@ == fit_writes(fit)
                &&& response.refreshes_export
            },
            EditorEvent::MatchCurveFinished(MatchCurveResult::Failed) => {
                &&& self.shows("Match curve failed: signal too quiet."@, after)
                &&& response.action is Nothing
                &&& response.refreshes_export
            },
            EditorEvent::ClearCurveRequested => {
                &&& self.selects(0, "Curve cleared"@, after)
                &&& response.action matches EditorAction::SetParameters(writes)
                &&& writes@ == clear_writes()
                &&& response.refreshes_export
            },
            EditorEvent::PresetChosen(index) => if 1 <= index <= self.presets.entries().len() {
                let entry = self.presets.entries()[index - 1];
                &&& self.selects(index, "Applied: "@ + entry.preset.name@, after)
                &&& response.action matches EditorAction::SetParameters(writes)
                &&& writes@ == preset_writes(entry.preset, entry.source)
                &&& response.refreshes_export
            } else {
                &&& after == self
                &&& response.action is Nothing
                &&& !response.refreshes_export
            },
            EditorEvent::SaveRequested { folder_known } => {
                &&& !response.refreshes_export
                &&& if folder_known {
                    &&& self.shows("Choose preset name..."@, after)
                    &&& response.action is ChoosePresetFile
                } else {
                    &&& self.shows("Could not find preset folder"@, after)
                    &&& response.action is Nothing
                }
            },
            EditorEvent::SaveDialogFinished(None) => {
                &&& self.shows(Seq::empty(), after)
                &&& response.action is Nothing
                &&& !response.refreshes_export
            },
            EditorEvent::SaveDialogFinished(Some(file_name)) => {
                &&& !response.refreshes_export
                &&& self.saves_to(
                    match file_name {
                        Some(text) => Some(text@),
                        None => None,
                    },
                    params,
                    after,
                    response.action,
                )
            },
            EditorEvent::PresetWritten { preset, outcome } => {
                &&& response.action is Nothing
                &&& !response.refreshes_export
                &&& match outcome {
                    Ok(path) => self.has_saved(
                        CurvePresetEntry {
                            preset,
                            source: CurvePresetSource::User,
                            path: Some(path),
                        },
                        after,
                    ),
                    Err(problem) => self.selects(
                        0,
                        "Save failed: "@ + problem.message_text(),
                        after,
                    ),
                }
            },
            EditorEvent::DeleteRequested => {
                &&& !response.refreshes_export
                &&& if !self.selects_user_preset() {
                    &&& self.shows("Select a user preset to delete"@, after)
                    &&& response.action is Nothing
                } else {
                    match self.selected_entry().path {
                        Some(file) => {
                            &&& after == self
                            &&& response.action matches EditorAction::RemovePresetFile { path, name }
                            &&& path == file
                            &&& name@ == self.selected_entry().preset.name@
                        },
                        None => {
                            &&& self.shows(
                                "Delete failed: "@
                                    + CurvePresetError::NoUserPresetPath.message_text(),
                                after,
                            )
                            &&& response.action is Nothing
                        },
                    }
                }
            },
            EditorEvent::PresetRemoved { name, outcome } => {
                &&& response.action is Nothing
                &&& !response.refreshes_export
                &&& match outcome {
                    Ok(()) => self.has_removed(name@, after),
                    Err(problem) => self.shows("Delete failed: "@ + problem.message_text(), after),
                }
            },
            EditorEvent::ParametersChanged => {
                &&& after == self
                &&& response.action is Nothing
                &&& response.refreshes_export
            },
        }
    }

    /// Handles an event.
    pub fn respond<A: Arithmetic>(
        &mut self,
        event: EditorEvent,
        params: &ThresholdParams,
    ) -> (response: EditorResponse)
        requires
            old(self).wf(),
            old(self).presets.entries().len() + 1 < usize::MAX,
        ensures
            final(self).wf(),
            old(self).responds::<A>(event, *params, *final(self), response),
    {
        match event {
            EditorEvent::MatchStarted => {
                self.status_text = "Matching...".to_owned();
                nothing(false)
            },
            EditorEvent::MatchFinished(result) => match result {
                MatchResult::Matched(output_gain) => {
                    let mut writes: Vec<ParamWrite> = Vec::new();
                    writes.push(number_write(ParamTarget::OutputGain, output_gain));
                    assert(writes@ =~= seq![number_write(ParamTarget::OutputGain, output_gain)]);
                    self.status_text = matched_text::<A>(output_gain);
                    EditorResponse {
                        action: EditorAction::SetParameters(writes),
                        refreshes_export: true,
                    }
                },
                MatchResult::Failed => {
                    self.status_text = "Match failed: signal too quiet.".to_owned();
                    nothing(true)
                },
            },
            EditorEvent::MatchCurveStarted => {
                self.status_text = "Matching curve...".to_owned();
                nothing(false)
            },
            EditorEvent::MatchCurveFinished(result) => match result {
                MatchCurveResult::Matched(fit) => {
                    let writes = apply_match_curve(&fit);
                    self.select(0);
                    self.status_text = "Curve matched".to_owned();
                    EditorResponse {
                        action: EditorAction::SetParameters(writes),
                        refreshes_export: true,
                    }
                },
                MatchCurveResult::Failed => {
                    self.status_text = "Match curve failed: signal too quiet.".to_owned();
                    nothing(true)
                },
            },
            EditorEvent::ClearCurveRequested => {
                let writes = clear_match_curve();
                self.select(0);
                self.status_text = "Curve cleared".to_owned();
                EditorResponse {
                    action: EditorAction::SetParameters(writes),
                    refreshes_export: true,
                }
            },
            EditorEvent::PresetChosen(index) => self.choose_preset(index),
            EditorEvent::SaveRequested { folder_known } => if folder_known {
                self.status_text = "Choose preset name...".to_owned();
                EditorResponse { action: EditorAction::ChoosePresetFile, refreshes_export: false }
            } else {
                self.status_text = "Could not find preset folder".to_owned();
                nothing(false)
            },
            EditorEvent::SaveDialogFinished(chosen) => match chosen {
                None => {
                    self.status_text = String::new();
                    assert(self.status_text@ =~= Seq::empty());
                    nothing(false)
                },
                Some(file_name) => self.save_to(file_name, params),
            },
            EditorEvent::PresetWritten { preset, outcome } => match outcome {
                Ok(path) => {
                    self.add_saved(
                        CurvePresetEntry {
                            preset,
                            source: CurvePresetSource::User,
                            path: Some(path),
                        },
                    );
                    nothing(false)
                },
                Err(problem) => {
                    self.select(0);
                    self.status_text = joined("Save failed: ", problem.message().as_str());
                    nothing(false)
                },
            },
            EditorEvent::DeleteRequested => self.request_delete(),
            EditorEvent::PresetRemoved { name, outcome } => match outcome {
                Ok(()) => {
                    self.remove_deleted(name.as_str());
                    nothing(false)
                },
                Err(problem) => {
                    self.status_text = joined("Delete failed: ", problem.message().as_str());
                    nothing(false)
                },
            },
            EditorEvent::ParametersChanged => nothing(true),
        }
    }

    /// Handles an event, and updates the export button if the event asks for it.
    pub fn handle<A: Arithmetic>(
        &mut self,
        event: EditorEvent,
        params: &ThresholdParams,
        snapshots: &SnapshotReader,
    ) -> (action: EditorAction)
        requires
            old(self).wf(),
            old(self).presets.entries().len() + 1 < usize::MAX,
        ensures
            final(self).wf(),
            exists|response: EditorResponse, after: ExportUiModel| #[trigger]
                old(self).responds::<A>(event, *params, after, response) && response.action
                    == action && *final(self) == (ExportUiModel {
                    can_export: final(self).can_export,
                    ..after
                }) && if response.refreshes_export {
                    snapshots.tells_exportable(final(self).can_export)
                } else {
                    *final(self) == after
                },
    {
        let response = self.respond::<A>(event, params);
        assert(old(self).responds::<A>(event, *params, *self, response));
        if response.refreshes_export {
            self.can_export = snapshots.can_export();
        }
        response.action
    }

    fn choose_preset(&mut self, index: usize) -> (response: EditorResponse)
        requires
            old(self).wf(),
        ensures
            final(self).wf(),
            if 1 <= index <= old(self).presets.entries().len() {
                let entry = old(self).presets.entries()[index - 1];
                &&& old(self).selects(index, "Applied: "@ + entry.preset.name@, *final(self))
                &&& response.action matches EditorAction::SetParameters(writes)
                &&& writes@ == preset_writes(entry.preset, entry.source)
                &&& response.refreshes_export
            } else {
                &&& *final(self) == *old(self)
                &&& response.action is Nothing
                &&& !response.refreshes_export
            },
    {
        if index == 0 {
            return nothing(false);
        }
        let found = match self.presets.get(index - 1) {
            Some(entry) => Some(
                (
                    apply_curve_preset(&entry.preset, entry.source),
                    joined("Applied: ", entry.preset.name.as_str()),
                ),
            ),
            None => None,
        };
        match found {
            Some((writes, text)) => {
                self.select(index);
                self.status_text = text;
                EditorResponse {
                    action: EditorAction::SetParameters(writes),
                    refreshes_export: true,
                }
            },
            None => nothing(false),
        }
    }

    fn add_saved(&mut self, entry: CurvePresetEntry)
        requires
            old(self).wf(),
            old(self).presets.entries().len() + 1 < usize::MAX,
            entry.source == CurvePresetSource::User,
        ensures
            final(self).wf(),
            old(self).has_saved(entry, *final(self)),
    {
        let text = joined("Saved preset: ", entry.preset.name.as_str());
        let position: usize = upsert(&mut self.presets.user, entry);
        self.curve_preset_options = curve_preset_options(&self.presets);
        self.select(self.presets.built_in.len() + position + 1);
        self.status_text = text;
    }

    fn request_delete(&mut self) -> (response: EditorResponse)
        requires
            old(self).wf(),
        ensures
            final(self).wf(),
            !response.refreshes_export,
            if !old(self).selects_user_preset() {
                &&& old(self).shows("Select a user preset to delete"@, *final(self))
                &&& response.action is Nothing
            } else {
                match old(self).selected_entry().path {
                    Some(file) => {
                        &&& *final(self) == *old(self)
                        &&& response.action matches EditorAction::RemovePresetFile { path, name }
                        &&& path == file
                        &&& name@ == old(self).selected_entry().preset.name@
                    },
                    None => {
                        &&& old(self).shows(
                            "Delete failed: "@ + CurvePresetError::NoUserPresetPath.message_text(),
                            *final(self),
                        )
                        &&& response.action is Nothing
                    },
                }
            },
    {
        let outcome = if self.can_delete_curve_preset {
            match self.selected_curve_preset_entry() {
                Some(entry) => match plan_delete(entry) {
                    Ok(path) => Some(Ok((path, entry.preset.name.clone()))),
                    Err(problem) => Some(Err(joined("Delete failed: ", problem.message().as_str()))),
                },
                None => None,
            }
        } else {
            None
        };
        match outcome {
            Some(Ok((path, name))) => EditorResponse {
                action: EditorAction::RemovePresetFile { path, name },
                refreshes_export: false,
            },
            Some(Err(text)) => {
                self.status_text = text;
                nothing(false)
            },
            None => {
                self.status_text = "Select a user preset to delete".to_owned();
                nothing(false)
            },
        }
    }

    fn remove_deleted(&mut self, name: &str)
        requires
            old(self).wf(),
        ensures
            final(self).wf(),
            old(self).has_removed(name@, *final(self)),
    {
        let text = joined("Deleted preset: ", name);
        remove_named(&mut self.presets.user, name);
        assert(all_from(self.presets.user@, CurvePresetSource::User));
        self.curve_preset_options = curve_preset_options(&self.presets);
        self.select(0);
        self.status_text = text;
    }
}

/// No action.
fn nothing(refreshes_export: bool) -> (response: EditorResponse)
    ensures
        response.action is Nothing,
        response.refreshes_export == refreshes_export,
{
    EditorResponse { action: EditorAction::Nothing, refreshes_export }
}

} // verus!
