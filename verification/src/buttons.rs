//! The editor's own buttons.

use vstd::prelude::*;

use crate::frozen_ir::FrozenIrData;
use crate::handoff::SnapshotReader;
use crate::match_curve::{MatchCurveResult, MatchCurveRuntime};
use crate::match_level::MatchResult;
use crate::match_state::MatchState;
use crate::pointer::PointerEvent;
use crate::shared_cells::{flag_is_read, flag_is_set};
use crate::single::{single, Single, ONE_HALF};

use std::sync::atomic::{AtomicBool, Ordering};
use std::sync::Arc;

verus! {

/// Toggles delta-listen mode.
pub struct DeltaButton {
    pub active: Arc<AtomicBool>,
}

impl DeltaButton {
    /// A button for the given flag.
    pub fn new(active: Arc<AtomicBool>) -> (button: DeltaButton)
        ensures
            button.active == active,
    {
        DeltaButton { active }
    }

    /// Whether the button is shown as pressed.
    pub fn is_checked(&self) -> (checked: bool)
        ensures
            flag_is_read(*self.active, checked),
    {
        self.active.load(Ordering::Relaxed)
    }

    /// The shared flag was read as `current`, and its opposite was stored.
    pub open spec fn is_toggled(self, current: bool) -> bool {
        flag_is_read(*self.active, current) && flag_is_set(*self.active, !current)
    }

    /// Toggles delta-listen mode on left click. Writes straight to the shared flag so the DSP side
    /// picks it up on the next process call. Tells whether the event was consumed.
    pub fn event(&self, event: PointerEvent) -> (consumed: bool)
        ensures
            consumed == event.is_left_press(),
            consumed ==> exists|current: bool| #[trigger] self.is_toggled(current),
    {
        if event.is_left_press() {
            let current = self.active.load(Ordering::Relaxed);
            self.active.store(!current, Ordering::Relaxed);
            assert(self.is_toggled(current));
        }
        event.is_left_press()
    }
}

/// What the curve matching buttons tell the editor.
#[derive(Clone, Copy, PartialEq, Eq, Debug)]
pub enum MatchCurveEvent {
    Started,
    Result(MatchCurveResult),
    ClearRequested,
}

/// Brings the threshold curve back to how it starts.
pub struct ClearCurveButton;

impl ClearCurveButton {
    pub fn new() -> (button: ClearCurveButton)
        ensures
            button == ClearCurveButton,
    {
        ClearCurveButton
    }

    /// What a pointer event comes to. An event that comes to something is consumed.
    pub fn event(&self, event: PointerEvent) -> (emitted: Option<MatchCurveEvent>)
        ensures
            emitted == if event.is_left_press() {
                Some(MatchCurveEvent::ClearRequested)
            } else {
                None
            },
    {
        if event.is_left_press() {
            Some(MatchCurveEvent::ClearRequested)
        } else {
            None
        }
    }
}

/// Starts the matching of the threshold curve.
pub struct MatchCurveButton {
    pub match_curve_runtime: Arc<MatchCurveRuntime>,
    pub delta_active: Arc<AtomicBool>,
}

/// What a click on the match button comes to: the event to emit, and whether the bypass is to be
/// switched off.
#[derive(Clone, Copy, PartialEq, Eq, Debug)]
pub struct MatchCurveClick {
    pub emitted: MatchCurveEvent,
    pub disables_bypass: bool,
}

/// The next step of waiting for a result.
#[derive(Clone, Copy, PartialEq, Eq, Debug)]
pub enum PollStep {
    Emit(MatchCurveEvent),
    Wait,
}

/// The next step of waiting, where `result` is what was taken and `is_over` tells whether the time
/// for waiting is over.
#[verifier::allow_in_spec]
pub fn poll_step(result: Option<MatchCurveResult>, is_over: bool) -> PollStep
    returns
        (match result {
            Some(found) => PollStep::Emit(MatchCurveEvent::Result(found)),
            None => if is_over {
                PollStep::Emit(MatchCurveEvent::Result(MatchCurveResult::Failed))
            } else {
                PollStep::Wait
            },
        }),
{
    match result {
        Some(found) => PollStep::Emit(MatchCurveEvent::Result(found)),
        None => if is_over {
            PollStep::Emit(MatchCurveEvent::Result(MatchCurveResult::Failed))
        } else {
            PollStep::Wait
        },
    }
}

/// What waiting for the result of a level match comes to, if it is over: what was taken, or a
/// failure where the time for waiting is over.
#[verifier::allow_in_spec]
pub fn awaited_match(result: Option<MatchResult>, is_over: bool) -> Option<MatchResult>
    returns
        (match result {
            Some(found) => Some(found),
            None => if is_over {
                Some(MatchResult::Failed)
            } else {
                None
            },
        }),
{
    match result {
        Some(found) => Some(found),
        None => if is_over {
            Some(MatchResult::Failed)
        } else {
            None
        },
    }
}

impl MatchCurveButton {
    /// A button for the given runtime and the flag of delta-listen mode.
    pub fn new(
        match_curve_runtime: Arc<MatchCurveRuntime>,
        delta_active: Arc<AtomicBool>,
    ) -> (button: MatchCurveButton)
        ensures
            button.match_curve_runtime == match_curve_runtime,
            button.delta_active == delta_active,
    {
        MatchCurveButton { match_curve_runtime, delta_active }
    }

    /// Requests a match on left click. Delta-listen mode and the bypass would keep it from hearing
    /// the input, so both are switched off. `bypass` is the normalized value of the bypass
    /// parameter.
    pub fn event(&self, event: PointerEvent, bypass: Single) -> (click: Option<MatchCurveClick>)
        ensures
            click == if event.is_left_press() {
                Some(
                    MatchCurveClick {
                        emitted: MatchCurveEvent::Started,
                        disables_bypass: single(ONE_HALF).at_most(bypass),
                    },
                )
            } else {
                None
            },
            click is Some ==> {
                &&& flag_is_set(*self.delta_active, false)
                &&& self.match_curve_runtime.state_cell().is_set(MatchState::Requested)
            },
    {
        if event.is_left_press() {
            self.delta_active.store(false, Ordering::Relaxed);
            self.match_curve_runtime.request();
            Some(
                MatchCurveClick {
                    emitted: MatchCurveEvent::Started,
                    disables_bypass: single(ONE_HALF).at_most(bypass),
                },
            )
        } else {
            None
        }
    }

    /// Looks for a result of the match that was requested. A wait that is over always ends.
    pub fn poll(&self, is_over: bool) -> (step: PollStep)
        ensures
            is_over ==> step is Emit,
            exists|result: Option<MatchCurveResult>| #[trigger]
                self.match_curve_runtime.is_taken(result) && step == poll_step(result, is_over),
    {
        let result = self.match_curve_runtime.take_finished_result();
        poll_step(result, is_over)
    }
}

/// Exports the frozen gains as an impulse response.
pub struct ExportIrButton {
    frozen_ir_data: SnapshotReader,
}

impl ExportIrButton {
    /// The snapshots that can be exported.
    pub closed spec fn snapshots(self) -> SnapshotReader {
        self.frozen_ir_data
    }

    pub fn new(frozen_ir_data: SnapshotReader) -> (button: ExportIrButton)
        ensures
            button.snapshots() == frozen_ir_data,
    {
        ExportIrButton { frozen_ir_data }
    }

    /// Starts the export when the button is clicked: hands out the snapshot to export, if there is
    /// one. A click is consumed even where the button is disabled.
    pub fn event(&self, event: PointerEvent, is_disabled: bool) -> (r: (bool, Option<FrozenIrData>))
        ensures
            r.0 == event.is_left_press(),
            r.1 is Some ==> event.is_left_press() && !is_disabled && r.1->0.valid,
            event.is_left_press() && !is_disabled ==> self.snapshots().gives_exportable(r.1),
    {
        if event.is_left_press() && !is_disabled {
            (true, self.frozen_ir_data.snapshot_to_export())
        } else {
            (event.is_left_press(), None)
        }
    }
}

/// What the buttons of the preset controls ask for.
#[derive(Clone, Copy, PartialEq, Eq, Debug, Structural)]
pub enum CurvePresetButtonAction {
    SaveRequested,
    DeleteSelected,
}

/// A button of the preset controls.
#[derive(Clone, Copy, PartialEq, Eq, Debug, Structural)]
pub struct CurvePresetButton {
    pub action: CurvePresetButtonAction,
}

impl CurvePresetButton {
    pub fn new(action: CurvePresetButtonAction) -> (button: CurvePresetButton)
        ensures
            button.action == action,
    {
        CurvePresetButton { action }
    }

    /// What a pointer event comes to. A click is consumed even where the button is disabled.
    pub fn event(&self, event: PointerEvent, is_disabled: bool) -> (r: (
        bool,
        Option<CurvePresetButtonAction>,
    ))
        ensures
            r.0 == event.is_left_press(),
            r.1 == if event.is_left_press() && !is_disabled {
                Some(self.action)
            } else {
                None
            },
    {
        if event.is_left_press() && !is_disabled {
            (true, Some(self.action))
        } else {
            (event.is_left_press(), None)
        }
    }
}

/// Two toggles bring the flag back to where it was, where no other thread accesses it: what the
/// first one stored is what the second one reads.
pub proof fn law_two_toggles_restore(button: DeltaButton, current: bool)
    requires
        button.is_toggled(current),
        button.is_toggled(!current),
    ensures
        flag_is_set(*button.active, current),
{
    assert(!!current == current);
}

} // verus!
