//! How the editor lays out the parameters.

use vstd::prelude::*;

use crate::curve_preset::same_text;
use crate::params::ThresholdMode;

verus! {

/// How a global parameter is shown.
#[derive(Clone, Copy, PartialEq, Eq, Debug, Structural)]
pub enum GlobalRow {
    /// The window size and the overlap share a row.
    FftWindow,
    /// A label and the parameter's widget.
    Widget,
    /// The freeze button, next to the export button.
    Freeze,
    /// Not shown in a row of its own.
    Hidden,
}

/// How the global parameter with the given name is shown.
pub open spec fn global_row_of(name: Seq<char>) -> GlobalRow {
    if name == "Window Size"@ {
        GlobalRow::FftWindow
    } else if name == "Window Overlap"@ {
        GlobalRow::Hidden
    } else if name == "Output Gain"@ || name == "Mix"@ || name == "Attack"@ || name == "Release"@ {
        GlobalRow::Widget
    } else if name == "Freeze"@ {
        GlobalRow::Freeze
    } else {
        GlobalRow::Hidden
    }
}

/// How the global parameter with the given name is shown.
pub fn global_row(name: &str) -> (row: GlobalRow)
    ensures
        row == global_row_of(name@),
{
    if same_text(name, "Window Size") {
        GlobalRow::FftWindow
    } else if same_text(name, "Window Overlap") {
        // Shown together with the window size
        GlobalRow::Hidden
    } else if same_text(name, "Output Gain") || same_text(name, "Mix") || same_text(name, "Attack")
        || same_text(name, "Release") {
        GlobalRow::Widget
    } else if same_text(name, "Freeze") {
        GlobalRow::Freeze
    } else {
        GlobalRow::Hidden
    }
}

/// How a threshold parameter is shown.
#[derive(Clone, Copy, PartialEq, Eq, Debug, Structural)]
pub enum ThresholdRow {
    /// The center and the slope share a row.
    Anchor,
    /// A label and the list of modes.
    Mode,
    /// A label and the parameter's widget.
    Widget,
    /// Not shown in a row of its own.
    Hidden,
}

/// A row of the threshold column, and whether the curve controls follow it.
#[derive(Clone, Copy, PartialEq, Eq, Debug, Structural)]
pub struct ThresholdEntry {
    pub row: ThresholdRow,
    pub draws_curve_controls: bool,
}

/// How the threshold parameter with the given name is shown. The curve controls follow the slope,
/// once.
pub open spec fn threshold_entry_of(name: Seq<char>, curve_controls_drawn: bool) -> ThresholdEntry {
    ThresholdEntry {
        row: if name == "Threshold Center"@ {
            ThresholdRow::Anchor
        } else if name == "Threshold Slope"@ {
            ThresholdRow::Hidden
        } else if name == "Mode"@ {
            ThresholdRow::Mode
        } else {
            ThresholdRow::Widget
        },
        draws_curve_controls: !curve_controls_drawn && name == "Threshold Slope"@,
    }
}

/// How the threshold parameter with the given name is shown.
pub fn threshold_entry(name: &str, curve_controls_drawn: bool) -> (entry: ThresholdEntry)
    ensures
        entry == threshold_entry_of(name@, curve_controls_drawn),
{
    let is_slope = same_text(name, "Threshold Slope");
    ThresholdEntry {
        row: if same_text(name, "Threshold Center") {
            ThresholdRow::Anchor
        } else if is_slope {
            // Shown together with the center
            ThresholdRow::Hidden
        } else if same_text(name, "Mode") {
            ThresholdRow::Mode
        } else {
            ThresholdRow::Widget
        },
        draws_curve_controls: !curve_controls_drawn && is_slope,
    }
}

/// What is left of a name without its prefix, if it has that prefix.
pub fn strip_prefix(name: &str, prefix: &str) -> (r: Option<String>)
    ensures
        match r {
            Some(rest) => name@ == prefix@ + rest@,
            None => !prefix@.is_prefix_of(name@),
        },
{
    let name_len: usize = name.unicode_len();
    let prefix_len: usize = prefix.unicode_len();
    if name_len < prefix_len || !same_text(name.substring_char(0, prefix_len), prefix) {
        return None;
    }
    let rest = name.substring_char(prefix_len, name_len).to_owned();
    assert(name@ =~= prefix@ + rest@);
    Some(rest)
}

impl ThresholdMode {
    /// The position of the mode in the list of modes.
    #[verifier::allow_in_spec]
    pub fn to_index(self) -> usize
        returns
            (match self {
                ThresholdMode::Internal => 0usize,
                ThresholdMode::SidechainMatch => 1usize,
                ThresholdMode::SidechainCompress => 2usize,
            }),
    {
        match self {
            ThresholdMode::Internal => 0,
            ThresholdMode::SidechainMatch => 1,
            ThresholdMode::SidechainCompress => 2,
        }
    }

    /// The mode at a position in the list of modes, if there is one.
    #[verifier::allow_in_spec]
    pub fn at_index(index: usize) -> Option<ThresholdMode>
        returns
            (if index == 0 {
                Some(ThresholdMode::Internal)
            } else if index == 1 {
                Some(ThresholdMode::SidechainMatch)
            } else if index == 2 {
                Some(ThresholdMode::SidechainCompress)
            } else {
                None
            }),
    {
        if index == 0 {
            Some(ThresholdMode::Internal)
        } else if index == 1 {
            Some(ThresholdMode::SidechainMatch)
        } else if index == 2 {
            Some(ThresholdMode::SidechainCompress)
        } else {
            None
        }
    }

    /// The name of the mode.
    pub open spec fn name_text(self) -> Seq<char> {
        match self {
            ThresholdMode::Internal => "Pink Noise"@,
            ThresholdMode::SidechainMatch => "Sidechain Matching"@,
            ThresholdMode::SidechainCompress => "Sidechain Compression"@,
        }
    }

    pub fn name(self) -> (name: String)
        ensures
            name@ == self.name_text(),
    {
        match self {
            ThresholdMode::Internal => "Pink Noise".to_owned(),
            ThresholdMode::SidechainMatch => "Sidechain Matching".to_owned(),
            ThresholdMode::SidechainCompress => "Sidechain Compression".to_owned(),
        }
    }

    /// The mode to change to when the entry at a position was chosen: none if it is the current one.
    pub fn chosen(self, index: usize) -> (r: Option<ThresholdMode>)
        ensures
            r == if self.to_index() == index {
                None
            } else {
                ThresholdMode::at_index(index)
            },
    {
        if self.to_index() == index {
            None
        } else {
            ThresholdMode::at_index(index)
        }
    }
}

/// The position of a mode gives the mode back.
pub proof fn law_mode_positions_are_distinct(mode: ThresholdMode)
    ensures
        ThresholdMode::at_index(mode.to_index()) == Some(mode),
{
}

} // verus!
