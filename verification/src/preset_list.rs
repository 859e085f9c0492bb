//! The list of presets: the built-in ones, followed by the user's in the order of their names.

use vstd::prelude::*;

use crate::curve_preset::{
    are_built_in_entries, same_text, CurvePreset, CurvePresetEntry, CurvePresetError,
    CurvePresetSource, UserCurvePresetFile,
};
use crate::match_curve::present;
use crate::text::{
    comes_before, joined, law_order_is_irreflexive, law_order_is_total, law_order_is_transitive,
    text_before, trimmed,
};

verus! {

/// The names of the entries come one after the other, so that none occurs twice.
pub open spec fn is_sorted(entries: Seq<CurvePresetEntry>) -> bool {
    forall|i: int, j: int|
        0 <= i < j < entries.len() ==> text_before(
            (#[trigger] entries[i]).preset.name@,
            (#[trigger] entries[j]).preset.name@,
        )
}

/// All entries have the given source.
pub open spec fn all_from(entries: Seq<CurvePresetEntry>, source: CurvePresetSource) -> bool {
    forall|i: int| 0 <= i < entries.len() ==> (#[trigger] entries[i]).source == source
}

/// There is an entry with the given name.
pub open spec fn has_name(entries: Seq<CurvePresetEntry>, name: Seq<char>) -> bool {
    exists|i: int| 0 <= i < entries.len() && (#[trigger] entries[i]).preset.name@ == name
}

/// The names of the entries before `position` come before `name`, the others do not.
pub open spec fn is_position(
    entries: Seq<CurvePresetEntry>,
    name: Seq<char>,
    position: int,
) -> bool {
    &&& 0 <= position <= entries.len()
    &&& forall|i: int|
        0 <= i < position ==> text_before((#[trigger] entries[i]).preset.name@, name)
    &&& forall|i: int|
        position <= i < entries.len() ==> !text_before((#[trigger] entries[i]).preset.name@, name)
}

fn find_position(entries: &Vec<CurvePresetEntry>, name: &str) -> (position: usize)
    requires
        is_sorted(entries@),
    ensures
        is_position(entries@, name@, position as int),
        has_name(entries@, name@) <==> position < entries@.len()
            && entries@[position as int].preset.name@ == name@,
{
    let mut position: usize = 0;
    while position < entries.len() && comes_before(entries[position].preset.name.as_str(), name)
        invariant
            position <= entries@.len(),
            forall|i: int|
                0 <= i < position ==> text_before((#[trigger] entries@[i]).preset.name@, name@),
        decreases entries.len() - position,
    {
        position += 1;
    }
    proof {
        assert forall|i: int| position <= i < entries@.len() implies !text_before(
            (#[trigger] entries@[i]).preset.name@,
            name@,
        ) by {
            if position < i && text_before(entries@[i].preset.name@, name@) {
                law_order_is_transitive(
                    entries@[position as int].preset.name@,
                    entries@[i].preset.name@,
                    name@,
                );
            }
        }
        law_order_is_irreflexive(name@);
        if has_name(entries@, name@) {
            let i = choose|i: int|
                0 <= i < entries@.len() && (#[trigger] entries@[i]).preset.name@ == name@;
            if position < i {
                assert(text_before(entries@[position as int].preset.name@, name@));
            }
        }
    }
    position
}

proof fn lemma_inserted_is_sorted(
    entries: Seq<CurvePresetEntry>,
    position: int,
    entry: CurvePresetEntry,
)
    requires
        is_sorted(entries),
        is_position(entries, entry.preset.name@, position),
        !has_name(entries, entry.preset.name@),
    ensures
        is_sorted(entries.insert(position, entry)),
{
    let after = entries.insert(position, entry);
    assert forall|i: int, j: int| 0 <= i < j < after.len() implies text_before(
        (#[trigger] after[i]).preset.name@,
        (#[trigger] after[j]).preset.name@,
    ) by {
        if i == position {
            assert(after[j] == entries[j - 1]);
            law_order_is_total(entry.preset.name@, entries[j - 1].preset.name@);
        } else if j == position {
            assert(after[i] == entries[i]);
        } else {
            let a = if i < position {
                i
            } else {
                i - 1
            };
            let b = if j < position {
                j
            } else {
                j - 1
            };
            assert(after[i] == entries[a]);
            assert(after[j] == entries[b]);
        }
    }
}

/// `after` are the entries with one more: in the place of the one with the same name, or else where
/// its name belongs.
pub open spec fn is_upserted(
    before: Seq<CurvePresetEntry>,
    entry: CurvePresetEntry,
    after: Seq<CurvePresetEntry>,
) -> bool {
    exists|position: int| #[trigger]
        is_position(before, entry.preset.name@, position) && after == if has_name(
            before,
            entry.preset.name@,
        ) {
            before.update(position, entry)
        } else {
            before.insert(position, entry)
        }
}

/// Adds an entry, or replaces the one with the same name. Returns where it is.
pub fn upsert(entries: &mut Vec<CurvePresetEntry>, entry: CurvePresetEntry) -> (position: usize)
    requires
        is_sorted(old(entries)@),
        old(entries)@.len() < usize::MAX,
    ensures
        is_sorted(final(entries)@),
        is_upserted(old(entries)@, entry, final(entries)@),
        position < final(entries)@.len(),
        final(entries)@[position as int] == entry,
        final(entries)@.len() <= old(entries)@.len() + 1,
        all_from(old(entries)@, entry.source) ==> all_from(final(entries)@, entry.source),
{
    let position: usize = find_position(entries, entry.preset.name.as_str());
    let found = position < entries.len() && same_text(
        entries[position].preset.name.as_str(),
        entry.preset.name.as_str(),
    );
    assert(found == has_name(entries@, entry.preset.name@));
    if found {
        entries[position] = entry;
        proof {
            let before = old(entries)@;
            assert(entries@ =~= before.update(position as int, entry));
            assert forall|i: int, j: int| 0 <= i < j < entries@.len() implies text_before(
                (#[trigger] entries@[i]).preset.name@,
                (#[trigger] entries@[j]).preset.name@,
            ) by {
                assert(entries@[i].preset.name@ == before[i].preset.name@);
                assert(entries@[j].preset.name@ == before[j].preset.name@);
            }
        }
    } else {
        proof {
            lemma_inserted_is_sorted(entries@, position as int, entry);
        }
        entries.insert(position, entry);
        proof {
            let before = old(entries)@;
            assert forall|i: int|
                all_from(before, entry.source) && 0 <= i < entries@.len() implies (
            #[trigger] entries@[i]).source == entry.source by {
                if i < position {
                    assert(entries@[i] == before[i]);
                } else if i > position {
                    assert(entries@[i] == before[i - 1]);
                }
            }
        }
    }
    position
}

/// `after` are the entries without the one with the given name.
pub open spec fn is_removed(
    before: Seq<CurvePresetEntry>,
    name: Seq<char>,
    after: Seq<CurvePresetEntry>,
) -> bool {
    if has_name(before, name) {
        exists|position: int| #[trigger]
            is_position(before, name, position) && position < before.len() && after
                == before.remove(position)
    } else {
        after == before
    }
}

/// Removes the entry with the given name, if there is one.
pub fn remove_named(entries: &mut Vec<CurvePresetEntry>, name: &str)
    requires
        is_sorted(old(entries)@),
    ensures
        is_sorted(final(entries)@),
        !has_name(final(entries)@, name@),
        final(entries)@.len() <= old(entries)@.len(),
        forall|source: CurvePresetSource|
            all_from(old(entries)@, source) ==> #[trigger] all_from(final(entries)@, source),
        is_removed(old(entries)@, name@, final(entries)@),
{
    let position: usize = find_position(entries, name);
    if position < entries.len() && same_text(entries[position].preset.name.as_str(), name) {
        let ghost before = entries@;
        entries.remove(position);
        proof {
            assert(entries@ =~= before.remove(position as int));
            assert forall|i: int, j: int| 0 <= i < j < entries@.len() implies text_before(
                (#[trigger] entries@[i]).preset.name@,
                (#[trigger] entries@[j]).preset.name@,
            ) by {
                let a = if i < position {
                    i
                } else {
                    i + 1
                };
                let b = if j < position {
                    j
                } else {
                    j + 1
                };
                assert(entries@[i] == before[a]);
                assert(entries@[j] == before[b]);
            }
            assert forall|source: CurvePresetSource| all_from(before, source) implies #[trigger] all_from(
                entries@,
                source,
            ) by {
                assert forall|i: int| 0 <= i < entries@.len() implies (
                #[trigger] entries@[i]).source == source by {
                    if i < position {
                        assert(entries@[i] == before[i]);
                    } else {
                        assert(entries@[i] == before[i + 1]);
                    }
                }
            }
            law_order_is_irreflexive(name@);
            assert forall|i: int| 0 <= i < entries@.len() implies (
            #[trigger] entries@[i]).preset.name@ != name@ by {
                let a = if i < position {
                    i
                } else {
                    i + 1
                };
                assert(entries@[i] == before[a]);
                if a > position {
                    assert(text_before(
                        before[position as int].preset.name@,
                        before[a].preset.name@,
                    ));
                }
            }
        }
    }
}

/// A preset file that was found, with what could be read from it.
pub struct PresetFile {
    /// The position of the file's path in the order of paths.
    pub path: usize,
    /// How the file is shown to the user.
    pub path_text: String,
    pub contents: Result<UserCurvePresetFile, CurvePresetError>,
}

/// What was met when reading the preset folder.
pub enum FolderEvent {
    /// The folder cannot be read.
    FolderFailed { folder: String, cause: String },
    /// An entry of the folder cannot be read.
    EntryFailed { cause: String },
    /// A preset file.
    File(PresetFile),
}

impl FolderEvent {
    /// The event stands for a preset.
    pub open spec fn is_preset(self) -> bool {
        match self {
            FolderEvent::File(file) => match file.contents {
                Ok(contents) => contents.problem() is None,
                Err(_) => false,
            },
            _ => false,
        }
    }

    /// The name of the preset.
    pub open spec fn preset_name(self) -> Seq<char> {
        match self {
            FolderEvent::File(file) => match file.contents {
                Ok(contents) => trimmed(contents.name@),
                Err(_) => Seq::empty(),
            },
            _ => Seq::empty(),
        }
    }

    /// Where the file of the preset is.
    pub open spec fn path(self) -> int {
        match self {
            FolderEvent::File(file) => file.path as int,
            _ => 0,
        }
    }

    /// `entry` is the preset that was found.
    pub open spec fn gives(self, entry: CurvePresetEntry) -> bool {
        self matches FolderEvent::File(file) && file.contents matches Ok(contents) && {
            &&& contents.problem() is None
            &&& contents.describes(entry.preset)
            &&& entry.source == CurvePresetSource::User
            &&& entry.path == Some(file.path)
        }
    }

    /// What the user is warned of.
    pub open spec fn warning(self) -> Option<Seq<char>> {
        match self {
            FolderEvent::FolderFailed { folder, cause } => Some(
                "Could not read "@ + folder@ + ": "@ + cause@,
            ),
            FolderEvent::EntryFailed { cause } => Some(
                "Could not read preset directory entry: "@ + cause@,
            ),
            FolderEvent::File(file) => match file.contents {
                Ok(contents) => match contents.problem() {
                    Some(problem) => Some(
                        "Could not load "@ + file.path_text@ + ": "@ + problem.message_text(),
                    ),
                    None => None,
                },
                Err(problem) => Some(
                    "Could not load "@ + file.path_text@ + ": "@ + problem.message_text(),
                ),
            },
        }
    }
}

fn warning_text(start: &str, subject: &str, cause: &str) -> (text: String)
    ensures
        text@ == start@ + subject@ + ": "@ + cause@,
{
    let mut text = joined(start, subject);
    text.append(": ");
    text.append(cause);
    text
}

/// The user's presets that could be loaded, and what the user is warned of.
pub struct LoadedCurvePresets {
    pub entries: Vec<CurvePresetEntry>,
    pub warnings: Vec<String>,
}

/// The event at `i` is the one that is taken for the name `name`: of the presets with that name, the
/// one whose path comes first.
pub open spec fn is_taken_for(events: Seq<FolderEvent>, i: int, name: Seq<char>) -> bool {
    &&& 0 <= i < events.len()
    &&& events[i].is_preset()
    &&& events[i].preset_name() == name
    &&& forall|j: int|
        0 <= j < events.len() && (#[trigger] events[j]).is_preset() && events[j].preset_name()
            == name ==> events[i].path() < events[j].path() || (events[i].path()
            == events[j].path() && i <= j)
}

/// `entry` is what the event that is taken for its name gives.
pub open spec fn is_taken(events: Seq<FolderEvent>, entry: CurvePresetEntry) -> bool {
    exists|i: int| #[trigger]
        is_taken_for(events, i, entry.preset.name@) && events[i].gives(entry)
}

/// `entries` hold one preset for each name, in the order of their names.
pub open spec fn are_collected(events: Seq<FolderEvent>, entries: Seq<CurvePresetEntry>) -> bool {
    &&& is_sorted(entries)
    &&& all_from(entries, CurvePresetSource::User)
    &&& forall|i: int| 0 <= i < entries.len() ==> is_taken(events, #[trigger] entries[i])
    &&& forall|i: int|
        0 <= i < events.len() && (#[trigger] events[i]).is_preset() ==> has_name(
            entries,
            events[i].preset_name(),
        )
}

/// The warnings that the events give, in their order.
pub open spec fn are_warnings(events: Seq<FolderEvent>, warnings: Seq<String>) -> bool {
    warnings.map_values(|text: String| text@) == present(
        events.map_values(|event: FolderEvent| event.warning()),
    )
}

fn event_outcome(event: &FolderEvent) -> (r: Result<CurvePresetEntry, String>)
    ensures
        match r {
            Ok(entry) => event.gives(entry) && event.is_preset() && event.warning() is None
                && entry.preset.name@ == event.preset_name(),
            Err(warning) => event.warning() == Some(warning@) && !event.is_preset(),
        },
{
    match event {
        FolderEvent::FolderFailed { folder, cause } => Err(
            warning_text("Could not read ", folder.as_str(), cause.as_str()),
        ),
        FolderEvent::EntryFailed { cause } => Err(
            joined("Could not read preset directory entry: ", cause.as_str()),
        ),
        FolderEvent::File(file) => match &file.contents {
            Ok(contents) => match CurvePreset::try_from(contents) {
                Ok(preset) => Ok(
                    CurvePresetEntry {
                        preset,
                        source: CurvePresetSource::User,
                        path: Some(file.path),
                    },
                ),
                Err(problem) => Err(
                    warning_text(
                        "Could not load ",
                        file.path_text.as_str(),
                        problem.message().as_str(),
                    ),
                ),
            },
            Err(problem) => Err(
                warning_text(
                    "Could not load ",
                    file.path_text.as_str(),
                    problem.message().as_str(),
                ),
            ),
        },
    }
}

proof fn lemma_taken_stays_taken(
    earlier: Seq<FolderEvent>,
    event: FolderEvent,
    entry: CurvePresetEntry,
)
    requires
        is_taken(earlier, entry),
        event.is_preset() && event.preset_name() == entry.preset.name@ ==> entry.path is Some
            && entry.path->0 <= event.path(),
    ensures
        is_taken(earlier.push(event), entry),
{
    let events = earlier.push(event);
    let i = choose|i: int| #[trigger]
        is_taken_for(earlier, i, entry.preset.name@) && earlier[i].gives(entry);
    assert(events[i] == earlier[i]);
    assert forall|j: int|
        0 <= j < events.len() && (#[trigger] events[j]).is_preset() && events[j].preset_name()
            == entry.preset.name@ implies events[i].path() < events[j].path() || (events[i].path()
        == events[j].path() && i <= j) by {
        if j < earlier.len() {
            assert(events[j] == earlier[j]);
        }
    }
    assert(is_taken_for(events, i, entry.preset.name@));
}

proof fn lemma_first_path_is_taken(
    earlier: Seq<FolderEvent>,
    event: FolderEvent,
    replaced: Option<CurvePresetEntry>,
    entry: CurvePresetEntry,
)
    requires
        event.is_preset(),
        event.gives(entry),
        entry.preset.name@ == event.preset_name(),
        match replaced {
            Some(other) => is_taken(earlier, other) && other.preset.name@ == entry.preset.name@
                && other.path is Some && event.path() < other.path->0,
            None => forall|j: int|
                0 <= j < earlier.len() && (#[trigger] earlier[j]).is_preset()
                    ==> earlier[j].preset_name() != entry.preset.name@,
        },
    ensures
        is_taken(earlier.push(event), entry),
{
    let events = earlier.push(event);
    let last = earlier.len() as int;
    assert(events[last] == event);
    assert forall|j: int|
        0 <= j < events.len() && (#[trigger] events[j]).is_preset() && events[j].preset_name()
            == entry.preset.name@ implies events[last].path() < events[j].path() || (
    events[last].path() == events[j].path() && last <= j) by {
        if j < last {
            assert(events[j] == earlier[j]);
            let other = replaced->0;
            let i = choose|i: int| #[trigger]
                is_taken_for(earlier, i, other.preset.name@) && earlier[i].gives(other);
            assert(earlier[i].path() <= earlier[j].path());
        }
    }
    assert(is_taken_for(events, last, entry.preset.name@));
}

/// Adds what one more event gives, unless there is a preset with the same name and an earlier path.
fn collect_event(
    entries: &mut Vec<CurvePresetEntry>,
    warnings: &mut Vec<String>,
    event: &FolderEvent,
    Ghost(earlier): Ghost<Seq<FolderEvent>>,
)
    requires
        are_collected(earlier, old(entries)@),
        are_warnings(earlier, old(warnings)@),
        old(entries)@.len() <= earlier.len(),
        earlier.len() < usize::MAX,
    ensures
        are_collected(earlier.push(*event), final(entries)@),
        are_warnings(earlier.push(*event), final(warnings)@),
        final(entries)@.len() <= earlier.len() + 1,
{
    let ghost events = earlier.push(*event);
    let ghost before = entries@;
    proof {
        let all = events.map_values(|event: FolderEvent| event.warning());
        assert(all.drop_last() =~= earlier.map_values(|event: FolderEvent| event.warning()));
        assert(all.last() == event.warning());
    }
    match event_outcome(event) {
        Ok(entry) => {
            collect_entry(entries, entry, Ghost(earlier), Ghost(*event));
        },
        Err(warning) => {
            let ghost old_warnings = warnings@;
            warnings.push(warning);
            proof {
                assert(warnings@.map_values(|text: String| text@) =~= old_warnings.map_values(
                    |text: String| text@,
                ).push(warning@));
                assert forall|i: int| 0 <= i < before.len() implies is_taken(
                    events,
                    #[trigger] before[i],
                ) by {
                    lemma_taken_stays_taken(earlier, *event, before[i]);
                }
                assert forall|i: int|
                    0 <= i < events.len() && (#[trigger] events[i]).is_preset() implies has_name(
                    before,
                    events[i].preset_name(),
                ) by {
                    if i < earlier.len() {
                        assert(events[i] == earlier[i]);
                    }
                }
            }
        },
    }
}

/// Whether a path comes before the one of an entry.
fn comes_first(path: Option<usize>, other: Option<usize>) -> (r: bool)
    ensures
        r == (path matches Some(a) && (other matches Some(b) && a < b)),
{
    match (path, other) {
        (Some(a), Some(b)) => a < b,
        _ => false,
    }
}

fn collect_entry(
    entries: &mut Vec<CurvePresetEntry>,
    entry: CurvePresetEntry,
    Ghost(earlier): Ghost<Seq<FolderEvent>>,
    Ghost(event): Ghost<FolderEvent>,
)
    requires
        are_collected(earlier, old(entries)@),
        event.gives(entry),
        event.is_preset(),
        entry.preset.name@ == event.preset_name(),
        old(entries)@.len() <= earlier.len(),
        earlier.len() < usize::MAX,
    ensures
        are_collected(earlier.push(event), final(entries)@),
        final(entries)@.len() <= earlier.len() + 1,
{
    let ghost events = earlier.push(event);
    let ghost before = entries@;
    let ghost name = entry.preset.name@;
    let position: usize = find_position(entries, entry.preset.name.as_str());
    let known = position < entries.len() && same_text(
        entries[position].preset.name.as_str(),
        entry.preset.name.as_str(),
    );
    proof {
        assert(known == has_name(before, name));
        // All other entries have another name
        assert forall|i: int| 0 <= i < before.len() && !(known && i == position) implies (
        #[trigger] before[i]).preset.name@ != name by {
            law_order_is_irreflexive(name);
            if known {
                if i < position {
                    assert(text_before(before[i].preset.name@, before[position as int].preset.name@));
                } else {
                    assert(text_before(before[position as int].preset.name@, before[i].preset.name@));
                }
            }
        }
        assert forall|i: int| 0 <= i < before.len() && !(known && i == position) implies is_taken(
            events,
            #[trigger] before[i],
        ) by {
            lemma_taken_stays_taken(earlier, event, before[i]);
        }
    }
    if !known {
        proof {
            lemma_inserted_is_sorted(entries@, position as int, entry);
            assert forall|j: int|
                0 <= j < earlier.len() && (
                #[trigger] earlier[j]).is_preset() implies earlier[j].preset_name() != name by {
                assert(has_name(before, earlier[j].preset_name()));
            }
            lemma_first_path_is_taken(earlier, event, None, entry);
        }
        entries.insert(position, entry);
        proof {
            let after = entries@;
            assert(after =~= before.insert(position as int, entry));
            assert(after[position as int] == entry);
            assert forall|i: int| 0 <= i < after.len() implies is_taken(events, #[trigger] after[i])
                && after[i].source == CurvePresetSource::User by {
                if i < position {
                    assert(after[i] == before[i]);
                } else if i > position {
                    assert(after[i] == before[i - 1]);
                }
            }
            assert forall|i: int|
                0 <= i < events.len() && (#[trigger] events[i]).is_preset() implies has_name(
                after,
                events[i].preset_name(),
            ) by {
                if i < earlier.len() {
                    assert(events[i] == earlier[i]);
                    let k = choose|k: int|
                        0 <= k < before.len() && (#[trigger] before[k]).preset.name@
                            == earlier[i].preset_name();
                    if k < position {
                        assert(after[k] == before[k]);
                    } else {
                        assert(after[k + 1] == before[k]);
                    }
                }
            }
        }
    } else {
        let ghost other = before[position as int];
        assert(is_taken(earlier, other));
        if comes_first(entry.path, entries[position].path) {
            proof {
                lemma_first_path_is_taken(earlier, event, Some(other), entry);
            }
            entries[position] = entry;
            assert(entries@ =~= before.update(position as int, entry));
        } else {
            proof {
                lemma_taken_stays_taken(earlier, event, other);
            }
        }
        proof {
            let after = entries@;
            assert forall|i: int, j: int| 0 <= i < j < after.len() implies text_before(
                (#[trigger] after[i]).preset.name@,
                (#[trigger] after[j]).preset.name@,
            ) by {
                assert(after[i].preset.name@ == before[i].preset.name@);
                assert(after[j].preset.name@ == before[j].preset.name@);
            }
            assert forall|i: int| 0 <= i < after.len() implies is_taken(events, #[trigger] after[i])
                && after[i].source == CurvePresetSource::User by {
                if i != position {
                    assert(after[i] == before[i]);
                }
            }
            assert forall|i: int|
                0 <= i < events.len() && (#[trigger] events[i]).is_preset() implies has_name(
                after,
                events[i].preset_name(),
            ) by {
                if i < earlier.len() {
                    assert(events[i] == earlier[i]);
                    let k = choose|k: int|
                        0 <= k < before.len() && (#[trigger] before[k]).preset.name@
                            == earlier[i].preset_name();
                    assert(after[k].preset.name@ == before[k].preset.name@);
                } else {
                    assert(after[position as int].preset.name@ == name);
                }
            }
        }
    }
}

/// Collects the user's presets: where several files hold presets of the same name, the one whose
/// path comes first is taken.
pub fn collect_user_presets(events: &Vec<FolderEvent>) -> (loaded: LoadedCurvePresets)
    ensures
        are_collected(events@, loaded.entries@),
        are_warnings(events@, loaded.warnings@),
{
    let mut entries: Vec<CurvePresetEntry> = Vec::new();
    let mut warnings: Vec<String> = Vec::new();
    assert(warnings@.map_values(|text: String| text@) =~= Seq::empty());
    assert(events@.take(0).map_values(|event: FolderEvent| event.warning()) =~= Seq::empty());
    let total: usize = events.len();
    let mut index: usize = 0;
    while index < total
        invariant
            total == events@.len(),
            index <= total,
            entries@.len() <= index,
            are_collected(events@.take(index as int), entries@),
            are_warnings(events@.take(index as int), warnings@),
        decreases total - index,
    {
        assert(events@.take(index as int).push(events@[index as int]) =~= events@.take(index + 1));
        collect_event(
            &mut entries,
            &mut warnings,
            &events[index],
            Ghost(events@.take(index as int)),
        );
        index += 1;
    }
    assert(events@.take(events@.len() as int) =~= events@);
    LoadedCurvePresets { entries, warnings }
}

/// The presets that the user can choose from.
pub struct CurvePresetList {
    pub built_in: Vec<CurvePresetEntry>,
    pub user: Vec<CurvePresetEntry>,
}

impl CurvePresetList {
    /// The built-in presets are there, and the user's presets are in order.
    pub open spec fn wf(self) -> bool {
        &&& are_built_in_entries(self.built_in@)
        &&& is_sorted(self.user@)
        &&& all_from(self.user@, CurvePresetSource::User)
    }

    /// All entries, in the order in which they are shown.
    pub open spec fn entries(self) -> Seq<CurvePresetEntry> {
        self.built_in@ + self.user@
    }

    /// The built-in presets, followed by the given ones.
    pub fn new(user: Vec<CurvePresetEntry>) -> (list: CurvePresetList)
        requires
            is_sorted(user@),
            all_from(user@, CurvePresetSource::User),
        ensures
            list.wf(),
            list.user == user,
    {
        CurvePresetList { built_in: CurvePreset::built_in_entries(), user }
    }

    /// The entry at a position in the list.
    pub fn get(&self, index: usize) -> (entry: Option<&CurvePresetEntry>)
        ensures
            match entry {
                Some(found) => index < self.entries().len() && *found == self.entries()[index as int],
                None => index >= self.entries().len(),
            },
    {
        if index < self.built_in.len() {
            Some(&self.built_in[index])
        } else if index - self.built_in.len() < self.user.len() {
            Some(&self.user[index - self.built_in.len()])
        } else {
            None
        }
    }
}

/// Saving a preset under a name leaves one preset with that name, which is the saved one.
pub proof fn law_saved_preset_replaces_its_namesake(
    before: Seq<CurvePresetEntry>,
    entry: CurvePresetEntry,
    after: Seq<CurvePresetEntry>,
    i: int,
)
    requires
        is_sorted(before),
        is_sorted(after),
        is_upserted(before, entry, after),
        0 <= i < after.len(),
        after[i].preset.name@ == entry.preset.name@,
    ensures
        after[i] == entry,
{
    let position = choose|position: int| #[trigger]
        is_position(before, entry.preset.name@, position) && after == if has_name(
            before,
            entry.preset.name@,
        ) {
            before.update(position, entry)
        } else {
            before.insert(position, entry)
        };
    law_order_is_irreflexive(entry.preset.name@);
    if has_name(before, entry.preset.name@) {
        let k = choose|k: int|
            0 <= k < before.len() && (#[trigger] before[k]).preset.name@ == entry.preset.name@;
        if position < k {
            assert(text_before(before[position].preset.name@, before[k].preset.name@));
        }
    }
    assert(after[position] == entry);
    if i < position {
        assert(text_before(after[i].preset.name@, after[position].preset.name@));
    } else if position < i {
        assert(text_before(after[position].preset.name@, after[i].preset.name@));
    }
}

/// Deleting a preset that was saved under a new name leaves the presets that were there before.
pub proof fn law_deleting_undoes_saving(
    before: Seq<CurvePresetEntry>,
    entry: CurvePresetEntry,
    saved: Seq<CurvePresetEntry>,
    deleted: Seq<CurvePresetEntry>,
)
    requires
        is_sorted(before),
        !has_name(before, entry.preset.name@),
        is_upserted(before, entry, saved),
        is_removed(saved, entry.preset.name@, deleted),
    ensures
        deleted == before,
{
    let name = entry.preset.name@;
    let position = choose|position: int| #[trigger]
        is_position(before, name, position) && saved == before.insert(position, entry);
    assert(saved[position] == entry);
    assert(has_name(saved, name));
    let found = choose|found: int| #[trigger]
        is_position(saved, name, found) && found < saved.len() && deleted == saved.remove(found);
    law_order_is_irreflexive(name);
    if found < position {
        assert(saved[found] == before[found]);
    }
    assert(found <= position) by {
        if position < found {
            assert(text_before(saved[position].preset.name@, name));
        }
    }
    assert(deleted =~= before);
}

} // verus!
