//! Which precomputed values of the compressors need to be updated.

use vstd::prelude::*;

use crate::shared_cells::{exchange_alone, flag_is_exchanged, flag_is_new, flag_is_set};

use std::sync::atomic::{AtomicBool, Ordering};
use std::sync::Arc;

verus! {

/// The two compressors of each bin.
#[derive(Clone, Copy, PartialEq, Eq, Debug, Structural)]
pub enum Direction {
    Downwards,
    Upwards,
}

/// What is to be updated for one direction.
#[derive(Clone, Copy, PartialEq, Eq, Debug, Structural)]
pub struct Updates {
    pub thresholds: bool,
    pub ratios: bool,
    pub knee_parabolas: bool,
}

/// What is to be updated for both directions.
#[derive(Clone, Copy, PartialEq, Eq, Debug, Structural)]
pub struct DueUpdates {
    pub downwards: Updates,
    pub upwards: Updates,
}

/// What the change of a parameter's value affects.
#[derive(Clone, Copy, PartialEq, Eq, Debug, Structural)]
pub enum ParameterChange {
    /// The threshold curve, which both directions share.
    Curve,
    /// The thresholds of one direction.
    Thresholds(Direction),
    /// The ratios of one direction.
    Ratios(Direction),
    /// The knees of one direction.
    Knees(Direction),
    /// Nothing that is precomputed.
    Nothing,
}

#[verifier::allow_in_spec]
pub fn no_updates() -> Updates
    returns
        (Updates { thresholds: false, ratios: false, knee_parabolas: false }),
{
    Updates { thresholds: false, ratios: false, knee_parabolas: false }
}

/// The given updates for one direction and none for the other.
#[verifier::allow_in_spec]
pub fn updates_for(direction: Direction, updates: Updates) -> DueUpdates
    returns
        (match direction {
            Direction::Downwards => DueUpdates { downwards: updates, upwards: no_updates() },
            Direction::Upwards => DueUpdates { downwards: no_updates(), upwards: updates },
        }),
{
    match direction {
        Direction::Downwards => DueUpdates { downwards: updates, upwards: no_updates() },
        Direction::Upwards => DueUpdates { downwards: no_updates(), upwards: updates },
    }
}

impl ParameterChange {
    /// The updates that a change makes due. The knees depend on the thresholds and on the ratios.
    #[verifier::allow_in_spec]
    pub fn updates(self) -> DueUpdates
        returns
            (match self {
                ParameterChange::Curve => DueUpdates {
                    downwards: Updates { thresholds: true, ratios: false, knee_parabolas: true },
                    upwards: Updates { thresholds: true, ratios: false, knee_parabolas: true },
                },
                ParameterChange::Thresholds(direction) => updates_for(
                    direction,
                    Updates { thresholds: true, ratios: false, knee_parabolas: true },
                ),
                ParameterChange::Ratios(direction) => updates_for(
                    direction,
                    Updates { thresholds: false, ratios: true, knee_parabolas: true },
                ),
                ParameterChange::Knees(direction) => updates_for(
                    direction,
                    Updates { thresholds: false, ratios: false, knee_parabolas: true },
                ),
                ParameterChange::Nothing => DueUpdates {
                    downwards: no_updates(),
                    upwards: no_updates(),
                },
            }),
    {
        match self {
            ParameterChange::Curve => DueUpdates {
                downwards: Updates { thresholds: true, ratios: false, knee_parabolas: true },
                upwards: Updates { thresholds: true, ratios: false, knee_parabolas: true },
            },
            ParameterChange::Thresholds(direction) => updates_for(
                direction,
                Updates { thresholds: true, ratios: false, knee_parabolas: true },
            ),
            ParameterChange::Ratios(direction) => updates_for(
                direction,
                Updates { thresholds: false, ratios: true, knee_parabolas: true },
            ),
            ParameterChange::Knees(direction) => updates_for(
                direction,
                Updates { thresholds: false, ratios: false, knee_parabolas: true },
            ),
            ParameterChange::Nothing => DueUpdates {
                downwards: no_updates(),
                upwards: no_updates(),
            },
        }
    }
}

/// A flag that any thread may raise and that the audio thread lowers. Its value may change between
/// any two accesses, so what lowering it returns is stated as the outcome of the exchange that was
/// tried on it.
pub struct UpdateFlag {
    raised: Arc<AtomicBool>,
}

impl UpdateFlag {
    /// The value that all handles share.
    pub closed spec fn shared(self) -> Arc<AtomicBool> {
        self.raised
    }

    /// The flag was made with the given value.
    pub open spec fn is_new(self, raised: bool) -> bool {
        flag_is_new(raised, *self.shared())
    }

    /// The flag was raised.
    pub open spec fn is_raised(self) -> bool {
        flag_is_set(*self.shared(), true)
    }

    /// `exchange` is what lowering a raised flag came to. `raised` tells whether it succeeded.
    pub open spec fn takes_with(self, exchange: Result<bool, bool>, raised: bool) -> bool {
        &&& flag_is_exchanged(*self.shared(), true, false, exchange)
        &&& raised == (exchange is Ok)
    }

    /// The flag was taken: `raised` tells whether it could be exchanged from raised to lowered.
    pub open spec fn is_taken(self, raised: bool) -> bool {
        exists|exchange: Result<bool, bool>| #[trigger] self.takes_with(exchange, raised)
    }

    /// The flag was taken where it was raised or not as `held` tells, and no other thread accessed
    /// it meanwhile.
    pub open spec fn is_taken_alone(self, held: bool, raised: bool) -> bool {
        self.takes_with(exchange_alone(held, true, false).0, raised)
    }

    /// A flag that is raised.
    pub fn new() -> (flag: UpdateFlag)
        ensures
            flag.is_new(true),
    {
        UpdateFlag { raised: Arc::new(AtomicBool::new(true)) }
    }

    /// A flag that is not raised.
    pub fn lowered() -> (flag: UpdateFlag)
        ensures
            flag.is_new(false),
    {
        UpdateFlag { raised: Arc::new(AtomicBool::new(false)) }
    }

    /// Another handle to the same flag.
    pub fn handle(&self) -> (flag: UpdateFlag)
        ensures
            flag.shared() == self.shared(),
    {
        UpdateFlag { raised: self.raised.clone() }
    }

    pub fn raise(&self)
        ensures
            self.is_raised(),
    {
        self.raised.store(true, Ordering::Relaxed);
    }

    /// Lowers the flag, and tells whether it was raised.
    pub fn take(&self) -> (raised: bool)
        ensures
            self.is_taken(raised),
    {
        let exchange = self.raised.compare_exchange(
            true,
            false,
            Ordering::AcqRel,
            Ordering::Acquire,
        );
        assert(self.takes_with(exchange, exchange is Ok));
        exchange.is_ok()
    }
}

/// The flags for one direction.
pub struct UpdateFlags {
    pub should_update_thresholds: UpdateFlag,
    pub should_update_ratios: UpdateFlag,
    pub should_update_knee_parabolas: UpdateFlag,
}

impl UpdateFlags {
    /// The flags are shared with `other`.
    pub open spec fn is_handle_of(self, other: UpdateFlags) -> bool {
        &&& self.should_update_thresholds.shared() == other.should_update_thresholds.shared()
        &&& self.should_update_ratios.shared() == other.should_update_ratios.shared()
        &&& self.should_update_knee_parabolas.shared()
            == other.should_update_knee_parabolas.shared()
    }

    /// The flags were all made raised.
    pub open spec fn is_new(self) -> bool {
        &&& self.should_update_thresholds.is_new(true)
        &&& self.should_update_ratios.is_new(true)
        &&& self.should_update_knee_parabolas.is_new(true)
    }

    /// The flags for the given updates were raised.
    pub open spec fn are_raised_for(self, updates: Updates) -> bool {
        &&& updates.thresholds ==> self.should_update_thresholds.is_raised()
        &&& updates.ratios ==> self.should_update_ratios.is_raised()
        &&& updates.knee_parabolas ==> self.should_update_knee_parabolas.is_raised()
    }

    /// The flags were all taken, where those for the updates in `held` were raised, and no other
    /// thread accessed them meanwhile.
    pub open spec fn are_taken_alone(self, held: Updates, updates: Updates) -> bool {
        &&& self.should_update_thresholds.is_taken_alone(held.thresholds, updates.thresholds)
        &&& self.should_update_ratios.is_taken_alone(held.ratios, updates.ratios)
        &&& self.should_update_knee_parabolas.is_taken_alone(
            held.knee_parabolas,
            updates.knee_parabolas,
        )
    }

    /// The flags were all taken, each for its own update.
    pub open spec fn is_taken(self, updates: Updates) -> bool {
        &&& self.should_update_thresholds.is_taken(updates.thresholds)
        &&& self.should_update_ratios.is_taken(updates.ratios)
        &&& self.should_update_knee_parabolas.is_taken(updates.knee_parabolas)
    }

    /// Flags that are all raised.
    pub fn new() -> (flags: UpdateFlags)
        ensures
            flags.is_new(),
    {
        UpdateFlags {
            should_update_thresholds: UpdateFlag::new(),
            should_update_ratios: UpdateFlag::new(),
            should_update_knee_parabolas: UpdateFlag::new(),
        }
    }

    /// Other handles to the same flags.
    pub fn handle(&self) -> (flags: UpdateFlags)
        ensures
            flags.is_handle_of(*self),
    {
        UpdateFlags {
            should_update_thresholds: self.should_update_thresholds.handle(),
            should_update_ratios: self.should_update_ratios.handle(),
            should_update_knee_parabolas: self.should_update_knee_parabolas.handle(),
        }
    }

    /// Raises the flags for the given updates.
    pub fn request(&self, updates: Updates)
        ensures
            self.are_raised_for(updates),
    {
        if updates.thresholds {
            self.should_update_thresholds.raise();
        }
        if updates.ratios {
            self.should_update_ratios.raise();
        }
        if updates.knee_parabolas {
            self.should_update_knee_parabolas.raise();
        }
    }

    /// Lowers all flags, and tells which updates they stood for.
    pub fn take(&self) -> (updates: Updates)
        ensures
            self.is_taken(updates),
    {
        Updates {
            thresholds: self.should_update_thresholds.take(),
            ratios: self.should_update_ratios.take(),
            knee_parabolas: self.should_update_knee_parabolas.take(),
        }
    }
}

/// The flags for both directions.
pub struct UpdateRequests {
    pub downwards: UpdateFlags,
    pub upwards: UpdateFlags,
}

/// All updates.
#[verifier::allow_in_spec]
pub fn all_updates() -> DueUpdates
    returns
        (DueUpdates {
            downwards: Updates { thresholds: true, ratios: true, knee_parabolas: true },
            upwards: Updates { thresholds: true, ratios: true, knee_parabolas: true },
        }),
{
    DueUpdates {
        downwards: Updates { thresholds: true, ratios: true, knee_parabolas: true },
        upwards: Updates { thresholds: true, ratios: true, knee_parabolas: true },
    }
}

impl UpdateRequests {
    /// The flags were all made raised.
    pub open spec fn is_new(self) -> bool {
        self.downwards.is_new() && self.upwards.is_new()
    }

    /// The flags for the given updates were raised, each in its own direction.
    pub open spec fn are_raised_for(self, due: DueUpdates) -> bool {
        &&& self.downwards.are_raised_for(due.downwards)
        &&& self.upwards.are_raised_for(due.upwards)
    }

    /// The flags were all taken, each for its own update and direction.
    pub open spec fn is_taken(self, due: DueUpdates) -> bool {
        self.downwards.is_taken(due.downwards) && self.upwards.is_taken(due.upwards)
    }

    /// The flags were all taken, where those for the updates in `held` were raised, and no other
    /// thread accessed them meanwhile.
    pub open spec fn are_taken_alone(self, held: DueUpdates, due: DueUpdates) -> bool {
        &&& self.downwards.are_taken_alone(held.downwards, due.downwards)
        &&& self.upwards.are_taken_alone(held.upwards, due.upwards)
    }

    /// Flags that are all raised.
    pub fn new() -> (requests: UpdateRequests)
        ensures
            requests.is_new(),
    {
        UpdateRequests { downwards: UpdateFlags::new(), upwards: UpdateFlags::new() }
    }

    /// Other handles to the same flags.
    pub fn handle(&self) -> (requests: UpdateRequests)
        ensures
            requests.downwards.is_handle_of(self.downwards),
            requests.upwards.is_handle_of(self.upwards),
    {
        UpdateRequests { downwards: self.downwards.handle(), upwards: self.upwards.handle() }
    }

    /// Raises the flags for the given updates.
    pub fn request(&self, due: DueUpdates)
        ensures
            self.are_raised_for(due),
    {
        self.downwards.request(due.downwards);
        self.upwards.request(due.upwards);
    }

    /// Raises all flags.
    pub fn request_all(&self)
        ensures
            self.are_raised_for(all_updates()),
    {
        self.request(all_updates());
    }

    /// A parameter's value changed: raises the flags for what that affects.
    pub fn parameter_changed(&self, change: ParameterChange)
        ensures
            self.are_raised_for(change.updates()),
    {
        self.request(change.updates());
    }

    /// Lowers all flags, and tells which updates they stood for.
    pub fn take(&self) -> (due: DueUpdates)
        ensures
            self.is_taken(due),
    {
        DueUpdates { downwards: self.downwards.take(), upwards: self.upwards.take() }
    }
}

impl DueUpdates {
    /// The updates of both.
    pub open spec fn joined(self, other: DueUpdates) -> DueUpdates {
        DueUpdates {
            downwards: self.downwards.joined(other.downwards),
            upwards: self.upwards.joined(other.upwards),
        }
    }
}

impl Updates {
    /// The updates of both.
    pub open spec fn joined(self, other: Updates) -> Updates {
        Updates {
            thresholds: self.thresholds || other.thresholds,
            ratios: self.ratios || other.ratios,
            knee_parabolas: self.knee_parabolas || other.knee_parabolas,
        }
    }
}

/// Where no other thread accesses a flag, a flag that was raised is taken once.
pub proof fn law_raised_flag_is_taken_once(flag: UpdateFlag, first: bool, second: bool)
    requires
        flag.is_taken_alone(true, first),
        flag.is_taken_alone(exchange_alone(true, true, false).1, second),
    ensures
        first,
        !second,
{
}

/// Where no other thread accesses the flags, exactly the updates that were requested before are
/// taken, once, as taking leaves no flag raised: `held` are those that were requested earlier, and
/// `requested` those since.
pub proof fn law_requested_updates_are_taken_once(
    requests: UpdateRequests,
    held: DueUpdates,
    requested: DueUpdates,
    first: DueUpdates,
    second: DueUpdates,
)
    requires
        requests.are_taken_alone(held.joined(requested), first),
        requests.are_taken_alone(
            DueUpdates { downwards: no_updates(), upwards: no_updates() },
            second,
        ),
    ensures
        first == held.joined(requested),
        forall|raised: bool| !(#[trigger] exchange_alone(raised, true, false)).1,
        second == (DueUpdates { downwards: no_updates(), upwards: no_updates() }),
        requests.is_taken(first),
{
}

/// Whatever changes the thresholds or the ratios of a direction also makes its knees due.
pub proof fn law_knees_follow_thresholds_and_ratios(change: ParameterChange)
    ensures
        ({
            let due = change.updates();
            &&& (due.downwards.thresholds || due.downwards.ratios) ==> due.downwards.knee_parabolas
            &&& (due.upwards.thresholds || due.upwards.ratios) ==> due.upwards.knee_parabolas
        }),
{
}

} // verus!
