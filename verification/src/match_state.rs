//! The state machine driving the match handoffs between the GUI and the audio thread.
//!
//! The GUI requests a match, the audio thread begins it and later publishes its outcome, and the
//! GUI takes that outcome, which makes room for the next request.

use vstd::prelude::*;

use crate::shared_cells::{
    byte_is_exchanged, byte_is_loaded, byte_is_new, byte_is_stored, exchange_alone,
};

use std::sync::atomic::{AtomicU8, Ordering};

verus! {

/// Where a match is.
#[derive(Clone, Copy, PartialEq, Eq, Debug, Structural)]
pub enum MatchState {
    Idle,
    Requested,
    Running,
    Ready,
    Failed,
}

/// How a match ended.
#[derive(Clone, Copy, PartialEq, Eq, Debug, Structural)]
pub enum MatchOutcome {
    Matched,
    Failed,
}

impl MatchState {
    /// The number that stands for the state in the shared cell.
    #[verifier::allow_in_spec]
    pub fn code(self) -> u8
        returns
            (match self {
                MatchState::Idle => 0u8,
                MatchState::Requested => 1u8,
                MatchState::Running => 2u8,
                MatchState::Ready => 3u8,
                MatchState::Failed => 4u8,
            }),
    {
        match self {
            MatchState::Idle => 0,
            MatchState::Requested => 1,
            MatchState::Running => 2,
            MatchState::Ready => 3,
            MatchState::Failed => 4,
        }
    }

    /// The state with the given number.
    #[verifier::allow_in_spec]
    pub fn from_code(code: u8) -> Option<MatchState>
        returns
            (if code == 0 {
                Some(MatchState::Idle)
            } else if code == 1 {
                Some(MatchState::Requested)
            } else if code == 2 {
                Some(MatchState::Running)
            } else if code == 3 {
                Some(MatchState::Ready)
            } else if code == 4 {
                Some(MatchState::Failed)
            } else {
                None
            }),
    {
        if code == 0 {
            Some(MatchState::Idle)
        } else if code == 1 {
            Some(MatchState::Requested)
        } else if code == 2 {
            Some(MatchState::Running)
        } else if code == 3 {
            Some(MatchState::Ready)
        } else if code == 4 {
            Some(MatchState::Failed)
        } else {
            None
        }
    }

    /// The state after the outcome of a match was published.
    #[verifier::allow_in_spec]
    pub fn finished(outcome: MatchOutcome) -> MatchState
        returns
            (match outcome {
                MatchOutcome::Matched => MatchState::Ready,
                MatchOutcome::Failed => MatchState::Failed,
            }),
    {
        match outcome {
            MatchOutcome::Matched => MatchState::Ready,
            MatchOutcome::Failed => MatchState::Failed,
        }
    }

    /// The outcome that can be taken in this state, if there is one.
    #[verifier::allow_in_spec]
    pub fn outcome(self) -> Option<MatchOutcome>
        returns
            (match self {
                MatchState::Ready => Some(MatchOutcome::Matched),
                MatchState::Failed => Some(MatchOutcome::Failed),
                _ => None,
            }),
    {
        match self {
            MatchState::Ready => Some(MatchOutcome::Matched),
            MatchState::Failed => Some(MatchOutcome::Failed),
            _ => None,
        }
    }
}

/// What taking a result gives where `observed` was read from the shared cell and the exchange of it
/// for the idle state went as `exchanged` says. An exchange is only tried on an outcome.
#[verifier::allow_in_spec]
pub fn taken_outcome(observed: u8, exchanged: bool) -> Option<MatchOutcome>
    returns
        (match MatchState::from_code(observed) {
            Some(state) => if exchanged {
                state.outcome()
            } else {
                None
            },
            None => None,
        }),
{
    match MatchState::from_code(observed) {
        Some(state) => if exchanged {
            state.outcome()
        } else {
            None
        },
        None => None,
    }
}

/// The exchange that was or was not made: `observed` held an outcome.
#[verifier::allow_in_spec]
pub fn holds_outcome(observed: u8) -> bool
    returns
        taken_outcome(observed, true) is Some,
{
    taken_outcome(observed, true).is_some()
}

/// The cell that both threads share. Its value may change between any two accesses, so what an
/// access returns is stated as the outcome of the operation that was run on it.
pub struct StateCell {
    code: AtomicU8,
}

impl StateCell {
    /// The cell that holds the number of the state.
    pub closed spec fn cell(self) -> AtomicU8 {
        self.code
    }

    /// The given state was stored.
    pub open spec fn is_set(self, state: MatchState) -> bool {
        byte_is_stored(self.cell(), state.code())
    }

    /// `exchange` is what moving a requested match to running came to. `begun` tells whether it
    /// succeeded.
    pub open spec fn begins_with(self, exchange: Result<u8, u8>, begun: bool) -> bool {
        &&& byte_is_exchanged(
            self.cell(),
            MatchState::Requested.code(),
            MatchState::Running.code(),
            exchange,
        )
        &&& begun == (exchange is Ok)
    }

    /// A requested match was moved to running, or not, as `begun` tells.
    pub open spec fn is_begun(self, begun: bool) -> bool {
        exists|exchange: Result<u8, u8>| #[trigger] self.begins_with(exchange, begun)
    }

    /// `outcome` is what was taken: `observed` was loaded, and if it stands for an outcome, the
    /// exchange of it for the number of the idle state came to `exchange`.
    pub open spec fn takes_with(
        self,
        observed: u8,
        exchange: Result<u8, u8>,
        outcome: Option<MatchOutcome>,
    ) -> bool {
        &&& byte_is_loaded(self.cell(), observed)
        &&& if holds_outcome(observed) {
            &&& byte_is_exchanged(self.cell(), observed, MatchState::Idle.code(), exchange)
            &&& outcome == taken_outcome(observed, exchange is Ok)
        } else {
            outcome is None
        }
    }

    /// `outcome` is what was taken, by a load and, where that gave an outcome, an exchange.
    pub open spec fn is_taken(self, outcome: Option<MatchOutcome>) -> bool {
        exists|observed: u8, exchange: Result<u8, u8>| #[trigger]
            self.takes_with(observed, exchange, outcome)
    }

    /// A cell whose match is idle.
    pub fn new() -> (cell: StateCell)
        ensures
            byte_is_new(MatchState::Idle.code(), cell.cell()),
    {
        StateCell { code: AtomicU8::new(MatchState::Idle.code()) }
    }

    /// Moves to the given state, whatever the current state is.
    pub fn set(&self, state: MatchState)
        ensures
            self.is_set(state),
    {
        self.code.store(state.code(), Ordering::Release);
    }

    /// Transitions from requested to running. Only the caller that wins the exchange gets `true`
    /// back.
    pub fn begin_running_if_requested(&self) -> (begun: bool)
        ensures
            self.is_begun(begun),
    {
        let exchange = self.code.compare_exchange(
            MatchState::Requested.code(),
            MatchState::Running.code(),
            Ordering::AcqRel,
            Ordering::Acquire,
        );
        assert(self.begins_with(exchange, exchange is Ok));
        exchange.is_ok()
    }

    /// Takes a finished outcome and transitions to idle, or returns `None` if there is none, or if
    /// the state changed in the meantime.
    pub fn take_outcome(&self) -> (outcome: Option<MatchOutcome>)
        ensures
            self.is_taken(outcome),
    {
        let observed: u8 = self.code.load(Ordering::Acquire);
        if !holds_outcome(observed) {
            assert(self.takes_with(observed, Err(observed), None));
            return None;
        }
        let exchange = self.code.compare_exchange(
            observed,
            MatchState::Idle.code(),
            Ordering::AcqRel,
            Ordering::Acquire,
        );
        let outcome = taken_outcome(observed, exchange.is_ok());
        assert(self.takes_with(observed, exchange, outcome));
        outcome
    }
}

/// No two states share a number, and the number gives the state back.
pub proof fn law_codes_are_distinct(state: MatchState)
    ensures
        MatchState::from_code(state.code()) == Some(state),
{
}

/// What is taken after an outcome was published is that outcome, and nothing can be taken of a
/// match that is idle, requested or running.
pub proof fn law_published_outcome_is_taken(outcome: MatchOutcome)
    ensures
        taken_outcome(MatchState::finished(outcome).code(), true) == Some(outcome),
        !holds_outcome(MatchState::Idle.code()),
        !holds_outcome(MatchState::Requested.code()),
        !holds_outcome(MatchState::Running.code()),
{
}

impl MatchState {
    /// Whether a match in this state can be begun, and its state then, where no other thread
    /// accesses the state meanwhile.
    pub open spec fn begun_alone(self) -> (bool, MatchState) {
        if self is Requested {
            (true, MatchState::Running)
        } else {
            (false, self)
        }
    }

    /// The outcome that can be taken of a match in this state, and its state then, where no other
    /// thread accesses the state meanwhile.
    pub open spec fn taken_alone(self) -> (Option<MatchOutcome>, MatchState) {
        if self.outcome() is Some {
            (self.outcome(), MatchState::Idle)
        } else {
            (None, self)
        }
    }
}

/// Where no other thread accesses the cell, a match is begun exactly where it was requested, and is
/// then running.
pub proof fn law_requested_match_is_begun(cell: StateCell, held: MatchState, begun: bool)
    requires
        cell.begins_with(
            exchange_alone(
                held.code(),
                MatchState::Requested.code(),
                MatchState::Running.code(),
            ).0,
            begun,
        ),
    ensures
        begun == held.begun_alone().0,
        exchange_alone(held.code(), MatchState::Requested.code(), MatchState::Running.code()).1
            == held.begun_alone().1.code(),
{
}

/// Where no other thread accesses the cell, the outcome that was published is taken, the match is
/// then idle, and a match without an outcome keeps its state.
pub proof fn law_outcome_is_taken(cell: StateCell, held: MatchState, outcome: Option<MatchOutcome>)
    requires
        cell.takes_with(
            held.code(),
            exchange_alone(held.code(), held.code(), MatchState::Idle.code()).0,
            outcome,
        ),
    ensures
        outcome == held.taken_alone().0,
        held.outcome() is Some ==> exchange_alone(
            held.code(),
            held.code(),
            MatchState::Idle.code(),
        ).1 == held.taken_alone().1.code(),
        held.outcome() is None ==> held.taken_alone().1 == held,
{
}

} // verus!
