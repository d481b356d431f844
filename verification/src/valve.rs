//! What the valve driver decides: which state a pin's level stands for, and
//! how long to keep trying to take a freshly exported pin into use.

use vstd::prelude::*;

verus! {

/// The possible states of a controlled valve.
#[derive(Debug, Clone, Copy, PartialEq, Eq, Structural)]
pub enum ValveState {
    /// The valve is open.
    Open,
    /// The valve is closed.
    Closed,
}

/// The state that a level read from the pin stands for: 0 is closed, any
/// other level is open.
pub open spec fn state_of_level(value: u8) -> ValveState {
    if value == 0 {
        ValveState::Closed
    } else {
        ValveState::Open
    }
}

/// The level that is written to the pin to bring the valve into a state.
pub open spec fn level_of_state(state: ValveState) -> u8 {
    match state {
        ValveState::Open => 1,
        ValveState::Closed => 0,
    }
}

impl ValveState {
    /// The state that a level read from the pin stands for.
    pub fn from_level(value: u8) -> (r: ValveState)
        ensures
            r == state_of_level(value),
    {
        match value {
            0 => ValveState::Closed,
            _ => ValveState::Open,
        }
    }

    /// The level that is written to the pin to bring the valve into this
    /// state.
    pub fn level(self) -> (r: u8)
        ensures
            r == level_of_state(self),
    {
        match self {
            ValveState::Open => 1,
            ValveState::Closed => 0,
        }
    }
}

/// A valve reads back as the state that was written to it.
pub proof fn lemma_level_round_trip(state: ValveState)
    ensures
        state_of_level(level_of_state(state)) == state,
{
}

/// How many failed attempts to set a pin's direction are put up with.
pub const MAX_DIRECTION_FAILURES: u32 = 10;

/// How long to wait after a failed attempt, in milliseconds.
pub const DIRECTION_RETRY_PAUSE_MILLIS: u64 = 10;

/// What to do after an attempt to set the direction of a freshly exported
/// pin.
#[derive(Debug, Clone, Copy, PartialEq, Eq, Structural)]
pub enum DirectionStep {
    /// The direction is set.
    Done,
    /// Wait for the pause, then try again.
    Retry { pause_millis: u64 },
    /// Wait for the pause, then give up with the error of the last attempt.
    GiveUp { pause_millis: u64 },
}

/// The step that follows an attempt, given how many attempts have failed
/// with it: each failure is followed by the pause, and the one that brings
/// the count over the limit ends the tries.
pub open spec fn step_after(failures: nat, succeeded: bool) -> DirectionStep {
    if succeeded {
        DirectionStep::Done
    } else if failures > MAX_DIRECTION_FAILURES {
        DirectionStep::GiveUp { pause_millis: DIRECTION_RETRY_PAUSE_MILLIS }
    } else {
        DirectionStep::Retry { pause_millis: DIRECTION_RETRY_PAUSE_MILLIS }
    }
}

/// Counts the failed attempts to set the direction of a freshly exported
/// pin, whose permissions are configured only some time after the export.
#[derive(Debug)]
pub struct DirectionRetry {
    failures: u32,
}

impl DirectionRetry {
    /// The number of attempts that have failed.
    pub closed spec fn failures(&self) -> nat {
        self.failures as nat
    }

    /// The count never goes beyond the first failure over the limit.
    pub closed spec fn well_formed(&self) -> bool {
        self.failures <= MAX_DIRECTION_FAILURES + 1
    }

    /// No attempt has failed yet.
    pub fn new() -> (r: DirectionRetry)
        ensures
            r.well_formed(),
            r.failures() == 0,
    {
        DirectionRetry { failures: 0 }
    }

    /// Takes note of how an attempt ended and says what to do next. A
    /// failure counts, unless the tries have ended already.
    pub fn after_attempt(&mut self, succeeded: bool) -> (r: DirectionStep)
        requires
            old(self).well_formed(),
        ensures
            final(self).well_formed(),
            final(self).failures() == if succeeded || old(self).failures() > MAX_DIRECTION_FAILURES {
                old(self).failures()
            } else {
                old(self).failures() + 1
            },
            r == step_after(final(self).failures(), succeeded),
    {
        if succeeded {
            return DirectionStep::Done;
        }
        if self.failures <= MAX_DIRECTION_FAILURES {
            self.failures += 1;
        }
        if self.failures > MAX_DIRECTION_FAILURES {
            DirectionStep::GiveUp { pause_millis: DIRECTION_RETRY_PAUSE_MILLIS }
        } else {
            DirectionStep::Retry { pause_millis: DIRECTION_RETRY_PAUSE_MILLIS }
        }
    }
}

} // verus!
