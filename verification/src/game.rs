//! Session-level failure tracking: a monotonic state machine that counts
//! failed orders and reaches a terminal game-over state.

use vstd::prelude::*;

verus! {

/// Marker for entities that belong to the running game screen.
pub struct GameScreen;

/// Domain events that drive the level state machine.
#[derive(Clone, Copy, Debug, PartialEq, Eq, Structural)]
pub enum Event {
    FailedOrder,
}

/// Cumulative failure state of the running level.
///
/// `NoFailures` is the start state; each failed order moves the machine
/// forward, and `GameOver` absorbs every further event.
#[derive(Clone, Copy, Debug, PartialEq, Eq, Hash, Default, Structural)]
pub enum LevelState {
    #[default]
    NoFailures,
    OrdersFailed(usize),
    GameOver,
}

/// Transition function of the level state machine: the first failure enters
/// `OrdersFailed(0)`, each further failure increments the count, and once the
/// incremented count would reach 3 the machine enters the absorbing
/// `GameOver` state.
pub open spec fn spec_next(state: LevelState, event: Event) -> LevelState {
    match (state, event) {
        (LevelState::NoFailures, Event::FailedOrder) => LevelState::OrdersFailed(0),
        (LevelState::OrdersFailed(val), Event::FailedOrder) => {
            if val + 1 >= 3 {
                LevelState::GameOver
            } else {
                LevelState::OrdersFailed((val + 1) as usize)
            }
        },
        (LevelState::GameOver, Event::FailedOrder) => LevelState::GameOver,
    }
}

impl LevelState {
    /// Advance the state machine by one event.
    pub fn next(&self, event: &Event) -> (r: LevelState)
        ensures
            r == spec_next(*self, *event),
    {
        match (self, event) {
            (LevelState::NoFailures, Event::FailedOrder) => LevelState::OrdersFailed(0),
            (LevelState::OrdersFailed(val), Event::FailedOrder) => {
                if *val >= 2 {
                    return LevelState::GameOver;
                }
                LevelState::OrdersFailed(val + 1)
            },
            (LevelState::GameOver, Event::FailedOrder) => LevelState::GameOver,
        }
    }
}

} // verus!
