use irrigation::constants::{HOURS_PER_DAY, MINUTES_PER_DAY, MINUTES_PER_HOUR};
use irrigation::valve::{DirectionRetry, DirectionStep, ValveState, DIRECTION_RETRY_PAUSE_MILLIS,
    MAX_DIRECTION_FAILURES};

#[test]
fn level_zero_is_closed_and_any_other_open() {
    assert_eq!(ValveState::from_level(0), ValveState::Closed);
    assert_eq!(ValveState::from_level(1), ValveState::Open);
    assert_eq!(ValveState::from_level(2), ValveState::Open);
    assert_eq!(ValveState::from_level(255), ValveState::Open);
}

#[test]
fn open_is_written_as_one_and_closed_as_zero() {
    assert_eq!(ValveState::Open.level(), 1);
    assert_eq!(ValveState::Closed.level(), 0);
    for state in [ValveState::Open, ValveState::Closed] {
        assert_eq!(ValveState::from_level(state.level()), state);
    }
}

#[test]
fn success_ends_the_tries() {
    let mut tries = DirectionRetry::new();
    assert_eq!(tries.after_attempt(true), DirectionStep::Done);
    assert_eq!(tries.after_attempt(false), DirectionStep::Retry { pause_millis: 10 });
    assert_eq!(tries.after_attempt(true), DirectionStep::Done);
}

#[test]
fn the_eleventh_failure_gives_up() {
    assert_eq!(MAX_DIRECTION_FAILURES, 10);
    assert_eq!(DIRECTION_RETRY_PAUSE_MILLIS, 10);
    let mut tries = DirectionRetry::new();
    for _ in 0..10 {
        assert_eq!(tries.after_attempt(false), DirectionStep::Retry { pause_millis: 10 });
    }
    assert_eq!(tries.after_attempt(false), DirectionStep::GiveUp { pause_millis: 10 });
    assert_eq!(tries.after_attempt(false), DirectionStep::GiveUp { pause_millis: 10 });
    assert_eq!(tries.after_attempt(true), DirectionStep::Done);
}

#[test]
fn a_day_has_1440_minutes() {
    assert_eq!(MINUTES_PER_HOUR, 60);
    assert_eq!(HOURS_PER_DAY, 24);
    assert_eq!(MINUTES_PER_DAY, 1440);
}
