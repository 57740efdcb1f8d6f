use plug_n_chug::game::{Event, LevelState};

#[test]
fn first_failure_enters_counted_state() {
    let next = LevelState::NoFailures.next(&Event::FailedOrder);
    assert_eq!(next, LevelState::OrdersFailed(0));
}

#[test]
fn failures_count_up_to_game_over() {
    // the counted states run 0, 1, 2; the threshold fires from
    // OrdersFailed(2), where the incremented count reaches 3
    let s0 = LevelState::NoFailures;
    let s1 = s0.next(&Event::FailedOrder);
    let s2 = s1.next(&Event::FailedOrder);
    let s3 = s2.next(&Event::FailedOrder);
    let s4 = s3.next(&Event::FailedOrder);
    assert_eq!(s1, LevelState::OrdersFailed(0));
    assert_eq!(s2, LevelState::OrdersFailed(1));
    assert_eq!(s3, LevelState::OrdersFailed(2));
    assert_eq!(s4, LevelState::GameOver);
}

#[test]
fn game_over_absorbs_further_failures() {
    let over = LevelState::GameOver.next(&Event::FailedOrder);
    assert_eq!(over, LevelState::GameOver);
}

#[test]
fn counted_failures_increment_below_threshold() {
    assert_eq!(
        LevelState::OrdersFailed(0).next(&Event::FailedOrder),
        LevelState::OrdersFailed(1)
    );
    assert_eq!(LevelState::OrdersFailed(2).next(&Event::FailedOrder), LevelState::GameOver);
    assert_eq!(LevelState::OrdersFailed(7).next(&Event::FailedOrder), LevelState::GameOver);
}

#[test]
fn default_level_state_is_no_failures() {
    assert_eq!(LevelState::default(), LevelState::NoFailures);
}
