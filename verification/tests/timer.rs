use plug_n_chug::timer::GameTimer;

#[test]
fn one_shot_timer_finishes_once() {
    let mut t = GameTimer::new_once(250);
    assert!(!t.finished());
    t.tick(100);
    assert!(!t.finished());
    assert!(!t.just_finished());
    t.tick(150);
    assert!(t.finished());
    assert!(t.just_finished());
    t.tick(50);
    assert!(t.finished());
    assert!(!t.just_finished());
}

#[test]
fn one_shot_elapsed_saturates_at_duration() {
    let mut t = GameTimer::new_once(1000);
    t.tick(5000);
    assert_eq!(t.elapsed_ms(), 1000);
    assert_eq!(t.duration_ms(), 1000);
    assert!(t.finished());
}

#[test]
fn repeating_timer_wraps_each_cycle() {
    let mut t = GameTimer::new_repeating(200);
    t.tick(150);
    assert!(!t.just_finished());
    t.tick(150);
    assert!(t.just_finished());
    assert_eq!(t.elapsed_ms(), 100);
    t.tick(50);
    assert!(!t.just_finished());
    assert!(!t.finished());
}

#[test]
fn repeating_timer_long_delta_wraps_modulo() {
    let mut t = GameTimer::new_repeating(200);
    t.tick(450);
    assert!(t.just_finished());
    assert_eq!(t.elapsed_ms(), 50);
}

#[test]
fn reset_restarts_from_zero() {
    let mut t = GameTimer::new_once(250);
    t.tick(300);
    assert!(t.finished());
    t.reset();
    assert!(!t.finished());
    assert_eq!(t.elapsed_ms(), 0);
}
