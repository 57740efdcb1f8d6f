use plug_n_chug::color::LiquidColor;
use plug_n_chug::tap_state::{DrinkInput, DrinkOutput, OutputState, TapState};
use plug_n_chug::taps::{remove_fallen_drops, run_taps, DropEmission};
use plug_n_chug::timer::GameTimer;

fn red() -> LiquidColor {
    LiquidColor { red: 255, green: 0, blue: 0 }
}

#[test]
fn fresh_state_has_no_connections() {
    let state = TapState::new();
    for output in [
        DrinkOutput::Color1,
        DrinkOutput::Color2,
        DrinkOutput::Color3,
        DrinkOutput::Mixer1,
        DrinkOutput::Mixer2,
    ] {
        assert!(state.get_output_state(match output {
            DrinkOutput::Color1 => DrinkInput::Tap1,
            DrinkOutput::Color2 => DrinkInput::Tap2,
            DrinkOutput::Color3 => DrinkInput::Tap3,
            DrinkOutput::Mixer1 => DrinkInput::Mixer1,
            DrinkOutput::Mixer2 => DrinkInput::Mixer2,
        })
        .is_none());
    }
}

#[test]
fn make_connection_steals_the_input() {
    let mut state = TapState::new();
    state.make_connection(DrinkOutput::Color1, DrinkInput::Tap1);
    assert_eq!(state.connections[0], Some(DrinkInput::Tap1));

    // routing the same input to another output clears the first slot
    state.make_connection(DrinkOutput::Color2, DrinkInput::Tap1);
    assert_eq!(state.connections[0], None);
    assert_eq!(state.connections[1], Some(DrinkInput::Tap1));

    // at most one output maps to any given input
    let claimed = state.connections.iter().filter(|c| **c == Some(DrinkInput::Tap1)).count();
    assert_eq!(claimed, 1);
}

#[test]
fn disconnect_clears_only_its_slot() {
    let mut state = TapState::new();
    state.make_connection(DrinkOutput::Color1, DrinkInput::Tap1);
    state.make_connection(DrinkOutput::Color2, DrinkInput::Tap2);
    state.disconnect(DrinkOutput::Color1);
    assert_eq!(state.connections[0], None);
    assert_eq!(state.connections[1], Some(DrinkInput::Tap2));
}

#[test]
fn reverse_lookup_finds_the_routed_output() {
    let mut state = TapState::new();
    state.make_connection(DrinkOutput::Color3, DrinkInput::Tap2);
    let found = state.get_output_state(DrinkInput::Tap2);
    assert!(found.is_some());
    assert!(state.get_output_state(DrinkInput::Tap1).is_none());
}

#[test]
fn pending_presses_saturate_at_registry_cap() {
    let mut state = TapState::new();
    state.drop_pressed(DrinkOutput::Color1);
    state.drop_pressed(DrinkOutput::Color1);
    state.drop_pressed(DrinkOutput::Color1);
    assert_eq!(state.outputs[0].pending_presses, 2);
}

#[test]
fn output_presses_saturate_at_output_cap() {
    let mut o = OutputState::new_color(red());
    o.drop_pressed();
    o.drop_pressed();
    o.drop_pressed();
    o.drop_pressed();
    assert_eq!(o.pending_presses, 3);
    assert!(o.pending_press());
}

#[test]
fn consume_press_respects_debounce_window() {
    let mut o = OutputState::new_color(red());
    o.drop_pressed();
    o.drop_pressed();
    // a fresh debounce timer has not elapsed yet
    assert!(!o.consume_press());
    o.tick(250);
    assert!(o.consume_press());
    assert_eq!(o.pending_presses, 1);
    // within the debounce window after a consumption: always false
    assert!(!o.consume_press());
    o.tick(100);
    assert!(!o.consume_press());
    o.tick(149);
    assert!(!o.consume_press());
    o.tick(1);
    assert!(o.consume_press());
    assert_eq!(o.pending_presses, 0);
    // no press left
    o.tick(250);
    assert!(!o.consume_press());
}

#[test]
fn color_output_pours_its_lightened_hue() {
    let mut o = OutputState::new_color(red());
    o.set_lightness(20);
    let drop = o.get_drop();
    assert_eq!(drop, Some(LiquidColor { red: 275, green: 20, blue: 20 }));
}

#[test]
fn mixer_pours_queued_colors_in_order() {
    let mut o = OutputState::new_mixer();
    assert_eq!(o.get_drop(), None);
    let a = LiquidColor { red: 1, green: 2, blue: 3 };
    let b = LiquidColor { red: 4, green: 5, blue: 6 };
    o.queue_color(a);
    o.queue_color(b);
    assert_eq!(o.get_drop(), Some(a));
    assert_eq!(o.get_drop(), Some(b));
    assert_eq!(o.get_drop(), None);
}

#[test]
fn mixer_queue_drops_colors_beyond_capacity() {
    let mut o = OutputState::new_mixer();
    for i in 0..70 {
        o.queue_color(LiquidColor { red: i, green: 0, blue: 0 });
    }
    let mut poured = 0;
    while o.get_drop().is_some() {
        poured += 1;
    }
    assert_eq!(poured, 64);
}

#[test]
fn set_lightness_ignores_mixers_and_set_mixer_ignores_colors() {
    let mut m = OutputState::new_mixer();
    let before = m.clone();
    m.set_lightness(10);
    assert_eq!(m, before);

    let mut c = OutputState::new_color(red());
    let before = c.clone();
    c.set_mixer(true);
    assert_eq!(c, before);
}

#[test]
fn dispense_emits_only_when_the_timer_fires() {
    let mut state = TapState::new();
    state.make_connection(DrinkOutput::Color1, DrinkInput::Tap1);
    state.output_switch(true, DrinkOutput::Color1);
    let mut timer = GameTimer::new_repeating(200);
    let inputs = vec![DrinkInput::Tap1, DrinkInput::Tap2, DrinkInput::Tap3];

    let drops = run_taps(&mut state, &mut timer, &inputs, 100);
    assert!(drops.is_empty());

    let drops = run_taps(&mut state, &mut timer, &inputs, 100);
    assert_eq!(
        drops,
        vec![DropEmission { input: DrinkInput::Tap1, color: red() }]
    );
}

#[test]
fn dispense_consumes_a_press_for_one_drop() {
    let mut state = TapState::new();
    state.make_connection(DrinkOutput::Color2, DrinkInput::Tap2);
    state.drop_pressed(DrinkOutput::Color2);
    state.tick(250); // let the debounce window elapse
    let mut timer = GameTimer::new_repeating(200);
    let inputs = vec![DrinkInput::Tap1, DrinkInput::Tap2, DrinkInput::Tap3];

    let drops = run_taps(&mut state, &mut timer, &inputs, 200);
    assert_eq!(drops.len(), 1);
    assert_eq!(drops[0].input, DrinkInput::Tap2);
    assert_eq!(state.outputs[1].pending_presses, 0);

    // the debounce timer was reset by the consumption, so the next firing
    // pours nothing even though time passed
    state.tick(200);
    let drops = run_taps(&mut state, &mut timer, &inputs, 200);
    assert!(drops.is_empty());
}

#[test]
fn dispense_from_empty_mixer_emits_nothing() {
    let mut state = TapState::new();
    state.make_connection(DrinkOutput::Mixer1, DrinkInput::Tap3);
    state.output_switch(true, DrinkOutput::Mixer1);
    let mut timer = GameTimer::new_repeating(200);
    let inputs = vec![DrinkInput::Tap3];

    let drops = run_taps(&mut state, &mut timer, &inputs, 200);
    assert!(drops.is_empty());

    state.outputs[3].queue_color(LiquidColor { red: 9, green: 9, blue: 9 });
    let drops = run_taps(&mut state, &mut timer, &inputs, 200);
    assert_eq!(drops.len(), 1);
    assert_eq!(drops[0].color, LiquidColor { red: 9, green: 9, blue: 9 });
}

#[test]
fn drops_that_hit_the_bar_table_are_removed() {
    let collisions = vec![(10, 42), (42, 11), (5, 6), (42, 42)];
    assert_eq!(remove_fallen_drops(42, &collisions), vec![10, 11, 42]);
    assert!(remove_fallen_drops(9, &vec![]).is_empty());
}
