use plug_n_chug::controls::{control_system, ControlKey, SelectedTap};
use plug_n_chug::tap_state::{DrinkInput, DrinkOutput, TapState};

#[test]
fn numpad_keys_select_an_output() {
    let mut state = TapState::new();
    let mut selected = SelectedTap(None);
    control_system(&vec![ControlKey::Numpad3], &mut state, &mut selected);
    assert_eq!(selected.0, Some(DrinkOutput::Color3));
}

#[test]
fn highest_numpad_key_wins_the_selection() {
    let mut state = TapState::new();
    let mut selected = SelectedTap(None);
    control_system(
        &vec![ControlKey::Numpad1, ControlKey::Numpad5, ControlKey::Numpad2],
        &mut state,
        &mut selected,
    );
    assert_eq!(selected.0, Some(DrinkOutput::Mixer2));
}

#[test]
fn non_numpad_keys_leave_the_selection_empty() {
    let mut state = TapState::new();
    let mut selected = SelectedTap(None);
    control_system(&vec![ControlKey::Space, ControlKey::ArrowUp], &mut state, &mut selected);
    assert_eq!(selected.0, None);
}

#[test]
fn selected_output_connects_to_the_pressed_input() {
    let mut state = TapState::new();
    let mut selected = SelectedTap(Some(DrinkOutput::Color1));
    control_system(&vec![ControlKey::Numpad2], &mut state, &mut selected);
    assert_eq!(selected.0, None);
    assert_eq!(state.connections[0], Some(DrinkInput::Tap2));
}

#[test]
fn arrows_switch_the_selected_output() {
    let mut state = TapState::new();
    let mut selected = SelectedTap(Some(DrinkOutput::Color2));
    control_system(&vec![ControlKey::ArrowUp], &mut state, &mut selected);
    assert!(state.outputs[1].on);
    assert_eq!(selected.0, None);

    let mut selected = SelectedTap(Some(DrinkOutput::Color2));
    control_system(&vec![ControlKey::ArrowDown], &mut state, &mut selected);
    assert!(!state.outputs[1].on);
}

#[test]
fn space_queues_a_manual_press() {
    let mut state = TapState::new();
    let mut selected = SelectedTap(Some(DrinkOutput::Color1));
    control_system(&vec![ControlKey::Space], &mut state, &mut selected);
    assert_eq!(state.outputs[0].pending_presses, 1);
    assert_eq!(selected.0, None);
}

#[test]
fn no_command_key_keeps_the_selection() {
    let mut state = TapState::new();
    let mut selected = SelectedTap(Some(DrinkOutput::Mixer1));
    control_system(&Vec::new(), &mut state, &mut selected);
    assert_eq!(selected.0, Some(DrinkOutput::Mixer1));
}
