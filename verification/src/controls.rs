//! Keyboard control layer: a two-step selection scheme maps edge-triggered
//! key presses onto routing and output operations.

use vstd::prelude::*;

use crate::tap_state::{spec_output_index, DrinkInput, DrinkOutput, TapState};

verus! {

/// The logical keys the control layer reacts to.
#[derive(Debug, PartialEq, Eq, Hash, Clone, Copy, Structural)]
pub enum ControlKey {
    Numpad1,
    Numpad2,
    Numpad3,
    Numpad4,
    Numpad5,
    ArrowUp,
    ArrowDown,
    ArrowRight,
    ArrowLeft,
    Space,
}

/// The output currently selected, awaiting a command key.
#[derive(Debug, PartialEq, Eq, Clone, Copy, Structural)]
pub struct SelectedTap(pub Option<DrinkOutput>);

/// The output that a frame's pressed keys select, when none is selected
/// yet: each numpad key overwrites the selection in turn, so the highest
/// pressed numpad key wins.
pub open spec fn spec_selection(keys: Seq<ControlKey>) -> Option<DrinkOutput> {
    if keys.contains(ControlKey::Numpad5) {
        Some(DrinkOutput::Mixer2)
    } else if keys.contains(ControlKey::Numpad4) {
        Some(DrinkOutput::Mixer1)
    } else if keys.contains(ControlKey::Numpad3) {
        Some(DrinkOutput::Color3)
    } else if keys.contains(ControlKey::Numpad2) {
        Some(DrinkOutput::Color2)
    } else if keys.contains(ControlKey::Numpad1) {
        Some(DrinkOutput::Color1)
    } else {
        None
    }
}

/// The effect of a frame's pressed keys once `output` is selected: the
/// first key of the command chain decides, the selection is cleared, and
/// with no command key pressed the selection stays.
pub open spec fn spec_command_applied(
    keys: Seq<ControlKey>,
    output: DrinkOutput,
    pre: TapState,
    post: TapState,
    sel: Option<DrinkOutput>,
) -> bool {
    if keys.contains(ControlKey::Numpad1) {
        TapState::spec_connection_made(pre, post, output, DrinkInput::Tap1) && sel is None
    } else if keys.contains(ControlKey::Numpad2) {
        TapState::spec_connection_made(pre, post, output, DrinkInput::Tap2) && sel is None
    } else if keys.contains(ControlKey::Numpad3) {
        TapState::spec_connection_made(pre, post, output, DrinkInput::Tap3) && sel is None
    } else if keys.contains(ControlKey::Numpad4) {
        TapState::spec_connection_made(pre, post, output, DrinkInput::Mixer1) && sel is None
    } else if keys.contains(ControlKey::Numpad5) {
        TapState::spec_connection_made(pre, post, output, DrinkInput::Mixer2) && sel is None
    } else if keys.contains(ControlKey::ArrowUp) {
        TapState::spec_switched(pre, post, output, true) && sel is None
    } else if keys.contains(ControlKey::ArrowDown) {
        TapState::spec_switched(pre, post, output, false) && sel is None
    } else if keys.contains(ControlKey::ArrowRight) {
        TapState::spec_mixer_switched(pre, post, output, true) && sel is None
    } else if keys.contains(ControlKey::ArrowLeft) {
        TapState::spec_mixer_switched(pre, post, output, false) && sel is None
    } else if keys.contains(ControlKey::Space) {
        TapState::spec_press_queued(pre, post, output) && sel is None
    } else {
        post == pre && sel == Some(output)
    }
}

/// Whether `key` was pressed this frame.
fn key_pressed(keys: &Vec<ControlKey>, key: ControlKey) -> (r: bool)
    ensures
        r == keys@.contains(key),
{
    let mut i: usize = 0;
    while i < keys.len()
        invariant
            i <= keys@.len(),
            forall|j: int| 0 <= j < i ==> keys@[j] != key,
        decreases keys@.len() - i,
    {
        if keys[i] == key {
            return true;
        }
        i = i + 1;
    }
    false
}

/// One frame of the control layer: with no output selected, the numpad
/// keys select one; with an output selected, the first pressed command key
/// routes it, switches it, or queues a press on it.
pub fn control_system(
    keys: &Vec<ControlKey>,
    tap_state: &mut TapState,
    selected_tap: &mut SelectedTap,
)
    requires
        old(tap_state).wf(),
    ensures
        final(tap_state).wf(),
        old(selected_tap).0 is None ==> *final(tap_state) == *old(tap_state)
            && final(selected_tap).0 == spec_selection(keys@),
        old(selected_tap).0 matches Some(output) ==> spec_command_applied(
            keys@,
            output,
            *old(tap_state),
            *final(tap_state),
            final(selected_tap).0,
        ),
{
    let selected = selected_tap.0;
    match selected {
        None => {
            if key_pressed(keys, ControlKey::Numpad1) {
                selected_tap.0 = Some(DrinkOutput::Color1);
            }
            if key_pressed(keys, ControlKey::Numpad2) {
                selected_tap.0 = Some(DrinkOutput::Color2);
            }
            if key_pressed(keys, ControlKey::Numpad3) {
                selected_tap.0 = Some(DrinkOutput::Color3);
            }
            if key_pressed(keys, ControlKey::Numpad4) {
                selected_tap.0 = Some(DrinkOutput::Mixer1);
            }
            if key_pressed(keys, ControlKey::Numpad5) {
                selected_tap.0 = Some(DrinkOutput::Mixer2);
            }
        },
        Some(output) => {
            if key_pressed(keys, ControlKey::Numpad1) {
                tap_state.make_connection(output, DrinkInput::Tap1);
                selected_tap.0 = None;
            } else if key_pressed(keys, ControlKey::Numpad2) {
                tap_state.make_connection(output, DrinkInput::Tap2);
                selected_tap.0 = None;
            } else if key_pressed(keys, ControlKey::Numpad3) {
                tap_state.make_connection(output, DrinkInput::Tap3);
                selected_tap.0 = None;
            } else if key_pressed(keys, ControlKey::Numpad4) {
                tap_state.make_connection(output, DrinkInput::Mixer1);
                selected_tap.0 = None;
            } else if key_pressed(keys, ControlKey::Numpad5) {
                tap_state.make_connection(output, DrinkInput::Mixer2);
                selected_tap.0 = None;
            } else if key_pressed(keys, ControlKey::ArrowUp) {
                tap_state.output_switch(true, output);
                selected_tap.0 = None;
            } else if key_pressed(keys, ControlKey::ArrowDown) {
                tap_state.output_switch(false, output);
                selected_tap.0 = None;
            } else if key_pressed(keys, ControlKey::ArrowRight) {
                tap_state.mixer_switch(true, output);
                selected_tap.0 = None;
            } else if key_pressed(keys, ControlKey::ArrowLeft) {
                tap_state.mixer_switch(false, output);
                selected_tap.0 = None;
            } else if key_pressed(keys, ControlKey::Space) {
                tap_state.drop_pressed(output);
                selected_tap.0 = None;
            }
        },
    }
}

} // verus!
