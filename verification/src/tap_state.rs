//! Output registry and routing table: per-output dispensing state (on/off
//! flag, debounce timer, pending manual presses, mixer queue) and the
//! many-to-one mapping from physical inputs to logical outputs.

use vstd::prelude::*;

use crate::color::{spec_color_blue, spec_color_red, spec_color_yellow, spec_lightened, lightened, LiquidColor};
use crate::timer::GameTimer;

verus! {

/// Upper bound on presses queued through the routing table.
pub const MAX_PENDING_DROPS: usize = 2;

/// Upper bound on presses queued directly on an output.
pub const MAX_PENDING_PRESSES: usize = 3;

/// Capacity of a mixer output's blend queue.
pub const MIXER_CAPACITY: usize = 64;

/// Debounce interval between two consumable presses, in milliseconds.
pub const PRESS_DEBOUNCE_MS: u64 = 250;

/// A physical pour point a player can route to an output.
#[derive(Debug, PartialEq, Eq, Hash, Clone, Copy, Structural)]
pub enum DrinkInput {
    Tap1,
    Tap2,
    Tap3,
    Mixer1,
    Mixer2,
}

/// A logical liquid source: a fixed-hue color output or a blending mixer.
#[derive(Debug, PartialEq, Eq, Hash, Clone, Copy, Structural)]
pub enum DrinkOutput {
    Color1,
    Color2,
    Color3,
    Mixer1,
    Mixer2,
}

/// Position of an output in the registry's fixed slot order.
pub open spec fn spec_output_index(output: DrinkOutput) -> int {
    match output {
        DrinkOutput::Color1 => 0,
        DrinkOutput::Color2 => 1,
        DrinkOutput::Color3 => 2,
        DrinkOutput::Mixer1 => 3,
        DrinkOutput::Mixer2 => 4,
    }
}

/// Slot index of an output.
pub fn output_index(output: &DrinkOutput) -> (r: usize)
    ensures
        r as int == spec_output_index(*output),
{
    match output {
        DrinkOutput::Color1 => 0,
        DrinkOutput::Color2 => 1,
        DrinkOutput::Color3 => 2,
        DrinkOutput::Mixer1 => 3,
        DrinkOutput::Mixer2 => 4,
    }
}

/// State of a fixed-hue color output.
#[derive(Debug, Clone, Copy, PartialEq, Eq, Structural)]
pub struct ColorOutputState {
    pub start_color: LiquidColor,
    pub light: i32,
}

/// State of a mixer output: the blend queue (front at index 0) and the
/// blend switch.
#[derive(Debug, Clone, PartialEq)]
pub struct MixerOutputState {
    pub mixer: Vec<LiquidColor>,
    pub mixer_on: bool,
}

/// Variant-specific payload of an output.
#[derive(Debug, Clone, PartialEq)]
pub enum OutputType {
    Color(ColorOutputState),
    Mixer(MixerOutputState),
}

/// Dispensing state of one output.
#[derive(Debug, Clone, PartialEq)]
pub struct OutputState {
    pub pending_presses: usize,
    pub press_available_on: GameTimer,
    pub on: bool,
    pub output_type: OutputType,
}

impl OutputState {
    /// Structural invariant: presses saturate, the debounce timer is a
    /// well-formed one-shot, and the mixer queue stays within capacity.
    pub open spec fn wf(self) -> bool {
        &&& self.pending_presses <= MAX_PENDING_PRESSES
        &&& self.press_available_on.wf()
        &&& !self.press_available_on.repeating
        &&& (self.output_type matches OutputType::Mixer(m) ==> m.mixer@.len() <= MIXER_CAPACITY)
    }

    /// The state of a fresh color output for a given base hue.
    pub open spec fn spec_initial_color(color: LiquidColor) -> OutputState {
        OutputState {
            pending_presses: 0,
            press_available_on: GameTimer {
                duration_ms: PRESS_DEBOUNCE_MS,
                elapsed_ms: 0,
                repeating: false,
                just_finished: false,
            },
            on: false,
            output_type: OutputType::Color(ColorOutputState { start_color: color, light: 0 }),
        }
    }

    /// Whether `self` is a fresh mixer output with an empty queue.
    pub open spec fn spec_is_initial_mixer(self) -> bool {
        &&& self.pending_presses == 0
        &&& self.press_available_on == (GameTimer {
            duration_ms: PRESS_DEBOUNCE_MS,
            elapsed_ms: 0u64,
            repeating: false,
            just_finished: false,
        })
        &&& !self.on
        &&& self.output_type matches OutputType::Mixer(m) && m.mixer@.len() == 0 && !m.mixer_on
    }

    /// A fresh color output.
    pub fn new_color(color: LiquidColor) -> (r: OutputState)
        ensures
            r == Self::spec_initial_color(color),
            r.wf(),
    {
        OutputState {
            on: false,
            press_available_on: GameTimer::new_once(PRESS_DEBOUNCE_MS),
            pending_presses: 0,
            output_type: OutputType::Color(ColorOutputState { start_color: color, light: 0 }),
        }
    }

    /// A fresh mixer output.
    pub fn new_mixer() -> (r: OutputState)
        ensures
            r.spec_is_initial_mixer(),
            r.wf(),
    {
        OutputState {
            on: false,
            press_available_on: GameTimer::new_once(PRESS_DEBOUNCE_MS),
            pending_presses: 0,
            output_type: OutputType::Mixer(MixerOutputState { mixer: Vec::new(), mixer_on: false }),
        }
    }

    /// Queue one more manual press, saturating at the output's own cap.
    pub fn drop_pressed(&mut self)
        requires
            old(self).wf(),
        ensures
            *final(self) == (OutputState {
                pending_presses: if old(self).pending_presses < MAX_PENDING_PRESSES {
                    (old(self).pending_presses + 1) as usize
                } else {
                    MAX_PENDING_PRESSES
                },
                ..*old(self)
            }),
            final(self).wf(),
    {
        self.pending_presses = self.pending_presses + 1;
        if self.pending_presses > MAX_PENDING_PRESSES {
            self.pending_presses = MAX_PENDING_PRESSES;
        }
    }

    /// Whether at least one manual press is queued.
    pub fn pending_press(&self) -> (r: bool)
        ensures
            r == (self.pending_presses > 0),
    {
        self.pending_presses > 0
    }

    /// A press can be consumed only when the debounce timer has run out and
    /// a press is queued.
    pub open spec fn spec_consume_ok(self) -> bool {
        self.press_available_on.spec_finished() && self.pending_presses > 0
    }

    /// The state after a consumption attempt: on success one press is taken
    /// and the debounce timer restarts; otherwise nothing changes.
    pub open spec fn spec_consumed(self) -> OutputState {
        if self.spec_consume_ok() {
            OutputState {
                pending_presses: (self.pending_presses - 1) as usize,
                press_available_on: GameTimer {
                    duration_ms: self.press_available_on.duration_ms,
                    elapsed_ms: 0u64,
                    repeating: self.press_available_on.repeating,
                    just_finished: false,
                },
                ..self
            }
        } else {
            self
        }
    }

    /// Take one queued press if the debounce timer allows it; returns
    /// whether a press was consumed.
    pub fn consume_press(&mut self) -> (r: bool)
        requires
            old(self).wf(),
        ensures
            r == old(self).spec_consume_ok(),
            *final(self) == old(self).spec_consumed(),
            final(self).wf(),
    {
        if self.press_available_on.finished() && self.pending_presses > 0 {
            self.press_available_on.reset();
            self.pending_presses = self.pending_presses - 1;
            return true;
        }
        false
    }

    /// The state after the debounce timer advances by `delta_ms`.
    pub open spec fn spec_ticked(self, delta_ms: u64) -> OutputState {
        OutputState { press_available_on: self.press_available_on.spec_ticked(delta_ms), ..self }
    }

    /// Advance the debounce timer.
    pub fn tick(&mut self, delta_ms: u64)
        requires
            old(self).wf(),
        ensures
            *final(self) == old(self).spec_ticked(delta_ms),
            final(self).wf(),
    {
        self.press_available_on.tick(delta_ms);
    }

    /// Set the lightness adjustment of a color output; mixers are untouched.
    pub fn set_lightness(&mut self, lightness: i32)
        ensures
            match old(self).output_type {
                OutputType::Color(c) => *final(self) == (OutputState {
                    output_type: OutputType::Color(
                        ColorOutputState { start_color: c.start_color, light: lightness },
                    ),
                    ..*old(self)
                }),
                OutputType::Mixer(_) => *final(self) == *old(self),
            },
            old(self).wf() ==> final(self).wf(),
    {
        match self.output_type {
            OutputType::Color(ref mut output_state) => {
                output_state.light = lightness;
            },
            _ => {},
        }
    }

    /// Set the blend switch of a mixer output; color outputs are untouched.
    pub fn set_mixer(&mut self, switch_on: bool)
        ensures
            match old(self).output_type {
                OutputType::Mixer(m) => {
                    &&& final(self).pending_presses == old(self).pending_presses
                    &&& final(self).press_available_on == old(self).press_available_on
                    &&& final(self).on == old(self).on
                    &&& final(self).output_type matches OutputType::Mixer(m2)
                        && m2.mixer == m.mixer && m2.mixer_on == switch_on
                },
                OutputType::Color(_) => *final(self) == *old(self),
            },
            old(self).wf() ==> final(self).wf(),
    {
        match self.output_type {
            OutputType::Mixer(ref mut mixer_state) => {
                mixer_state.mixer_on = switch_on;
            },
            _ => {},
        }
    }

    /// Feed one blended color into a mixer's queue; a full queue silently
    /// drops the color, and color outputs are untouched.
    pub fn queue_color(&mut self, color: LiquidColor)
        requires
            old(self).wf(),
        ensures
            match old(self).output_type {
                OutputType::Mixer(m) => {
                    &&& final(self).pending_presses == old(self).pending_presses
                    &&& final(self).press_available_on == old(self).press_available_on
                    &&& final(self).on == old(self).on
                    &&& final(self).output_type matches OutputType::Mixer(m2)
                        && m2.mixer_on == m.mixer_on
                        && m2.mixer@ == (if m.mixer@.len() < MIXER_CAPACITY {
                            m.mixer@.push(color)
                        } else {
                            m.mixer@
                        })
                },
                OutputType::Color(_) => *final(self) == *old(self),
            },
            final(self).wf(),
    {
        match self.output_type {
            OutputType::Mixer(ref mut mixer_state) => {
                if mixer_state.mixer.len() < MIXER_CAPACITY {
                    mixer_state.mixer.push(color);
                }
            },
            _ => {},
        }
    }

    /// The color one dispensing step would emit: a color output pours its
    /// base hue at the configured lightness, a mixer pours the front of its
    /// queue and emits nothing when the queue is empty.
    pub open spec fn spec_drop_result(self) -> Option<LiquidColor> {
        match self.output_type {
            OutputType::Color(c) => Some(spec_lightened(c.start_color, c.light)),
            OutputType::Mixer(m) => if m.mixer@.len() > 0 {
                Some(m.mixer@[0])
            } else {
                None
            },
        }
    }

    /// Relation between an output's state before and after one drop is
    /// taken: a color output is unchanged, a mixer loses the front of its
    /// queue (or is unchanged when the queue is empty).
    pub open spec fn spec_drop_taken(pre: OutputState, post: OutputState) -> bool {
        match pre.output_type {
            OutputType::Color(_) => post == pre,
            OutputType::Mixer(m) => if m.mixer@.len() == 0 {
                post == pre
            } else {
                &&& post.pending_presses == pre.pending_presses
                &&& post.press_available_on == pre.press_available_on
                &&& post.on == pre.on
                &&& post.output_type matches OutputType::Mixer(m2)
                    && m2.mixer@ == m.mixer@.drop_first() && m2.mixer_on == m.mixer_on
            },
        }
    }

    /// Take one drop's color from the output.
    pub fn get_drop(&mut self) -> (r: Option<LiquidColor>)
        requires
            old(self).wf(),
        ensures
            r == old(self).spec_drop_result(),
            Self::spec_drop_taken(*old(self), *final(self)),
            final(self).wf(),
    {
        match &mut self.output_type {
            OutputType::Color(color_output_state) => Some(
                lightened(&color_output_state.start_color, color_output_state.light),
            ),
            OutputType::Mixer(mixer_output_state) => {
                if mixer_output_state.mixer.len() > 0 {
                    Some(mixer_output_state.mixer.remove(0))
                } else {
                    None
                }
            },
        }
    }
}

/// The whole registry: the routing table (`connections`, one slot per
/// output) and the dispensing state of each output, in slot order.
#[derive(Debug, Clone, PartialEq)]
pub struct TapState {
    pub connections: Vec<Option<DrinkInput>>,
    pub outputs: Vec<OutputState>,
    pub speed: usize,
}

impl TapState {
    /// Structural invariant. Besides sizes and per-output well-formedness,
    /// the routing table maps at most one output to any given input, and
    /// slot kinds are fixed: the first three slots are color outputs, the
    /// last two are mixers.
    pub open spec fn wf(self) -> bool {
        &&& self.connections@.len() == 5
        &&& self.outputs@.len() == 5
        &&& forall|i: int, j: int|
            0 <= i < 5 && 0 <= j < 5 && i != j && self.connections@[i] is Some
                ==> self.connections@[i] != self.connections@[j]
        &&& forall|i: int| 0 <= i < 5 ==> (#[trigger] self.outputs@[i]).wf()
        &&& forall|i: int|
            0 <= i < 5 ==> ((#[trigger] self.outputs@[i]).output_type is Color <==> i < 3)
    }

    /// A fresh registry: nothing routed, three color outputs with the fixed
    /// base hues, two mixers with empty queues.
    pub fn new() -> (r: TapState)
        ensures
            r.wf(),
            forall|k: int| 0 <= k < 5 ==> r.connections@[k] is None,
            r.outputs@[0] == OutputState::spec_initial_color(spec_color_red()),
            r.outputs@[1] == OutputState::spec_initial_color(spec_color_blue()),
            r.outputs@[2] == OutputState::spec_initial_color(spec_color_yellow()),
            r.outputs@[3].spec_is_initial_mixer(),
            r.outputs@[4].spec_is_initial_mixer(),
            r.speed == 1,
    {
        let mut connections: Vec<Option<DrinkInput>> = Vec::new();
        connections.push(None);
        connections.push(None);
        connections.push(None);
        connections.push(None);
        connections.push(None);

        let mut outputs: Vec<OutputState> = Vec::new();
        outputs.push(OutputState::new_color(LiquidColor { red: 255, green: 0, blue: 0 }));
        outputs.push(OutputState::new_color(LiquidColor { red: 0, green: 34, blue: 255 }));
        outputs.push(OutputState::new_color(LiquidColor { red: 234, green: 255, blue: 0 }));
        outputs.push(OutputState::new_mixer());
        outputs.push(OutputState::new_mixer());

        TapState { connections, outputs, speed: 1 }
    }

    /// Relation between the registry before and after `output` is routed
    /// from `input`: `input` is removed from whatever slot held it, then the
    /// slot of `output` is set to `input`; outputs are untouched.
    pub open spec fn spec_connection_made(
        pre: TapState,
        post: TapState,
        output: DrinkOutput,
        input: DrinkInput,
    ) -> bool {
        let oi = spec_output_index(output);
        &&& post.outputs == pre.outputs
        &&& post.speed == pre.speed
        &&& post.connections@.len() == 5
        &&& post.connections@[oi] == Some(input)
        &&& forall|k: int|
            0 <= k < 5 && k != oi
                ==> post.connections@[k] == (if pre.connections@[k] == Some(input) {
                    None::<DrinkInput>
                } else {
                    pre.connections@[k]
                })
    }

    /// Route `output` from `input`, stealing `input` from any output that
    /// previously claimed it.
    pub fn make_connection(&mut self, output: DrinkOutput, input: DrinkInput)
        requires
            old(self).wf(),
        ensures
            Self::spec_connection_made(*old(self), *final(self), output, input),
            final(self).wf(),
    {
        let mut k: usize = 0;
        while k < 5
            invariant
                self.connections@.len() == 5,
                self.outputs == old(self).outputs,
                self.speed == old(self).speed,
                k <= 5,
                forall|i: int| 0 <= i < k ==> self.connections@[i] != Some(input),
                forall|i: int| k <= i < 5 ==> self.connections@[i] == old(self).connections@[i],
                forall|i: int|
                    0 <= i < k
                        ==> self.connections@[i] == (if old(self).connections@[i] == Some(input) {
                            None::<DrinkInput>
                        } else {
                            old(self).connections@[i]
                        }),
            decreases 5 - k,
        {
            let clear = match &self.connections[k] {
                Some(stored_input) => *stored_input == input,
                None => false,
            };
            if clear {
                self.connections[k] = None;
            }
            k = k + 1;
        }
        let oi = output_index(&output);
        self.connections[oi] = Some(input);
    }

    /// Clear the routing slot of `output`.
    pub fn disconnect(&mut self, output: DrinkOutput)
        requires
            old(self).wf(),
        ensures
            final(self).outputs == old(self).outputs,
            final(self).speed == old(self).speed,
            final(self).connections@ == old(self).connections@.update(
                spec_output_index(output),
                None::<DrinkInput>,
            ),
            final(self).wf(),
    {
        let oi = output_index(&output);
        self.connections[oi] = None;
    }

    /// Relation between the registry before and after one output slot is
    /// replaced; everything else is untouched.
    pub open spec fn spec_output_updated(
        pre: TapState,
        post: TapState,
        oi: int,
        updated: OutputState,
    ) -> bool {
        &&& post.connections == pre.connections
        &&& post.speed == pre.speed
        &&& post.outputs@ == pre.outputs@.update(oi, updated)
    }

    /// Relation between the registry before and after one more manual
    /// press is queued on `output`, saturating at the routing table's cap.
    pub open spec fn spec_press_queued(pre: TapState, post: TapState, output: DrinkOutput) -> bool {
        let oi = spec_output_index(output);
        Self::spec_output_updated(
            pre,
            post,
            oi,
            OutputState {
                pending_presses: if pre.outputs@[oi].pending_presses < MAX_PENDING_DROPS {
                    (pre.outputs@[oi].pending_presses + 1) as usize
                } else {
                    pre.outputs@[oi].pending_presses
                },
                ..pre.outputs@[oi]
            },
        )
    }

    /// Queue one more manual press on `output`, saturating at the routing
    /// table's cap.
    pub fn drop_pressed(&mut self, output: DrinkOutput)
        requires
            old(self).wf(),
        ensures
            Self::spec_press_queued(*old(self), *final(self), output),
            final(self).wf(),
    {
        let oi = output_index(&output);
        let output_state = &mut self.outputs[oi];
        if output_state.pending_presses < MAX_PENDING_DROPS {
            output_state.pending_presses = output_state.pending_presses + 1;
        }
    }

    /// Relation between the registry before and after the on/off flag of
    /// `output` is set.
    pub open spec fn spec_switched(pre: TapState, post: TapState, output: DrinkOutput, switch_on: bool) -> bool {
        let oi = spec_output_index(output);
        Self::spec_output_updated(pre, post, oi, OutputState { on: switch_on, ..pre.outputs@[oi] })
    }

    /// Set the on/off flag of `output`.
    pub fn output_switch(&mut self, switch_on: bool, output: DrinkOutput)
        requires
            old(self).wf(),
        ensures
            Self::spec_switched(*old(self), *final(self), output, switch_on),
            final(self).wf(),
    {
        let oi = output_index(&output);
        self.outputs[oi].on = switch_on;
    }

    /// Relation between the registry before and after the blend switch of
    /// `output` is set; a no-op on color outputs.
    pub open spec fn spec_mixer_switched(pre: TapState, post: TapState, output: DrinkOutput, switch_on: bool) -> bool {
        let oi = spec_output_index(output);
        &&& post.connections == pre.connections
        &&& post.speed == pre.speed
        &&& post.outputs@.len() == 5
        &&& forall|k: int| 0 <= k < 5 && k != oi ==> post.outputs@[k] == pre.outputs@[k]
        &&& ({
            let pre_o = pre.outputs@[oi];
            let post_o = post.outputs@[oi];
            match pre_o.output_type {
                OutputType::Mixer(m) => {
                    &&& post_o.pending_presses == pre_o.pending_presses
                    &&& post_o.press_available_on == pre_o.press_available_on
                    &&& post_o.on == pre_o.on
                    &&& post_o.output_type matches OutputType::Mixer(m2)
                        && m2.mixer == m.mixer && m2.mixer_on == switch_on
                },
                OutputType::Color(_) => post_o == pre_o,
            }
        })
    }

    /// Set the blend switch of `output`; a no-op on color outputs.
    pub fn mixer_switch(&mut self, switch_on: bool, output: DrinkOutput)
        requires
            old(self).wf(),
        ensures
            Self::spec_mixer_switched(*old(self), *final(self), output, switch_on),
            final(self).wf(),
    {
        let oi = output_index(&output);
        let output_state = &mut self.outputs[oi];
        output_state.set_mixer(switch_on);
    }

    /// Advance every output's debounce timer by a frame delta.
    pub fn tick(&mut self, delta_ms: u64)
        requires
            old(self).wf(),
        ensures
            final(self).connections == old(self).connections,
            final(self).speed == old(self).speed,
            final(self).outputs@.len() == 5,
            forall|k: int|
                0 <= k < 5
                    ==> final(self).outputs@[k] == (#[trigger] old(self).outputs@[k]).spec_ticked(
                        delta_ms,
                    ),
            final(self).wf(),
    {
        let mut k: usize = 0;
        while k < 5
            invariant
                old(self).wf(),
                self.connections == old(self).connections,
                self.speed == old(self).speed,
                self.outputs@.len() == 5,
                k <= 5,
                forall|i: int|
                    0 <= i < k
                        ==> self.outputs@[i] == (#[trigger] old(self).outputs@[i]).spec_ticked(
                            delta_ms,
                        ),
                forall|i: int| 0 <= i < k ==> (#[trigger] self.outputs@[i]).wf(),
                forall|i: int| k <= i < 5 ==> self.outputs@[i] == old(self).outputs@[i],
            decreases 5 - k,
        {
            let output_state = &mut self.outputs[k];
            output_state.tick(delta_ms);
            k = k + 1;
        }
        proof {
            assert forall|i: int|
                0 <= i < 5 implies ((#[trigger] self.outputs@[i]).output_type is Color <==> i
                < 3) by {
                assert(self.outputs@[i] == old(self).outputs@[i].spec_ticked(delta_ms));
                assert(self.outputs@[i].output_type == old(self).outputs@[i].output_type);
            }
        }
    }

    /// The routing slot, if any, that maps to `input`. By the routing
    /// invariant there is at most one.
    pub fn routed_output_index(&self, input: DrinkInput) -> (r: Option<usize>)
        requires
            self.wf(),
        ensures
            match r {
                Some(k) => k < 5 && self.connections@[k as int] == Some(input),
                None => forall|k: int| 0 <= k < 5 ==> self.connections@[k] != Some(input),
            },
    {
        let mut k: usize = 0;
        while k < 5
            invariant
                self.wf(),
                k <= 5,
                forall|i: int| 0 <= i < k ==> self.connections@[i] != Some(input),
            decreases 5 - k,
        {
            let found = match &self.connections[k] {
                Some(stored_input) => *stored_input == input,
                None => false,
            };
            if found {
                return Some(k);
            }
            k = k + 1;
        }
        None
    }

    /// Reverse lookup: the state of the output currently routed from
    /// `input`, or nothing when `input` is unrouted.
    pub fn get_output_state(&self, input: DrinkInput) -> (r: Option<&OutputState>)
        requires
            self.wf(),
        ensures
            match r {
                Some(s) => exists|k: int|
                    0 <= k < 5 && self.connections@[k] == Some(input) && *s == self.outputs@[k],
                None => forall|k: int| 0 <= k < 5 ==> self.connections@[k] != Some(input),
            },
    {
        match self.routed_output_index(input) {
            Some(k) => Some(&self.outputs[k]),
            None => None,
        }
    }
}

/// The state of an output after its debounce timer sees a whole sequence
/// of ticks.
pub open spec fn spec_output_ticked_seq(o: OutputState, deltas: Seq<u64>) -> OutputState {
    OutputState {
        press_available_on: crate::timer::spec_ticked_seq(o.press_available_on, deltas),
        ..o
    }
}

/// Debounce law: once a press has been consumed, every further consumption
/// attempt returns false until ticks totalling at least the debounce
/// interval have passed, no matter how the ticks are split across frames.
pub proof fn lemma_debounce_window(o: OutputState, deltas: Seq<u64>)
    requires
        o.wf(),
        o.spec_consume_ok(),
        crate::timer::spec_sum(deltas) < o.press_available_on.duration_ms,
    ensures
        !spec_output_ticked_seq(o.spec_consumed(), deltas).spec_consume_ok(),
{
    let consumed = o.spec_consumed();
    assert(consumed.press_available_on.elapsed_ms == 0);
    crate::timer::lemma_ticks_below_duration(consumed.press_available_on, deltas);
}

} // verus!
