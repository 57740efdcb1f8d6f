//! Dispense scheduler: a fixed-interval timer gates drop emission; on each
//! firing, every routed input whose output is on or has a consumable press
//! emits one drop of that output's current color.

use vstd::prelude::*;

use crate::color::LiquidColor;
use crate::tap_state::{DrinkInput, OutputState, OutputType, TapState};
use crate::timer::GameTimer;

verus! {

/// Interval between two dispensing opportunities, in milliseconds.
pub const DISPENSE_INTERVAL_MS: u64 = 200;

/// The color carried by a falling drop.
#[derive(Debug, Clone, Copy, PartialEq, Eq, Structural)]
pub struct ColorDrop(pub LiquidColor);

/// One drop emitted by the scheduler: the input it pours from and its color.
#[derive(Debug, Clone, Copy, PartialEq, Eq, Structural)]
pub struct DropEmission {
    pub input: DrinkInput,
    pub color: LiquidColor,
}

/// Whether routing slot `k` maps to `input`.
pub open spec fn spec_routes(s: TapState, k: int, input: DrinkInput) -> bool {
    0 <= k < 5 && s.connections@[k] == Some(input)
}

/// Whether no routing slot maps to `input`.
pub open spec fn spec_unrouted(s: TapState, input: DrinkInput) -> bool {
    forall|k: int| 0 <= k < 5 ==> s.connections@[k] != Some(input)
}

/// Whether slot `k` is routed from one of `inputs`.
pub open spec fn spec_touched(s: TapState, inputs: Seq<DrinkInput>, k: int) -> bool {
    exists|j: int| 0 <= j < inputs.len() && s.connections@[k] == Some(#[trigger] inputs[j])
}

/// An output pours when it is switched on or a press is consumable.
pub open spec fn spec_pour(o: OutputState) -> bool {
    o.spec_consume_ok() || o.on
}

/// The color one dispensing step emits from an output, if any: the
/// consumption attempt happens first, then the (possibly empty) pour.
pub open spec fn spec_dispense_result(o: OutputState) -> Option<LiquidColor> {
    if spec_pour(o) {
        o.spec_consumed().spec_drop_result()
    } else {
        None
    }
}

/// Relation between an output's state before and after one dispensing
/// step: the consumption attempt always happens; the pour, when due, takes
/// the front of a mixer's queue.
pub open spec fn spec_dispensed_rel(pre: OutputState, post: OutputState) -> bool {
    if spec_pour(pre) {
        OutputState::spec_drop_taken(pre.spec_consumed(), post)
    } else {
        post == pre
    }
}

/// The color that `input` would emit from the registry state `s`.
pub open spec fn spec_input_emission(s: TapState, input: DrinkInput) -> Option<LiquidColor> {
    if exists|k: int| spec_routes(s, k, input) {
        let k = choose|k: int| spec_routes(s, k, input);
        spec_dispense_result(s.outputs@[k])
    } else {
        None
    }
}

/// The drops one firing of the dispense timer emits, in input order,
/// against the registry state at the start of the pass.
pub open spec fn spec_emissions(s: TapState, inputs: Seq<DrinkInput>) -> Seq<DropEmission>
    decreases inputs.len(),
{
    if inputs.len() == 0 {
        Seq::<DropEmission>::empty()
    } else {
        let rest = spec_emissions(s, inputs.skip(1));
        match spec_input_emission(s, inputs[0]) {
            Some(c) => seq![DropEmission { input: inputs[0], color: c }] + rest,
            None => rest,
        }
    }
}

/// Emissions distribute over appending one input.
proof fn lemma_emissions_push(s: TapState, xs: Seq<DrinkInput>, x: DrinkInput)
    ensures
        spec_emissions(s, xs.push(x)) == spec_emissions(s, xs) + (match spec_input_emission(
            s,
            x,
        ) {
            Some(c) => seq![DropEmission { input: x, color: c }],
            None => Seq::<DropEmission>::empty(),
        }),
    decreases xs.len(),
{
    let tail_emission = match spec_input_emission(s, x) {
        Some(c) => seq![DropEmission { input: x, color: c }],
        None => Seq::<DropEmission>::empty(),
    };
    if xs.len() == 0 {
        assert(xs.push(x).len() == 1);
        assert(xs.push(x)[0] == x);
        assert(xs.push(x).skip(1) =~= xs);
        assert(spec_emissions(s, xs) =~= Seq::<DropEmission>::empty());
        match spec_input_emission(s, x) {
            Some(c) => {
                assert(spec_emissions(s, xs.push(x)) =~= seq![DropEmission { input: x, color: c }]);
                assert(spec_emissions(s, xs) + tail_emission =~= tail_emission);
            },
            None => {
                assert(spec_emissions(s, xs.push(x)) =~= Seq::<DropEmission>::empty());
                assert(spec_emissions(s, xs) + tail_emission =~= tail_emission);
            },
        }
    } else {
        assert(xs.push(x)[0] == xs[0]);
        assert(xs.push(x).skip(1) =~= xs.skip(1).push(x));
        lemma_emissions_push(s, xs.skip(1), x);
        match spec_input_emission(s, xs[0]) {
            Some(c) => {
                assert(seq![DropEmission { input: xs[0], color: c }] + (spec_emissions(
                    s,
                    xs.skip(1),
                ) + tail_emission) =~= (seq![DropEmission { input: xs[0], color: c }]
                    + spec_emissions(s, xs.skip(1))) + tail_emission);
            },
            None => {},
        }
    }
}

impl TapState {
    /// One dispensing step for `input`: attempt a press consumption on its
    /// routed output and, when the output pours, take one drop's color.
    pub fn try_dispense(&mut self, input: DrinkInput) -> (r: Option<LiquidColor>)
        requires
            old(self).wf(),
        ensures
            final(self).wf(),
            final(self).connections == old(self).connections,
            final(self).speed == old(self).speed,
            final(self).outputs@.len() == 5,
            spec_unrouted(*old(self), input) ==> *final(self) == *old(self) && r is None,
            forall|k: int|
                spec_routes(*old(self), k, input) ==> ({
                    &&& r == spec_dispense_result(old(self).outputs@[k])
                    &&& spec_dispensed_rel(old(self).outputs@[k], final(self).outputs@[k])
                    &&& forall|j: int|
                        0 <= j < 5 && j != k ==> final(self).outputs@[j] == old(self).outputs@[j]
                }),
    {
        match self.routed_output_index(input) {
            Some(k) => {
                let output_state = &mut self.outputs[k];
                let poured = output_state.consume_press() || output_state.on;
                let r = if poured {
                    let output_state = &mut self.outputs[k];
                    output_state.get_drop()
                } else {
                    None
                };
                proof {
                    assert forall|i: int|
                        0 <= i < 5 implies ((#[trigger] self.outputs@[i]).output_type is Color
                        <==> i < 3) by {
                        if i != k {
                            assert(self.outputs@[i] == old(self).outputs@[i]);
                        } else {
                            let pre = old(self).outputs@[i];
                            let post = self.outputs@[i];
                            assert(pre.spec_consumed().output_type == pre.output_type);
                            if poured {
                                assert(OutputState::spec_drop_taken(pre.spec_consumed(), post));
                                match pre.output_type {
                                    OutputType::Color(_) => {
                                        assert(post == pre.spec_consumed());
                                    },
                                    OutputType::Mixer(_) => {
                                        assert(post.output_type is Mixer);
                                    },
                                }
                            } else {
                                assert(post == pre.spec_consumed());
                            }
                        }
                    }
                }
                r
            },
            None => None,
        }
    }
}

/// One frame of the dispense scheduler: advance the dispense timer by the
/// frame delta and, exactly when it fires, give every routed input one
/// dispensing step, collecting the emitted drops in input order.
#[verifier::rlimit(60)]
pub fn run_taps(
    tap_state: &mut TapState,
    dispense_timer: &mut GameTimer,
    inputs: &Vec<DrinkInput>,
    delta_ms: u64,
) -> (r: Vec<DropEmission>)
    requires
        old(tap_state).wf(),
        old(dispense_timer).wf(),
        forall|i: int, j: int| 0 <= i < j < inputs@.len() ==> inputs@[i] != inputs@[j],
    ensures
        *final(dispense_timer) == old(dispense_timer).spec_ticked(delta_ms),
        final(tap_state).wf(),
        ({
            let fired = old(dispense_timer).spec_ticked(delta_ms).just_finished;
            if !fired {
                &&& *final(tap_state) == *old(tap_state)
                &&& r@ == Seq::<DropEmission>::empty()
            } else {
                &&& r@ == spec_emissions(*old(tap_state), inputs@)
                &&& final(tap_state).connections == old(tap_state).connections
                &&& final(tap_state).speed == old(tap_state).speed
                &&& final(tap_state).outputs@.len() == 5
                &&& forall|k: int|
                    0 <= k < 5 && spec_touched(*old(tap_state), inputs@, k)
                        ==> spec_dispensed_rel(
                        old(tap_state).outputs@[k],
                        final(tap_state).outputs@[k],
                    )
                &&& forall|k: int|
                    0 <= k < 5 && !spec_touched(*old(tap_state), inputs@, k)
                        ==> final(tap_state).outputs@[k] == old(tap_state).outputs@[k]
            }
        }),
{
    dispense_timer.tick(delta_ms);
    let mut result: Vec<DropEmission> = Vec::new();
    if !dispense_timer.just_finished() {
        return result;
    }
    let mut i: usize = 0;
    proof {
        assert(inputs@.take(0) =~= Seq::<DrinkInput>::empty());
    }
    while i < inputs.len()
        invariant
            i <= inputs@.len(),
            tap_state.wf(),
            tap_state.connections == old(tap_state).connections,
            tap_state.speed == old(tap_state).speed,
            tap_state.outputs@.len() == 5,
            old(tap_state).wf(),
            forall|a: int, b: int| 0 <= a < b < inputs@.len() ==> inputs@[a] != inputs@[b],
            result@ == spec_emissions(*old(tap_state), inputs@.take(i as int)),
            forall|k: int|
                0 <= k < 5 && spec_touched(*old(tap_state), inputs@.take(i as int), k)
                    ==> spec_dispensed_rel(old(tap_state).outputs@[k], tap_state.outputs@[k]),
            forall|k: int|
                0 <= k < 5 && !spec_touched(*old(tap_state), inputs@.take(i as int), k)
                    ==> tap_state.outputs@[k] == old(tap_state).outputs@[k],
        decreases inputs@.len() - i,
    {
        let ghost pre = *tap_state;
        let ghost prefix = inputs@.take(i as int);
        let input = inputs[i];
        let emitted = tap_state.try_dispense(input);
        match emitted {
            Some(color) => {
                result.push(DropEmission { input, color });
            },
            None => {},
        }
        proof {
            assert(inputs@.take(i + 1) =~= prefix.push(input));
            lemma_emissions_push(*old(tap_state), prefix, input);
            if exists|k: int| spec_routes(*old(tap_state), k, input) {
                let k = choose|k: int| spec_routes(*old(tap_state), k, input);
                // no earlier input touched slot k, so its output was still
                // in its start-of-pass state when this step ran
                assert(!spec_touched(*old(tap_state), prefix, k)) by {
                    if spec_touched(*old(tap_state), prefix, k) {
                        let j = choose|j: int|
                            0 <= j < prefix.len() && old(tap_state).connections@[k] == Some(
                                #[trigger] prefix[j],
                            );
                        assert(inputs@[j] == prefix[j]);
                        assert(inputs@[j] != input);
                    }
                }
                assert(pre.outputs@[k] == old(tap_state).outputs@[k]);
                assert(spec_routes(pre, k, input));
                assert(emitted == spec_dispense_result(pre.outputs@[k]));
                assert(spec_input_emission(*old(tap_state), input) == emitted) by {
                    let k2 = choose|k2: int| spec_routes(*old(tap_state), k2, input);
                    assert(old(tap_state).connections@[k2] == Some(input));
                    assert(old(tap_state).connections@[k] == Some(input));
                    assert(k2 == k);
                }
                assert forall|k3: int|
                    0 <= k3 < 5 && spec_touched(*old(tap_state), inputs@.take(i + 1), k3)
                        implies spec_dispensed_rel(
                    old(tap_state).outputs@[k3],
                    tap_state.outputs@[k3],
                ) by {
                    if k3 == k {
                        assert(spec_routes(pre, k, input));
                        assert(spec_dispensed_rel(pre.outputs@[k], tap_state.outputs@[k]));
                        assert(pre.outputs@[k] == old(tap_state).outputs@[k]);
                    } else {
                        if !spec_touched(*old(tap_state), prefix, k3) {
                            let j = choose|j: int|
                                0 <= j < inputs@.take(i + 1).len() && old(
                                    tap_state,
                                ).connections@[k3] == Some(#[trigger] inputs@.take(i + 1)[j]);
                            assert(inputs@.take(i + 1)[j] == inputs@[j]);
                            assert(j == i);
                            assert(old(tap_state).connections@[k3] == Some(input));
                            assert(false);
                        }
                        assert(tap_state.outputs@[k3] == pre.outputs@[k3]);
                    }
                }
                assert forall|k3: int|
                    0 <= k3 < 5 && !spec_touched(*old(tap_state), inputs@.take(i + 1), k3)
                        implies tap_state.outputs@[k3] == old(tap_state).outputs@[k3] by {
                    assert(!spec_touched(*old(tap_state), prefix, k3)) by {
                        if spec_touched(*old(tap_state), prefix, k3) {
                            let j = choose|j: int|
                                0 <= j < prefix.len() && old(tap_state).connections@[k3] == Some(
                                    #[trigger] prefix[j],
                                );
                            assert(inputs@.take(i + 1)[j] == prefix[j]);
                        }
                    }
                    assert(k3 != k) by {
                        if k3 == k {
                            assert(inputs@.take(i + 1)[i as int] == input);
                        }
                    }
                }
            } else {
                assert forall|k: int| 0 <= k < 5 implies pre.connections@[k] != Some(input) by {
                    assert(pre.connections@ == old(tap_state).connections@);
                    if old(tap_state).connections@[k] == Some(input) {
                        assert(spec_routes(*old(tap_state), k, input));
                    }
                }
                assert(spec_unrouted(pre, input));
                assert(*tap_state == pre);
                assert(emitted is None);
                assert(spec_input_emission(*old(tap_state), input) is None);
                assert forall|k3: int|
                    0 <= k3 < 5 && spec_touched(*old(tap_state), inputs@.take(i + 1), k3)
                        implies spec_touched(*old(tap_state), prefix, k3) by {
                    let j = choose|j: int|
                        0 <= j < inputs@.take(i + 1).len() && old(tap_state).connections@[k3]
                            == Some(#[trigger] inputs@.take(i + 1)[j]);
                    if j == i {
                        assert(old(tap_state).connections@[k3] == Some(input));
                        assert(spec_routes(*old(tap_state), k3, input));
                        assert(false);
                    } else {
                        assert(prefix[j] == inputs@.take(i + 1)[j]);
                    }
                }
                assert forall|k3: int|
                    0 <= k3 < 5 && spec_touched(*old(tap_state), inputs@.take(i + 1), k3)
                        implies spec_dispensed_rel(
                    old(tap_state).outputs@[k3],
                    tap_state.outputs@[k3],
                ) by {
                    assert(spec_touched(*old(tap_state), prefix, k3));
                    assert(tap_state.outputs@[k3] == pre.outputs@[k3]);
                }
                assert forall|k3: int|
                    0 <= k3 < 5 && !spec_touched(*old(tap_state), inputs@.take(i + 1), k3)
                        implies tap_state.outputs@[k3] == old(tap_state).outputs@[k3] by {
                    assert(!spec_touched(*old(tap_state), prefix, k3)) by {
                        if spec_touched(*old(tap_state), prefix, k3) {
                            let j = choose|j: int|
                                0 <= j < prefix.len() && old(tap_state).connections@[k3] == Some(
                                    #[trigger] prefix[j],
                                );
                            assert(inputs@.take(i + 1)[j] == prefix[j]);
                        }
                    }
                    assert(tap_state.outputs@[k3] == pre.outputs@[k3]);
                }
            }
            match spec_input_emission(*old(tap_state), input) {
                Some(c) => {
                    assert(result@ =~= spec_emissions(*old(tap_state), prefix) + seq![
                        DropEmission { input, color: c },
                    ]);
                },
                None => {
                    assert(result@ =~= spec_emissions(*old(tap_state), prefix));
                },
            }
            assert(result@ =~= spec_emissions(*old(tap_state), inputs@.take(i + 1)));
        }
        i = i + 1;
    }
    proof {
        assert(inputs@.take(inputs@.len() as int) =~= inputs@);
    }
    result
}

/// The entities to despawn for a batch of started collisions against the
/// bar table: for each collision that involves the table, the other side.
#[verifier::opaque]
pub open spec fn spec_fallen_drops(bar_table: u64, collisions: Seq<(u64, u64)>) -> Seq<u64>
    decreases collisions.len(),
{
    if collisions.len() == 0 {
        Seq::<u64>::empty()
    } else {
        let event = collisions.last();
        spec_fallen_drops(bar_table, collisions.drop_last()) + (if event.0 == bar_table {
            seq![event.1]
        } else if event.1 == bar_table {
            seq![event.0]
        } else {
            Seq::<u64>::empty()
        })
    }
}

/// From a batch of started collisions, pick the drops that fell onto the
/// bar table: whenever one side of a collision is the table, the other
/// side is a drop to remove.
pub fn remove_fallen_drops(bar_table: u64, collisions: &Vec<(u64, u64)>) -> (r: Vec<u64>)
    ensures
        r@ == spec_fallen_drops(bar_table, collisions@),
{
    let mut fallen: Vec<u64> = Vec::new();
    let mut i: usize = 0;
    proof {
        reveal(spec_fallen_drops);
        assert(collisions@.take(0) =~= Seq::<(u64, u64)>::empty());
        assert(fallen@ =~= spec_fallen_drops(bar_table, collisions@.take(0)));
    }
    while i < collisions.len()
        invariant
            i <= collisions@.len(),
            fallen@ == spec_fallen_drops(bar_table, collisions@.take(i as int)),
        decreases collisions@.len() - i,
    {
        proof {
            reveal(spec_fallen_drops);
            assert(collisions@.take(i + 1).drop_last() =~= collisions@.take(i as int));
            assert(collisions@.take(i + 1).last() == collisions@[i as int]);
        }
        let event = collisions[i];
        if event.0 == bar_table {
            fallen.push(event.1);
        } else if event.1 == bar_table {
            fallen.push(event.0);
        }
        proof {
            reveal(spec_fallen_drops);
            assert(fallen@ =~= spec_fallen_drops(bar_table, collisions@.take(i + 1)));
        }
        i = i + 1;
    }
    proof {
        assert(collisions@.take(collisions@.len() as int) =~= collisions@);
    }
    fallen
}

} // verus!
