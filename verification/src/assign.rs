//! Order assignment: pair pending orders with idle taps and lay out the
//! physical cup (divider offsets, total units) for each new order.

use vstd::prelude::*;

use crate::orders::{
    get_order_size, spec_order_multiplier, spec_total_units, OpenForOrder, Order, PendingOrder,
    Section,
};
use crate::rng::{random_below, shuffle_pending_orders};
use vstd::multiset::Multiset;

verus! {

/// A tap that is open for a new order, with its re-open cooldown.
#[derive(Debug, Clone, Copy, PartialEq, Eq, Structural)]
pub struct TapSlot {
    pub tap_id: u64,
    pub open_for_order: OpenForOrder,
}

/// Cup layout derived from a recipe: each divider's height in cumulative
/// units from the cup bottom, and the total required units. The host turns
/// units into geometry.
#[derive(Debug, Clone, PartialEq)]
pub struct CupPlan {
    pub divider_units: Vec<usize>,
    pub total_units: usize,
}

/// One pairing of a pending order with a tap.
#[derive(Debug, Clone, PartialEq)]
pub struct Assignment {
    pub tap_id: u64,
    pub order: Order,
    pub plan: CupPlan,
}

/// Whether `plan` is the cup layout of `sections` under `mult`: one divider
/// per section boundary, at the running sum of scaled section sizes.
pub open spec fn spec_plan_matches(plan: CupPlan, sections: Seq<Section>, mult: nat) -> bool {
    &&& plan.total_units as nat == spec_total_units(sections, mult)
    &&& plan.divider_units@.len() == (if sections.len() == 0 {
        0int
    } else {
        sections.len() - 1
    })
    &&& forall|k: int|
        0 <= k < plan.divider_units@.len() ==> (#[trigger] plan.divider_units@[k]) as nat
            == spec_total_units(sections.take(k + 1), mult)
}

/// Compute the cup layout of an order: running sums of scaled section
/// sizes, with the topmost boundary (the rim) dropped.
pub fn build_cup_plan(order: &Order) -> (r: CupPlan)
    requires
        spec_total_units(order.order_type.sections@, spec_order_multiplier(order.size))
            <= usize::MAX,
    ensures
        spec_plan_matches(r, order.order_type.sections@, spec_order_multiplier(order.size)),
{
    let ghost mult = spec_order_multiplier(order.size);
    let ghost sections = order.order_type.sections@;
    let order_size = get_order_size(&order.size);
    let mut dividers: Vec<usize> = Vec::new();
    let mut acc: usize = 0;
    let mut i: usize = 0;
    proof {
        assert(sections.take(0) =~= Seq::<Section>::empty());
    }
    while i < order.order_type.sections.len()
        invariant
            i <= sections.len(),
            sections == order.order_type.sections@,
            order_size as nat == mult,
            mult == spec_order_multiplier(order.size),
            spec_total_units(sections, mult) <= usize::MAX,
            acc as nat == spec_total_units(sections.take(i as int), mult),
            dividers@.len() == i,
            forall|k: int|
                0 <= k < i ==> (#[trigger] dividers@[k]) as nat == spec_total_units(
                    sections.take(k + 1),
                    mult,
                ),
        decreases sections.len() - i,
    {
        proof {
            crate::orders::lemma_total_units_prefix(sections, mult, i + 1);
            assert(sections.take(i + 1).drop_last() =~= sections.take(i as int));
            assert(sections.take(i + 1).last() == sections[i as int]);
        }
        acc = acc + order.order_type.sections[i].size * order_size;
        dividers.push(acc);
        i = i + 1;
    }
    dividers.pop();
    proof {
        assert(sections.take(sections.len() as int) =~= sections);
    }
    CupPlan { divider_units: dividers, total_units: acc }
}

/// The state of an open tap after its cooldown advances by a frame delta.
pub open spec fn spec_slot_ticked(slot: TapSlot, delta_ms: u64) -> TapSlot {
    TapSlot {
        tap_id: slot.tap_id,
        open_for_order: OpenForOrder(slot.open_for_order.0.spec_ticked(delta_ms)),
    }
}

/// The assignment pass over open taps, in order: each tap's cooldown is
/// ticked; a tap whose cooldown has not elapsed stays open; an elapsed tap
/// consumes the next pending order and leaves the open list. When the
/// pending orders run out the pass stops: the tap that observed exhaustion
/// stays open (already ticked) and the taps after it stay open unticked.
///
/// Returns the taps still open, the pending orders left, and the pairings
/// made, each pairing a tap id with the pending order it consumed.
pub open spec fn spec_assign(taps: Seq<TapSlot>, pending: Seq<PendingOrder>, delta_ms: u64) -> (
    Seq<TapSlot>,
    Seq<PendingOrder>,
    Seq<(u64, PendingOrder)>,
)
    decreases taps.len(),
{
    if taps.len() == 0 {
        (taps, pending, Seq::<(u64, PendingOrder)>::empty())
    } else {
        let t = spec_slot_ticked(taps[0], delta_ms);
        if !t.open_for_order.0.spec_finished() {
            let rest = spec_assign(taps.skip(1), pending, delta_ms);
            (seq![t] + rest.0, rest.1, rest.2)
        } else if pending.len() == 0 {
            (seq![t] + taps.skip(1), pending, Seq::<(u64, PendingOrder)>::empty())
        } else {
            let rest = spec_assign(taps.skip(1), pending.skip(1), delta_ms);
            (rest.0, rest.1, seq![(taps[0].tap_id, pending[0])] + rest.2)
        }
    }
}

/// Whether `post_taps`, `post_pending` and `result` are the outcome of one
/// assignment pass over `taps` and `pending`.
pub open spec fn spec_assign_outcome(
    taps: Seq<TapSlot>,
    pending: Seq<PendingOrder>,
    delta_ms: u64,
    post_taps: Seq<TapSlot>,
    post_pending: Seq<PendingOrder>,
    result: Seq<Assignment>,
) -> bool {
    let m = spec_assign(taps, pending, delta_ms);
    &&& post_taps == m.0
    &&& post_pending == m.1
    &&& result.len() == m.2.len()
    &&& forall|k: int|
        0 <= k < m.2.len() ==> ({
            let a = #[trigger] result[k];
            &&& a.tap_id == m.2[k].0
            &&& a.order == m.2[k].1.0
            &&& spec_plan_matches(
                a.plan,
                m.2[k].1.0.order_type.sections@,
                spec_order_multiplier(m.2[k].1.0.size),
            )
        })
}

/// The deterministic assignment pass, on pending orders already in
/// consumption order.
fn assign_pass(taps: &mut Vec<TapSlot>, pending_orders: &mut Vec<PendingOrder>, delta_ms: u64) -> (r:
    Vec<Assignment>)
    requires
        forall|i: int|
            0 <= i < old(taps)@.len() ==> (#[trigger] old(taps)@[i]).open_for_order.0.wf(),
        forall|p: int|
            0 <= p < old(pending_orders)@.len() ==> spec_total_units(
                (#[trigger] old(pending_orders)@[p]).0.order_type.sections@,
                spec_order_multiplier(old(pending_orders)@[p].0.size),
            ) <= usize::MAX,
    ensures
        spec_assign_outcome(
            old(taps)@,
            old(pending_orders)@,
            delta_ms,
            final(taps)@,
            final(pending_orders)@,
            r@,
        ),
{
    let ghost m = spec_assign(old(taps)@, old(pending_orders)@, delta_ms);
    let mut still_open: Vec<TapSlot> = Vec::new();
    let mut assignments: Vec<Assignment> = Vec::new();
    let mut ti: usize = 0;
    proof {
        assert(taps@.skip(0) =~= taps@);
        assert(still_open@ + m.0 =~= m.0);
    }
    while ti < taps.len()
        invariant
            ti <= taps@.len(),
            taps@ == old(taps)@,
            m == spec_assign(old(taps)@, old(pending_orders)@, delta_ms),
            forall|i: int| 0 <= i < taps@.len() ==> (#[trigger] taps@[i]).open_for_order.0.wf(),
            forall|p: int|
                0 <= p < pending_orders@.len() ==> spec_total_units(
                    (#[trigger] pending_orders@[p]).0.order_type.sections@,
                    spec_order_multiplier(pending_orders@[p].0.size),
                ) <= usize::MAX,
            ({
                let rest = spec_assign(taps@.skip(ti as int), pending_orders@, delta_ms);
                &&& m.0 == still_open@ + rest.0
                &&& m.1 == rest.1
                &&& m.2.len() == assignments@.len() + rest.2.len()
                &&& forall|k: int|
                    0 <= k < rest.2.len() ==> m.2[assignments@.len() + k] == rest.2[k]
            }),
            forall|k: int|
                0 <= k < assignments@.len() ==> ({
                    let a = #[trigger] assignments@[k];
                    &&& a.tap_id == m.2[k].0
                    &&& a.order == m.2[k].1.0
                    &&& spec_plan_matches(
                        a.plan,
                        m.2[k].1.0.order_type.sections@,
                        spec_order_multiplier(m.2[k].1.0.size),
                    )
                }),
        decreases taps@.len() - ti,
    {
        proof {
            assert(taps@.skip(ti as int).len() > 0);
            assert(taps@.skip(ti as int)[0] == taps@[ti as int]);
            assert(taps@.skip(ti as int).skip(1) =~= taps@.skip(ti + 1));
        }
        let mut slot = taps[ti];
        slot.open_for_order.0.tick(delta_ms);
        proof {
            assert(slot == spec_slot_ticked(taps@[ti as int], delta_ms));
        }
        if !slot.open_for_order.0.finished() {
            let ghost so_before = still_open@;
            still_open.push(slot);
            proof {
                let rest_before = spec_assign(taps@.skip(ti as int), pending_orders@, delta_ms);
                let rest_after = spec_assign(taps@.skip(ti + 1), pending_orders@, delta_ms);
                assert(rest_before.0 == seq![slot] + rest_after.0);
                assert(so_before + rest_before.0 =~= still_open@ + rest_after.0);
            }
            ti = ti + 1;
        } else if pending_orders.len() == 0 {
            still_open.push(slot);
            let ghost base = still_open@;
            let mut tj: usize = ti + 1;
            while tj < taps.len()
                invariant
                    ti < tj <= taps@.len(),
                    taps@ == old(taps)@,
                    still_open@ == base + taps@.subrange(ti + 1, tj as int),
                decreases taps@.len() - tj,
            {
                still_open.push(taps[tj]);
                proof {
                    assert(still_open@ =~= base + taps@.subrange(ti + 1, tj + 1));
                }
                tj = tj + 1;
            }
            proof {
                let rest_before = spec_assign(taps@.skip(ti as int), pending_orders@, delta_ms);
                assert(pending_orders@.len() == 0);
                assert(rest_before.0 == seq![slot] + taps@.skip(ti as int).skip(1));
                assert(taps@.subrange(ti + 1, taps@.len() as int) =~= taps@.skip(ti + 1));
                assert(still_open@ =~= base.drop_last() + rest_before.0);
                let rest_end = spec_assign(
                    taps@.skip(taps@.len() as int),
                    pending_orders@,
                    delta_ms,
                );
                assert(taps@.skip(taps@.len() as int) =~= Seq::<TapSlot>::empty());
                assert(rest_end.2.len() == 0);
            }
            ti = taps.len();
        } else {
            let ghost pre_pending = pending_orders@;
            let ghost rest_before = spec_assign(taps@.skip(ti as int), pre_pending, delta_ms);
            let ghost na = assignments@.len() as int;
            let pending_order = pending_orders.remove(0);
            proof {
                assert(pending_orders@ =~= pre_pending.skip(1));
                assert(pending_order == pre_pending[0]);
            }
            let plan = build_cup_plan(&pending_order.0);
            let assignment = Assignment { tap_id: slot.tap_id, order: pending_order.0, plan };
            assignments.push(assignment);
            proof {
                let rest_after = spec_assign(taps@.skip(ti + 1), pending_orders@, delta_ms);
                assert(rest_before.0 == rest_after.0);
                assert(rest_before.1 == rest_after.1);
                assert(rest_before.2 == seq![(taps@[ti as int].tap_id, pre_pending[0])]
                    + rest_after.2);
                assert(m.2[na] == rest_before.2[0]);
                assert(assignments@[na] == assignment);
                assert(assignment.tap_id == taps@[ti as int].tap_id);
                assert forall|k: int|
                    0 <= k < rest_after.2.len() implies m.2[assignments@.len() + k]
                        == rest_after.2[k] by {
                    assert(m.2[na + (k + 1)] == rest_before.2[k + 1]);
                    assert(rest_before.2[k + 1] == rest_after.2[k]);
                }
            }
            ti = ti + 1;
        }
    }
    proof {
        assert(taps@.skip(taps@.len() as int) =~= Seq::<TapSlot>::empty());
        assert(m.0 =~= still_open@);
    }
    *taps = still_open;
    assignments
}

/// Permute the open-tap list in place by repeatedly drawing a uniformly
/// random remaining tap. Which permutation comes out is chance; the length
/// and the multiset of taps are unchanged.
fn shuffle_taps(taps: &mut Vec<TapSlot>)
    ensures
        final(taps)@.to_multiset() == old(taps)@.to_multiset(),
        final(taps)@.len() == old(taps)@.len(),
{
    let ghost orig = taps@;
    let mut shuffled: Vec<TapSlot> = Vec::new();
    proof {
        broadcast use vstd::multiset::group_multiset_axioms;
        broadcast use vstd::seq_lib::group_to_multiset_ensures;

        assert(shuffled@.to_multiset() =~= Multiset::<TapSlot>::empty());
        assert(taps@.to_multiset().add(shuffled@.to_multiset()) =~= orig.to_multiset());
    }
    while taps.len() > 0
        invariant
            taps@.to_multiset().add(shuffled@.to_multiset()) == orig.to_multiset(),
            taps@.len() + shuffled@.len() == orig.len(),
        decreases taps@.len(),
    {
        let j = random_below(taps.len());
        let ghost pre = taps@;
        let ghost sh_pre = shuffled@;
        let t = taps.remove(j);
        shuffled.push(t);
        proof {
            broadcast use vstd::multiset::group_multiset_axioms;
            broadcast use vstd::seq_lib::group_to_multiset_ensures;

            assert(pre.contains(t));
            assert(pre.to_multiset().count(t) > 0);
            assert(taps@.to_multiset() =~= pre.to_multiset().remove(t));
            assert(shuffled@.to_multiset() =~= sh_pre.to_multiset().insert(t));
            assert(taps@.to_multiset().add(shuffled@.to_multiset()) =~= pre.to_multiset().add(
                sh_pre.to_multiset(),
            ));
        }
    }
    proof {
        broadcast use vstd::multiset::group_multiset_axioms;
        broadcast use vstd::seq_lib::group_to_multiset_ensures;

        assert(taps@.to_multiset() =~= Multiset::<TapSlot>::empty());
        assert(shuffled@.to_multiset() =~= orig.to_multiset());
    }
    *taps = shuffled;
}

/// A sequence holding the same value at two positions counts it at least
/// twice in its multiset.
proof fn lemma_dup_value_count(s: Seq<TapSlot>, i: int, j: int)
    requires
        0 <= i < j < s.len(),
        s[i] == s[j],
    ensures
        s.to_multiset().count(s[i]) >= 2,
{
    broadcast use vstd::multiset::group_multiset_axioms;
    broadcast use vstd::seq_lib::group_to_multiset_ensures;

    let v = s[i];
    s.remove_ensures(i);
    assert(s.remove(i)[j - 1] == v);
    assert(s.remove(i).contains(v));
    assert(s.remove(i).to_multiset() =~= s.to_multiset().remove(v));
    assert(s.remove(i).to_multiset().count(v) > 0);
}

/// Pairwise-distinct tap ids survive any permutation of the slot list.
proof fn lemma_permutation_keeps_distinct_ids(a: Seq<TapSlot>, b: Seq<TapSlot>)
    requires
        a.to_multiset() == b.to_multiset(),
        forall|i: int, j: int|
            0 <= i < j < a.len() ==> (#[trigger] a[i]).tap_id != (#[trigger] a[j]).tap_id,
    ensures
        forall|i: int, j: int|
            0 <= i < j < b.len() ==> (#[trigger] b[i]).tap_id != (#[trigger] b[j]).tap_id,
{
    broadcast use vstd::multiset::group_multiset_axioms;
    broadcast use vstd::seq_lib::group_to_multiset_ensures;

    assert forall|i: int, j: int|
        0 <= i < j < b.len() implies (#[trigger] b[i]).tap_id != (#[trigger] b[j]).tap_id by {
        if b[i].tap_id == b[j].tap_id {
            if b[i] == b[j] {
                // the duplicated slot value occurs twice in a as well,
                // necessarily at two positions with the same id
                lemma_dup_value_count(b, i, j);
                let v = b[i];
                assert(a.to_multiset().count(v) >= 2);
                assert(a.contains(v));
                let p = choose|p: int| 0 <= p < a.len() && a[p] == v;
                a.remove_ensures(p);
                assert(a.remove(p).to_multiset() =~= a.to_multiset().remove(v));
                assert(a.remove(p).to_multiset().count(v) > 0);
                assert(a.remove(p).contains(v));
                let q = choose|q: int| 0 <= q < a.remove(p).len() && a.remove(p)[q] == v;
                if q < p {
                    assert(a[q] == v);
                    assert(a[q].tap_id == a[p].tap_id);
                } else {
                    assert(a[q + 1] == v);
                    assert(a[q + 1].tap_id == a[p].tap_id);
                }
                assert(false);
            } else {
                // two distinct slot values with one id: both occur in a
                let v1 = b[i];
                let v2 = b[j];
                assert(b.contains(v1));
                assert(b.contains(v2));
                assert(b.to_multiset().count(v1) > 0);
                assert(b.to_multiset().count(v2) > 0);
                assert(a.contains(v1));
                assert(a.contains(v2));
                let p = choose|p: int| 0 <= p < a.len() && a[p] == v1;
                let q = choose|q: int| 0 <= q < a.len() && a[q] == v2;
                assert(p != q);
                assert(a[p].tap_id == a[q].tap_id);
                assert(false);
            }
        }
    }
}

/// An id assignable from a slot list is assignable from any permutation
/// of it.
proof fn lemma_assigned_ok_permutation(a: Seq<TapSlot>, b: Seq<TapSlot>, delta_ms: u64, id: u64)
    requires
        a.to_multiset() == b.to_multiset(),
        spec_assigned_ok(b, delta_ms, id),
    ensures
        spec_assigned_ok(a, delta_ms, id),
{
    broadcast use vstd::multiset::group_multiset_axioms;
    broadcast use vstd::seq_lib::group_to_multiset_ensures;

    let i = choose|i: int|
        0 <= i < b.len() && (#[trigger] b[i]).tap_id == id && spec_slot_ticked(
            b[i],
            delta_ms,
        ).open_for_order.0.spec_finished();
    let v = b[i];
    assert(b.contains(v));
    assert(b.to_multiset().count(v) > 0);
    assert(a.contains(v));
    let p = choose|p: int| 0 <= p < a.len() && a[p] == v;
    assert(a[p].tap_id == id && spec_slot_ticked(a[p], delta_ms).open_for_order.0.spec_finished());
}

/// One assignment pass: the open taps and the pending orders are each
/// shuffled independently, then paired in order where a tap's re-open
/// cooldown has elapsed. Given distinct tap ids, no two pairings of one
/// pass go to the same tap, and no pairing goes to a tap whose cooldown
/// has not elapsed.
pub fn assign_pending_orders(
    taps: &mut Vec<TapSlot>,
    pending_orders: &mut Vec<PendingOrder>,
    delta_ms: u64,
) -> (r: Vec<Assignment>)
    requires
        forall|i: int|
            0 <= i < old(taps)@.len() ==> (#[trigger] old(taps)@[i]).open_for_order.0.wf(),
        forall|p: int|
            0 <= p < old(pending_orders)@.len() ==> spec_total_units(
                (#[trigger] old(pending_orders)@[p]).0.order_type.sections@,
                spec_order_multiplier(old(pending_orders)@[p].0.size),
            ) <= usize::MAX,
    ensures
        exists|shuffled_taps: Seq<TapSlot>, shuffled_pending: Seq<PendingOrder>|
            #![trigger shuffled_taps.to_multiset(), shuffled_pending.to_multiset()]
            {
                &&& shuffled_taps.to_multiset() == old(taps)@.to_multiset()
                &&& shuffled_taps.len() == old(taps)@.len()
                &&& shuffled_pending.to_multiset() == old(pending_orders)@.to_multiset()
                &&& shuffled_pending.len() == old(pending_orders)@.len()
                &&& spec_assign_outcome(
                    shuffled_taps,
                    shuffled_pending,
                    delta_ms,
                    final(taps)@,
                    final(pending_orders)@,
                    r@,
                )
            },
        (forall|i: int, j: int|
            0 <= i < j < old(taps)@.len() ==> (#[trigger] old(taps)@[i]).tap_id != (
            #[trigger] old(taps)@[j]).tap_id) ==> ({
            &&& forall|k1: int, k2: int|
                0 <= k1 < k2 < r@.len() ==> r@[k1].tap_id != r@[k2].tap_id
            &&& forall|k: int|
                0 <= k < r@.len() ==> spec_assigned_ok(
                    old(taps)@,
                    delta_ms,
                    (#[trigger] r@[k]).tap_id,
                )
        }),
{
    shuffle_taps(taps);
    proof {
        broadcast use vstd::multiset::group_multiset_axioms;
        broadcast use vstd::seq_lib::group_to_multiset_ensures;

        assert forall|i: int|
            0 <= i < taps@.len() implies (#[trigger] taps@[i]).open_for_order.0.wf() by {
            let x = taps@[i];
            assert(taps@.contains(x));
            assert(taps@.to_multiset().count(x) > 0);
            assert(old(taps)@.to_multiset().count(x) > 0);
            assert(old(taps)@.contains(x));
            let q = choose|q: int| 0 <= q < old(taps)@.len() && old(taps)@[q] == x;
            assert((#[trigger] old(taps)@[q]).open_for_order.0.wf());
        }
    }
    let ghost shuffled_taps = taps@;
    shuffle_pending_orders(pending_orders);
    proof {
        broadcast use vstd::seq_lib::group_to_multiset_ensures;

        assert forall|p: int|
            0 <= p < pending_orders@.len() implies spec_total_units(
            (#[trigger] pending_orders@[p]).0.order_type.sections@,
            spec_order_multiplier(pending_orders@[p].0.size),
        ) <= usize::MAX by {
            let x = pending_orders@[p];
            assert(pending_orders@.contains(x));
            assert(pending_orders@.to_multiset().count(x) > 0);
            assert(old(pending_orders)@.to_multiset().count(x) > 0);
            assert(old(pending_orders)@.contains(x));
            let q = choose|q: int|
                0 <= q < old(pending_orders)@.len() && old(pending_orders)@[q] == x;
            assert(spec_total_units(
                (#[trigger] old(pending_orders)@[q]).0.order_type.sections@,
                spec_order_multiplier(old(pending_orders)@[q].0.size),
            ) <= usize::MAX);
        }
    }
    let ghost shuffled_pending = pending_orders@;
    let r = assign_pass(taps, pending_orders, delta_ms);
    proof {
        assert(shuffled_taps.to_multiset() == old(taps)@.to_multiset());
        assert(shuffled_pending.to_multiset() == old(pending_orders)@.to_multiset());
        if forall|i: int, j: int|
            0 <= i < j < old(taps)@.len() ==> (#[trigger] old(taps)@[i]).tap_id != (
            #[trigger] old(taps)@[j]).tap_id {
            lemma_permutation_keeps_distinct_ids(old(taps)@, shuffled_taps);
            lemma_assignments_sound(shuffled_taps, shuffled_pending, delta_ms);
            let m = spec_assign(shuffled_taps, shuffled_pending, delta_ms);
            assert forall|k1: int, k2: int|
                0 <= k1 < k2 < r@.len() implies r@[k1].tap_id != r@[k2].tap_id by {
                assert(r@[k1].tap_id == m.2[k1].0 && r@[k2].tap_id == m.2[k2].0);
            }
            assert forall|k: int|
                0 <= k < r@.len() implies spec_assigned_ok(
                old(taps)@,
                delta_ms,
                (#[trigger] r@[k]).tap_id,
            ) by {
                assert(r@[k].tap_id == m.2[k].0);
                assert(spec_assigned_ok(shuffled_taps, delta_ms, m.2[k].0));
                lemma_assigned_ok_permutation(old(taps)@, shuffled_taps, delta_ms, m.2[k].0);
            }
        }
    }
    r
}

/// Whether `id` is the id of some open tap whose ticked cooldown has
/// elapsed.
pub open spec fn spec_assigned_ok(taps: Seq<TapSlot>, delta_ms: u64, id: u64) -> bool {
    exists|i: int|
        0 <= i < taps.len() && (#[trigger] taps[i]).tap_id == id && spec_slot_ticked(
            taps[i],
            delta_ms,
        ).open_for_order.0.spec_finished()
}

proof fn lemma_assigned_ok_cons(taps: Seq<TapSlot>, delta_ms: u64, id: u64)
    requires
        taps.len() > 0,
        spec_assigned_ok(taps.skip(1), delta_ms, id),
    ensures
        spec_assigned_ok(taps, delta_ms, id),
{
    let tail = taps.skip(1);
    let i = choose|i: int|
        0 <= i < tail.len() && (#[trigger] tail[i]).tap_id == id && spec_slot_ticked(
            tail[i],
            delta_ms,
        ).open_for_order.0.spec_finished();
    assert(taps[i + 1] == tail[i]);
}

proof fn lemma_assigned_ok_not_head(taps: Seq<TapSlot>, delta_ms: u64, id: u64)
    requires
        forall|i: int, j: int|
            0 <= i < j < taps.len() ==> (#[trigger] taps[i]).tap_id != (#[trigger] taps[j]).tap_id,
        taps.len() > 0,
        spec_assigned_ok(taps.skip(1), delta_ms, id),
    ensures
        id != taps[0].tap_id,
{
    let tail = taps.skip(1);
    let i = choose|i: int|
        0 <= i < tail.len() && (#[trigger] tail[i]).tap_id == id && spec_slot_ticked(
            tail[i],
            delta_ms,
        ).open_for_order.0.spec_finished();
    assert(taps[i + 1] == tail[i]);
    assert(taps[0].tap_id != taps[i + 1].tap_id);
}

/// Law of the assignment pass: every pairing goes to a tap of the open
/// list whose ticked re-open cooldown has elapsed, and no two pairings of
/// one pass go to the same tap (given distinct tap ids).
pub proof fn lemma_assignments_sound(taps: Seq<TapSlot>, pending: Seq<PendingOrder>, delta_ms: u64)
    requires
        forall|i: int, j: int|
            0 <= i < j < taps.len() ==> (#[trigger] taps[i]).tap_id != (#[trigger] taps[j]).tap_id,
    ensures
        ({
            let m = spec_assign(taps, pending, delta_ms);
            &&& forall|k: int|
                0 <= k < m.2.len() ==> spec_assigned_ok(taps, delta_ms, (#[trigger] m.2[k]).0)
            &&& forall|k1: int, k2: int| 0 <= k1 < k2 < m.2.len() ==> m.2[k1].0 != m.2[k2].0
        }),
    decreases taps.len(),
{
    let m = spec_assign(taps, pending, delta_ms);
    if taps.len() == 0 {
    } else {
        let t = spec_slot_ticked(taps[0], delta_ms);
        let tail = taps.skip(1);
        assert(forall|i: int| 0 <= i < tail.len() ==> #[trigger] tail[i] == taps[i + 1]);
        if !t.open_for_order.0.spec_finished() {
            lemma_assignments_sound(tail, pending, delta_ms);
            let rest = spec_assign(tail, pending, delta_ms);
            assert(m.2 == rest.2);
            assert forall|k: int| 0 <= k < m.2.len() implies spec_assigned_ok(
                taps,
                delta_ms,
                (#[trigger] m.2[k]).0,
            ) by {
                assert(spec_assigned_ok(tail, delta_ms, rest.2[k].0));
                lemma_assigned_ok_cons(taps, delta_ms, rest.2[k].0);
            }
        } else if pending.len() == 0 {
        } else {
            lemma_assignments_sound(tail, pending.skip(1), delta_ms);
            let rest = spec_assign(tail, pending.skip(1), delta_ms);
            assert(m.2 == seq![(taps[0].tap_id, pending[0])] + rest.2);
            assert forall|k: int| 0 <= k < m.2.len() implies spec_assigned_ok(
                taps,
                delta_ms,
                (#[trigger] m.2[k]).0,
            ) by {
                if k == 0 {
                    assert(m.2[0].0 == taps[0].tap_id);
                    assert(taps[0].tap_id == taps[0].tap_id && t.open_for_order.0.spec_finished());
                } else {
                    assert(m.2[k] == rest.2[k - 1]);
                    assert(spec_assigned_ok(tail, delta_ms, rest.2[k - 1].0));
                    lemma_assigned_ok_cons(taps, delta_ms, rest.2[k - 1].0);
                }
            }
            assert forall|k1: int, k2: int| 0 <= k1 < k2 < m.2.len() implies m.2[k1].0
                != m.2[k2].0 by {
                if k1 == 0 {
                    assert(m.2[k2] == rest.2[k2 - 1]);
                    assert(spec_assigned_ok(tail, delta_ms, rest.2[k2 - 1].0));
                    lemma_assigned_ok_not_head(taps, delta_ms, rest.2[k2 - 1].0);
                } else {
                    assert(m.2[k1] == rest.2[k1 - 1] && m.2[k2] == rest.2[k2 - 1]);
                }
            }
        }
    }
}

} // verus!
