//! Orders: recipes grouped by difficulty, spawning of pending orders,
//! promotion of harder recipes into the ready pool, and the fill evaluator
//! that scores a cup's received colors against its recipe.

use vstd::prelude::*;

use crate::color::{color_equal, spec_color_equal, LiquidColor, COLOR_RANGE};
use crate::game::{spec_next, Event, LevelState};
use crate::rng::random_below;
use crate::timer::GameTimer;

verus! {

/// Countdown granted to a newly spawned order, in milliseconds.
pub const ORDER_TIME_LIMIT_MS: u64 = 60000;

/// Interval between two spawned pending orders, in milliseconds.
pub const ORDER_SPAWN_INTERVAL_MS: u64 = 3000;

/// Interval between two difficulty promotions, in milliseconds.
pub const DIFFICULTY_INTERVAL_MS: u64 = 5000;

/// Re-open cooldown of a tap after its order ends, in milliseconds.
pub const OPEN_FOR_ORDER_MS: u64 = 2000;

/// Per-section defect budget: a section with more out-of-tolerance colors
/// than this fails the cup.
pub const MAX_FAILURES_PER_SECTION: usize = 4;

/// Marker for a cup entity.
pub struct Cup;

/// Marker for a divider between two sections of a cup.
pub struct CupDivider;

/// Marker for a cup wall.
pub struct CupWall;

/// One contiguous color band of a recipe: target color and unit size
/// (before the cup-size multiplier).
#[derive(Debug, Clone, Copy, PartialEq, Eq, Structural)]
pub struct Section {
    pub color: LiquidColor,
    pub size: usize,
}

/// A named recipe: its sections from the bottom of the cup upward.
#[derive(Debug, Clone, PartialEq)]
pub struct OrderType {
    pub sections: Vec<Section>,
    pub name: String,
}

impl OrderType {
    /// A fresh copy with the same sections and name.
    pub fn duplicate(&self) -> (r: OrderType)
        ensures
            r.sections@ == self.sections@,
            r.name@ == self.name@,
    {
        let mut sections: Vec<Section> = Vec::new();
        let mut j: usize = 0;
        while j < self.sections.len()
            invariant
                j <= self.sections@.len(),
                sections@ == self.sections@.take(j as int),
            decreases self.sections@.len() - j,
        {
            sections.push(self.sections[j]);
            proof {
                assert(sections@ =~= self.sections@.take(j + 1));
            }
            j = j + 1;
        }
        proof {
            assert(sections@ =~= self.sections@);
        }
        OrderType { sections, name: self.name.clone() }
    }
}

/// Cup sizes and their unit-size multipliers.
#[derive(Debug, Clone, Copy, PartialEq, Eq, Default, Structural)]
pub enum OrderSize {
    Small,
    #[default]
    Medium,
    Large,
}

/// The unit-size multiplier of a cup size.
pub open spec fn spec_order_multiplier(size: OrderSize) -> nat {
    match size {
        OrderSize::Small => 1,
        OrderSize::Medium => 2,
        OrderSize::Large => 4,
    }
}

/// The unit-size multiplier of a cup size.
pub fn get_order_size(size: &OrderSize) -> (r: usize)
    ensures
        r as nat == spec_order_multiplier(*size),
{
    match size {
        OrderSize::Small => 1,
        OrderSize::Medium => 2,
        OrderSize::Large => 4,
    }
}

/// The cup size a random draw maps to: 0 is Small, 1 is Medium, any
/// larger draw is Large.
pub fn order_size_of(d: usize) -> (r: OrderSize)
    ensures
        d == 0 ==> r == OrderSize::Small,
        d == 1 ==> r == OrderSize::Medium,
        d >= 2 ==> r == OrderSize::Large,
{
    match d {
        0 => OrderSize::Small,
        1 => OrderSize::Medium,
        _ => OrderSize::Large,
    }
}

/// A uniformly random cup size: a uniform draw from three, mapped by
/// `order_size_of`. Which of the three comes back is chance, so nothing
/// more can be promised here.
pub fn random_order_size() -> OrderSize {
    order_size_of(random_below(3))
}

/// An active order: its recipe, the colors received so far (bottom-up), the
/// running countdown and the cup size.
#[derive(Debug, Clone, PartialEq)]
pub struct Order {
    pub order_type: OrderType,
    pub received: Vec<LiquidColor>,
    pub time_remaining: GameTimer,
    pub size: OrderSize,
}

/// A spawned order awaiting assignment to a free tap.
#[derive(Debug, Clone, PartialEq)]
pub struct PendingOrder(pub Order);

/// Total units a recipe requires for a given multiplier: the sum of every
/// section's scaled size.
pub open spec fn spec_total_units(sections: Seq<Section>, mult: nat) -> nat
    decreases sections.len(),
{
    if sections.len() == 0 {
        0
    } else {
        (spec_total_units(sections.drop_last(), mult) + sections.last().size * mult) as nat
    }
}

/// How many colors of `received` fall within tolerance of `expected`.
pub open spec fn spec_count_matching(received: Seq<LiquidColor>, expected: LiquidColor) -> nat
    decreases received.len(),
{
    if received.len() == 0 {
        0
    } else {
        spec_count_matching(received.drop_last(), expected) + (
        if spec_color_equal(expected, received.last(), COLOR_RANGE as int) {
            1nat
        } else {
            0nat
        })
    }
}

/// Pass/fail rule of a finished cup: walk the sections in order against
/// contiguous slices of `received`, each slice scaled by the cup-size
/// multiplier. The cup fails if some slice is not fully received, or if the
/// out-of-tolerance colors of some slice exceed the defect budget.
pub open spec fn spec_cup_failed(
    expected: Seq<Section>,
    received: Seq<LiquidColor>,
    mult: nat,
) -> bool
    decreases expected.len(),
{
    if expected.len() == 0 {
        false
    } else {
        let section_size = expected[0].size * mult;
        if received.len() < section_size {
            true
        } else {
            let matched = spec_count_matching(received.take(section_size as int), expected[0].color);
            ||| section_size - matched > MAX_FAILURES_PER_SECTION
            ||| spec_cup_failed(expected.skip(1), received.skip(section_size as int), mult)
        }
    }
}

/// Evaluate a cup against its recipe; `received` beyond the required units
/// is ignored.
pub fn is_cup_failed(expected: &Vec<Section>, received: &Vec<LiquidColor>, size: &OrderSize) -> (r:
    bool)
    requires
        forall|i: int|
            0 <= i < expected@.len()
                ==> (#[trigger] expected@[i]).size * spec_order_multiplier(*size) <= usize::MAX,
    ensures
        r == spec_cup_failed(expected@, received@, spec_order_multiplier(*size)),
{
    let ghost mult = spec_order_multiplier(*size);
    let order_size = get_order_size(size);
    let mut index: usize = 0;
    let mut si: usize = 0;
    proof {
        assert(expected@.skip(0) =~= expected@);
        assert(received@.skip(0) =~= received@);
    }
    while si < expected.len()
        invariant
            order_size as nat == mult,
            mult == spec_order_multiplier(*size),
            si <= expected@.len(),
            index <= received@.len(),
            forall|i: int|
                0 <= i < expected@.len() ==> (#[trigger] expected@[i]).size * mult <= usize::MAX,
            spec_cup_failed(expected@, received@, mult) == spec_cup_failed(
                expected@.skip(si as int),
                received@.skip(index as int),
                mult,
            ),
        decreases expected@.len() - si,
    {
        let section = &expected[si];
        let section_size = section.size * order_size;
        proof {
            assert(expected@.skip(si as int)[0] == expected@[si as int]);
            assert(section_size as int == expected@.skip(si as int)[0].size * mult);
        }

        if section_size > received.len() - index {
            proof {
                assert(received@.skip(index as int).len() < section_size);
                assert(spec_cup_failed(
                    expected@.skip(si as int),
                    received@.skip(index as int),
                    mult,
                ));
            }
            return true;
        }

        let mut matched: usize = 0;
        let mut j: usize = 0;
        while j < section_size
            invariant
                j <= section_size,
                matched <= j,
                index + section_size <= received@.len(),
                received@.len() <= usize::MAX,
                matched == spec_count_matching(
                    received@.subrange(index as int, index + j),
                    section.color,
                ),
            decreases section_size - j,
        {
            let ghost before = received@.subrange(index as int, index + j);
            assert(index + j < received@.len());
            if color_equal(&section.color, &received[index + j], COLOR_RANGE) {
                matched = matched + 1;
            }
            proof {
                let after = received@.subrange(index as int, index + j + 1);
                assert(after.drop_last() =~= before);
                assert(after.last() == received@[index + j]);
            }
            j = j + 1;
        }

        proof {
            assert(received@.skip(index as int).take(section_size as int) =~= received@.subrange(
                index as int,
                index + section_size,
            ));
        }
        if section_size - matched > MAX_FAILURES_PER_SECTION {
            proof {
                assert(spec_cup_failed(
                    expected@.skip(si as int),
                    received@.skip(index as int),
                    mult,
                ));
            }
            return true;
        }

        proof {
            assert(expected@.skip(si as int).skip(1) =~= expected@.skip(si + 1));
            assert(received@.skip(index as int).skip(section_size as int) =~= received@.skip(
                index + section_size,
            ));
        }
        index = index + section_size;
        si = si + 1;
    }
    false
}

/// A recipe section as it arrives from the declarative recipe source.
#[derive(Debug, Clone, Copy, PartialEq, Eq, Structural)]
pub struct SectionConfig {
    pub color: LiquidColor,
    pub size: usize,
}

/// A recipe as it arrives from the declarative recipe source.
#[derive(Debug, Clone, PartialEq)]
pub struct OrderConfig {
    pub name: String,
    pub sections: Vec<SectionConfig>,
    pub difficulty: u32,
}

/// The whole recipe document.
#[derive(Debug, Clone, PartialEq)]
pub struct OrderList {
    pub orders: Vec<OrderConfig>,
}

/// The section a section config describes.
pub open spec fn spec_section_of(c: SectionConfig) -> Section {
    Section { color: c.color, size: c.size }
}

/// Whether `t` is the recipe that config `c` describes.
pub open spec fn order_matches_config(t: OrderType, c: OrderConfig) -> bool {
    &&& t.name@ == c.name@
    &&& t.sections@.len() == c.sections@.len()
    &&& forall|j: int|
        0 <= j < c.sections@.len() ==> t.sections@[j] == spec_section_of(#[trigger] c.sections@[j])
}

impl Section {
    /// The section a section config describes.
    pub fn from_config(c: &SectionConfig) -> (r: Section)
        ensures
            r == spec_section_of(*c),
    {
        Section { color: c.color, size: c.size }
    }
}

impl OrderType {
    /// The recipe a config describes.
    pub fn from_config(c: &OrderConfig) -> (r: OrderType)
        ensures
            order_matches_config(r, *c),
    {
        let mut sections: Vec<Section> = Vec::new();
        let mut j: usize = 0;
        while j < c.sections.len()
            invariant
                j <= c.sections@.len(),
                sections@.len() == j,
                forall|i: int|
                    0 <= i < j ==> sections@[i] == spec_section_of(#[trigger] c.sections@[i]),
            decreases c.sections@.len() - j,
        {
            sections.push(Section::from_config(&c.sections[j]));
            j = j + 1;
        }
        OrderType { sections, name: c.name.clone() }
    }
}

/// The configs of a given difficulty, in document order.
pub open spec fn spec_configs_with(configs: Seq<OrderConfig>, difficulty: u32) -> Seq<OrderConfig>
    decreases configs.len(),
{
    if configs.len() == 0 {
        Seq::empty()
    } else {
        spec_configs_with(configs.drop_last(), difficulty) + (
        if configs.last().difficulty == difficulty {
            seq![configs.last()]
        } else {
            Seq::empty()
        })
    }
}

/// The ready pool of recipes that orders are currently spawned from.
#[derive(Debug, Clone, PartialEq)]
pub struct AvailableOrders(pub Vec<OrderType>);

/// Recipes not yet in the ready pool, grouped by difficulty tier, lowest
/// tier first.
#[derive(Debug, Clone, PartialEq)]
pub struct OrdersWithDifficulty {
    pub tiers: Vec<(u32, Vec<OrderType>)>,
}

/// The repeating timer that paces order spawning.
#[derive(Debug, Clone, Copy, PartialEq, Eq, Structural)]
pub struct OrderSpawnTimer(pub GameTimer);

/// The repeating timer that paces difficulty promotion.
#[derive(Debug, Clone, Copy, PartialEq, Eq, Structural)]
pub struct OrderDifficultyAdder(pub GameTimer);

impl OrdersWithDifficulty {
    /// Structural invariant: tiers are sorted by strictly ascending
    /// difficulty and none of them is empty.
    pub open spec fn wf(self) -> bool {
        &&& forall|a: int, b: int|
            0 <= a < b < self.tiers@.len() ==> self.tiers@[a].0 < self.tiers@[b].0
        &&& forall|i: int| 0 <= i < self.tiers@.len() ==> (#[trigger] self.tiers@[i]).1@.len() > 0
    }

    /// Drain the required difficulty-0 seed tier.
    pub fn get_starter_orders(&mut self) -> (r: Vec<OrderType>)
        requires
            old(self).wf(),
            old(self).tiers@.len() > 0,
            old(self).tiers@[0].0 == 0,
        ensures
            r == old(self).tiers@[0].1,
            final(self).tiers@ == old(self).tiers@.skip(1),
            final(self).wf(),
    {
        let entry = self.tiers.remove(0);
        proof {
            assert(self.tiers@ =~= old(self).tiers@.skip(1));
        }
        entry.1
    }

    /// Relation between the tier map before and after one recipe is taken
    /// from the lowest tier: the last recipe of the lowest tier leaves, and
    /// a tier emptied by that leaves the map.
    pub open spec fn spec_lowest_taken(pre: OrdersWithDifficulty, post: OrdersWithDifficulty) -> bool {
        if pre.tiers@.len() == 0 {
            post.tiers@ == pre.tiers@
        } else if pre.tiers@[0].1@.len() == 1 {
            post.tiers@ == pre.tiers@.skip(1)
        } else {
            &&& post.tiers@.len() == pre.tiers@.len()
            &&& post.tiers@[0].0 == pre.tiers@[0].0
            &&& post.tiers@[0].1@ == pre.tiers@[0].1@.drop_last()
            &&& forall|i: int| 1 <= i < pre.tiers@.len() ==> post.tiers@[i] == pre.tiers@[i]
        }
    }

    /// Take one recipe from the numerically lowest remaining tier, removing
    /// the tier once it empties. Returns nothing only when no tier is left.
    pub fn get_lowest_difficulty_order(&mut self) -> (r: Option<OrderType>)
        requires
            old(self).wf(),
        ensures
            Self::spec_lowest_taken(*old(self), *final(self)),
            old(self).tiers@.len() == 0 ==> r is None,
            old(self).tiers@.len() > 0 ==> r == Some(old(self).tiers@[0].1@.last()),
            final(self).wf(),
    {
        if self.tiers.len() == 0 {
            return None;
        }
        let mut entry = self.tiers.remove(0);
        let order_option = entry.1.pop();
        if entry.1.len() > 0 {
            self.tiers.insert(0, entry);
            proof {
                assert(final(self).tiers@ =~= old(self).tiers@.update(
                    0,
                    final(self).tiers@[0],
                ));
            }
        } else {
            proof {
                assert(self.tiers@ =~= old(self).tiers@.skip(1));
            }
        }
        order_option
    }
}

/// Whether one tier's recipes are exactly the configs of its difficulty,
/// in document order.
pub open spec fn spec_tier_holds(tier: (u32, Vec<OrderType>), configs: Seq<OrderConfig>) -> bool {
    let cs = spec_configs_with(configs, tier.0);
    &&& tier.1@.len() == cs.len()
    &&& forall|k: int| 0 <= k < cs.len() ==> order_matches_config(tier.1@[k], #[trigger] cs[k])
}

/// Position of difficulty `d` in a sorted tier list: the index of its tier
/// when present, else the index where its tier would be inserted.
fn tier_position(tiers: &Vec<(u32, Vec<OrderType>)>, d: u32) -> (pos: usize)
    requires
        forall|a: int, b: int| 0 <= a < b < tiers@.len() ==> tiers@[a].0 < tiers@[b].0,
    ensures
        pos <= tiers@.len(),
        forall|i: int| 0 <= i < pos ==> (#[trigger] tiers@[i]).0 < d,
        forall|i: int| pos <= i < tiers@.len() ==> (#[trigger] tiers@[i]).0 >= d,
{
    let mut pos: usize = 0;
    while pos < tiers.len() && tiers[pos].0 < d
        invariant
            pos <= tiers@.len(),
            forall|a: int, b: int| 0 <= a < b < tiers@.len() ==> tiers@[a].0 < tiers@[b].0,
            forall|i: int| 0 <= i < pos ==> (#[trigger] tiers@[i]).0 < d,
        decreases tiers@.len() - pos,
    {
        pos = pos + 1;
    }
    proof {
        assert forall|i: int| pos <= i < tiers@.len() implies (#[trigger] tiers@[i]).0 >= d by {
            if pos < tiers@.len() && i > pos {
                assert(tiers@[pos as int].0 < tiers@[i].0);
            }
        }
    }
    pos
}

/// Group a config document into difficulty tiers, sorted by ascending
/// difficulty, each tier in document order.
#[verifier::rlimit(100)]
fn group_by_difficulty(configs: &Vec<OrderConfig>) -> (r: Vec<(u32, Vec<OrderType>)>)
    ensures
        forall|a: int, b: int| 0 <= a < b < r@.len() ==> r@[a].0 < r@[b].0,
        forall|ti: int| 0 <= ti < r@.len() ==> spec_tier_holds(#[trigger] r@[ti], configs@),
        forall|d: u32| #![trigger spec_configs_with(configs@, d)]
            spec_configs_with(configs@, d).len() > 0 ==> exists|ti: int|
                0 <= ti < r@.len() && (#[trigger] r@[ti]).0 == d,
        forall|ti: int| 0 <= ti < r@.len() ==> (#[trigger] r@[ti]).1@.len() > 0,
{
    let mut tiers: Vec<(u32, Vec<OrderType>)> = Vec::new();
    let mut ci: usize = 0;
    proof {
        assert(configs@.take(0) =~= Seq::<OrderConfig>::empty());
    }
    while ci < configs.len()
        invariant
            ci <= configs@.len(),
            forall|a: int, b: int| 0 <= a < b < tiers@.len() ==> tiers@[a].0 < tiers@[b].0,
            forall|ti: int|
                0 <= ti < tiers@.len() ==> spec_tier_holds(
                    #[trigger] tiers@[ti],
                    configs@.take(ci as int),
                ),
            forall|d: u32|
                spec_configs_with(configs@.take(ci as int), d).len() > 0 ==> exists|ti: int|
                    0 <= ti < tiers@.len() && (#[trigger] tiers@[ti]).0 == d,
            forall|ti: int| 0 <= ti < tiers@.len() ==> (#[trigger] tiers@[ti]).1@.len() > 0,
        decreases configs@.len() - ci,
    {
        let config = &configs[ci];
        let d = config.difficulty;
        let order_type = OrderType::from_config(config);
        let ghost c = configs@[ci as int];
        let ghost prefix = configs@.take(ci as int);
        let ghost next_prefix = configs@.take(ci + 1);
        proof {
            assert(next_prefix.drop_last() =~= prefix);
            assert(next_prefix.last() == c);
            assert forall|d2: u32| #[trigger]
                spec_configs_with(next_prefix, d2) == spec_configs_with(prefix, d2) + (
                if c.difficulty == d2 {
                    seq![c]
                } else {
                    Seq::<OrderConfig>::empty()
                }) by {}
            assert forall|d2: u32|
                c.difficulty != d2 ==> #[trigger] spec_configs_with(next_prefix, d2)
                    == spec_configs_with(prefix, d2) by {
                if c.difficulty != d2 {
                    assert(spec_configs_with(prefix, d2) + Seq::<OrderConfig>::empty()
                        =~= spec_configs_with(prefix, d2));
                }
            }
        }
        let ghost pre = tiers@;

        let pos = tier_position(&tiers, d);
        if pos < tiers.len() && tiers[pos].0 == d {
            let mut entry = tiers.remove(pos);
            entry.1.push(order_type);
            let ghost updated = entry;
            tiers.insert(pos, entry);
            proof {
                assert(tiers@ =~= pre.update(pos as int, updated));
                let cs_pre = spec_configs_with(prefix, d);
                let cs_next = spec_configs_with(next_prefix, d);
                assert(cs_next == cs_pre + seq![c]);
                assert forall|ti: int| 0 <= ti < tiers@.len() implies spec_tier_holds(
                    #[trigger] tiers@[ti],
                    next_prefix,
                ) by {
                    if ti == pos {
                        assert(spec_tier_holds(pre[ti], prefix));
                        assert(updated.1@ == pre[ti].1@.push(order_type));
                        assert forall|k: int| 0 <= k < cs_next.len() implies order_matches_config(
                            updated.1@[k],
                            #[trigger] cs_next[k],
                        ) by {
                            if k < cs_pre.len() {
                                assert(cs_next[k] == cs_pre[k]);
                                assert(updated.1@[k] == pre[ti].1@[k]);
                            } else {
                                assert(cs_next[k] == c);
                                assert(updated.1@[k] == order_type);
                            }
                        }
                    } else {
                        assert(tiers@[ti] == pre[ti]);
                        assert(spec_tier_holds(pre[ti], prefix));
                        if ti < pos {
                            assert(pre[ti].0 < pre[pos as int].0);
                        } else {
                            assert(pre[pos as int].0 < pre[ti].0);
                        }
                        assert(pre[ti].0 != d);
                        assert(spec_configs_with(next_prefix, pre[ti].0)
                            == spec_configs_with(prefix, pre[ti].0));
                    }
                }
                assert forall|d2: u32|
                    spec_configs_with(next_prefix, d2).len() > 0 implies exists|ti: int|
                        0 <= ti < tiers@.len() && (#[trigger] tiers@[ti]).0 == d2 by {
                    if d2 == d {
                        assert(tiers@[pos as int].0 == d2);
                    } else {
                        assert(spec_configs_with(prefix, d2).len() > 0);
                        let tj = choose|tj: int|
                            0 <= tj < pre.len() && (#[trigger] pre[tj]).0 == d2;
                        assert(tiers@[tj].0 == d2);
                    }
                }
            }
        } else {
            let mut fresh: Vec<OrderType> = Vec::new();
            fresh.push(order_type);
            let ghost entry = (d, fresh);
            tiers.insert(pos, (d, fresh));
            proof {
                pre.insert_ensures(pos as int, entry);
                assert(tiers@ == pre.insert(pos as int, entry));
                // no earlier config had this difficulty
                assert(spec_configs_with(prefix, d).len() == 0) by {
                    if spec_configs_with(prefix, d).len() > 0 {
                        let tj = choose|tj: int|
                            0 <= tj < pre.len() && (#[trigger] pre[tj]).0 == d;
                        assert(pre[tj].0 >= d ==> tj >= pos);
                        assert(pre[tj].0 < d ==> tj < pos);
                    }
                }
                assert(entry.1@ =~= seq![order_type]);
                assert forall|a: int, b: int|
                    0 <= a < b < tiers@.len() implies tiers@[a].0 < tiers@[b].0 by {
                    if b < pos {
                        assert(tiers@[a] == pre[a] && tiers@[b] == pre[b]);
                    } else if a > pos {
                        assert(tiers@[a] == pre[a - 1] && tiers@[b] == pre[b - 1]);
                    } else if a == pos && b > pos {
                        assert(tiers@[b] == pre[b - 1] && pre[b - 1].0 >= d && pre[b - 1].0 != d);
                    } else if b == pos && a < pos {
                        assert(tiers@[a] == pre[a] && pre[a].0 < d);
                    } else if a < pos && b > pos {
                        assert(tiers@[a] == pre[a] && tiers@[b] == pre[b - 1]);
                        assert(pre[a].0 < d && pre[b - 1].0 >= d);
                    }
                }
                assert forall|ti: int| 0 <= ti < tiers@.len() implies spec_tier_holds(
                    #[trigger] tiers@[ti],
                    next_prefix,
                ) by {
                    let cs_next = spec_configs_with(next_prefix, d);
                    if ti == pos {
                        assert(cs_next == spec_configs_with(prefix, d) + seq![c]);
                        assert(cs_next =~= seq![c]);
                        assert(tiers@[ti] == entry);
                        assert(order_matches_config(entry.1@[0], c));
                    } else {
                        let back = if ti < pos { ti } else { ti - 1 };
                        assert(tiers@[ti] == pre[back]);
                        assert(spec_tier_holds(pre[back], prefix));
                        assert(pre[back].0 != d);
                        assert(spec_configs_with(next_prefix, pre[back].0)
                            == spec_configs_with(prefix, pre[back].0));
                    }
                }
                assert forall|d2: u32|
                    spec_configs_with(next_prefix, d2).len() > 0 implies exists|ti: int|
                        0 <= ti < tiers@.len() && (#[trigger] tiers@[ti]).0 == d2 by {
                    if d2 == d {
                        assert(tiers@[pos as int].0 == d2);
                    } else {
                        assert(spec_configs_with(prefix, d2).len() > 0);
                        let tj = choose|tj: int|
                            0 <= tj < pre.len() && (#[trigger] pre[tj]).0 == d2;
                        let fwd = if tj < pos { tj } else { tj + 1 };
                        assert(tiers@[fwd] == pre[tj]);
                        assert(tiers@[fwd].0 == d2);
                    }
                }
                assert forall|ti: int|
                    0 <= ti < tiers@.len() implies (#[trigger] tiers@[ti]).1@.len() > 0 by {
                    if ti != pos {
                        let back = if ti < pos { ti } else { ti - 1 };
                        assert(tiers@[ti] == pre[back]);
                    }
                }
            }
        }
        ci = ci + 1;
    }
    proof {
        assert(configs@.take(configs@.len() as int) =~= configs@);
    }
    tiers
}

/// Group the recipe document by difficulty, drain tier 0 into the ready
/// pool (the required seed), and start the spawn and promotion timers.
pub fn setup_orders(order_list: &OrderList) -> (r: (
    AvailableOrders,
    OrdersWithDifficulty,
    OrderSpawnTimer,
    OrderDifficultyAdder,
))
    requires
        spec_configs_with(order_list.orders@, 0).len() > 0,
    ensures
        ({
            let zero = spec_configs_with(order_list.orders@, 0);
            &&& r.0.0@.len() == zero.len()
            &&& forall|k: int|
                0 <= k < zero.len() ==> order_matches_config(r.0.0@[k], #[trigger] zero[k])
        }),
        forall|ti: int|
            0 <= ti < r.1.tiers@.len() ==> spec_tier_holds(
                #[trigger] r.1.tiers@[ti],
                order_list.orders@,
            ) && r.1.tiers@[ti].0 != 0,
        forall|d: u32|
            d != 0 && spec_configs_with(order_list.orders@, d).len() > 0 ==> exists|ti: int|
                0 <= ti < r.1.tiers@.len() && (#[trigger] r.1.tiers@[ti]).0 == d,
        r.1.wf(),
        r.2.0 == (GameTimer {
            duration_ms: ORDER_SPAWN_INTERVAL_MS,
            elapsed_ms: 0u64,
            repeating: true,
            just_finished: false,
        }),
        r.3.0 == (GameTimer {
            duration_ms: DIFFICULTY_INTERVAL_MS,
            elapsed_ms: 0u64,
            repeating: true,
            just_finished: false,
        }),
{
    let grouped = group_by_difficulty(&order_list.orders);
    let ghost g = grouped@;
    proof {
        // the difficulty-0 seed tier exists and, by sortedness, stands first
        let ti0 = choose|ti: int| 0 <= ti < g.len() && (#[trigger] g[ti]).0 == 0;
        if ti0 > 0 {
            assert(g[0].0 < g[ti0].0);
        }
        assert(g.len() > 0 && g[0].0 == 0);
    }
    let mut orders = OrdersWithDifficulty { tiers: grouped };
    let available = AvailableOrders(orders.get_starter_orders());
    proof {
        assert(spec_tier_holds(g[0], order_list.orders@));
        assert forall|ti: int| 0 <= ti < orders.tiers@.len() implies spec_tier_holds(
            #[trigger] orders.tiers@[ti],
            order_list.orders@,
        ) && orders.tiers@[ti].0 != 0 by {
            assert(orders.tiers@[ti] == g[ti + 1]);
            assert(spec_tier_holds(g[ti + 1], order_list.orders@));
            assert(g[0].0 < g[ti + 1].0);
        }
    }
    let result = (
        available,
        orders,
        OrderSpawnTimer(GameTimer::new_repeating(ORDER_SPAWN_INTERVAL_MS)),
        OrderDifficultyAdder(GameTimer::new_repeating(DIFFICULTY_INTERVAL_MS)),
    );
    proof {
        assert forall|d: u32|
            d != 0 && spec_configs_with(order_list.orders@, d).len() > 0 implies exists|ti: int|
                0 <= ti < result.1.tiers@.len() && (#[trigger] result.1.tiers@[ti]).0 == d by {
            assert(exists|ti: int|
                0 <= ti < result.1.tiers@.len() && (#[trigger] result.1.tiers@[ti]).0 == d) by {
                assert(exists|tj: int| 0 <= tj < g.len() && (#[trigger] g[tj]).0 == d);
                let tj = choose|tj: int| 0 <= tj < g.len() && (#[trigger] g[tj]).0 == d;
                if tj == 0 {
                    assert(g[0].0 == 0);
                }
                assert(result.1.tiers@[tj - 1] == g[tj]);
            }
        }
    }
    result
}

/// Every prefix sum of required units is bounded by the whole sum.
pub proof fn lemma_total_units_prefix(sections: Seq<Section>, mult: nat, i: int)
    requires
        0 <= i <= sections.len(),
    ensures
        spec_total_units(sections.take(i), mult) <= spec_total_units(sections, mult),
    decreases sections.len() - i,
{
    if i == sections.len() {
        assert(sections.take(i) =~= sections);
    } else {
        assert(sections.take(i + 1).drop_last() =~= sections.take(i));
        assert(sections.take(i + 1).last() == sections[i]);
        lemma_total_units_prefix(sections, mult, i + 1);
    }
}

/// Every single section's scaled size is bounded by the whole sum.
proof fn lemma_section_units_bound(sections: Seq<Section>, mult: nat, i: int)
    requires
        0 <= i < sections.len(),
    ensures
        sections[i].size * mult <= spec_total_units(sections, mult),
    decreases sections.len(),
{
    if i == sections.len() - 1 {
        assert(sections.last() == sections[i]);
    } else {
        assert(sections.drop_last()[i] == sections[i]);
        lemma_section_units_bound(sections.drop_last(), mult, i);
    }
}

/// Total units a recipe requires for a cup size.
pub fn total_units(sections: &Vec<Section>, size: &OrderSize) -> (r: usize)
    requires
        spec_total_units(sections@, spec_order_multiplier(*size)) <= usize::MAX,
    ensures
        r as nat == spec_total_units(sections@, spec_order_multiplier(*size)),
{
    let ghost mult = spec_order_multiplier(*size);
    let order_size = get_order_size(size);
    let mut sum: usize = 0;
    let mut i: usize = 0;
    proof {
        assert(sections@.take(0) =~= Seq::<Section>::empty());
    }
    while i < sections.len()
        invariant
            i <= sections@.len(),
            order_size as nat == mult,
            mult == spec_order_multiplier(*size),
            spec_total_units(sections@, mult) <= usize::MAX,
            sum as nat == spec_total_units(sections@.take(i as int), mult),
        decreases sections@.len() - i,
    {
        proof {
            lemma_total_units_prefix(sections@, mult, i + 1);
            assert(sections@.take(i + 1).drop_last() =~= sections@.take(i as int));
            assert(sections@.take(i + 1).last() == sections@[i as int]);
        }
        sum = sum + sections[i].size * order_size;
        i = i + 1;
    }
    proof {
        assert(sections@.take(sections@.len() as int) =~= sections@);
    }
    sum
}

/// What one drop did to a cup.
#[derive(Debug, Clone, Copy, PartialEq, Eq, Structural)]
pub enum DropOutcome {
    /// The cup was already full: it is taken away and scored.
    Overflow { failed: bool },
    /// The drop was poured in; `level` is the new fill level in units.
    Filled { level: usize },
}

/// Consume one collision between a falling drop and a cup's fill sensor.
///
/// A drop on an already-full cup is the overflow signal: the cup is scored
/// as it stands and the level state machine advances on a failure. Otherwise
/// the drop's color is appended and the fill level rises by one unit.
pub fn add_drops_to_cups(order: &mut Order, color: LiquidColor, state: &LevelState) -> (r: (
    DropOutcome,
    LevelState,
))
    requires
        spec_total_units(
            old(order).order_type.sections@,
            spec_order_multiplier(old(order).size),
        ) <= usize::MAX,
    ensures
        ({
            let mult = spec_order_multiplier(old(order).size);
            let total = spec_total_units(old(order).order_type.sections@, mult);
            let failed = spec_cup_failed(
                old(order).order_type.sections@,
                old(order).received@,
                mult,
            );
            if old(order).received@.len() >= total {
                &&& *final(order) == *old(order)
                &&& r.0 == DropOutcome::Overflow { failed }
                &&& r.1 == (if failed {
                    spec_next(*state, Event::FailedOrder)
                } else {
                    *state
                })
            } else {
                &&& final(order).order_type == old(order).order_type
                &&& final(order).size == old(order).size
                &&& final(order).time_remaining == old(order).time_remaining
                &&& final(order).received@ == old(order).received@.push(color)
                &&& r.0 matches DropOutcome::Filled { level }
                    && level as int == old(order).received@.len() + 1
                &&& r.1 == *state
            }
        }),
{
    let ghost mult = spec_order_multiplier(order.size);
    let total = total_units(&order.order_type.sections, &order.size);
    if order.received.len() >= total {
        proof {
            assert forall|i: int| 0 <= i < order.order_type.sections@.len() implies (
            #[trigger] order.order_type.sections@[i]).size * mult <= usize::MAX by {
                lemma_section_units_bound(order.order_type.sections@, mult, i);
            }
        }
        let failed = is_cup_failed(&order.order_type.sections, &order.received, &order.size);
        let next_state = if failed {
            state.next(&Event::FailedOrder)
        } else {
            *state
        };
        (DropOutcome::Overflow { failed }, next_state)
    } else {
        order.received.push(color);
        (DropOutcome::Filled { level: order.received.len() }, *state)
    }
}

/// Advance every active order's countdown and collect, in ascending index
/// order, the orders whose countdown has now run out. At most one failure
/// event reaches the level state machine per sweep, however many orders
/// expired during it.
pub fn update_order_timers(orders: &mut Vec<Order>, delta_ms: u64, state: &LevelState) -> (r: (
    Vec<usize>,
    LevelState,
))
    requires
        forall|i: int|
            0 <= i < old(orders)@.len() ==> (#[trigger] old(orders)@[i]).time_remaining.wf(),
    ensures
        final(orders)@.len() == old(orders)@.len(),
        forall|i: int|
            0 <= i < old(orders)@.len() ==> ({
                let pre = #[trigger] old(orders)@[i];
                let post = final(orders)@[i];
                &&& post.order_type == pre.order_type
                &&& post.received == pre.received
                &&& post.size == pre.size
                &&& post.time_remaining == pre.time_remaining.spec_ticked(delta_ms)
            }),
        forall|k: int| 0 <= k < r.0@.len() ==> (#[trigger] r.0@[k] as int) < old(orders)@.len(),
        forall|k1: int, k2: int| 0 <= k1 < k2 < r.0@.len() ==> r.0@[k1] < r.0@[k2],
        forall|i: usize|
            (i as int) < old(orders)@.len() ==> (r.0@.contains(i)
                <==> final(orders)@[i as int].time_remaining.spec_finished()),
        r.1 == (if r.0@.len() > 0 {
            spec_next(*state, Event::FailedOrder)
        } else {
            *state
        }),
{
    let mut expired: Vec<usize> = Vec::new();
    let mut i: usize = 0;
    while i < orders.len()
        invariant
            i <= orders@.len(),
            orders@.len() == old(orders)@.len(),
            forall|j: int|
                i <= j < orders@.len() ==> orders@[j] == #[trigger] old(orders)@[j],
            forall|j: int|
                0 <= j < i ==> ({
                    let pre = #[trigger] old(orders)@[j];
                    let post = orders@[j];
                    &&& post.order_type == pre.order_type
                    &&& post.received == pre.received
                    &&& post.size == pre.size
                    &&& post.time_remaining == pre.time_remaining.spec_ticked(delta_ms)
                }),
            forall|j: int|
                0 <= j < old(orders)@.len() ==> (#[trigger] old(orders)@[j]).time_remaining.wf(),
            forall|k: int| 0 <= k < expired@.len() ==> (#[trigger] expired@[k] as int) < i,
            forall|k1: int, k2: int| 0 <= k1 < k2 < expired@.len() ==> expired@[k1] < expired@[k2],
            forall|u: usize|
                (u as int) < i ==> (expired@.contains(u) <==> orders@[u as int].time_remaining.spec_finished()),
        decreases orders@.len() - i,
    {
        let ghost expired_before = expired@;
        proof {
            assert(orders@[i as int] == old(orders)@[i as int]);
        }
        let order = &mut orders[i];
        order.time_remaining.tick(delta_ms);
        if order.time_remaining.finished() {
            expired.push(i);
        }
        proof {
            assert forall|u: usize| (u as int) < i + 1 implies (expired@.contains(u)
                <==> orders@[u as int].time_remaining.spec_finished()) by {
                if expired@ == expired_before {
                    if expired_before.contains(u) {
                        let k = choose|k: int|
                            0 <= k < expired_before.len() && expired_before[k] == u;
                        assert(expired@[k] == u);
                    }
                } else {
                    assert(expired@ == expired_before.push(i));
                    if u as int == i as int {
                        assert(expired@[expired@.len() - 1] == i);
                        assert(expired@.contains(u));
                    } else {
                        if expired_before.contains(u) {
                            let k = choose|k: int|
                                0 <= k < expired_before.len() && expired_before[k] == u;
                            assert(expired@[k] == u);
                        }
                        if expired@.contains(u) {
                            let k = choose|k: int|
                                0 <= k < expired@.len() && expired@[k] == u;
                            assert(k < expired_before.len());
                            assert(expired_before[k] == u);
                        }
                    }
                }
            }
        }
        i = i + 1;
    }
    let next_state = if expired.len() > 0 {
        state.next(&Event::FailedOrder)
    } else {
        *state
    };
    (expired, next_state)
}

/// Spawn one pending order when the spawn timer fires and the ready pool is
/// not empty: a uniformly random recipe of the pool, a uniformly random cup
/// size, and a fresh countdown.
pub fn spawn_orders(
    available_orders: &AvailableOrders,
    order_timer: &mut OrderSpawnTimer,
    delta_ms: u64,
) -> (r: Option<PendingOrder>)
    requires
        old(order_timer).0.wf(),
    ensures
        final(order_timer).0 == old(order_timer).0.spec_ticked(delta_ms),
        ({
            let fired = old(order_timer).0.spec_ticked(delta_ms).just_finished;
            &&& (r is Some <==> fired && available_orders.0@.len() > 0)
            &&& (r matches Some(p) ==> ({
                &&& exists|i: int|
                    0 <= i < available_orders.0@.len() && p.0.order_type.sections@ == (
                    #[trigger] available_orders.0@[i]).sections@ && p.0.order_type.name@
                        == available_orders.0@[i].name@
                &&& p.0.received@.len() == 0
                &&& p.0.time_remaining == (GameTimer {
                    duration_ms: ORDER_TIME_LIMIT_MS,
                    elapsed_ms: 0u64,
                    repeating: false,
                    just_finished: false,
                })
            }))
        }),
{
    order_timer.0.tick(delta_ms);
    if order_timer.0.just_finished() && available_orders.0.len() > 0 {
        let i = random_below(available_orders.0.len());
        let order_type = available_orders.0[i].duplicate();
        Some(
            PendingOrder(
                Order {
                    order_type,
                    received: Vec::new(),
                    time_remaining: GameTimer::new_once(ORDER_TIME_LIMIT_MS),
                    size: random_order_size(),
                },
            ),
        )
    } else {
        None
    }
}

/// When the promotion timer fires, move one recipe from the lowest
/// remaining difficulty tier into the ready pool.
pub fn add_next_order_type(
    available_order: &mut AvailableOrders,
    orders_with_difficulty: &mut OrdersWithDifficulty,
    adder: &mut OrderDifficultyAdder,
    delta_ms: u64,
)
    requires
        old(orders_with_difficulty).wf(),
        old(adder).0.wf(),
    ensures
        final(adder).0 == old(adder).0.spec_ticked(delta_ms),
        final(orders_with_difficulty).wf(),
        ({
            let fired = old(adder).0.spec_ticked(delta_ms).just_finished;
            if fired && old(orders_with_difficulty).tiers@.len() > 0 {
                &&& OrdersWithDifficulty::spec_lowest_taken(
                    *old(orders_with_difficulty),
                    *final(orders_with_difficulty),
                )
                &&& final(available_order).0@ == old(available_order).0@.push(
                    old(orders_with_difficulty).tiers@[0].1@.last(),
                )
            } else {
                &&& final(orders_with_difficulty).tiers@ == old(orders_with_difficulty).tiers@
                &&& final(available_order).0@ == old(available_order).0@
            }
        }),
{
    adder.0.tick(delta_ms);
    if adder.0.just_finished() {
        match orders_with_difficulty.get_lowest_difficulty_order() {
            Some(order) => {
                available_order.0.push(order);
            },
            None => {},
        }
    }
}

/// Tag of a tap that is open for a new order, with its re-open cooldown.
#[derive(Debug, Clone, Copy, PartialEq, Eq, Structural)]
pub struct OpenForOrder(pub GameTimer);

impl OpenForOrder {
    /// A fresh re-open cooldown.
    pub fn new() -> (r: OpenForOrder)
        ensures
            r.0 == (GameTimer {
                duration_ms: OPEN_FOR_ORDER_MS,
                elapsed_ms: 0u64,
                repeating: false,
                just_finished: false,
            }),
    {
        OpenForOrder(GameTimer::new_once(OPEN_FOR_ORDER_MS))
    }
}

} // verus!
