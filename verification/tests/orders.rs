use plug_n_chug::color::LiquidColor;
use plug_n_chug::game::LevelState;
use plug_n_chug::orders::{
    add_drops_to_cups, add_next_order_type, get_order_size, is_cup_failed, order_size_of,
    setup_orders, spawn_orders, total_units, update_order_timers, DropOutcome, Order, OrderConfig,
    OrderList, OrderSize, OrderType, OrdersWithDifficulty, Section, SectionConfig,
};
use plug_n_chug::timer::GameTimer;

fn red() -> LiquidColor {
    LiquidColor { red: 255, green: 0, blue: 0 }
}

fn blue() -> LiquidColor {
    LiquidColor { red: 0, green: 0, blue: 255 }
}

fn off_red() -> LiquidColor {
    // outside the +/-20 red tolerance of red()
    LiquidColor { red: 100, green: 0, blue: 0 }
}

fn off_blue() -> LiquidColor {
    // outside the +/-20 red tolerance of blue()
    LiquidColor { red: 100, green: 0, blue: 255 }
}

fn medium_recipe() -> Vec<Section> {
    vec![Section { color: red(), size: 2 }, Section { color: blue(), size: 3 }]
}

#[test]
fn cup_size_multipliers() {
    assert_eq!(get_order_size(&OrderSize::Small), 1);
    assert_eq!(get_order_size(&OrderSize::Medium), 2);
    assert_eq!(get_order_size(&OrderSize::Large), 4);
    assert_eq!(OrderSize::default(), OrderSize::Medium);
}

#[test]
fn draws_map_to_cup_sizes() {
    assert_eq!(order_size_of(0), OrderSize::Small);
    assert_eq!(order_size_of(1), OrderSize::Medium);
    assert_eq!(order_size_of(2), OrderSize::Large);
    assert_eq!(order_size_of(7), OrderSize::Large);
}

#[test]
fn medium_recipe_requires_ten_units() {
    assert_eq!(total_units(&medium_recipe(), &OrderSize::Medium), 10);
    assert_eq!(total_units(&medium_recipe(), &OrderSize::Small), 5);
    assert_eq!(total_units(&medium_recipe(), &OrderSize::Large), 20);
}

#[test]
fn full_cup_within_tolerance_passes() {
    let expected = medium_recipe();
    let mut received = Vec::new();
    for _ in 0..4 {
        received.push(LiquidColor { red: 250, green: 0, blue: 0 });
    }
    for _ in 0..6 {
        received.push(LiquidColor { red: 10, green: 0, blue: 255 });
    }
    assert!(!is_cup_failed(&expected, &received, &OrderSize::Medium));
}

#[test]
fn truncated_cup_fails_as_incomplete() {
    let expected = medium_recipe();
    let mut received = Vec::new();
    for _ in 0..4 {
        received.push(red());
    }
    for _ in 0..2 {
        received.push(blue());
    }
    assert!(is_cup_failed(&expected, &received, &OrderSize::Medium));
}

#[test]
fn defects_within_budget_pass() {
    let expected = medium_recipe();
    // 2 of the 4 red units out of tolerance: within the budget of 4
    let mut received = vec![red(), off_red(), off_red(), red()];
    for _ in 0..6 {
        received.push(blue());
    }
    assert!(!is_cup_failed(&expected, &received, &OrderSize::Medium));
}

#[test]
fn defects_beyond_budget_fail() {
    let expected = medium_recipe();
    // 5 of the 6 blue units out of tolerance: beyond the budget of 4
    let mut received = vec![red(), red(), red(), red()];
    received.push(blue());
    for _ in 0..5 {
        received.push(off_blue());
    }
    assert!(is_cup_failed(&expected, &received, &OrderSize::Medium));
}

#[test]
fn a_section_no_larger_than_the_budget_never_fails_on_color() {
    // the first section holds 4 units; even all 4 wrong stays at the budget
    let expected = medium_recipe();
    let mut received = vec![off_red(), off_red(), off_red(), off_red()];
    for _ in 0..6 {
        received.push(blue());
    }
    assert!(!is_cup_failed(&expected, &received, &OrderSize::Medium));
}

#[test]
fn blue_green_channels_do_not_fail_a_cup() {
    // received colors share only the red channel with the recipe
    let expected = vec![Section { color: blue(), size: 2 }];
    let received = vec![
        LiquidColor { red: 0, green: 200, blue: 0 },
        LiquidColor { red: 15, green: 77, blue: 3 },
    ];
    assert!(!is_cup_failed(&expected, &received, &OrderSize::Small));
}

fn config(name: &str, difficulty: u32) -> OrderConfig {
    OrderConfig {
        name: name.to_string(),
        sections: vec![SectionConfig { color: red(), size: 1 }],
        difficulty,
    }
}

#[test]
fn setup_groups_recipes_by_difficulty() {
    let list = OrderList {
        orders: vec![
            config("starter-a", 0),
            config("tier2-a", 2),
            config("tier5-b", 5),
            config("tier5-c", 5),
            config("starter-b", 0),
        ],
    };
    let (available, tiers, spawn_timer, adder) = setup_orders(&list);
    let names: Vec<&str> = available.0.iter().map(|t| t.name.as_str()).collect();
    assert_eq!(names, vec!["starter-a", "starter-b"]);
    assert_eq!(tiers.tiers.len(), 2);
    assert_eq!(tiers.tiers[0].0, 2);
    assert_eq!(tiers.tiers[0].1.len(), 1);
    assert_eq!(tiers.tiers[1].0, 5);
    assert_eq!(tiers.tiers[1].1.len(), 2);
    assert_eq!(spawn_timer.0.duration_ms(), 3000);
    assert_eq!(adder.0.duration_ms(), 5000);
}

#[test]
fn lowest_difficulty_drains_tiers_in_order() {
    let list = OrderList {
        orders: vec![
            config("seed", 0),
            config("tier2-a", 2),
            config("tier5-b", 5),
            config("tier5-c", 5),
        ],
    };
    let (_, mut tiers, _, _) = setup_orders(&list);

    // tier 2 first; a tier pops from its back and leaves the map once empty
    let first = tiers.get_lowest_difficulty_order().unwrap();
    assert_eq!(first.name, "tier2-a");
    assert_eq!(tiers.tiers.len(), 1);

    let second = tiers.get_lowest_difficulty_order().unwrap();
    assert_eq!(second.name, "tier5-c");
    let third = tiers.get_lowest_difficulty_order().unwrap();
    assert_eq!(third.name, "tier5-b");
    assert!(tiers.get_lowest_difficulty_order().is_none());
}

#[test]
fn spawn_waits_for_the_timer() {
    let list = OrderList { orders: vec![config("seed-a", 0), config("seed-b", 0)] };
    let (available, _, mut spawn_timer, _) = setup_orders(&list);

    assert!(spawn_orders(&available, &mut spawn_timer, 1000).is_none());
    let spawned = spawn_orders(&available, &mut spawn_timer, 2000).expect("timer fired");
    assert!(spawned.0.received.is_empty());
    assert_eq!(spawned.0.time_remaining.duration_ms(), 60000);
    assert_eq!(spawned.0.time_remaining.elapsed_ms(), 0);
    assert!(["seed-a", "seed-b"].contains(&spawned.0.order_type.name.as_str()));
}

#[test]
fn promotion_moves_one_recipe_into_the_pool() {
    let list = OrderList { orders: vec![config("seed", 0), config("tier3-a", 3)] };
    let (mut available, mut tiers, _, mut adder) = setup_orders(&list);
    assert_eq!(available.0.len(), 1);

    add_next_order_type(&mut available, &mut tiers, &mut adder, 4000);
    assert_eq!(available.0.len(), 1);

    add_next_order_type(&mut available, &mut tiers, &mut adder, 1000);
    assert_eq!(available.0.len(), 2);
    assert_eq!(available.0[1].name, "tier3-a");
    assert!(tiers.tiers.is_empty());
}

#[test]
fn duplicate_copies_a_recipe_exactly() {
    let ot = OrderType { sections: medium_recipe(), name: "copy-me".to_string() };
    assert_eq!(ot.duplicate(), ot);
}

fn small_order(sections: Vec<Section>, received: Vec<LiquidColor>) -> Order {
    Order {
        order_type: OrderType { sections, name: "test".to_string() },
        received,
        time_remaining: GameTimer::new_once(60000),
        size: OrderSize::Small,
    }
}

#[test]
fn drops_fill_the_cup_one_unit_at_a_time() {
    let mut order = small_order(vec![Section { color: red(), size: 2 }], Vec::new());
    let state = LevelState::NoFailures;

    let (outcome, level) = add_drops_to_cups(&mut order, red(), &state);
    assert_eq!(outcome, DropOutcome::Filled { level: 1 });
    assert_eq!(level, LevelState::NoFailures);

    let (outcome, _) = add_drops_to_cups(&mut order, red(), &state);
    assert_eq!(outcome, DropOutcome::Filled { level: 2 });
    assert_eq!(order.received, vec![red(), red()]);
}

#[test]
fn overflow_on_a_good_cup_passes() {
    let mut order = small_order(vec![Section { color: red(), size: 2 }], vec![red(), red()]);
    let state = LevelState::NoFailures;
    let (outcome, level) = add_drops_to_cups(&mut order, red(), &state);
    assert_eq!(outcome, DropOutcome::Overflow { failed: false });
    assert_eq!(level, LevelState::NoFailures);
    // the overflow drop is not appended
    assert_eq!(order.received.len(), 2);
}

#[test]
fn overflow_on_a_bad_cup_fails_and_advances_the_level() {
    // 5 of the 6 received colors are out of tolerance: beyond the budget
    let expected = vec![Section { color: blue(), size: 6 }];
    let received = vec![blue(), off_blue(), off_blue(), off_blue(), off_blue(), off_blue()];
    let mut order = small_order(expected, received);
    let state = LevelState::NoFailures;
    let (outcome, level) = add_drops_to_cups(&mut order, blue(), &state);
    assert_eq!(outcome, DropOutcome::Overflow { failed: true });
    assert_eq!(level, LevelState::OrdersFailed(0));
}

#[test]
fn timer_sweep_collects_expired_orders_once() {
    let mut orders = vec![
        small_order(vec![Section { color: red(), size: 1 }], Vec::new()),
        small_order(vec![Section { color: red(), size: 1 }], Vec::new()),
    ];
    orders[1].time_remaining = GameTimer::new_once(1000);
    let state = LevelState::NoFailures;

    let (expired, level) = update_order_timers(&mut orders, 500, &state);
    assert!(expired.is_empty());
    assert_eq!(level, LevelState::NoFailures);

    let (expired, level) = update_order_timers(&mut orders, 59500, &state);
    assert_eq!(expired, vec![0, 1]);
    // however many orders expire in one sweep, the level advances one step
    assert_eq!(level, LevelState::OrdersFailed(0));
}
