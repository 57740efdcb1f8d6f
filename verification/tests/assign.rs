use plug_n_chug::assign::{assign_pending_orders, build_cup_plan, TapSlot};
use plug_n_chug::color::LiquidColor;
use plug_n_chug::orders::{OpenForOrder, Order, OrderSize, OrderType, PendingOrder, Section};
use plug_n_chug::timer::GameTimer;

fn red() -> LiquidColor {
    LiquidColor { red: 255, green: 0, blue: 0 }
}

fn blue() -> LiquidColor {
    LiquidColor { red: 0, green: 0, blue: 255 }
}

fn order(name: &str, size: OrderSize) -> Order {
    Order {
        order_type: OrderType {
            sections: vec![
                Section { color: red(), size: 2 },
                Section { color: blue(), size: 3 },
            ],
            name: name.to_string(),
        },
        received: Vec::new(),
        time_remaining: GameTimer::new_once(60000),
        size,
    }
}

#[test]
fn cup_plan_puts_dividers_at_section_boundaries() {
    let plan = build_cup_plan(&order("plan", OrderSize::Medium));
    assert_eq!(plan.total_units, 10);
    assert_eq!(plan.divider_units, vec![4]);

    let plan = build_cup_plan(&order("plan", OrderSize::Large));
    assert_eq!(plan.total_units, 20);
    assert_eq!(plan.divider_units, vec![8]);
}

#[test]
fn cup_plan_of_a_single_section_has_no_dividers() {
    let mut o = order("one", OrderSize::Small);
    o.order_type.sections = vec![Section { color: red(), size: 3 }];
    let plan = build_cup_plan(&o);
    assert_eq!(plan.total_units, 3);
    assert!(plan.divider_units.is_empty());
}

#[test]
fn elapsed_taps_consume_pending_orders() {
    let mut taps = vec![
        TapSlot { tap_id: 1, open_for_order: OpenForOrder::new() },
        TapSlot { tap_id: 2, open_for_order: OpenForOrder::new() },
    ];
    let mut pending = vec![PendingOrder(order("only", OrderSize::Medium))];

    // the re-open cooldown (2 s) elapses for both taps; one pending order
    let assignments = assign_pending_orders(&mut taps, &mut pending, 2000);
    assert_eq!(assignments.len(), 1);
    assert_eq!(assignments[0].order.order_type.name, "only");
    assert_eq!(assignments[0].plan.total_units, 10);
    assert!(pending.is_empty());
    // the assigned tap left the open list; the other stayed
    assert_eq!(taps.len(), 1);
    assert_ne!(taps[0].tap_id, assignments[0].tap_id);
}

#[test]
fn taps_in_cooldown_are_never_assigned() {
    let mut taps = vec![TapSlot { tap_id: 7, open_for_order: OpenForOrder::new() }];
    let mut pending = vec![PendingOrder(order("waiting", OrderSize::Small))];

    let assignments = assign_pending_orders(&mut taps, &mut pending, 1999);
    assert!(assignments.is_empty());
    assert_eq!(pending.len(), 1);
    assert_eq!(taps.len(), 1);

    // the cooldown completes on a later pass
    let assignments = assign_pending_orders(&mut taps, &mut pending, 1);
    assert_eq!(assignments.len(), 1);
    assert!(taps.is_empty());
}

#[test]
fn one_pass_assigns_each_tap_at_most_once() {
    let mut taps = Vec::new();
    for id in 0..4 {
        taps.push(TapSlot { tap_id: id, open_for_order: OpenForOrder::new() });
    }
    let mut pending = Vec::new();
    for i in 0..6 {
        pending.push(PendingOrder(order(&format!("order-{i}"), OrderSize::Small)));
    }

    let assignments = assign_pending_orders(&mut taps, &mut pending, 2000);
    assert_eq!(assignments.len(), 4);
    let mut ids: Vec<u64> = assignments.iter().map(|a| a.tap_id).collect();
    ids.sort();
    ids.dedup();
    assert_eq!(ids.len(), 4);
    assert_eq!(pending.len(), 2);
    assert!(taps.is_empty());
}

#[test]
fn shuffling_keeps_the_pending_orders_intact() {
    let mut taps: Vec<TapSlot> = Vec::new();
    let mut pending = Vec::new();
    for i in 0..8 {
        pending.push(PendingOrder(order(&format!("keep-{i}"), OrderSize::Small)));
    }
    let before: Vec<String> =
        pending.iter().map(|p| p.0.order_type.name.clone()).collect();

    // no open taps: the pass only shuffles the pending orders
    let assignments = assign_pending_orders(&mut taps, &mut pending, 2000);
    assert!(assignments.is_empty());
    let mut after: Vec<String> = pending.iter().map(|p| p.0.order_type.name.clone()).collect();
    after.sort();
    let mut sorted_before = before.clone();
    sorted_before.sort();
    assert_eq!(after, sorted_before);
}

#[test]
fn shuffling_keeps_the_open_taps_intact() {
    // none of the cooldowns elapses, so the pass only permutes the taps
    let mut taps = Vec::new();
    for id in 0..6 {
        taps.push(TapSlot { tap_id: id, open_for_order: OpenForOrder::new() });
    }
    let mut pending = vec![PendingOrder(order("untouched", OrderSize::Small))];

    let assignments = assign_pending_orders(&mut taps, &mut pending, 100);
    assert!(assignments.is_empty());
    assert_eq!(pending.len(), 1);
    let mut ids: Vec<u64> = taps.iter().map(|t| t.tap_id).collect();
    ids.sort();
    assert_eq!(ids, vec![0, 1, 2, 3, 4, 5]);
}
