use artifactsmmo_semi_auto_bot::bank::BankController;
use artifactsmmo_semi_auto_bot::orderboard::{Order, OrderBoard, OrderError, Purpose};
use artifactsmmo_semi_auto_bot::schema::SimpleItemSchema;
use artifactsmmo_semi_auto_bot::sdk::skill::Skill;

fn s(x: &str) -> String {
    x.to_string()
}

fn board() -> OrderBoard {
    OrderBoard::new(vec![s("copper_ore"), s("iron_ore"), s("cooked_gudgeon")])
}

#[test]
fn order_of_zero_is_refused() {
    assert!(matches!(
        Order::new(None, &s("copper_ore"), 0, Purpose::Cli),
        Err(OrderError::InvalidQuantity)
    ));
    let o = Order::new(Some(&s("char1")), &s("copper_ore"), 5, Purpose::Cli).unwrap();
    assert_eq!(5, o.quantity());
    assert_eq!(5, o.missing());
    assert_eq!(0, o.deposited());
    assert_eq!(0, o.in_progress());
    assert!(!o.turned_in());
}

#[test]
fn order_counters() {
    let mut o = Order::new(None, &s("copper_ore"), 10, Purpose::Cli).unwrap();
    o.inc_deposited(4);
    assert_eq!(6, o.missing());
    o.inc_in_progress(3);
    o.dec_in_progress(5);
    assert_eq!(0, o.in_progress());
    o.inc_deposited(7);
    assert!(o.turned_in());
    assert_eq!(0, o.missing());
    o.reset();
    assert_eq!(0, o.deposited());
}

#[test]
fn board_add_and_refusals() {
    let mut b = board();
    assert_eq!(Ok(()), b.add(&s("copper_ore"), 10, &None, Purpose::Cli));
    assert_eq!(
        Err(OrderError::AlreadyExists),
        b.add(&s("copper_ore"), 3, &None, Purpose::Cli)
    );
    assert_eq!(
        Err(OrderError::UnknownItem),
        b.add(&s("gold_ore"), 3, &None, Purpose::Cli)
    );
    assert_eq!(
        Err(OrderError::InvalidQuantity),
        b.add(&s("iron_ore"), 0, &None, Purpose::Cli)
    );
    assert_eq!(
        Ok(()),
        b.add(&s("copper_ore"), 3, &Some(s("char1")), Purpose::Task { char: s("char1") })
    );
    assert_eq!(2, b.orders().len());
    assert!(b.is_ordered(&s("copper_ore")));
    assert!(!b.is_ordered(&s("iron_ore")));
    let o = b.get(&s("copper_ore"), &None, &Purpose::Cli).unwrap();
    assert_eq!(10, o.quantity());
    assert!(b.get(&s("iron_ore"), &None, &Purpose::Cli).is_none());
}

#[test]
fn board_remove_drops_similar_orders() {
    let mut b = board();
    b.add(&s("copper_ore"), 10, &None, Purpose::Cli).unwrap();
    b.add(&s("iron_ore"), 10, &None, Purpose::Cli).unwrap();
    let o = b.get(&s("copper_ore"), &None, &Purpose::Cli).unwrap();
    b.remove(&o);
    assert_eq!(1, b.orders().len());
    assert!(!b.is_ordered(&s("copper_ore")));
    assert!(b.is_ordered(&s("iron_ore")));
}

#[test]
fn board_priority_by_purpose() {
    let mut b = board();
    b.add(
        &s("iron_ore"),
        5,
        &Some(s("char1")),
        Purpose::Leveling { char: s("char1"), skill: Skill::Mining },
    )
    .unwrap();
    b.add(&s("copper_ore"), 5, &None, Purpose::Cli).unwrap();
    b.add(&s("cooked_gudgeon"), 5, &Some(s("char2")), Purpose::Food { char: s("char2") })
        .unwrap();
    let sorted = b.orders_by_priority();
    assert_eq!(3, sorted.len());
    assert_eq!("cooked_gudgeon", sorted[0].item);
    assert_eq!("copper_ore", sorted[1].item);
    assert_eq!("iron_ore", sorted[2].item);
    assert_eq!(vec![2, 1, 0], b.priority_indices());
}

#[test]
fn board_add_multiple_and_add_or_reset() {
    let mut b = board();
    let items = vec![
        SimpleItemSchema::new(s("copper_ore"), 4),
        SimpleItemSchema::new(s("gold_ore"), 4),
    ];
    assert_eq!(Ok(()), b.add_multiple(&items, &None, &Purpose::Cli));
    assert_eq!(1, b.orders().len());
    assert_eq!(
        Err(OrderError::AlreadyExists),
        b.add_multiple(&items, &None, &Purpose::Cli)
    );
    assert_eq!(Ok(()), b.add_or_reset(&s("copper_ore"), 9, &None, Purpose::Cli));
    assert_eq!(1, b.orders().len());
    assert_eq!(Ok(()), b.add_or_reset(&s("iron_ore"), 9, &None, Purpose::Cli));
    assert_eq!(2, b.orders().len());
}

#[test]
fn board_turn_in_and_missing() {
    let b = board();
    let mut o = Order::new(None, &s("copper_ore"), 10, Purpose::Cli).unwrap();
    o.inc_deposited(2);
    o.inc_in_progress(3);
    assert!(!b.should_be_turned_in(&o, 4));
    assert!(b.should_be_turned_in(&o, 5));
    assert_eq!(1, b.total_missing_for(&o, 4));
    assert_eq!(0, b.total_missing_for(&o, 9));
}

#[test]
fn board_deposits_serve_orders_and_reserve_for_owners() {
    let mut b = board();
    b.add(&s("copper_ore"), 10, &Some(s("char1")), Purpose::Task { char: s("char1") })
        .unwrap();
    b.add(&s("iron_ore"), 5, &None, Purpose::Cli).unwrap();
    let mut bank = BankController::new(vec![
        SimpleItemSchema::new(s("copper_ore"), 4),
        SimpleItemSchema::new(s("iron_ore"), 5),
    ]);
    b.register_deposited_items(
        &[
            SimpleItemSchema::new(s("copper_ore"), 4),
            SimpleItemSchema::new(s("iron_ore"), 5),
        ],
        &mut bank,
    );
    let orders = b.orders();
    assert_eq!(1, orders.len());
    assert_eq!("copper_ore", orders[0].item);
    assert_eq!(4, orders[0].deposited());
    assert_eq!(4, bank.quantity_reserved(&s("copper_ore")));
    assert_eq!(0, bank.has_available(&s("copper_ore"), &s("char2")));
    assert_eq!(0, bank.quantity_reserved(&s("iron_ore")));
}

#[test]
fn purpose_rank_and_copy() {
    assert_eq!(0, Purpose::Food { char: s("a") }.rank());
    assert_eq!(1, Purpose::Cli.rank());
    assert_eq!(4, Purpose::Leveling { char: s("a"), skill: Skill::Cooking }.rank());
    let p = Purpose::Gear { char: s("a"), item_code: s("copper_ring") };
    assert!(p.same_as(&p.duplicate()));
    assert!(!p.same_as(&Purpose::Cli));
}

#[test]
fn board_add_multiple_takes_each_item_once() {
    let mut b = board();
    let items = vec![
        SimpleItemSchema::new(s("copper_ore"), 4),
        SimpleItemSchema::new(s("copper_ore"), 5),
        SimpleItemSchema::new(s("iron_ore"), 0),
        SimpleItemSchema::new(s("iron_ore"), 2),
    ];
    assert_eq!(Ok(()), b.add_multiple(&items, &Some(s("char1")), &Purpose::Task { char: s("char1") }));
    let orders = b.orders();
    assert_eq!(2, orders.len());
    assert_eq!("copper_ore", orders[0].item);
    assert_eq!(4, orders[0].quantity());
    assert_eq!("iron_ore", orders[1].item);
    assert_eq!(2, orders[1].quantity());
    assert_eq!(Some(s("char1")), orders[1].owner);
}
