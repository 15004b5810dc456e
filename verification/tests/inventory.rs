use artifactsmmo_semi_auto_bot::inventory::{
    InventoryController, InventoryReservation, InventoryReservationError, InventorySlot,
};
use artifactsmmo_semi_auto_bot::schema::SimpleItemSchema;
use artifactsmmo_semi_auto_bot::Reservation;

fn s(x: &str) -> String {
    x.to_string()
}

fn slot(slot: u32, code: &str, quantity: u32) -> InventorySlot {
    InventorySlot { slot, code: s(code), quantity }
}

fn inventory() -> InventoryController {
    InventoryController::new(vec![
        slot(1, "copper_ore", 20),
        slot(2, "", 0),
        slot(3, "ash_wood", 5),
    ])
}

#[test]
fn inventory_content_and_totals() {
    let inv = inventory();
    let content = inv.simple_content();
    assert_eq!(2, content.len());
    assert_eq!("copper_ore", content[0].code);
    assert_eq!(20, content[0].quantity);
    assert_eq!("ash_wood", content[1].code);
    assert_eq!(20, inv.total_of(&s("copper_ore")));
    assert_eq!(0, inv.total_of(&s("iron_ore")));
    assert_eq!(20, inv.has_available(&s("copper_ore")));
    assert!(!inv.is_reserved(&s("copper_ore")));
}

#[test]
fn inventory_reservations_limit_availability() {
    let mut inv = inventory();
    assert_eq!(Ok(()), inv.reserv_item(&s("copper_ore"), 12));
    assert_eq!(12, inv.quantity_reserved(&s("copper_ore")));
    assert_eq!(8, inv.has_available(&s("copper_ore")));
    assert!(inv.is_reserved(&s("copper_ore")));
    assert_eq!(Ok(()), inv.reserv_item(&s("copper_ore"), 10));
    assert_eq!(12, inv.quantity_reserved(&s("copper_ore")));
    assert_eq!(Ok(()), inv.reserv_item(&s("copper_ore"), 15));
    assert_eq!(15, inv.quantity_reserved(&s("copper_ore")));
    assert_eq!(
        Err(InventoryReservationError::QuantityUnavailable(6)),
        inv.inc_reservation(&s("copper_ore"), 6)
    );
    assert_eq!(
        Err(InventoryReservationError::QuantityUnavailable(6)),
        inv.reserv_item(&s("ash_wood"), 6)
    );
    assert_eq!(1, inv.reservations().len());
    let r = inv.get_reservation(&s("copper_ore")).unwrap();
    assert_eq!(15, r.quantity());
    assert!(inv.get_reservation(&s("ash_wood")).is_none());
}

#[test]
fn inventory_decrease_undoes_increase() {
    let mut inv = inventory();
    assert_eq!(Ok(()), inv.inc_reservation(&s("copper_ore"), 7));
    inv.decrease_reservation(&s("copper_ore"), 3);
    assert_eq!(4, inv.quantity_reserved(&s("copper_ore")));
    inv.decrease_reservation(&s("copper_ore"), 4);
    assert_eq!(0, inv.quantity_reserved(&s("copper_ore")));
    assert!(inv.get_reservation(&s("copper_ore")).is_none());
    assert_eq!(0, inv.reservations().len());
}

#[test]
fn inventory_reserv_items_and_missing() {
    let mut inv = inventory();
    let items = vec![
        SimpleItemSchema::new(s("copper_ore"), 10),
        SimpleItemSchema::new(s("ash_wood"), 9),
        SimpleItemSchema::new(s("copper_ore"), 1),
    ];
    assert_eq!(
        Err(InventoryReservationError::QuantityUnavailable(9)),
        inv.reserv_items(&items)
    );
    assert_eq!(10, inv.quantity_reserved(&s("copper_ore")));
    let missing = inv.missing_among(&items);
    assert_eq!(1, missing.len());
    assert_eq!("ash_wood", missing[0].code);
    assert_eq!(4, missing[0].quantity);
    inv.decrease_reservations(&[SimpleItemSchema::new(s("copper_ore"), 10)]);
    assert!(!inv.is_reserved(&s("copper_ore")));
}

#[test]
fn inventory_remove_reservation() {
    let mut inv = inventory();
    inv.reserv_item(&s("copper_ore"), 5).unwrap();
    inv.reserv_item(&s("ash_wood"), 5).unwrap();
    inv.remove_reservation(&InventoryReservation::new(s("copper_ore"), 5));
    assert_eq!(1, inv.reservations().len());
    assert_eq!(0, inv.quantity_reserved(&s("copper_ore")));
    inv.remove_reservation(&InventoryReservation::new(s("ash_wood"), 4));
    assert_eq!(5, inv.quantity_reserved(&s("ash_wood")));
}

#[test]
fn inventory_reservation_quantity_wraps_and_saturates() {
    let mut r = InventoryReservation::new(s("copper_ore"), u32::MAX);
    r.inc_quantity(2);
    assert_eq!(1, r.quantity());
    r.dec_quantity(5);
    assert_eq!(0, r.quantity());
    assert_eq!("copper_ore", r.item());
    assert_eq!(0, r.duplicate().quantity());
}

#[test]
fn inventory_update_content() {
    let mut inv = inventory();
    inv.update_content(vec![slot(1, "iron_ore", 3)]);
    assert_eq!(0, inv.total_of(&s("copper_ore")));
    assert_eq!(3, inv.total_of(&s("iron_ore")));
}

#[test]
fn inventory_reservation_as_a_reservation() {
    let mut r = InventoryReservation::new(s("copper_ore"), 4);
    Reservation::inc_quantity(&mut r, 3);
    assert_eq!(7, Reservation::quantity(&r));
    Reservation::dec_quantity(&mut r, 10);
    assert_eq!(0, Reservation::quantity(&r));
}
