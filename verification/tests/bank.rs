use artifactsmmo_semi_auto_bot::bank::{BankController, BankReservationError};
use artifactsmmo_semi_auto_bot::schema::SimpleItemSchema;
use artifactsmmo_semi_auto_bot::Reservation;

fn s(x: &str) -> String {
    x.to_string()
}

fn bank_with(code: &str, quantity: u32) -> BankController {
    BankController::new(vec![SimpleItemSchema::new(s(code), quantity)])
}

#[test]
fn bank_reserv_with_not_item() {
    let mut bank = BankController::new(vec![]);
    let result = bank.inc_reservation(&s("iron_ore"), 50, &s("char1"));
    assert_eq!(Err(BankReservationError::QuantityUnavailable(50)), result);
}

#[test]
fn bank_reserv_with_item_available() {
    let mut bank = bank_with("copper_ore", 100);
    let _ = bank.inc_reservation(&s("copper_ore"), 50, &s("char1"));
    let _ = bank.inc_reservation(&s("copper_ore"), 50, &s("char1"));
    assert_eq!(100, bank.has_available(&s("copper_ore"), &s("char1")))
}

#[test]
fn bank_reserv_if_not_with_item_available() {
    let mut bank = bank_with("gold_ore", 100);
    let _ = bank.reserv_item(&s("gold_ore"), 50, &s("char1"));
    let _ = bank.reserv_item(&s("gold_ore"), 50, &s("char1"));
    assert_eq!(100, bank.has_available(&s("gold_ore"), &s("char1")));
    assert_eq!(50, bank.quantity_reserved(&s("gold_ore")))
}

#[test]
fn bank_reservation_of_one_owner_limits_the_others() {
    let mut bank = bank_with("copper_ore", 100);
    assert_eq!(Ok(()), bank.reserv_item(&s("copper_ore"), 30, &s("char1")));
    assert_eq!(70, bank.has_available(&s("copper_ore"), &s("char2")));
    assert_eq!(100, bank.has_available(&s("copper_ore"), &s("char1")));
    assert_eq!(70, bank.quantity_reservable(&s("copper_ore")));
    assert!(bank.is_reserved(&s("copper_ore")));
    assert_eq!(
        Err(BankReservationError::QuantityUnavailable(80)),
        bank.inc_reservation(&s("copper_ore"), 80, &s("char2"))
    );
    assert_eq!(Ok(()), bank.inc_reservation(&s("copper_ore"), 70, &s("char2")));
    assert_eq!(0, bank.quantity_reservable(&s("copper_ore")));
    assert_eq!(
        Err(BankReservationError::QuantityUnavailable(1)),
        bank.inc_reservation(&s("copper_ore"), 1, &s("char1"))
    );
}

#[test]
fn bank_dec_reservation_undoes_inc() {
    let mut bank = bank_with("copper_ore", 100);
    assert_eq!(Ok(()), bank.inc_reservation(&s("copper_ore"), 40, &s("char1")));
    assert_eq!(1, bank.reservations().len());
    bank.dec_reservation(&s("copper_ore"), 40, &s("char1"));
    assert_eq!(0, bank.reservations().len());
    assert_eq!(0, bank.quantity_reserved(&s("copper_ore")));
}

#[test]
fn bank_dec_reservation_partially() {
    let mut bank = bank_with("copper_ore", 100);
    assert_eq!(Ok(()), bank.reserv_item(&s("copper_ore"), 40, &s("char1")));
    bank.dec_reservation(&s("copper_ore"), 15, &s("char1"));
    let r = bank.get_reservation(&s("copper_ore"), &s("char1")).unwrap();
    assert_eq!(25, r.quantity());
    assert_eq!("char1", r.owner());
    assert_eq!("copper_ore", r.item());
    bank.dec_reservation(&s("copper_ore"), 100, &s("char1"));
    assert!(bank.get_reservation(&s("copper_ore"), &s("char1")).is_none());
}

#[test]
fn bank_missing_among_and_has_multiple_available() {
    let mut bank = BankController::new(vec![
        SimpleItemSchema::new(s("copper_ore"), 10),
        SimpleItemSchema::new(s("ash_wood"), 4),
    ]);
    let _ = bank.reserv_item(&s("ash_wood"), 3, &s("char2"));
    let wanted = vec![
        SimpleItemSchema::new(s("copper_ore"), 6),
        SimpleItemSchema::new(s("ash_wood"), 2),
        SimpleItemSchema::new(s("iron_ore"), 5),
    ];
    let missing = bank.missing_among(&wanted, &s("char1"));
    assert_eq!(2, missing.len());
    assert_eq!("ash_wood", missing[0].code);
    assert_eq!(1, missing[0].quantity);
    assert_eq!("iron_ore", missing[1].code);
    assert_eq!(5, missing[1].quantity);
    assert!(!bank.has_multiple_available(&wanted, &s("char1")));
    assert!(bank.has_multiple_available(&wanted[..1], &s("char1")));
}

#[test]
fn bank_reserv_items_stops_at_first_refusal() {
    let mut bank = bank_with("copper_ore", 10);
    let wanted = vec![
        SimpleItemSchema::new(s("copper_ore"), 6),
        SimpleItemSchema::new(s("iron_ore"), 1),
        SimpleItemSchema::new(s("copper_ore"), 8),
    ];
    assert_eq!(
        Err(BankReservationError::QuantityUnavailable(1)),
        bank.reserv_items(&wanted, &s("char1"))
    );
    assert_eq!(6, bank.quantity_reserved(&s("copper_ore")));
    bank.dec_reservations(&wanted, &s("char1"));
    assert_eq!(0, bank.reservations().len());
}

#[test]
fn bank_has_mats_for() {
    let bank = BankController::new(vec![
        SimpleItemSchema::new(s("copper_ore"), 25),
        SimpleItemSchema::new(s("ash_wood"), 9),
    ]);
    let mats = vec![
        SimpleItemSchema::new(s("copper_ore"), 6),
        SimpleItemSchema::new(s("ash_wood"), 2),
    ];
    assert_eq!(4, bank.has_mats_for(&mats, &s("char1")));
    assert_eq!(0, bank.has_mats_for(&[], &s("char1")));
}

#[test]
fn bank_reservation_quantity_wraps_and_saturates() {
    let mut bank = bank_with("copper_ore", 10);
    let _ = bank.reserv_item(&s("copper_ore"), 5, &s("char1"));
    let mut r = bank.get_reservation(&s("copper_ore"), &s("char1")).unwrap();
    r.dec_quantity(9);
    assert_eq!(0, Reservation::quantity(&r));
    r.inc_quantity(u32::MAX);
    r.inc_quantity(2);
    assert_eq!(1, Reservation::quantity(&r));
}
