use artifactsmmo_semi_auto_bot::sdk::actions::{on_action_error, ErrorAction};
use artifactsmmo_semi_auto_bot::sdk::character::{tool_action, PreviousWeapon, ToolAction, ToolSupply};
use artifactsmmo_semi_auto_bot::sdk::api_error::{ApiErrorResponseSchema, ApiErrorSchema};
use artifactsmmo_semi_auto_bot::sdk::bank::{BankError, Reservation};
use artifactsmmo_semi_auto_bot::sdk::character::Role;
use artifactsmmo_semi_auto_bot::sdk::gear::{Gear, Slot};
use artifactsmmo_semi_auto_bot::sdk::inventory::InventoryReservation;
use artifactsmmo_semi_auto_bot::sdk::skill::Skill;

fn s(x: &str) -> String {
    x.to_string()
}

fn gear(ring1: Option<&str>, ring2: Option<&str>) -> Gear {
    Gear {
        weapon: Some(s("copper_dagger")),
        shield: None,
        helmet: Some(s("copper_helmet")),
        body_armor: None,
        leg_armor: None,
        boots: None,
        ring1: ring1.map(s),
        ring2: ring2.map(s),
        amulet: None,
        artifact1: None,
        artifact2: None,
        artifact3: None,
        consumable1: Some(s("cooked_chicken")),
        consumable2: None,
    }
}

fn items(g: &Gear) -> Vec<(String, u32)> {
    g.to_items().into_iter().map(|i| (i.code, i.quantity)).collect()
}

#[test]
fn sdk_bank_reservation_quantity() {
    let mut r = Reservation::new(s("char1"), s("copper_ore"), 10);
    r.inc_quantity(5);
    assert_eq!(15, r.quantity());
    r.dec_quantity(20);
    assert_eq!(-5, r.quantity());
    assert_ne!(BankError::ItemUnavailable, BankError::QuantityUnavailable(5));
    assert_eq!(BankError::QuantityUnavailable(5), BankError::QuantityUnavailable(5));
}

#[test]
fn sdk_inventory_reservation_quantity() {
    let mut r = InventoryReservation::new(s("copper_ore"), 3);
    r.inc_quantity(4);
    r.dec_quantity(2);
    assert_eq!(5, r.quantity());
}

#[test]
fn sdk_gear_items_counts_rings() {
    assert_eq!(
        vec![
            (s("copper_ring"), 1),
            (s("copper_ring"), 1),
            (s("copper_ring"), 2)
        ],
        items(&gear(Some("copper_ring"), Some("copper_ring")))
    );
    assert_eq!(
        vec![
            (s("copper_ring"), 1),
            (s("iron_ring"), 1),
            (s("copper_ring"), 1),
            (s("iron_ring"), 1)
        ],
        items(&gear(Some("copper_ring"), Some("iron_ring")))
    );
    assert_eq!(
        vec![(s("iron_ring"), 1), (s("iron_ring"), 1)],
        items(&gear(None, Some("iron_ring")))
    );
    assert!(items(&gear(None, None)).is_empty());
}

#[test]
fn sdk_gear_slot() {
    let g = gear(Some("copper_ring"), None);
    assert_eq!(&Some(s("copper_dagger")), g.slot(Slot::Weapon));
    assert_eq!(&Some(s("copper_ring")), g.slot(Slot::Ring1));
    assert_eq!(&None, g.slot(Slot::Ring2));
    assert_eq!(&Some(s("cooked_chicken")), g.slot(Slot::Consumable1));
    assert_eq!(Slot::Weapon, Slot::default());
}

#[test]
fn sdk_skills_and_roles() {
    assert!(Skill::Mining.is_gathering());
    assert!(Skill::Alchemy.is_gathering());
    assert!(!Skill::Cooking.is_gathering());
    assert!(!Skill::Combat.is_gathering());
    assert_eq!(Some(Skill::Fishing), Role::Fisher.to_skill());
    assert_eq!(None, Role::default().to_skill());
}

#[test]
fn sdk_api_error() {
    let e = ApiErrorResponseSchema::new(ApiErrorSchema::new(497, s("character inventory full")));
    assert_eq!(497, e.get_error().get_code());
    assert_eq!("character inventory full", e.get_error().get_message());
}

#[test]
fn sdk_action_errors_and_tools() {
    assert_eq!(ErrorAction::ResyncAndRetry, on_action_error(499));
    assert_eq!(ErrorAction::WaitAndRetry, on_action_error(500));
    assert_eq!(ErrorAction::WaitAndRetry, on_action_error(520));
    assert_eq!(ErrorAction::Fail, on_action_error(497));
    assert_eq!(
        ToolAction { previous: PreviousWeapon::Keep, supply: ToolSupply::Reserve },
        tool_action(&Some(s("iron_pickaxe")), &Some(s("iron_pickaxe")), false, 1)
    );
    assert_eq!(
        ToolAction { previous: PreviousWeapon::UnequipAndDeposit, supply: ToolSupply::Order },
        tool_action(&Some(s("copper_dagger")), &Some(s("iron_pickaxe")), false, 0)
    );
    assert_eq!(
        ToolAction { previous: PreviousWeapon::UnequipAndTurnIn, supply: ToolSupply::NoTool },
        tool_action(&Some(s("copper_dagger")), &None, true, 0)
    );
    assert_eq!(
        ToolAction { previous: PreviousWeapon::Keep, supply: ToolSupply::Reserve },
        tool_action(&None, &Some(s("iron_pickaxe")), false, 2)
    );
}

#[test]
fn sdk_gear_text() {
    let g = gear(Some("copper_ring"), None);
    let text = g.describe();
    let lines: Vec<&str> = text.lines().collect();
    assert_eq!(14, lines.len());
    assert_eq!("Weapon: Some(\"copper_dagger\")", lines[0]);
    assert_eq!("Shield: None", lines[1]);
    assert_eq!("Body Armor: None", lines[3]);
    assert_eq!("Ring 1: Some(\"copper_ring\")", lines[6]);
    assert_eq!("Consumable 1: Some(\"cooked_chicken\")", lines[12]);
    assert!(text.ends_with("Consumable 2: None\n"));
}
