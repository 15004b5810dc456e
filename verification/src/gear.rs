use vstd::prelude::*;

verus! {

/// A slot of a character's equipment.
#[derive(Debug, Clone, Copy, PartialEq, Eq, Structural)]
pub enum Slot {
    Weapon,
    Shield,
    Helmet,
    BodyArmor,
    LegArmor,
    Boots,
    Ring1,
    Ring2,
    Amulet,
    Artifact1,
    Artifact2,
    Artifact3,
    Utility1,
    Utility2,
    Rune,
    Bag,
}

/// The items a character wears in combat, by the code of each, slot by slot.
#[derive(Debug)]
pub struct Gear {
    pub weapon: Option<String>,
    pub shield: Option<String>,
    pub helmet: Option<String>,
    pub body_armor: Option<String>,
    pub leg_armor: Option<String>,
    pub boots: Option<String>,
    pub ring1: Option<String>,
    pub ring2: Option<String>,
    pub amulet: Option<String>,
    pub artifact1: Option<String>,
    pub artifact2: Option<String>,
    pub artifact3: Option<String>,
    pub utility1: Option<String>,
    pub utility2: Option<String>,
    pub rune: Option<String>,
    pub bag: Option<String>,
}

} // verus!
