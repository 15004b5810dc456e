use vstd::prelude::*;

verus! {

/// The type of an item.
#[derive(Debug, Clone, Copy, PartialEq, Eq, Structural)]
pub enum Type {
    Consumable,
    BodyArmor,
    Weapon,
    Resource,
    LegArmor,
    Helmet,
    Boots,
    Shield,
    Amulet,
    Ring,
    Artifact,
    Currency,
    Utility,
}

/// The subtype of an item.
#[derive(Debug, Clone, Copy, PartialEq, Eq, Structural)]
pub enum SubType {
    Mining,
    Woodcutting,
    Fishing,
    Food,
    Bar,
    Plank,
    Mob,
}

/// The element of a damage.
#[derive(Debug, Clone, Copy, PartialEq, Eq, Structural)]
pub enum DamageType {
    Air,
    Earth,
    Fire,
    Water,
}

} // verus!
