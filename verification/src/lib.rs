pub mod account;
pub mod bank;
pub mod bot_config;
pub mod character;
pub mod combat_gears;
pub mod codes;
pub mod error;
pub mod gear;
pub mod gear_assembly;
pub mod gear_finder;
pub mod inventory;
pub mod leveling_helper;
pub mod orderboard;
pub mod schema;
pub mod sdk;

use vstd::prelude::*;

verus! {

/// Foods that characters keep for other uses than eating.
pub const FOOD_BLACK_LIST: [&'static str; 9] = [
    "apple",
    "apple_pie",
    "egg",
    "carrot",
    "mushroom_soup",
    "fish_soup",
    "cooked_hellhound_meat",
    "maple_syrup",
    "corrupted_fruit",
];

/// The number of task coins below which characters do not exchange them.
pub const MIN_COIN_THRESHOLD: u32 = 4;

/// The quantity of food under which more is ordered.
pub const MIN_FOOD_THRESHOLD: u32 = 6000;

/// A quantity of an item set aside for a later use.
pub trait Reservation {
    spec fn reserved_quantity(&self) -> nat;

    /// The code of the item reserved.
    spec fn reserved_item(&self) -> Seq<char>;

    /// The character the item is reserved for, if the reservation is held for one.
    spec fn reserved_owner(&self) -> Option<Seq<char>>;

    fn quantity(&self) -> (res: u32)
        ensures
            res == self.reserved_quantity(),
    ;

    /// Adds `n` to the quantity, wrapping around past `u32::MAX`.
    fn inc_quantity(&mut self, n: u32)
        ensures
            final(self).reserved_quantity() == (old(self).reserved_quantity() + n) % 0x1_0000_0000,
            final(self).reserved_item() == old(self).reserved_item(),
            final(self).reserved_owner() == old(self).reserved_owner(),
    ;

    /// Takes `n` off the quantity, down to 0.
    fn dec_quantity(&mut self, n: u32)
        ensures
            final(self).reserved_quantity() == if old(self).reserved_quantity() >= n {
                (old(self).reserved_quantity() - n) as nat
            } else {
                0
            },
            final(self).reserved_item() == old(self).reserved_item(),
            final(self).reserved_owner() == old(self).reserved_owner(),
    ;
}

} // verus!
