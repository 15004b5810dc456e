use crate::sdk::gear::Slot;
use crate::sdk::skill::Skill;
use vstd::prelude::*;

verus! {

/// What an order is for.
#[derive(Debug)]
pub enum Purpose {
    Food { char: String },
    Cli,
    Gather { char: String, skill: Skill, item_code: String },
    Gear { char: String, slot: Slot, item_code: String },
    Task { char: String },
    Leveling { char: String, skill: Skill },
}

} // verus!
