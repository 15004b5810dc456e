use vstd::prelude::*;

verus! {

/// A skill a character can level in the game.
#[derive(Debug, Clone, Copy, PartialEq, Eq, Hash, Structural)]
pub enum Skill {
    Combat,
    Mining,
    Woodcutting,
    Fishing,
    Weaponcrafting,
    Gearcrafting,
    Jewelrycrafting,
    Cooking,
    Alchemy,
}

/// The skills whose levels are raised by harvesting resources.
pub open spec fn is_gathering_skill(skill: Skill) -> bool {
    skill == Skill::Mining || skill == Skill::Woodcutting || skill == Skill::Fishing
        || skill == Skill::Alchemy
}

impl Skill {
    pub fn is_gathering(&self) -> (res: bool)
        ensures
            res == is_gathering_skill(*self),
    {
        match self {
            Skill::Mining | Skill::Woodcutting | Skill::Fishing | Skill::Alchemy => true,
            _ => false,
        }
    }
}

} // verus!
