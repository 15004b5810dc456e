use crate::sdk::skill::Skill;
use vstd::prelude::*;

verus! {

/// The part a character plays.
#[derive(Debug, Clone, Copy, PartialEq, Eq, Structural)]
pub enum Role {
    Fighter,
    Miner,
    Woodcutter,
    Fisher,
    Weaponcrafter,
}

impl Default for Role {
    fn default() -> (res: Self)
        ensures
            res == Role::Fighter,
    {
        Role::Fighter
    }
}

impl Role {
    /// The skill the role is about; a fighter has none.
    pub fn to_skill(&self) -> (res: Option<Skill>)
        ensures
            res == match *self {
                Role::Fighter => None,
                Role::Miner => Some(Skill::Mining),
                Role::Woodcutter => Some(Skill::Woodcutting),
                Role::Fisher => Some(Skill::Fishing),
                Role::Weaponcrafter => Some(Skill::Weaponcrafting),
            },
    {
        match *self {
            Role::Fighter => None,
            Role::Miner => Some(Skill::Mining),
            Role::Woodcutter => Some(Skill::Woodcutting),
            Role::Fisher => Some(Skill::Fishing),
            Role::Weaponcrafter => Some(Skill::Weaponcrafting),
        }
    }
}

/// What becomes of the weapon a character held before it takes a tool.
#[derive(Debug, Clone, Copy, PartialEq, Eq, Structural)]
pub enum PreviousWeapon {
    /// It stays equipped.
    Keep,
    /// It is unequipped and turned in to the order for it.
    UnequipAndTurnIn,
    /// It is unequipped and deposited in the bank.
    UnequipAndDeposit,
}

/// How the character comes by the tool it is to use.
#[derive(Debug, Clone, Copy, PartialEq, Eq, Structural)]
pub enum ToolSupply {
    /// There is no tool for the resource.
    NoTool,
    /// The tool is at hand: it is reserved for the character.
    Reserve,
    /// The tool is not at hand: it is ordered.
    Order,
}

/// The steps a character takes before gathering: what becomes of the weapon it
/// held, and how it comes by the tool.
#[derive(Debug, Clone, Copy, PartialEq, Eq, Structural)]
pub struct ToolAction {
    pub previous: PreviousWeapon,
    pub supply: ToolSupply,
}

/// The steps before gathering, the character holding `equipped` in its weapon slot,
/// `tool` being the best tool for the resource, `equipped_ordered` telling whether an
/// order asks for the held weapon, and `tool_available` being the quantity of the
/// tool that the character has at hand.
pub open spec fn tool_action_spec(
    equipped: Option<Seq<char>>,
    tool: Option<Seq<char>>,
    equipped_ordered: bool,
    tool_available: u32,
) -> ToolAction {
    ToolAction {
        previous: match equipped {
            Some(e) => if tool is None || tool != Some(e) {
                if equipped_ordered {
                    PreviousWeapon::UnequipAndTurnIn
                } else {
                    PreviousWeapon::UnequipAndDeposit
                }
            } else {
                PreviousWeapon::Keep
            },
            None => PreviousWeapon::Keep,
        },
        supply: match tool {
            None => ToolSupply::NoTool,
            Some(_) => if tool_available > 0 {
                ToolSupply::Reserve
            } else {
                ToolSupply::Order
            },
        },
    }
}

/// The steps a character takes before gathering with `tool`, holding `equipped`.
pub fn tool_action(equipped: &Option<String>, tool: &Option<String>, equipped_ordered: bool, tool_available: u32) -> (res:
    ToolAction)
    ensures
        res == tool_action_spec(
            match equipped {
                Some(e) => Some(e@),
                None => None,
            },
            match tool {
                Some(t) => Some(t@),
                None => None,
            },
            equipped_ordered,
            tool_available,
        ),
{
    let previous = match equipped {
        Some(e) => {
            let differs = match tool {
                Some(t) => *t != *e,
                None => true,
            };
            if differs {
                if equipped_ordered {
                    PreviousWeapon::UnequipAndTurnIn
                } else {
                    PreviousWeapon::UnequipAndDeposit
                }
            } else {
                PreviousWeapon::Keep
            }
        },
        None => PreviousWeapon::Keep,
    };
    let supply = match tool {
        None => ToolSupply::NoTool,
        Some(_) => if tool_available > 0 {
            ToolSupply::Reserve
        } else {
            ToolSupply::Order
        },
    };
    ToolAction { previous, supply }
}

} // verus!
