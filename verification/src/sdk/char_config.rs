use crate::sdk::skill::Skill;
use vstd::prelude::*;

verus! {

/// What a character works towards.
#[derive(Debug, Clone, Copy, PartialEq, Eq, Structural)]
pub enum Goal {
    Orders,
    ReachLevel { level: i32 },
    ReachSkillLevel { skill: Skill, level: i32 },
}

/// The configuration of one character.
#[derive(Debug)]
pub struct CharConfig {
    pub idle: bool,
    pub skills: Vec<Skill>,
    pub goals: Vec<Goal>,
    pub target_monster: Option<String>,
    pub target_craft: Option<String>,
    pub target_item: Option<String>,
    pub do_events: bool,
    pub do_tasks: bool,
}

impl Default for CharConfig {
    fn default() -> (res: Self)
        ensures
            !res.idle,
            res.skills@ == Seq::<Skill>::empty(),
            res.goals@ == Seq::<Goal>::empty(),
            res.target_monster is None,
            res.target_craft is None,
            res.target_item is None,
            !res.do_events,
            !res.do_tasks,
    {
        CharConfig {
            idle: false,
            skills: Vec::new(),
            goals: Vec::new(),
            target_monster: None,
            target_craft: None,
            target_item: None,
            do_events: false,
            do_tasks: false,
        }
    }
}

} // verus!
