use crate::sdk::skill::Skill;
use vstd::prelude::*;

verus! {

/// The kind of task a character takes from the tasks masters.
#[derive(Debug, Clone, Copy, PartialEq, Eq, Structural)]
pub enum TaskType {
    Monsters,
    Items,
}

impl Default for TaskType {
    fn default() -> (res: Self)
        ensures
            res == TaskType::Monsters,
    {
        TaskType::Monsters
    }
}

/// What a character works towards.
#[derive(Debug, Clone, Copy, PartialEq, Eq, Structural)]
pub enum Goal {
    Orders,
    ReachSkillLevel { skill: Skill, level: u32 },
    FollowMaxSkillLevel { skill: Skill, skill_to_follow: Skill },
    Events,
}

/// The part a character plays.
#[derive(Debug, Clone, Copy, PartialEq, Eq, Structural)]
pub enum Role {
    Fighter,
    Miner,
    Woodcutter,
    Fisher,
    Weaponcrafter,
}

impl Default for Role {
    fn default() -> (res: Self)
        ensures
            res == Role::Fighter,
    {
        Role::Fighter
    }
}

/// The skill a role is about; a fighter has none.
pub open spec fn role_skill(role: Role) -> Option<Skill> {
    match role {
        Role::Fighter => None,
        Role::Miner => Some(Skill::Mining),
        Role::Woodcutter => Some(Skill::Woodcutting),
        Role::Fisher => Some(Skill::Fishing),
        Role::Weaponcrafter => Some(Skill::Weaponcrafting),
    }
}

impl Role {
    pub fn to_skill(&self) -> (res: Option<Skill>)
        ensures
            res == role_skill(*self),
    {
        match *self {
            Role::Fighter => None,
            Role::Miner => Some(Skill::Mining),
            Role::Woodcutter => Some(Skill::Woodcutting),
            Role::Fisher => Some(Skill::Fishing),
            Role::Weaponcrafter => Some(Skill::Weaponcrafting),
        }
    }
}

/// The configuration of one character.
#[derive(Debug)]
pub struct CharConfig {
    idle: bool,
    is_trader: bool,
    pub task_type: TaskType,
    skills: Vec<Skill>,
    pub goals: Vec<Goal>,
}

pub struct CharConfigView {
    pub idle: bool,
    pub is_trader: bool,
    pub task_type: TaskType,
    pub skills: Set<Skill>,
    pub goals: Seq<Goal>,
}

impl View for CharConfig {
    type V = CharConfigView;

    closed spec fn view(&self) -> CharConfigView {
        CharConfigView {
            idle: self.idle,
            is_trader: self.is_trader,
            task_type: self.task_type,
            skills: self.skills@.to_set(),
            goals: self.goals@,
        }
    }
}

impl Default for CharConfig {
    fn default() -> (res: Self)
        ensures
            res@.idle == false,
            res@.is_trader == false,
            res@.task_type == TaskType::Monsters,
            res@.skills == Set::<Skill>::empty(),
            res@.goals == Seq::<Goal>::empty(),
            res.wf(),
    {
        let res = CharConfig {
            idle: false,
            is_trader: false,
            task_type: TaskType::Monsters,
            skills: Vec::new(),
            goals: Vec::new(),
        };
        assert(res@.skills =~= Set::<Skill>::empty());
        res
    }
}

impl CharConfig {
    /// No skill is listed twice.
    pub closed spec fn wf(&self) -> bool {
        self.skills@.no_duplicates()
    }

    /// A configuration with the given fields; a skill listed twice counts once.
    pub fn new(idle: bool, is_trader: bool, task_type: TaskType, skills: Vec<Skill>, goals: Vec<Goal>) -> (res:
        Self)
        ensures
            res@.idle == idle,
            res@.is_trader == is_trader,
            res@.task_type == task_type,
            res@.skills == skills@.to_set(),
            res@.goals == goals@,
            res.wf(),
    {
        let mut res = CharConfig { idle, is_trader, task_type, skills: Vec::new(), goals };
        let mut i: usize = 0;
        while i < skills.len()
            invariant
                i <= skills.len(),
                res.wf(),
                res@.idle == idle,
                res@.is_trader == is_trader,
                res@.task_type == task_type,
                res@.goals == goals@,
                res@.skills == skills@.take(i as int).to_set(),
            decreases skills.len() - i,
        {
            res.enable_skill(skills[i]);
            proof {
                assert(skills@.take(i + 1) =~= skills@.take(i as int).push(skills@[i as int]));
                skills@.take(i as int).lemma_push_to_set_commute(skills@[i as int]);
            }
            i = i + 1;
        }
        assert(skills@.take(i as int) =~= skills@);
        res
    }

    /// Switches the character between idle and active.
    pub fn toggle_idle(&mut self)
        ensures
            final(self)@ == (CharConfigView { idle: !old(self)@.idle, ..old(self)@ }),
            final(self).wf() == old(self).wf(),
    {
        self.idle = !self.idle;
    }

    /// The goals of the character, in order.
    pub fn goals(&self) -> (res: &Vec<Goal>)
        ensures
            res@ == self@.goals,
    {
        &self.goals
    }

    /// How the character takes its tasks.
    pub fn task_type(&self) -> (res: TaskType)
        ensures
            res == self@.task_type,
    {
        self.task_type
    }

    pub fn is_idle(&self) -> (res: bool)
        ensures
            res == self@.idle,
    {
        self.idle
    }

    pub fn is_trader(&self) -> (res: bool)
        ensures
            res == self@.is_trader,
    {
        self.is_trader
    }

    /// Whether the character may use `skill`.
    pub fn skill_is_enabled(&self, skill: Skill) -> (res: bool)
        ensures
            res == self@.skills.contains(skill),
    {
        let mut i: usize = 0;
        while i < self.skills.len()
            invariant
                i <= self.skills.len(),
                forall|j: int| 0 <= j < i ==> self.skills@[j] != skill,
            decreases self.skills.len() - i,
        {
            if self.skills[i] == skill {
                assert(self.skills@.contains(skill));
                return true;
            }
            i = i + 1;
        }
        assert(!self.skills@.contains(skill));
        false
    }

    /// Forbids the character to use `skill`.
    pub fn disable_skill(&mut self, skill: Skill)
        requires
            old(self).wf(),
        ensures
            final(self)@ == (CharConfigView { skills: old(self)@.skills.remove(skill), ..old(self)@ }),
            final(self).wf(),
    {
        let ghost before = self.skills@;
        let mut i: usize = 0;
        while i < self.skills.len()
            invariant
                i <= self.skills.len(),
                self.skills@ == before,
                before.no_duplicates(),
                self@ == old(self)@,
                before == old(self).skills@,
                forall|j: int| 0 <= j < i ==> before[j] != skill,
            decreases self.skills.len() - i,
        {
            if self.skills[i] == skill {
                self.skills.remove(i);
                proof {
                    let after = before.remove(i as int);
                    assert(self.skills@ =~= after);
                    assert forall|a: int, b: int|
                        0 <= a < after.len() && 0 <= b < after.len() && a != b implies after[a]
                        != after[b] by {
                        let a2 = if a < i {
                            a
                        } else {
                            a + 1
                        };
                        let b2 = if b < i {
                            b
                        } else {
                            b + 1
                        };
                        assert(after[a] == before[a2] && after[b] == before[b2]);
                    }
                    assert forall|x: Skill| after.contains(x) <==> before.to_set().remove(
                        skill,
                    ).contains(x) by {
                        if after.contains(x) {
                            let k = choose|k: int| 0 <= k < after.len() && after[k] == x;
                            let k2 = if k < i {
                                k
                            } else {
                                k + 1
                            };
                            assert(before[k2] == x);
                            assert(before.contains(x));
                        }
                        if before.to_set().remove(skill).contains(x) {
                            assert(before.contains(x));
                            let k = choose|k: int| 0 <= k < before.len() && before[k] == x;
                            assert(k != i);
                            if k < i {
                                assert(after[k] == x);
                            } else {
                                assert(after[k - 1] == x);
                            }
                        }
                    }
                    assert(after.to_set() =~= before.to_set().remove(skill));
                }
                return;
            }
            i = i + 1;
        }
        assert(self.skills@.to_set() =~= before.to_set().remove(skill));
    }

    /// Allows the character to use `skill`.
    pub fn enable_skill(&mut self, skill: Skill)
        requires
            old(self).wf(),
        ensures
            final(self)@ == (CharConfigView { skills: old(self)@.skills.insert(skill), ..old(self)@ }),
            final(self).wf(),
    {
        if !self.skill_is_enabled(skill) {
            let ghost before = self.skills@;
            self.skills.push(skill);
            proof {
                before.lemma_push_to_set_commute(skill);
                assert forall|a: int, b: int|
                    0 <= a < self.skills@.len() && 0 <= b < self.skills@.len() && a != b implies self.skills@[a]
                    != self.skills@[b] by {
                    if a == before.len() {
                        assert(!before.contains(skill));
                        assert(self.skills@[b] == before[b]);
                    } else if b == before.len() {
                        assert(self.skills@[a] == before[a]);
                    } else {
                        assert(self.skills@[a] == before[a] && self.skills@[b] == before[b]);
                    }
                }
            }
        } else {
            assert(self@.skills.insert(skill) =~= self@.skills);
        }
    }

    /// The skills the character may use, each once.
    pub fn skills(&self) -> (res: Vec<Skill>)
        requires
            self.wf(),
        ensures
            res@.to_set() == self@.skills,
            res@.no_duplicates(),
    {
        self.skills.clone()
    }

    /// A copy of this configuration.
    pub fn duplicate(&self) -> (res: Self)
        ensures
            res@ == self@,
            res.wf() == self.wf(),
    {
        CharConfig {
            idle: self.idle,
            is_trader: self.is_trader,
            task_type: self.task_type,
            skills: self.skills.clone(),
            goals: self.goals.clone(),
        }
    }
}

/// What the configuration file holds.
#[derive(Debug)]
pub struct BaseBotConfig {
    pub base_url: String,
    pub token: String,
    pub characters: Vec<CharConfig>,
    pub order_gear: bool,
}

impl BaseBotConfig {
    /// Every character configuration lists each skill once.
    pub open spec fn wf(&self) -> bool {
        forall|i: int| 0 <= i < self.characters@.len() ==> (#[trigger] self.characters@[i]).wf()
    }

    /// The stored configuration of the character at `i`, if there is one.
    pub fn get_char_config(&self, i: usize) -> (res: Option<&CharConfig>)
        ensures
            i < self.characters@.len() <==> res is Some,
            res matches Some(c) ==> *c == self.characters@[i as int],
    {
        if i < self.characters.len() {
            Some(&self.characters[i])
        } else {
            None
        }
    }

    /// Switches the character at `i` between idle and active; nothing for no such
    /// character.
    pub fn toggle_idle(&mut self, i: usize)
        ensures
            final(self).characters@.len() == old(self).characters@.len(),
            forall|j: int|
                0 <= j < old(self).characters@.len() && j != i ==> final(self).characters@[j]
                    == old(self).characters@[j],
            i < old(self).characters@.len() ==> final(self).characters@[i as int]@ == (CharConfigView {
                idle: !old(self).characters@[i as int]@.idle,
                ..old(self).characters@[i as int]@
            }) && final(self).characters@[i as int].wf() == old(self).characters@[i as int].wf(),
            final(self).base_url == old(self).base_url,
            final(self).token == old(self).token,
            final(self).order_gear == old(self).order_gear,
    {
        if i < self.characters.len() {
            let mut c = self.characters[i].duplicate();
            c.toggle_idle();
            self.characters.set(i, c);
        }
    }

    /// Lets the character at `i` use `skill`; nothing for no such character.
    pub fn enable_skill(&mut self, i: usize, skill: Skill)
        requires
            old(self).wf(),
        ensures
            final(self).wf(),
            final(self).characters@.len() == old(self).characters@.len(),
            forall|j: int|
                0 <= j < old(self).characters@.len() && j != i ==> final(self).characters@[j]
                    == old(self).characters@[j],
            i < old(self).characters@.len() ==> final(self).characters@[i as int]@ == (CharConfigView {
                skills: old(self).characters@[i as int]@.skills.insert(skill),
                ..old(self).characters@[i as int]@
            }),
            final(self).base_url == old(self).base_url,
            final(self).token == old(self).token,
            final(self).order_gear == old(self).order_gear,
    {
        if i < self.characters.len() {
            let mut c = self.characters[i].duplicate();
            c.enable_skill(skill);
            self.characters.set(i, c);
        }
    }

    /// Stops the character at `i` from using `skill`; nothing for no such character.
    pub fn disable_skill(&mut self, i: usize, skill: Skill)
        requires
            old(self).wf(),
        ensures
            final(self).wf(),
            final(self).characters@.len() == old(self).characters@.len(),
            forall|j: int|
                0 <= j < old(self).characters@.len() && j != i ==> final(self).characters@[j]
                    == old(self).characters@[j],
            i < old(self).characters@.len() ==> final(self).characters@[i as int]@ == (CharConfigView {
                skills: old(self).characters@[i as int]@.skills.remove(skill),
                ..old(self).characters@[i as int]@
            }),
            final(self).base_url == old(self).base_url,
            final(self).token == old(self).token,
            final(self).order_gear == old(self).order_gear,
    {
        if i < self.characters.len() {
            let mut c = self.characters[i].duplicate();
            c.disable_skill(skill);
            self.characters.set(i, c);
        }
    }
}

impl Default for BaseBotConfig {
    fn default() -> (res: Self)
        ensures
            res.base_url@ == Seq::<char>::empty(),
            res.token@ == Seq::<char>::empty(),
            res.characters@ == Seq::<CharConfig>::empty(),
            res.order_gear == false,
    {
        BaseBotConfig {
            base_url: String::new(),
            token: String::new(),
            characters: Vec::new(),
            order_gear: false,
        }
    }
}

/// The configuration of the bot, replaced as a whole when the file is read again.
#[derive(Debug)]
pub struct BotConfig {
    inner: BaseBotConfig,
}

impl BotConfig {
    pub closed spec fn base(&self) -> &BaseBotConfig {
        &self.inner
    }

    /// The configuration read from the configuration file.
    pub fn from_file(base: BaseBotConfig) -> (res: Self)
        ensures
            res.base() == base,
    {
        BotConfig { inner: base }
    }

    /// Takes on the configuration read again from the configuration file.
    pub fn reload(&mut self, base: BaseBotConfig)
        ensures
            final(self).base() == base,
    {
        self.inner = base;
    }

    /// Whether upgrades that cannot be sourced right away are ordered.
    pub fn order_gear(&self) -> (res: bool)
        ensures
            res == self.base().order_gear,
    {
        self.inner.order_gear
    }

    /// The stored configuration of the character at `i`, if there is one.
    pub fn get_char_config(&self, i: usize) -> (res: Option<&CharConfig>)
        ensures
            i < self.base().characters@.len() <==> res is Some,
            res matches Some(c) ==> *c == self.base().characters@[i as int],
    {
        self.inner.get_char_config(i)
    }

    /// Switches the character at `i` between idle and active in the stored
    /// configuration; nothing for no such character.
    pub fn toggle_idle(&mut self, i: usize)
        ensures
            final(self).base().characters@.len() == old(self).base().characters@.len(),
            forall|j: int|
                0 <= j < old(self).base().characters@.len() && j != i ==> final(self).base().characters@[j]
                    == old(self).base().characters@[j],
            i < old(self).base().characters@.len() ==> final(self).base().characters@[i as int]@ == (
            CharConfigView {
                idle: !old(self).base().characters@[i as int]@.idle,
                ..old(self).base().characters@[i as int]@
            }),
            final(self).base().order_gear == old(self).base().order_gear,
    {
        self.inner.toggle_idle(i);
    }

    /// Lets the character at `i` use `skill` in the stored configuration.
    pub fn enable_skill(&mut self, i: usize, skill: Skill)
        requires
            old(self).base().wf(),
        ensures
            final(self).base().wf(),
            final(self).base().characters@.len() == old(self).base().characters@.len(),
            forall|j: int|
                0 <= j < old(self).base().characters@.len() && j != i ==> final(self).base().characters@[j]
                    == old(self).base().characters@[j],
            i < old(self).base().characters@.len() ==> final(self).base().characters@[i as int]@ == (
            CharConfigView {
                skills: old(self).base().characters@[i as int]@.skills.insert(skill),
                ..old(self).base().characters@[i as int]@
            }),
            final(self).base().order_gear == old(self).base().order_gear,
    {
        self.inner.enable_skill(i, skill);
    }

    /// Stops the character at `i` from using `skill` in the stored configuration.
    pub fn disable_skill(&mut self, i: usize, skill: Skill)
        requires
            old(self).base().wf(),
        ensures
            final(self).base().wf(),
            final(self).base().characters@.len() == old(self).base().characters@.len(),
            forall|j: int|
                0 <= j < old(self).base().characters@.len() && j != i ==> final(self).base().characters@[j]
                    == old(self).base().characters@[j],
            i < old(self).base().characters@.len() ==> final(self).base().characters@[i as int]@ == (
            CharConfigView {
                skills: old(self).base().characters@[i as int]@.skills.remove(skill),
                ..old(self).base().characters@[i as int]@
            }),
            final(self).base().order_gear == old(self).base().order_gear,
    {
        self.inner.disable_skill(i, skill);
    }

    fn inner(&self) -> (res: &BaseBotConfig)
        ensures
            res == self.base(),
    {
        &self.inner
    }
}

} // verus!
