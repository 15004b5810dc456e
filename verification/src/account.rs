use crate::bank::BankController;
use crate::character::{craft_check, equipped_count, level_in, CharacterController, CraftInfo};
use crate::sdk::skill::Skill;
use vstd::prelude::*;

verus! {

/// The quantity of `item` available in the inventories of `chars`.
pub open spec fn available_in(chars: Seq<CharacterController>, item: Seq<char>) -> nat
    decreases chars.len(),
{
    if chars.len() == 0 {
        0
    } else {
        available_in(chars.drop_last(), item) + chars.last().inv()@.available(item)
    }
}

/// The quantity of `item` equipped by or held in the inventories of `chars`.
pub open spec fn held_by(chars: Seq<CharacterController>, item: Seq<char>) -> nat
    decreases chars.len(),
{
    if chars.len() == 0 {
        0
    } else {
        held_by(chars.drop_last(), item) + equipped_count(chars.last().equipment(), item)
            + chars.last().inv()@.total_of(item)
    }
}

/// The smallest inventory capacity among the characters of `chars` that may fish.
pub open spec fn fishers_min_capacity(chars: Seq<CharacterController>) -> Option<nat>
    decreases chars.len(),
{
    if chars.len() == 0 {
        None
    } else {
        let prev = fishers_min_capacity(chars.drop_last());
        let c = chars.last();
        if c.config()@.skills.contains(Skill::Fishing) {
            match prev {
                Some(m) => Some(
                    if (c.inventory_max_items() as nat) < m {
                        c.inventory_max_items() as nat
                    } else {
                        m
                    },
                ),
                None => Some(c.inventory_max_items() as nat),
            }
        } else {
            prev
        }
    }
}

/// The highest level in `skill` among `chars`, 0 when there is none.
pub open spec fn max_level_of(chars: Seq<CharacterController>, skill: Skill) -> u32
    decreases chars.len(),
{
    if chars.len() == 0 {
        0
    } else {
        let prev = max_level_of(chars.drop_last(), skill);
        let l = level_in(chars.last().levels(), skill);
        if l > prev {
            l
        } else {
            prev
        }
    }
}

/// The account: its characters and its bank.
pub struct AccountController {
    pub bank: BankController,
    pub characters: Vec<CharacterController>,
}

impl AccountController {
    pub fn new(bank: BankController, characters: Vec<CharacterController>) -> (res: Self)
        ensures
            res.bank == bank,
            res.characters == characters,
    {
        AccountController { bank, characters }
    }

    /// The character at `index`, if there is one.
    pub fn get_character(&self, index: usize) -> (res: Option<&CharacterController>)
        ensures
            index < self.characters@.len() <==> res is Some,
            res matches Some(c) ==> *c == self.characters@[index as int],
    {
        if index < self.characters.len() {
            Some(&self.characters[index])
        } else {
            None
        }
    }

    /// The first character named `name`, if there is one.
    pub fn get_character_by_name(&self, name: &String) -> (res: Option<&CharacterController>)
        ensures
            match res {
                Some(c) => exists|i: int|
                    0 <= i < self.characters@.len() && *c == self.characters@[i]
                        && self.characters@[i].name()@ == name@ && forall|j: int|
                        0 <= j < i ==> (#[trigger] self.characters@[j]).name()@ != name@,
                None => forall|j: int|
                    0 <= j < self.characters@.len() ==> (#[trigger] self.characters@[j]).name()@
                        != name@,
            },
    {
        let mut i: usize = 0;
        while i < self.characters.len()
            invariant
                i <= self.characters.len(),
                forall|j: int| 0 <= j < i ==> (#[trigger] self.characters@[j]).name()@ != name@,
            decreases self.characters.len() - i,
        {
            if *self.characters[i].get_name() == *name {
                return Some(&self.characters[i]);
            }
            i = i + 1;
        }
        None
    }

    /// The quantity of `item` available in the characters' inventories.
    pub fn available_in_inventories(&self, item: &String) -> (res: u32)
        requires
            available_in(self.characters@, item@) <= u32::MAX,
            forall|i: int| 0 <= i < self.characters@.len() ==> (#[trigger] self.characters@[i]).inv()@.wf(),
        ensures
            res == available_in(self.characters@, item@),
    {
        let ghost cs = self.characters@;
        let mut sum: u32 = 0;
        let mut i: usize = 0;
        while i < self.characters.len()
            invariant
                i <= self.characters.len(),
                cs == self.characters@,
                available_in(cs, item@) <= u32::MAX,
                forall|k: int| 0 <= k < cs.len() ==> (#[trigger] cs[k]).inv()@.wf(),
                sum == available_in(cs.take(i as int), item@),
            decreases self.characters.len() - i,
        {
            assert(cs.take(i + 1).drop_last() =~= cs.take(i as int));
            proof {
                lemma_available_prefix(cs, i + 1, item@);
            }
            sum = sum + self.characters[i].inventory().has_available(item);
            i = i + 1;
        }
        assert(cs.take(i as int) =~= cs);
        sum
    }

    /// The quantity of `item` in the bank, equipped by the characters and held in
    /// their inventories.
    pub fn total_of(&self, item: &String) -> (res: u32)
        requires
            self.bank@.total_of(item@) + held_by(self.characters@, item@) <= u32::MAX,
            forall|i: int| 0 <= i < self.characters@.len() ==> (#[trigger] self.characters@[i]).wf(),
        ensures
            res == self.bank@.total_of(item@) + held_by(self.characters@, item@),
    {
        let ghost cs = self.characters@;
        let mut sum: u32 = 0;
        let mut i: usize = 0;
        while i < self.characters.len()
            invariant
                i <= self.characters.len(),
                cs == self.characters@,
                self.bank@.total_of(item@) + held_by(cs, item@) <= u32::MAX,
                forall|k: int| 0 <= k < cs.len() ==> (#[trigger] cs[k]).wf(),
                sum == held_by(cs.take(i as int), item@),
            decreases self.characters.len() - i,
        {
            assert(cs.take(i + 1).drop_last() =~= cs.take(i as int));
            proof {
                lemma_held_prefix(cs, i + 1, item@);
            }
            let c = &self.characters[i];
            sum = sum + c.has_equiped(item) + c.inventory().total_of(item);
            i = i + 1;
        }
        assert(cs.take(i as int) =~= cs);
        self.bank.total_of(item) + sum
    }

    /// The highest level in `skill` among the characters, 0 when there is none.
    pub fn max_skill_level(&self, skill: Skill) -> (res: u32)
        ensures
            res == max_level_of(self.characters@, skill),
    {
        let ghost cs = self.characters@;
        let mut best: u32 = 0;
        let mut i: usize = 0;
        while i < self.characters.len()
            invariant
                i <= self.characters.len(),
                cs == self.characters@,
                best == max_level_of(cs.take(i as int), skill),
            decreases self.characters.len() - i,
        {
            assert(cs.take(i + 1).drop_last() =~= cs.take(i as int));
            let l = self.characters[i].skill_level(skill);
            if l > best {
                best = l;
            }
            i = i + 1;
        }
        assert(cs.take(i as int) =~= cs);
        best
    }

    /// Whether some character may craft the item of which the game says `item`.
    pub fn can_craft(&self, item: Option<CraftInfo>) -> (res: bool)
        ensures
            res == exists|i: int|
                0 <= i < self.characters@.len() && (#[trigger] craft_check(
                    self.characters@[i].config()@.skills,
                    self.characters@[i].levels(),
                    item,
                )) is Ok,
    {
        let mut i: usize = 0;
        while i < self.characters.len()
            invariant
                i <= self.characters.len(),
                forall|j: int|
                    0 <= j < i ==> !(#[trigger] craft_check(
                        self.characters@[j].config()@.skills,
                        self.characters@[j].levels(),
                        item,
                    ) is Ok),
            decreases self.characters.len() - i,
        {
            if self.characters[i].can_craft(item).is_ok() {
                return true;
            }
            i = i + 1;
        }
        false
    }

    /// The smallest inventory capacity among the characters that may fish, 0 when
    /// none may.
    pub fn fisher_max_items(&self) -> (res: u32)
        ensures
            res == match fishers_min_capacity(self.characters@) {
                Some(m) => m,
                None => 0,
            },
    {
        let ghost cs = self.characters@;
        let mut best: Option<u32> = None;
        let mut i: usize = 0;
        while i < self.characters.len()
            invariant
                i <= self.characters.len(),
                cs == self.characters@,
                match best {
                    Some(b) => fishers_min_capacity(cs.take(i as int)) == Some(b as nat),
                    None => fishers_min_capacity(cs.take(i as int)) is None,
                },
            decreases self.characters.len() - i,
        {
            assert(cs.take(i + 1).drop_last() =~= cs.take(i as int));
            let c = &self.characters[i];
            if c.skill_enabled(Skill::Fishing) {
                let m = c.max_items();
                best = match best {
                    Some(b) => Some(
                        if m < b {
                            m
                        } else {
                            b
                        },
                    ),
                    None => Some(m),
                };
            }
            i = i + 1;
        }
        assert(cs.take(i as int) =~= cs);
        match best {
            Some(b) => b,
            None => 0,
        }
    }
}

proof fn lemma_available_prefix(cs: Seq<CharacterController>, n: int, item: Seq<char>)
    requires
        0 <= n <= cs.len(),
    ensures
        available_in(cs.take(n), item) <= available_in(cs, item),
    decreases cs.len() - n,
{
    if n < cs.len() {
        lemma_available_prefix(cs, n + 1, item);
        assert(cs.take(n + 1).drop_last() =~= cs.take(n));
    } else {
        assert(cs.take(n) =~= cs);
    }
}

proof fn lemma_held_prefix(cs: Seq<CharacterController>, n: int, item: Seq<char>)
    requires
        0 <= n <= cs.len(),
    ensures
        held_by(cs.take(n), item) <= held_by(cs, item),
    decreases cs.len() - n,
{
    if n < cs.len() {
        lemma_held_prefix(cs, n + 1, item);
        assert(cs.take(n + 1).drop_last() =~= cs.take(n));
    } else {
        assert(cs.take(n) =~= cs);
    }
}

} // verus!
