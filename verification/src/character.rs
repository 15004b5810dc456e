use crate::bank::{crafts_allowed, saturating_sub, BankController, BankView};
use crate::bot_config::{CharConfig, Goal, TaskType};
use crate::error::{
    BankExpansionCommandError, DepositItemCommandError, GoldDepositCommandError,
    GoldWithdrawCommandError, WithdrawItemCommandError,
    CraftCommandError, DeleteCommandError, GatherCommandError, KillMonsterCommandError,
    RecycleCommandError, TaskAcceptationCommandError, TaskCancellationCommandError,
    TaskTradeCommandError, TasksCoinExchangeCommandError,
};
use crate::gear::Slot;
use crate::inventory::{simple_content_spec, InventoryController};
use crate::orderboard::{owner_view, OrderBoard, OrderView, Purpose, PurposeView, pushed_order};
use crate::schema::{items_view, ItemQuantity, SimpleItemSchema};
use crate::sdk::skill::Skill;
use crate::MIN_COIN_THRESHOLD;
use vstd::prelude::*;

verus! {

/// What a character has equipped in a slot; an empty code for nothing.
#[derive(Debug)]
pub struct EquippedSlot {
    pub slot: Slot,
    pub code: String,
}

/// The number of slots of `equipment` holding `item`.
pub open spec fn equipped_count(equipment: Seq<EquippedSlot>, item: Seq<char>) -> nat
    decreases equipment.len(),
{
    if equipment.len() == 0 {
        0
    } else {
        equipped_count(equipment.drop_last(), item) + if equipment.last().code@ == item {
            1nat
        } else {
            0nat
        }
    }
}

/// The code held in the first entry of `equipment` for `slot`, or the empty code.
pub open spec fn equipped_in_spec(equipment: Seq<EquippedSlot>, slot: Slot) -> Seq<char>
    decreases equipment.len(),
{
    if equipment.len() == 0 {
        Seq::empty()
    } else if equipment[0].slot == slot {
        equipment[0].code@
    } else {
        equipped_in_spec(equipment.drop_first(), slot)
    }
}

/// The quantities of the materials `mats`, for `quantity` crafts, that `has`
/// (what the character holds of each in the bank and its inventory) does not cover;
/// an item already ordered keeps its whole quantity.
pub open spec fn missing_mats_spec(
    mats: Seq<ItemQuantity>,
    quantity: nat,
    has: spec_fn(Seq<char>) -> nat,
    ordered: spec_fn(Seq<char>) -> bool,
) -> Seq<ItemQuantity>
    decreases mats.len(),
{
    if mats.len() == 0 {
        Seq::empty()
    } else {
        let prev = missing_mats_spec(mats.drop_last(), quantity, has, ordered);
        let m = mats.last();
        let needed = m.quantity * quantity;
        if has(m.code) < needed {
            prev.push(
                ItemQuantity {
                    code: m.code,
                    quantity: if ordered(m.code) {
                        needed
                    } else {
                        (needed - has(m.code)) as nat
                    },
                },
            )
        } else {
            prev
        }
    }
}

/// The task a character holds: the code of what it asks for (empty for no task), its
/// type, and how much of it is left to do.
#[derive(Debug)]
pub struct TaskState {
    pub code: String,
    pub task_type: Option<TaskType>,
    pub missing: u32,
}

/// The character as the decisions of the bot see it: its name, inventory,
/// equipment, configuration, gold, the capacity of its inventory, its skill levels
/// and its task.
pub struct CharacterController {
    name: String,
    inventory: InventoryController,
    equipment: Vec<EquippedSlot>,
    config: CharConfig,
    gold: u32,
    inventory_max_items: u32,
    levels: SkillLevels,
    task: TaskState,
}

impl CharacterController {
    pub fn new(
        name: String,
        inventory: InventoryController,
        equipment: Vec<EquippedSlot>,
        config: CharConfig,
        gold: u32,
        inventory_max_items: u32,
        levels: SkillLevels,
        task: TaskState,
    ) -> (res: Self)
        requires
            equipment@.len() <= u32::MAX,
        ensures
            res.wf(),
            res.name()@ == name@,
            res.inv() == inventory,
            res.equipment() == equipment@,
            res.config() == config,
            res.gold() == gold,
            res.inventory_max_items() == inventory_max_items,
            res.levels() == levels,
            res.task() == task,
    {
        CharacterController {
            name,
            inventory,
            equipment,
            config,
            gold,
            inventory_max_items,
            levels,
            task,
        }
    }

    pub closed spec fn levels(&self) -> SkillLevels {
        self.levels
    }

    pub closed spec fn task(&self) -> TaskState {
        self.task
    }

    /// The character's level in `skill`.
    pub fn skill_level(&self, skill: Skill) -> (res: u32)
        ensures
            res == level_in(self.levels(), skill),
    {
        self.levels.level(skill)
    }

    pub closed spec fn name(&self) -> String {
        self.name
    }

    pub closed spec fn inv(&self) -> InventoryController {
        self.inventory
    }

    pub fn inventory(&self) -> (res: &InventoryController)
        ensures
            *res == self.inv(),
    {
        &self.inventory
    }

    pub closed spec fn equipment(&self) -> Seq<EquippedSlot> {
        self.equipment@
    }

    /// The equipment list fits the counts made of it.
    pub closed spec fn wf(&self) -> bool {
        self.equipment@.len() <= u32::MAX
    }

    pub closed spec fn config(&self) -> CharConfig {
        self.config
    }

    pub closed spec fn gold(&self) -> u32 {
        self.gold
    }

    pub closed spec fn inventory_max_items(&self) -> u32 {
        self.inventory_max_items
    }

    pub fn get_name(&self) -> (res: &String)
        ensures
            res@ == self.name()@,
    {
        &self.name
    }

    /// The number of items the character's inventory can hold.
    pub fn max_items(&self) -> (res: u32)
        ensures
            res == self.inventory_max_items(),
    {
        self.inventory_max_items
    }

    /// The number of slots in which `item` is equipped.
    pub fn has_equiped(&self, item: &String) -> (res: u32)
        requires
            self.wf(),
        ensures
            res == equipped_count(self.equipment(), item@),
    {
        let mut count: u32 = 0;
        let mut i: usize = 0;
        while i < self.equipment.len()
            invariant
                i <= self.equipment.len(),
                count == equipped_count(self.equipment@.take(i as int), item@),
                count <= i,
                self.equipment@.len() <= u32::MAX,
            decreases self.equipment.len() - i,
        {
            assert(self.equipment@.take(i + 1).drop_last() =~= self.equipment@.take(i as int));
            if self.equipment[i].code == *item {
                count = count + 1;
            }
            i = i + 1;
        }
        assert(self.equipment@.take(i as int) =~= self.equipment@);
        count
    }

    /// The code of what is equipped in `slot`, empty for nothing.
    pub fn equiped_in(&self, slot: Slot) -> (res: String)
        ensures
            res@ == equipped_in_spec(self.equipment(), slot),
    {
        let ghost e = self.equipment@;
        let mut i: usize = 0;
        assert(e.skip(0) =~= e);
        while i < self.equipment.len()
            invariant
                i <= self.equipment.len(),
                e == self.equipment@,
                equipped_in_spec(e, slot) == equipped_in_spec(e.skip(i as int), slot),
            decreases self.equipment.len() - i,
        {
            assert(e.skip(i as int)[0] == e[i as int]);
            if self.equipment[i].slot == slot {
                return self.equipment[i].code.clone();
            }
            assert(e.skip(i as int).drop_first() =~= e.skip(i + 1));
            i = i + 1;
        }
        String::new()
    }

    /// The quantity of `item` held in the inventory and available to the character in
    /// the bank.
    pub fn has_in_bank_or_inv(&self, item: &String, bank: &BankController) -> (res: u32)
        requires
            bank@.wf(),
            self.inv()@.total_of(item@) + bank@.available(item@, self.name()@) <= u32::MAX,
        ensures
            res == self.inv()@.total_of(item@) + bank@.available(item@, self.name()@),
    {
        self.inventory.total_of(item) + bank.has_available(item, &self.name)
    }

    /// The quantity of `item` equipped, held in the inventory and available in the
    /// bank.
    pub fn has_available(&self, item: &String, bank: &BankController) -> (res: u32)
        requires
            self.wf(),
            bank@.wf(),
            equipped_count(self.equipment(), item@) + self.inv()@.total_of(item@)
                + bank@.available(item@, self.name()@) <= u32::MAX,
        ensures
            res == equipped_count(self.equipment(), item@) + self.inv()@.total_of(item@)
                + bank@.available(item@, self.name()@),
    {
        self.has_equiped(item) + self.has_in_bank_or_inv(item, bank)
    }

    /// The gold the character holds and the gold in the bank.
    pub fn gold_available(&self, bank_gold: u32) -> (res: u32)
        requires
            self.gold() + bank_gold <= u32::MAX,
        ensures
            res == self.gold() + bank_gold,
    {
        self.gold + bank_gold
    }

    /// Whether the character may use `s`.
    pub fn skill_enabled(&self, s: Skill) -> (res: bool)
        ensures
            res == self.config()@.skills.contains(s),
    {
        self.config.skill_is_enabled(s)
    }

    /// Switches the character between idle and active.
    pub fn toggle_idle(&mut self)
        ensures
            final(self).config()@.idle == !old(self).config()@.idle,
            final(self).config()@.skills == old(self).config()@.skills,
            final(self).config()@.is_trader == old(self).config()@.is_trader,
            final(self).config()@.task_type == old(self).config()@.task_type,
            final(self).config()@.goals == old(self).config()@.goals,
            final(self).name() == old(self).name(),
            final(self).inv() == old(self).inv(),
            final(self).equipment() == old(self).equipment(),
            final(self).gold() == old(self).gold(),
            final(self).inventory_max_items() == old(self).inventory_max_items(),
            final(self).levels() == old(self).levels(),
            final(self).task() == old(self).task(),
            final(self).wf() == old(self).wf(),
    {
        self.config.toggle_idle();
    }

    /// Orders what the character misses of `quantity` of `item` for its gear; tells
    /// whether an order was placed.
    pub fn order_if_needed(&self, item: &String, quantity: u32, board: &mut OrderBoard, bank: &BankController) -> (res:
        bool)
        requires
            self.wf(),
            bank@.wf(),
            old(board)@.wf(),
            equipped_count(self.equipment(), item@) + self.inv()@.total_of(item@)
                + bank@.available(item@, self.name()@) <= u32::MAX,
        ensures
            ({
                let missing = saturating_sub(
                    quantity as nat,
                    equipped_count(self.equipment(), item@) + self.inv()@.total_of(item@)
                        + bank@.available(item@, self.name()@),
                );
                let purpose = PurposeView::Gear { char: self.name()@, item_code: item@ };
                if missing > 0 {
                    &&& res == (old(board)@.add_outcome(item@, missing, None, purpose) is Ok)
                    &&& res ==> pushed_order(
                        old(board)@.orders,
                        final(board)@.orders,
                        item@,
                        missing,
                        None,
                        purpose,
                    )
                    &&& !res ==> final(board)@.orders == old(board)@.orders
                } else {
                    !res && final(board)@ == old(board)@
                }
            }),
            final(board)@.wf(),
            final(board)@.known_items == old(board)@.known_items,
    {
        let missing_quantity = quantity.saturating_sub(self.has_available(item, bank));
        if missing_quantity > 0 {
            board.add(
                item,
                missing_quantity,
                &None,
                Purpose::Gear { char: self.name.clone(), item_code: item.clone() },
            ).is_ok()
        } else {
            false
        }
    }

    /// Reserves in the bank what the inventory misses of `quantity` of `item`, unless
    /// the item is what `slot` holds.
    pub fn reserv_if_needed_and_available(&self, item: &String, quantity: u32, slot: Slot, bank: &mut BankController)
        requires
            old(bank)@.wf(),
        ensures
            final(bank)@.wf(),
            ({
                let missing = saturating_sub(quantity as nat, self.inv()@.total_of(item@));
                if missing > 0 && equipped_in_spec(self.equipment(), slot) != item@ {
                    final(bank)@ == old(bank)@.after_reserv(item@, missing, self.name()@).0
                } else {
                    final(bank)@ == old(bank)@
                }
            }),
    {
        let missing_quantity = quantity.saturating_sub(self.inventory.total_of(item));
        if missing_quantity > 0 && self.equiped_in(slot) != *item {
            let _ = bank.reserv_item(item, missing_quantity, &self.name);
        }
    }

    /// How many crafts of an item needing `mats_quantity` materials fit in the inventory.
    pub fn max_craftable_items(&self, mats_quantity: u32) -> (res: u32)
        requires
            mats_quantity > 0,
        ensures
            res == self.inventory_max_items() / mats_quantity,
    {
        self.inventory_max_items / mats_quantity
    }

    /// How many crafts of an item made of `mats` (needing `mats_quantity` materials in
    /// all) the bank and the inventory's capacity allow.
    pub fn max_craftable_items_from_bank(&self, mats: &[SimpleItemSchema], mats_quantity: u32, bank: &BankController) -> (res:
        u32)
        requires
            bank@.wf(),
            mats_quantity > 0,
            forall|i: int| 0 <= i < mats@.len() ==> (#[trigger] mats@[i]).quantity > 0,
        ensures
            res == if crate::bank::crafts_allowed(bank@, items_view(mats@), self.name()@)
                < self.inventory_max_items() / mats_quantity {
                crate::bank::crafts_allowed(bank@, items_view(mats@), self.name()@)
            } else {
                (self.inventory_max_items() / mats_quantity) as nat
            },
    {
        let from_bank = bank.has_mats_for(mats, &self.name);
        let fit = self.inventory_max_items / mats_quantity;
        if from_bank < fit {
            from_bank
        } else {
            fit
        }
    }

    /// The materials `mats` of an item, for `quantity` crafts, that the bank and the
    /// inventory do not cover, with the quantities missing; an item already ordered
    /// keeps its whole quantity.
    pub fn missing_mats_for(&self, mats: &[SimpleItemSchema], quantity: u32, board: &OrderBoard, bank: &BankController) -> (res:
        Vec<SimpleItemSchema>)
        requires
            bank@.wf(),
            forall|i: int| 0 <= i < mats@.len() ==> (#[trigger] mats@[i]).quantity * quantity <= u32::MAX,
            forall|i: int|
                0 <= i < mats@.len() ==> self.inv()@.total_of((#[trigger] mats@[i]).code@)
                    + bank@.available(mats@[i].code@, self.name()@) <= u32::MAX,
        ensures
            items_view(res@) == missing_mats_spec(
                items_view(mats@),
                quantity as nat,
                |code: Seq<char>| self.inv()@.total_of(code) + bank@.available(code, self.name()@),
                |code: Seq<char>| board@.is_ordered(code),
            ),
    {
        let ghost all = items_view(mats@);
        let ghost has = |code: Seq<char>| self.inv()@.total_of(code) + bank@.available(code, self.name()@);
        let ghost ordered = |code: Seq<char>| board@.is_ordered(code);
        let mut res: Vec<SimpleItemSchema> = Vec::new();
        let mut i: usize = 0;
        while i < mats.len()
            invariant
                i <= mats.len(),
                all == items_view(mats@),
                bank@.wf(),
                forall|j: int| 0 <= j < mats@.len() ==> (#[trigger] mats@[j]).quantity * quantity <= u32::MAX,
                forall|j: int|
                    0 <= j < mats@.len() ==> self.inv()@.total_of((#[trigger] mats@[j]).code@)
                        + bank@.available(mats@[j].code@, self.name()@) <= u32::MAX,
                has == (|code: Seq<char>| self.inv()@.total_of(code) + bank@.available(code, self.name()@)),
                ordered == (|code: Seq<char>| board@.is_ordered(code)),
                items_view(res@) == missing_mats_spec(all.take(i as int), quantity as nat, has, ordered),
            decreases mats.len() - i,
        {
            assert(all.take(i + 1).drop_last() =~= all.take(i as int));
            assert(all.take(i + 1).last() == all[i as int]);
            assert(mats@[i as int].quantity * quantity <= u32::MAX);
            let needed = mats[i].quantity * quantity;
            let has_now = self.has_in_bank_or_inv(&mats[i].code, bank);
            if has_now < needed {
                let q = if board.is_ordered(&mats[i].code) {
                    needed
                } else {
                    needed - has_now
                };
                res.push(SimpleItemSchema { code: mats[i].code.clone(), quantity: q });
            }
            assert(items_view(res@) =~= missing_mats_spec(all.take(i + 1), quantity as nat, has, ordered));
            i = i + 1;
        }
        assert(all.take(i as int) =~= all);
        res
    }
}

/// The seconds of rest that restore `hp_lost` hit points, a second for each five,
/// rounded up.
pub open spec fn rest_time(hp_lost: nat) -> nat {
    hp_lost / 5 + if hp_lost % 5 > 0 {
        1nat
    } else {
        0nat
    }
}

/// The time to kill a monster with a fight of cooldown `fight_cd` that costs
/// `hp_lost` hit points: the cooldown and the rest that follows.
pub fn time_to_kill_with(fight_cd: u32, hp_lost: u32) -> (res: u32)
    requires
        fight_cd + rest_time(hp_lost as nat) <= u32::MAX,
    ensures
        res == fight_cd + rest_time(hp_lost as nat),
{
    let rest: u32 = hp_lost / 5 + if hp_lost % 5 > 0 {
        1
    } else {
        0
    };
    fight_cd + rest
}

/// The level of a character, or the highest among the account's characters, in each
/// skill.
#[derive(Debug, Clone, Copy, PartialEq, Eq, Structural)]
pub struct SkillLevels {
    pub combat: u32,
    pub mining: u32,
    pub woodcutting: u32,
    pub fishing: u32,
    pub weaponcrafting: u32,
    pub gearcrafting: u32,
    pub jewelrycrafting: u32,
    pub cooking: u32,
    pub alchemy: u32,
}

/// The level in `skill`.
pub open spec fn level_in(levels: SkillLevels, skill: Skill) -> u32 {
    match skill {
        Skill::Combat => levels.combat,
        Skill::Mining => levels.mining,
        Skill::Woodcutting => levels.woodcutting,
        Skill::Fishing => levels.fishing,
        Skill::Weaponcrafting => levels.weaponcrafting,
        Skill::Gearcrafting => levels.gearcrafting,
        Skill::Jewelrycrafting => levels.jewelrycrafting,
        Skill::Cooking => levels.cooking,
        Skill::Alchemy => levels.alchemy,
    }
}

impl SkillLevels {
    pub fn level(&self, skill: Skill) -> (res: u32)
        ensures
            res == level_in(*self, skill),
    {
        match skill {
            Skill::Combat => self.combat,
            Skill::Mining => self.mining,
            Skill::Woodcutting => self.woodcutting,
            Skill::Fishing => self.fishing,
            Skill::Weaponcrafting => self.weaponcrafting,
            Skill::Gearcrafting => self.gearcrafting,
            Skill::Jewelrycrafting => self.jewelrycrafting,
            Skill::Cooking => self.cooking,
            Skill::Alchemy => self.alchemy,
        }
    }
}

/// Whether `g` is a skill level to reach that is not reached yet.
pub open spec fn level_goal_unmet(g: Goal, levels: SkillLevels) -> bool {
    match g {
        Goal::ReachSkillLevel { skill, level } => level_in(levels, skill) < level,
        _ => false,
    }
}

/// The first skill level to reach among `goals` that is not reached yet.
pub open spec fn first_unreached(goals: Seq<Goal>, levels: SkillLevels) -> Option<Goal>
    decreases goals.len(),
{
    if goals.len() == 0 {
        None
    } else if level_goal_unmet(goals[0], levels) {
        Some(goals[0])
    } else {
        first_unreached(goals.drop_first(), levels)
    }
}

/// Whether the character works toward goal `g`: the orders always; a skill level to
/// reach only when it is the first one not reached; a skill to level along another
/// while its level is under one more than the account's best level in the other,
/// and under `max_level`; events never.
pub open spec fn pursued(
    g: Goal,
    first: Option<Goal>,
    levels: SkillLevels,
    account_best: SkillLevels,
    max_level: u32,
) -> bool {
    match g {
        Goal::Orders => true,
        Goal::Events => false,
        Goal::ReachSkillLevel { skill, level } => first == Some(g) && level_in(levels, skill) < level,
        Goal::FollowMaxSkillLevel { skill, skill_to_follow } => level_in(levels, skill) < 1
            + level_in(account_best, skill_to_follow) && level_in(levels, skill) < max_level,
    }
}

/// The goals of `goals` that the character works toward, in order.
pub open spec fn goals_to_pursue_spec(
    goals: Seq<Goal>,
    levels: SkillLevels,
    account_best: SkillLevels,
    max_level: u32,
) -> Seq<Goal> {
    goals.filter(
        |g: Goal| pursued(g, first_unreached(goals, levels), levels, account_best, max_level),
    )
}

proof fn lemma_first_unreached(goals: Seq<Goal>, levels: SkillLevels)
    ensures
        match first_unreached(goals, levels) {
            Some(g) => exists|i: int|
                0 <= i < goals.len() && goals[i] == g && level_goal_unmet(g, levels) && forall|j: int|
                    0 <= j < i ==> !level_goal_unmet(#[trigger] goals[j], levels),
            None => forall|j: int| 0 <= j < goals.len() ==> !level_goal_unmet(#[trigger] goals[j], levels),
        },
    decreases goals.len(),
{
    if goals.len() > 0 {
        lemma_first_unreached(goals.drop_first(), levels);
        let rest = goals.drop_first();
        if !level_goal_unmet(goals[0], levels) {
            match first_unreached(rest, levels) {
                Some(g) => {
                    let i = choose|i: int|
                        0 <= i < rest.len() && rest[i] == g && level_goal_unmet(g, levels) && forall|j: int|
                            0 <= j < i ==> !level_goal_unmet(#[trigger] rest[j], levels);
                    assert(goals[i + 1] == g);
                    assert forall|j: int| 0 <= j < i + 1 implies !level_goal_unmet(#[trigger] goals[j], levels) by {
                        if j > 0 {
                            assert(goals[j] == rest[j - 1]);
                        }
                    }
                },
                None => {
                    assert forall|j: int| 0 <= j < goals.len() implies !level_goal_unmet(#[trigger] goals[j], levels) by {
                        if j > 0 {
                            assert(goals[j] == rest[j - 1]);
                        }
                    }
                },
            }
        }
    }
}

/// Of the skill levels to reach, a character works toward the first one it has not
/// reached only: each skill level goal it pursues is one it has not reached, and is
/// that first one (a goal listed again is pursued again); the first skill level goal
/// not reached is pursued; the orders are always pursued, and events never.
pub proof fn law_one_level_goal_at_a_time(goals: Seq<Goal>, levels: SkillLevels, account_best: SkillLevels, max_level: u32)
    ensures
        ({
            let res = goals_to_pursue_spec(goals, levels, account_best, max_level);
            &&& forall|k: int, i: int|
                0 <= k < res.len() && 0 <= i < goals.len() && (#[trigger] res[k]) is ReachSkillLevel
                    && level_goal_unmet(#[trigger] goals[i], levels) && (forall|j: int|
                    0 <= j < i ==> !level_goal_unmet(#[trigger] goals[j], levels)) ==> res[k] == goals[i]
            &&& forall|k: int| 0 <= k < res.len() && (#[trigger] res[k]) is ReachSkillLevel ==> level_goal_unmet(
                res[k],
                levels,
            )
            &&& forall|i: int|
                0 <= i < goals.len() && level_goal_unmet(#[trigger] goals[i], levels) && (forall|j: int|
                    0 <= j < i ==> !level_goal_unmet(#[trigger] goals[j], levels)) ==> res.contains(goals[i])
            &&& goals.contains(Goal::Orders) ==> res.contains(Goal::Orders)
            &&& !res.contains(Goal::Events)
        }),
{
    let first = first_unreached(goals, levels);
    let pred = |g: Goal| pursued(g, first, levels, account_best, max_level);
    let res = goals.filter(pred);
    lemma_first_unreached(goals, levels);
    broadcast use vstd::seq_lib::group_filter_ensures;
    assert forall|k: int, i: int|
        0 <= k < res.len() && 0 <= i < goals.len() && (#[trigger] res[k]) is ReachSkillLevel && level_goal_unmet(
            #[trigger] goals[i],
            levels,
        ) && (forall|j: int| 0 <= j < i ==> !level_goal_unmet(#[trigger] goals[j], levels)) implies res[k]
        == goals[i] by {
        assert(pred(res[k]));
        match first {
            Some(g) => {
                let i2 = choose|i2: int|
                    0 <= i2 < goals.len() && goals[i2] == g && level_goal_unmet(g, levels) && forall|j: int|
                        0 <= j < i2 ==> !level_goal_unmet(#[trigger] goals[j], levels);
                if i2 < i {
                    assert(!level_goal_unmet(goals[i2], levels));
                } else if i < i2 {
                    assert(!level_goal_unmet(goals[i], levels));
                }
            },
            None => {
                assert(!level_goal_unmet(goals[i], levels));
            },
        }
    }
    assert forall|k: int| 0 <= k < res.len() && (#[trigger] res[k]) is ReachSkillLevel implies level_goal_unmet(
        res[k],
        levels,
    ) by {
        assert(pred(res[k]));
    }
    assert forall|i: int|
        0 <= i < goals.len() && level_goal_unmet(#[trigger] goals[i], levels) && (forall|j: int|
            0 <= j < i ==> !level_goal_unmet(#[trigger] goals[j], levels)) implies res.contains(goals[i]) by {
        match first {
            Some(g) => {
                let i2 = choose|i2: int|
                    0 <= i2 < goals.len() && goals[i2] == g && level_goal_unmet(g, levels) && forall|j: int|
                        0 <= j < i2 ==> !level_goal_unmet(#[trigger] goals[j], levels);
                if i2 < i {
                    assert(!level_goal_unmet(goals[i2], levels));
                } else if i < i2 {
                    assert(!level_goal_unmet(goals[i], levels));
                }
                assert(pred(goals[i]));
            },
            None => {
                assert(!level_goal_unmet(goals[i], levels));
            },
        }
        goals.lemma_filter_contains(pred, i);
    }
    if goals.contains(Goal::Orders) {
        let i = choose|i: int| 0 <= i < goals.len() && goals[i] == Goal::Orders;
        assert(pred(goals[i]));
        goals.lemma_filter_contains(pred, i);
    }
    if res.contains(Goal::Events) {
        let k = choose|k: int| 0 <= k < res.len() && res[k] == Goal::Events;
        assert(pred(res[k]));
    }
}

fn find_first_unreached(goals: &Vec<Goal>, levels: &SkillLevels) -> (res: Option<Goal>)
    ensures
        res == first_unreached(goals@, *levels),
{
    let ghost gs = goals@;
    let mut i: usize = 0;
    assert(gs.skip(0) =~= gs);
    while i < goals.len()
        invariant
            i <= goals.len(),
            gs == goals@,
            first_unreached(gs, *levels) == first_unreached(gs.skip(i as int), *levels),
        decreases goals.len() - i,
    {
        assert(gs.skip(i as int)[0] == gs[i as int]);
        assert(gs.skip(i as int).drop_first() =~= gs.skip(i + 1));
        if let Goal::ReachSkillLevel { skill, level } = goals[i] {
            if levels.level(skill) < level {
                return Some(goals[i]);
            }
        }
        i = i + 1;
    }
    assert(gs.skip(i as int).len() == 0);
    None
}

/// The goals the character works toward, in the order in which it tries them: the
/// orders; the first skill level to reach that is not reached yet; the skills to
/// level along another whose level is under one more than the account's best level
/// in the other and under `max_level`. Events are left out.
pub fn goals_to_pursue(goals: &Vec<Goal>, levels: &SkillLevels, account_best: &SkillLevels, max_level: u32) -> (res:
    Vec<Goal>)
    ensures
        res@ == goals_to_pursue_spec(goals@, *levels, *account_best, max_level),
{
    let ghost gs = goals@;
    let first = find_first_unreached(goals, levels);
    let ghost pred = |g: Goal| pursued(g, first_unreached(gs, *levels), *levels, *account_best, max_level);
    let mut res: Vec<Goal> = Vec::new();
    let mut i: usize = 0;
    while i < goals.len()
        invariant
            i <= goals.len(),
            gs == goals@,
            first == first_unreached(gs, *levels),
            pred == (|g: Goal| pursued(g, first_unreached(gs, *levels), *levels, *account_best, max_level)),
            res@ == gs.take(i as int).filter(pred),
        decreases goals.len() - i,
    {
        proof {
            reveal(Seq::filter);
            assert(gs.take(i + 1).drop_last() =~= gs.take(i as int));
            assert(gs.take(i + 1).last() == gs[i as int]);
        }
        let g = goals[i];
        let keep = match g {
            Goal::Orders => true,
            Goal::Events => false,
            Goal::ReachSkillLevel { skill, level } => first == Some(g) && levels.level(skill) < level,
            Goal::FollowMaxSkillLevel { skill, skill_to_follow } => {
                let own = levels.level(skill) as u64;
                own < 1 + account_best.level(skill_to_follow) as u64 && own < max_level as u64
            },
        };
        assert(keep == pred(g));
        if keep {
            res.push(g);
        }
        assert(res@ =~= gs.take(i + 1).filter(pred));
        i = i + 1;
    }
    assert(gs.take(i as int) =~= gs);
    res
}

/// What the game says of an item to craft or recycle: the skill that crafts it, if
/// any, and its level.
#[derive(Debug, Clone, Copy)]
pub struct CraftInfo {
    pub skill: Option<Skill>,
    pub level: u32,
}

/// Whether a character with `skills` enabled and `levels` may gather a resource of
/// `skill` and `level`.
pub open spec fn gather_check(skills: Set<Skill>, levels: SkillLevels, skill: Skill, level: u32) -> Result<
    (),
    GatherCommandError,
> {
    if !skills.contains(skill) {
        Err(GatherCommandError::SkillDisabled(skill))
    } else if level_in(levels, skill) < level {
        Err(GatherCommandError::InsufficientSkillLevel(skill))
    } else {
        Ok(())
    }
}

/// Whether a character with `skills` enabled and `levels` may craft the item of which
/// the game says `item` (nothing for an unknown item); gives the crafting skill.
pub open spec fn craft_check(skills: Set<Skill>, levels: SkillLevels, item: Option<CraftInfo>) -> Result<
    Skill,
    CraftCommandError,
> {
    match item {
        None => Err(CraftCommandError::ItemNotFound),
        Some(i) => match i.skill {
            None => Err(CraftCommandError::ItemNotCraftable),
            Some(skill) => if !skills.contains(skill) {
                Err(CraftCommandError::SkillDisabled(skill))
            } else if level_in(levels, skill) < i.level {
                Err(CraftCommandError::InsufficientSkillLevel(skill, i.level as i32))
            } else {
                Ok(skill)
            },
        },
    }
}

/// The same checks as `craft_check`, for recycling, and the room that the recycled
/// materials need in the inventory.
pub open spec fn recycle_check(
    skills: Set<Skill>,
    levels: SkillLevels,
    item: Option<CraftInfo>,
    max_items: u32,
    recycled_quantity: u32,
    quantity: u32,
) -> Result<Skill, RecycleCommandError> {
    match item {
        None => Err(RecycleCommandError::ItemNotFound),
        Some(i) => match i.skill {
            None => Err(RecycleCommandError::ItemNotCraftable),
            Some(skill) => if !skills.contains(skill) {
                Err(RecycleCommandError::SkillDisabled(skill))
            } else if level_in(levels, skill) < i.level {
                Err(RecycleCommandError::InsufficientSkillLevel(skill, i.level as i32))
            } else if max_items < recycled_quantity * quantity {
                Err(RecycleCommandError::InsufficientInventorySpace)
            } else {
                Ok(skill)
            },
        },
    }
}

impl CharacterController {
    /// Checks that the character may gather a resource of `skill` and `level`.
    pub fn can_gather(&self, skill: Skill, level: u32) -> (res: Result<(), GatherCommandError>)
        ensures
            res == gather_check(self.config()@.skills, self.levels(), skill, level),
    {
        if !self.skill_enabled(skill) {
            return Err(GatherCommandError::SkillDisabled(skill));
        }
        if self.skill_level(skill) < level {
            return Err(GatherCommandError::InsufficientSkillLevel(skill));
        }
        Ok(())
    }

    /// Checks that the character may gather a resource of `skill` and `level` now,
    /// `map_found` telling whether a map holds the resource.
    pub fn can_gather_now(&self, skill: Skill, level: u32, map_found: bool) -> (res: Result<
        (),
        GatherCommandError,
    >)
        ensures
            res == match gather_check(self.config()@.skills, self.levels(), skill, level) {
                Ok(()) => if map_found {
                    Ok(())
                } else {
                    Err(GatherCommandError::MapNotFound)
                },
                Err(e) => Err(e),
            },
    {
        match self.can_gather(skill, level) {
            Ok(()) => {
                if !map_found {
                    return Err(GatherCommandError::MapNotFound);
                }
                Ok(())
            },
            Err(e) => Err(e),
        }
    }

    /// Checks that the character may fight, `map_found` telling whether a map holds
    /// the monster.
    pub fn can_fight(&self, map_found: bool) -> (res: Result<(), KillMonsterCommandError>)
        ensures
            res == if !self.config()@.skills.contains(Skill::Combat) {
                Err(KillMonsterCommandError::SkillDisabled(Skill::Combat))
            } else if !map_found {
                Err(KillMonsterCommandError::MapNotFound)
            } else {
                Ok(())
            },
    {
        if !self.skill_enabled(Skill::Combat) {
            return Err(KillMonsterCommandError::SkillDisabled(Skill::Combat));
        }
        if !map_found {
            return Err(KillMonsterCommandError::MapNotFound);
        }
        Ok(())
    }

    /// Checks that the character may craft the item of which the game says `item`;
    /// gives the skill that crafts it.
    pub fn can_craft(&self, item: Option<CraftInfo>) -> (res: Result<Skill, CraftCommandError>)
        ensures
            res == craft_check(self.config()@.skills, self.levels(), item),
    {
        let Some(info) = item else {
            return Err(CraftCommandError::ItemNotFound);
        };
        let Some(skill) = info.skill else {
            return Err(CraftCommandError::ItemNotCraftable);
        };
        if !self.skill_enabled(skill) {
            return Err(CraftCommandError::SkillDisabled(skill));
        }
        if self.skill_level(skill) < info.level {
            return Err(CraftCommandError::InsufficientSkillLevel(skill, info.level as i32));
        }
        Ok(skill)
    }

    /// Checks that the character may craft `quantity` of the item of which the game
    /// says `item`, made of `mats` (`mats_quantity` materials in all), in one go: the
    /// bank and the inventory must hold the materials and the inventory their number.
    pub fn can_craft_now(
        &self,
        item: Option<CraftInfo>,
        mats: &[SimpleItemSchema],
        mats_quantity: u32,
        quantity: u32,
        board: &OrderBoard,
        bank: &BankController,
    ) -> (res: Result<Skill, CraftCommandError>)
        requires
            bank@.wf(),
            mats_quantity > 0,
            forall|i: int| 0 <= i < mats@.len() ==> (#[trigger] mats@[i]).quantity * quantity <= u32::MAX,
            forall|i: int|
                0 <= i < mats@.len() ==> self.inv()@.total_of((#[trigger] mats@[i]).code@)
                    + bank@.available(mats@[i].code@, self.name()@) <= u32::MAX,
        ensures
            res == match craft_check(self.config()@.skills, self.levels(), item) {
                Ok(skill) => if missing_mats_spec(
                    items_view(mats@),
                    quantity as nat,
                    |code: Seq<char>| self.inv()@.total_of(code) + bank@.available(code, self.name()@),
                    |code: Seq<char>| board@.is_ordered(code),
                ).len() > 0 {
                    Err(CraftCommandError::InsufficientMaterials)
                } else if self.inventory_max_items() / mats_quantity < quantity {
                    Err(CraftCommandError::InsufficientInventorySpace)
                } else {
                    Ok(skill)
                },
                Err(e) => Err(e),
            },
    {
        let skill = match self.can_craft(item) {
            Ok(s) => s,
            Err(e) => return Err(e),
        };
        let missing = self.missing_mats_for(mats, quantity, board, bank);
        if missing.len() > 0 {
            return Err(CraftCommandError::InsufficientMaterials);
        }
        if self.max_craftable_items(mats_quantity) < quantity {
            return Err(CraftCommandError::InsufficientInventorySpace);
        }
        Ok(skill)
    }

    /// Checks that the character may recycle `quantity` of the item of which the game
    /// says `item`, each giving back `recycled_quantity` materials; gives the skill
    /// that crafts it.
    pub fn can_recycle(&self, item: Option<CraftInfo>, recycled_quantity: u32, quantity: u32) -> (res:
        Result<Skill, RecycleCommandError>)
        ensures
            res == recycle_check(
                self.config()@.skills,
                self.levels(),
                item,
                self.inventory_max_items(),
                recycled_quantity,
                quantity,
            ),
    {
        let Some(info) = item else {
            return Err(RecycleCommandError::ItemNotFound);
        };
        let Some(skill) = info.skill else {
            return Err(RecycleCommandError::ItemNotCraftable);
        };
        if !self.skill_enabled(skill) {
            return Err(RecycleCommandError::SkillDisabled(skill));
        }
        if self.skill_level(skill) < info.level {
            return Err(RecycleCommandError::InsufficientSkillLevel(skill, info.level as i32));
        }
        let r = recycled_quantity as u64;
        let q = quantity as u64;
        assert(r * q <= u32::MAX * u32::MAX) by (nonlinear_arith)
            requires
                r <= u32::MAX,
                q <= u32::MAX,
        ;
        if (self.inventory_max_items as u64) < r * q {
            return Err(RecycleCommandError::InsufficientInventorySpace);
        }
        Ok(skill)
    }

    /// Checks that the inventory and the bank hold `quantity` of `item` to delete.
    pub fn can_delete(&self, item: &String, quantity: u32, bank: &BankController) -> (res: Result<
        (),
        DeleteCommandError,
    >)
        requires
            bank@.wf(),
            self.inv()@.total_of(item@) + bank@.available(item@, self.name()@) <= u32::MAX,
        ensures
            res is Err <==> self.inv()@.total_of(item@) + bank@.available(item@, self.name()@)
                < quantity,
            res is Err ==> res == Err::<(), DeleteCommandError>(DeleteCommandError::InsufficientQuantity),
    {
        if self.has_in_bank_or_inv(item, bank) < quantity {
            return Err(DeleteCommandError::InsufficientQuantity);
        }
        Ok(())
    }

    /// Checks that the character holds no task, before it accepts one.
    pub fn can_accept_task(&self) -> (res: Result<(), TaskAcceptationCommandError>)
        ensures
            res is Err <==> self.task().code@.len() > 0,
            res is Err ==> res == Err::<(), TaskAcceptationCommandError>(
                TaskAcceptationCommandError::TaskAlreadyInProgress,
            ),
    {
        if self.task.code.as_str().unicode_len() != 0 {
            return Err(TaskAcceptationCommandError::TaskAlreadyInProgress);
        }
        Ok(())
    }

    /// Checks that the character can trade the items of its task: it holds an items
    /// task not completed yet, and the inventory and the bank hold what is left to
    /// trade.
    pub fn can_trade_task(&self, bank: &BankController) -> (res: Result<(), TaskTradeCommandError>)
        requires
            bank@.wf(),
            self.inv()@.total_of(self.task().code@) + bank@.available(self.task().code@, self.name()@)
                <= u32::MAX,
        ensures
            ({
                let t = self.task();
                let has = self.inv()@.total_of(t.code@) + bank@.available(t.code@, self.name()@);
                if t.code@.len() == 0 {
                    res == Err::<(), TaskTradeCommandError>(TaskTradeCommandError::NoTask)
                } else if t.task_type != Some(TaskType::Items) {
                    res == Err::<(), TaskTradeCommandError>(TaskTradeCommandError::InvalidTaskType)
                } else if t.missing == 0 {
                    res == Err::<(), TaskTradeCommandError>(TaskTradeCommandError::TaskAlreadyCompleted)
                } else if has < t.missing {
                    res matches Err(TaskTradeCommandError::MissingItems { item, quantity })
                        && item@ == t.code@ && quantity == (t.missing - has) as i32
                } else {
                    res is Ok
                }
            }),
    {
        if self.task.code.as_str().unicode_len() == 0 {
            return Err(TaskTradeCommandError::NoTask);
        }
        match self.task.task_type {
            Some(TaskType::Items) => {},
            _ => return Err(TaskTradeCommandError::InvalidTaskType),
        }
        if self.task.missing == 0 {
            return Err(TaskTradeCommandError::TaskAlreadyCompleted);
        }
        let missing = self.task.missing.saturating_sub(self.has_in_bank_or_inv(&self.task.code, bank));
        if missing > 0 {
            return Err(
                TaskTradeCommandError::MissingItems { item: self.task.code.clone(), quantity: missing as i32 },
            );
        }
        Ok(())
    }

    /// Checks that the inventory and the bank hold the `coin`s to exchange for a task
    /// reward at `price`, with `MIN_COIN_THRESHOLD` left over; when the coin is
    /// ordered, the whole amount counts as missing.
    pub fn can_exchange_task(&self, coin: &String, price: u32, board: &OrderBoard, bank: &BankController) -> (res:
        Result<(), TasksCoinExchangeCommandError>)
        requires
            bank@.wf(),
            self.inv()@.total_of(coin@) + bank@.available(coin@, self.name()@) <= u32::MAX,
            price + MIN_COIN_THRESHOLD <= u32::MAX,
        ensures
            ({
                let needed = price + MIN_COIN_THRESHOLD;
                let has = self.inv()@.total_of(coin@) + bank@.available(coin@, self.name()@);
                let missing = if board@.is_ordered(coin@) {
                    needed as nat
                } else {
                    saturating_sub(needed as nat, has)
                };
                if missing > 0 {
                    res == Err::<(), TasksCoinExchangeCommandError>(
                        TasksCoinExchangeCommandError::InsufficientCoins(missing as i32),
                    )
                } else {
                    res is Ok
                }
            }),
    {
        let available = self.has_in_bank_or_inv(coin, bank);
        let min = price + MIN_COIN_THRESHOLD;
        let mut missing = min.saturating_sub(available);
        if board.is_ordered(coin) {
            missing = min;
        }
        if missing > 0 {
            return Err(TasksCoinExchangeCommandError::InsufficientCoins(missing as i32));
        }
        Ok(())
    }

    /// Checks that the bank holds the `coin`s to cancel a task at `price`, with
    /// `MIN_COIN_THRESHOLD` left over.
    pub fn can_cancel_task(&self, coin: &String, price: u32, bank: &BankController) -> (res: Result<
        (),
        TaskCancellationCommandError,
    >)
        requires
            bank@.wf(),
            price + MIN_COIN_THRESHOLD <= u32::MAX,
        ensures
            res is Err <==> bank@.available(coin@, self.name()@) < price + MIN_COIN_THRESHOLD,
            res is Err ==> res == Err::<(), TaskCancellationCommandError>(
                TaskCancellationCommandError::NotEnoughCoins,
            ),
    {
        if bank.has_available(coin, &self.name) < price + MIN_COIN_THRESHOLD {
            return Err(TaskCancellationCommandError::NotEnoughCoins);
        }
        Ok(())
    }
}

impl CharacterController {
    /// How much of its task the character trades in one go: what is left to do, up to
    /// what the inventory holds.
    pub fn task_trade_quantity(&self) -> (res: u32)
        ensures
            res == if self.task().missing < self.inventory_max_items() {
                self.task().missing
            } else {
                self.inventory_max_items()
            },
    {
        if self.task.missing < self.inventory_max_items {
            self.task.missing
        } else {
            self.inventory_max_items
        }
    }

    /// How many `coin`s the character takes to exchange at `price` each: what the bank
    /// holds for it, up to half of what the inventory holds, rounded down to a
    /// multiple of the price.
    pub fn coins_to_exchange(&self, coin: &String, price: u32, bank: &BankController) -> (res: u32)
        requires
            bank@.wf(),
            price > 0,
        ensures
            ({
                let cap = self.inventory_max_items() / 2;
                let avail = bank@.available(coin@, self.name()@);
                let q = if cap < avail {
                    cap as nat
                } else {
                    avail
                };
                res == q - q % (price as nat)
            }),
    {
        let cap = self.inventory_max_items / 2;
        let avail = bank.has_available(coin, &self.name);
        let q = if cap < avail {
            cap
        } else {
            avail
        };
        let r = q % price;
        assert(r <= q) by (nonlinear_arith)
            requires
                r == q % price,
                price > 0,
        ;
        q - r
    }

    /// Sets `quantity` of `item` aside in the inventory before a command that spends
    /// it: what the inventory already holds of it is reserved there, and what it
    /// misses is reserved in `bank`; gives the quantity to withdraw from the bank.
    pub fn lock_in_inventory(&mut self, item: &String, quantity: u32, bank: &mut BankController) -> (res: u32)
        requires
            old(self).inv()@.wf(),
            old(bank)@.wf(),
        ensures
            ({
                let in_inv = old(self).inv()@.available(item@);
                let to_reserv = if in_inv < quantity {
                    in_inv
                } else {
                    quantity as nat
                };
                &&& final(self).inv()@ == if in_inv > 0 {
                    old(self).inv()@.after_reserv(item@, to_reserv).0
                } else {
                    old(self).inv()@
                }
                &&& res == saturating_sub(quantity as nat, in_inv)
                &&& final(bank)@ == if res > 0 {
                    old(bank)@.after_reserv(item@, res as nat, old(self).name()@).0
                } else {
                    old(bank)@
                }
            }),
            final(self).inv()@.wf(),
            final(bank)@.wf(),
            final(self).name() == old(self).name(),
            final(self).equipment() == old(self).equipment(),
            final(self).config() == old(self).config(),
            final(self).gold() == old(self).gold(),
            final(self).inventory_max_items() == old(self).inventory_max_items(),
            final(self).levels() == old(self).levels(),
            final(self).task() == old(self).task(),
            final(self).wf() == old(self).wf(),
    {
        let in_inventory = self.inventory.has_available(item);
        if in_inventory > 0 {
            let to_reserv = if in_inventory < quantity {
                in_inventory
            } else {
                quantity
            };
            let _ = self.inventory.reserv_item(item, to_reserv);
        }
        if in_inventory >= quantity {
            return 0;
        }
        let missing = quantity - in_inventory;
        let _ = bank.reserv_item(item, missing, &self.name);
        missing
    }
}

/// What is left of `quantity` of `code` to deposit once each entry of `keep` for
/// `code`, in order, took its quantity off; nothing once an entry asks for at least
/// what is left.
pub open spec fn left_to_deposit(quantity: nat, code: Seq<char>, keep: Seq<ItemQuantity>) -> Option<nat>
    decreases keep.len(),
{
    if keep.len() == 0 {
        Some(quantity)
    } else if keep[0].code == code {
        if quantity > keep[0].quantity {
            left_to_deposit((quantity - keep[0].quantity) as nat, code, keep.drop_first())
        } else {
            None
        }
    } else {
        left_to_deposit(quantity, code, keep.drop_first())
    }
}

/// The items of `content` to deposit so that the quantities of `keep` stay.
pub open spec fn deposit_keeping(content: Seq<ItemQuantity>, keep: Seq<ItemQuantity>) -> Seq<ItemQuantity>
    decreases content.len(),
{
    if content.len() == 0 {
        Seq::empty()
    } else {
        let prev = deposit_keeping(content.drop_last(), keep);
        let m = content.last();
        match left_to_deposit(m.quantity, m.code, keep) {
            Some(q) => prev.push(ItemQuantity { code: m.code, quantity: q }),
            None => prev,
        }
    }
}

/// The number of entries of `items` for an item that `bank` does not hold.
pub open spec fn new_in_bank(bank: BankView, items: Seq<ItemQuantity>) -> nat
    decreases items.len(),
{
    if items.len() == 0 {
        0
    } else {
        new_in_bank(bank, items.drop_last()) + if bank.total_of(items.last().code) == 0 {
            1nat
        } else {
            0nat
        }
    }
}

impl CharacterController {
    /// The items of the inventory to deposit, but for those reserved in it.
    pub fn items_but_reserved(&self) -> (res: Vec<SimpleItemSchema>)
        requires
            self.inv()@.wf(),
        ensures
            items_view(res@) == simple_content_spec(self.inv()@.content).filter(
                |m: ItemQuantity| !(self.inv()@.reserved(m.code) > 0),
            ),
    {
        let content = self.inventory.simple_content();
        let ghost all = items_view(content@);
        let ghost pred = |m: ItemQuantity| !(self.inv()@.reserved(m.code) > 0);
        let mut res: Vec<SimpleItemSchema> = Vec::new();
        let mut i: usize = 0;
        while i < content.len()
            invariant
                i <= content.len(),
                all == items_view(content@),
                self.inv()@.wf(),
                pred == (|m: ItemQuantity| !(self.inv()@.reserved(m.code) > 0)),
                items_view(res@) == all.take(i as int).filter(pred),
            decreases content.len() - i,
        {
            proof {
                reveal(Seq::filter);
                assert(all.take(i + 1).drop_last() =~= all.take(i as int));
                assert(all.take(i + 1).last() == all[i as int]);
            }
            if !self.inventory.is_reserved(&content[i].code) {
                res.push(content[i].duplicate());
            }
            assert(items_view(res@) =~= all.take(i + 1).filter(pred));
            i = i + 1;
        }
        assert(all.take(i as int) =~= all);
        res
    }

    /// The items of the inventory to deposit, but for `item`.
    pub fn items_but(&self, item: &String) -> (res: Vec<SimpleItemSchema>)
        ensures
            items_view(res@) == simple_content_spec(self.inv()@.content).filter(
                |m: ItemQuantity| m.code != item@,
            ),
    {
        let content = self.inventory.simple_content();
        let ghost all = items_view(content@);
        let ghost pred = |m: ItemQuantity| m.code != item@;
        let mut res: Vec<SimpleItemSchema> = Vec::new();
        let mut i: usize = 0;
        while i < content.len()
            invariant
                i <= content.len(),
                all == items_view(content@),
                pred == (|m: ItemQuantity| m.code != item@),
                items_view(res@) == all.take(i as int).filter(pred),
            decreases content.len() - i,
        {
            proof {
                reveal(Seq::filter);
                assert(all.take(i + 1).drop_last() =~= all.take(i as int));
                assert(all.take(i + 1).last() == all[i as int]);
            }
            if content[i].code != *item {
                res.push(content[i].duplicate());
            }
            assert(items_view(res@) =~= all.take(i + 1).filter(pred));
            i = i + 1;
        }
        assert(all.take(i as int) =~= all);
        res
    }

    /// The items of the inventory to deposit so that the quantities of `keep` stay in
    /// it.
    pub fn items_but_multiple(&self, keep: &[SimpleItemSchema]) -> (res: Vec<SimpleItemSchema>)
        ensures
            items_view(res@) == deposit_keeping(
                simple_content_spec(self.inv()@.content),
                items_view(keep@),
            ),
    {
        let content = self.inventory.simple_content();
        let ghost all = items_view(content@);
        let ghost ks = items_view(keep@);
        let mut res: Vec<SimpleItemSchema> = Vec::new();
        let mut i: usize = 0;
        while i < content.len()
            invariant
                i <= content.len(),
                all == items_view(content@),
                ks == items_view(keep@),
                items_view(res@) == deposit_keeping(all.take(i as int), ks),
            decreases content.len() - i,
        {
            proof {
                assert(all.take(i + 1).drop_last() =~= all.take(i as int));
                assert(all.take(i + 1).last() == all[i as int]);
            }
            let mut q: u32 = content[i].quantity;
            let mut kept = false;
            let mut j: usize = 0;
            assert(ks.skip(0) =~= ks);
            while j < keep.len()
                invariant
                    j <= keep.len(),
                    i < content.len(),
                    all == items_view(content@),
                    ks == items_view(keep@),
                    q <= content[i as int].quantity,
                    kept ==> left_to_deposit(all[i as int].quantity, all[i as int].code, ks) is None,
                    !kept ==> left_to_deposit(all[i as int].quantity, all[i as int].code, ks)
                        == left_to_deposit(q as nat, all[i as int].code, ks.skip(j as int)),
                decreases keep.len() - j,
            {
                let ghost rest = ks.skip(j as int);
                assert(rest[0] == ks[j as int]);
                assert(rest.drop_first() =~= ks.skip(j + 1));
                if !kept && keep[j].code == content[i].code {
                    if q > keep[j].quantity {
                        q = q - keep[j].quantity;
                    } else {
                        kept = true;
                    }
                }
                j = j + 1;
            }
            if !kept {
                assert(ks.skip(j as int).len() == 0);
                res.push(SimpleItemSchema { code: content[i].code.clone(), quantity: q });
            }
            assert(items_view(res@) =~= deposit_keeping(all.take(i + 1), ks));
            i = i + 1;
        }
        assert(all.take(i as int) =~= all);
        res
    }

    /// Checks a deposit of `items` before the command: each must be in the
    /// inventory in its quantity, and the bank, of `bank_slots` slots, must have room
    /// for the items it does not hold yet. Nothing is checked for no item.
    pub fn can_deposit(&self, items: &[SimpleItemSchema], bank: &BankController, bank_slots: u32) -> (res: Result<
        (),
        DepositItemCommandError,
    >)
        ensures
            res is Err <==> items@.len() > 0 && ((exists|i: int|
                0 <= i < items@.len() && self.inv()@.total_of((#[trigger] items@[i]).code@)
                    < items@[i].quantity) || new_in_bank(bank@, items_view(items@)) > bank_slots),
            res is Err ==> (res == Err::<(), DepositItemCommandError>(DepositItemCommandError::MissingQuantity)
                <==> exists|i: int|
                0 <= i < items@.len() && self.inv()@.total_of((#[trigger] items@[i]).code@)
                    < items@[i].quantity),
            res is Err ==> res == Err::<(), DepositItemCommandError>(DepositItemCommandError::MissingQuantity)
                || res == Err::<(), DepositItemCommandError>(
                DepositItemCommandError::InsufficientBankSpace,
            ),
    {
        if items.len() == 0 {
            return Ok(());
        }
        let mut i: usize = 0;
        while i < items.len()
            invariant
                i <= items.len(),
                forall|k: int|
                    0 <= k < i ==> !(self.inv()@.total_of((#[trigger] items@[k]).code@) < items@[k].quantity),
            decreases items.len() - i,
        {
            if self.inventory.total_of(&items[i].code) < items[i].quantity {
                return Err(DepositItemCommandError::MissingQuantity);
            }
            i = i + 1;
        }
        let ghost all = items_view(items@);
        let mut count: u64 = 0;
        let mut k: usize = 0;
        while k < items.len()
            invariant
                k <= items.len(),
                all == items_view(items@),
                count == new_in_bank(bank@, all.take(k as int)),
                count <= k,
            decreases items.len() - k,
        {
            assert(all.take(k + 1).drop_last() =~= all.take(k as int));
            assert(all.take(k + 1).last() == all[k as int]);
            if bank.total_of(&items[k].code) == 0 {
                count = count + 1;
            }
            k = k + 1;
        }
        assert(all.take(k as int) =~= all);
        if (bank_slots as u64) < count {
            return Err(DepositItemCommandError::InsufficientBankSpace);
        }
        Ok(())
    }

    /// Checks a withdrawal of `items` before the command: the bank must hold each in
    /// its quantity for the character. Nothing is checked for no item.
    pub fn can_withdraw(&self, items: &[SimpleItemSchema], bank: &BankController) -> (res: Result<
        (),
        WithdrawItemCommandError,
    >)
        requires
            bank@.wf(),
        ensures
            res is Err <==> items@.len() > 0 && exists|i: int|
                0 <= i < items@.len() && bank@.available((#[trigger] items@[i])@.code, self.name()@)
                    < items@[i]@.quantity,
            res is Err ==> res == Err::<(), WithdrawItemCommandError>(
                WithdrawItemCommandError::InsufficientQuantity,
            ),
    {
        if items.len() == 0 {
            return Ok(());
        }
        if !bank.has_multiple_available(items, &self.name) {
            return Err(WithdrawItemCommandError::InsufficientQuantity);
        }
        Ok(())
    }

    /// Checks a deposit of `amount` gold: nothing to do for none (`Ok(false)`), refused
    /// beyond the gold the character holds.
    pub fn can_deposit_gold(&self, amount: u32) -> (res: Result<bool, GoldDepositCommandError>)
        ensures
            res == if amount == 0 {
                Ok(false)
            } else if amount > self.gold() {
                Err(GoldDepositCommandError::InsufficientGold)
            } else {
                Ok(true)
            },
    {
        if amount == 0 {
            return Ok(false);
        }
        if amount > self.gold {
            return Err(GoldDepositCommandError::InsufficientGold);
        }
        Ok(true)
    }

    /// Checks a withdrawal of `amount` gold from a bank holding `bank_gold`: nothing to
    /// do for none (`Ok(false)`), refused beyond the bank's gold.
    pub fn can_withdraw_gold(&self, amount: u32, bank_gold: u32) -> (res: Result<bool, GoldWithdrawCommandError>)
        ensures
            res == if amount == 0 {
                Ok(false)
            } else if bank_gold < amount {
                Err(GoldWithdrawCommandError::InsufficientGold)
            } else {
                Ok(true)
            },
    {
        if amount == 0 {
            return Ok(false);
        }
        if bank_gold < amount {
            return Err(GoldWithdrawCommandError::InsufficientGold);
        }
        Ok(true)
    }

    /// Checks an expansion of the bank at `cost` with `bank_gold` in the bank: refused
    /// when the character's gold and the bank's do not cover it; gives the gold to
    /// withdraw first.
    pub fn can_expand_bank(&self, bank_gold: u32, cost: u32) -> (res: Result<u32, BankExpansionCommandError>)
        ensures
            res == if bank_gold + self.gold() < cost {
                Err(BankExpansionCommandError::InsufficientGold)
            } else {
                Ok(saturating_sub(cost as nat, self.gold() as nat) as u32)
            },
    {
        if (bank_gold as u64) + (self.gold as u64) < cost as u64 {
            return Err(BankExpansionCommandError::InsufficientGold);
        }
        Ok(cost.saturating_sub(self.gold))
    }
}

/// Where a character's main loop stands: what it did last.
#[derive(Debug, Clone, Copy, PartialEq, Eq, Structural)]
pub enum LoopStage {
    /// A round begins.
    Begin,
    /// The maps were refreshed and food was ordered.
    Prepared,
    /// The bank was cleaned up.
    CleanedUp,
    /// The goal at this position of the goals pursued was worked on.
    GoalTried(usize),
    /// The task was progressed.
    TaskTried,
    /// The items the task misses were ordered.
    TaskOrdered,
    /// The skill at this position of the character's skills was leveled.
    SkillTried(usize),
}

/// How the last step of the main loop went.
#[derive(Debug)]
pub enum LoopOutcome {
    Succeeded,
    Failed,
    /// The task asks for items that neither the inventory nor the bank holds.
    TaskItemsMissing { item: String, quantity: u32 },
}

/// The next step of a character's main loop.
#[derive(Debug)]
pub enum LoopAction {
    /// The character is idle: nothing is done.
    Wait,
    /// The inventory is full: everything is deposited.
    DepositAll,
    /// The maps are refreshed and food is ordered.
    Prepare,
    /// The bank is cleaned up.
    CleanupBank,
    /// The character works toward the goal.
    PursueGoal(Goal),
    /// The character progresses its task.
    ProgressTask,
    /// The items the task misses are ordered for the character.
    OrderTaskItems { item: String, quantity: u32 },
    /// The character levels the skill.
    LevelSkill(Skill),
    /// The round is over; the next one begins.
    NextRound,
}

/// The step that works on the goal at `k` of `goals`, or the task past the last.
pub open spec fn goal_step(goals: Seq<Goal>, k: int) -> (LoopStage, LoopAction) {
    if k < goals.len() {
        (LoopStage::GoalTried(k as usize), LoopAction::PursueGoal(goals[k]))
    } else {
        (LoopStage::TaskTried, LoopAction::ProgressTask)
    }
}

/// The step that levels the skill at `k` of `skills`, or the end of the round past
/// the last.
pub open spec fn skill_step(skills: Seq<Skill>, k: int) -> (LoopStage, LoopAction) {
    if k < skills.len() {
        (LoopStage::SkillTried(k as usize), LoopAction::LevelSkill(skills[k]))
    } else {
        (LoopStage::Begin, LoopAction::NextRound)
    }
}

/// The step of the main loop that follows `stage`, the last step having gone as
/// `outcome`. A round does nothing while the character is idle, deposits everything
/// when the inventory is full, and otherwise refreshes the maps and orders food, then
/// cleans up the bank, then works on the goals pursued (`goals`, in order), then
/// progresses the task (ordering the items it misses), then levels each of the
/// character's `skills`; it ends at the first of these that succeeds, but the
/// leveling of skills goes through every skill.
pub open spec fn next_step_spec(
    stage: LoopStage,
    outcome: LoopOutcome,
    idle: bool,
    inventory_full: bool,
    goals: Seq<Goal>,
    skills: Seq<Skill>,
) -> (LoopStage, LoopAction) {
    match stage {
        LoopStage::Begin => if idle {
            (LoopStage::Begin, LoopAction::Wait)
        } else if inventory_full {
            (LoopStage::Begin, LoopAction::DepositAll)
        } else {
            (LoopStage::Prepared, LoopAction::Prepare)
        },
        LoopStage::Prepared => (LoopStage::CleanedUp, LoopAction::CleanupBank),
        LoopStage::CleanedUp => match outcome {
            LoopOutcome::Succeeded => (LoopStage::Begin, LoopAction::NextRound),
            _ => goal_step(goals, 0),
        },
        LoopStage::GoalTried(k) => match outcome {
            LoopOutcome::Succeeded => (LoopStage::Begin, LoopAction::NextRound),
            _ => goal_step(goals, k + 1),
        },
        LoopStage::TaskTried => match outcome {
            LoopOutcome::Succeeded => (LoopStage::Begin, LoopAction::NextRound),
            LoopOutcome::TaskItemsMissing { item, quantity } => (
                LoopStage::TaskOrdered,
                LoopAction::OrderTaskItems { item, quantity },
            ),
            LoopOutcome::Failed => skill_step(skills, 0),
        },
        LoopStage::TaskOrdered => match outcome {
            LoopOutcome::Succeeded => (LoopStage::Begin, LoopAction::NextRound),
            _ => skill_step(skills, 0),
        },
        LoopStage::SkillTried(k) => skill_step(skills, k + 1),
    }
}

fn goal_step_exec(goals: &Vec<Goal>, k: usize) -> (res: (LoopStage, LoopAction))
    ensures
        res == goal_step(goals@, k as int),
{
    if k < goals.len() {
        (LoopStage::GoalTried(k), LoopAction::PursueGoal(goals[k]))
    } else {
        (LoopStage::TaskTried, LoopAction::ProgressTask)
    }
}

fn skill_step_exec(skills: &Vec<Skill>, k: usize) -> (res: (LoopStage, LoopAction))
    ensures
        res == skill_step(skills@, k as int),
{
    if k < skills.len() {
        (LoopStage::SkillTried(k), LoopAction::LevelSkill(skills[k]))
    } else {
        (LoopStage::Begin, LoopAction::NextRound)
    }
}

/// The step of a character's main loop that follows `stage`; see `next_step_spec`.
pub fn next_step(
    stage: LoopStage,
    outcome: LoopOutcome,
    idle: bool,
    inventory_full: bool,
    goals: &Vec<Goal>,
    skills: &Vec<Skill>,
) -> (res: (LoopStage, LoopAction))
    ensures
        res == next_step_spec(stage, outcome, idle, inventory_full, goals@, skills@),
{
    match stage {
        LoopStage::Begin => {
            if idle {
                (LoopStage::Begin, LoopAction::Wait)
            } else if inventory_full {
                (LoopStage::Begin, LoopAction::DepositAll)
            } else {
                (LoopStage::Prepared, LoopAction::Prepare)
            }
        },
        LoopStage::Prepared => (LoopStage::CleanedUp, LoopAction::CleanupBank),
        LoopStage::CleanedUp => match outcome {
            LoopOutcome::Succeeded => (LoopStage::Begin, LoopAction::NextRound),
            _ => goal_step_exec(goals, 0),
        },
        LoopStage::GoalTried(k) => match outcome {
            LoopOutcome::Succeeded => (LoopStage::Begin, LoopAction::NextRound),
            _ => {
                if k < goals.len() {
                    goal_step_exec(goals, k + 1)
                } else {
                    (LoopStage::TaskTried, LoopAction::ProgressTask)
                }
            },
        },
        LoopStage::TaskTried => match outcome {
            LoopOutcome::Succeeded => (LoopStage::Begin, LoopAction::NextRound),
            LoopOutcome::TaskItemsMissing { item, quantity } => (
                LoopStage::TaskOrdered,
                LoopAction::OrderTaskItems { item, quantity },
            ),
            LoopOutcome::Failed => skill_step_exec(skills, 0),
        },
        LoopStage::TaskOrdered => match outcome {
            LoopOutcome::Succeeded => (LoopStage::Begin, LoopAction::NextRound),
            _ => skill_step_exec(skills, 0),
        },
        LoopStage::SkillTried(k) => {
            if k < skills.len() {
                skill_step_exec(skills, k + 1)
            } else {
                (LoopStage::Begin, LoopAction::NextRound)
            }
        },
    }
}

/// Each of `mats` for `quantity` crafts.
pub open spec fn scaled_mats(mats: Seq<ItemQuantity>, quantity: nat) -> Seq<ItemQuantity> {
    mats.map_values(|m: ItemQuantity| ItemQuantity { code: m.code, quantity: m.quantity * quantity })
}

/// `bank` once each of `items` was reserved for `owner` in turn, a refused
/// reservation changing nothing.
pub open spec fn after_reserv_each(bank: BankView, items: Seq<ItemQuantity>, owner: Seq<char>) -> BankView
    decreases items.len(),
{
    if items.len() == 0 {
        bank
    } else {
        after_reserv_each(bank.after_reserv(items[0].code, items[0].quantity, owner).0, items.drop_first(), owner)
    }
}

/// The number of crafts of an item made of `mats` (`mats_quantity` materials in all)
/// that the bank allows `owner` and an inventory of `max_items` holds.
pub open spec fn craftable_from_bank(bank: BankView, mats: Seq<ItemQuantity>, mats_quantity: u32, max_items: u32, owner: Seq<char>) -> nat {
    if crafts_allowed(bank, mats, owner) < max_items / mats_quantity {
        crafts_allowed(bank, mats, owner)
    } else {
        (max_items / mats_quantity) as nat
    }
}

impl CharacterController {
    /// Prepares crafting `quantity` of an item made of `mats` (`mats_quantity`
    /// materials in all) from the bank: refused when the bank and the inventory do not
    /// allow as many crafts; otherwise the materials for them are reserved in the bank
    /// for the character, each in turn, a refused reservation being passed over, and
    /// the materials to withdraw are given, unless the bank then lacks some of them.
    pub fn plan_craft_from_bank(
        &self,
        mats: &[SimpleItemSchema],
        mats_quantity: u32,
        quantity: u32,
        bank: &mut BankController,
    ) -> (res: Result<Vec<SimpleItemSchema>, CraftCommandError>)
        requires
            old(bank)@.wf(),
            mats_quantity > 0,
            forall|i: int| 0 <= i < mats@.len() ==> (#[trigger] mats@[i]).quantity > 0,
        ensures
            final(bank)@.wf(),
            ({
                let name = self.name()@;
                let allowed = craftable_from_bank(
                    old(bank)@,
                    items_view(mats@),
                    mats_quantity,
                    self.inventory_max_items(),
                    name,
                );
                let needed = scaled_mats(items_view(mats@), quantity as nat);
                let after = after_reserv_each(old(bank)@, needed, name);
                if allowed < quantity {
                    &&& res == Err::<Vec<SimpleItemSchema>, CraftCommandError>(
                        CraftCommandError::InsufficientMaterials,
                    )
                    &&& final(bank)@ == old(bank)@
                } else {
                    &&& final(bank)@ == after
                    &&& if forall|i: int|
                        0 <= i < needed.len() ==> after.available((#[trigger] needed[i]).code, name)
                            >= needed[i].quantity {
                        res matches Ok(w) && items_view(w@) == needed
                    } else {
                        res == Err::<Vec<SimpleItemSchema>, CraftCommandError>(
                            CraftCommandError::InsufficientMaterials,
                        )
                    }
                }
            }),
    {
        if self.max_craftable_items_from_bank(mats, mats_quantity, bank) < quantity {
            return Err(CraftCommandError::InsufficientMaterials);
        }
        let ghost start = bank@;
        let ghost name = self.name@;
        proof {
            assert forall|k: int| 0 <= k < mats@.len() implies (#[trigger] mats@[k]).quantity * quantity
                <= u32::MAX by {
                let mv = items_view(mats@);
                assert(mv[k] == mats@[k]@);
                crate::bank::lemma_crafts_allowed_le(start, mv, name, k);
                let a = start.available(mv[k].code, name) as int;
                bank.lemma_total_fits(mv[k].code);
                assert(a <= start.total_of(mv[k].code));
                let q = mats@[k].quantity as int;
                let x = quantity as int;
                assert(a / q >= x);
                assert(q * x <= a) by (nonlinear_arith)
                    requires
                        q > 0,
                        x >= 0,
                        a >= 0,
                        a / q >= x,
                ;
            }
        }
        let mut needed: Vec<SimpleItemSchema> = Vec::new();
        let mut i: usize = 0;
        while i < mats.len()
            invariant
                i <= mats.len(),
                forall|k: int| 0 <= k < mats@.len() ==> (#[trigger] mats@[k]).quantity * quantity <= u32::MAX,
                items_view(needed@) == scaled_mats(items_view(mats@), quantity as nat).take(i as int),
            decreases mats.len() - i,
        {
            assert(mats@[i as int].quantity * quantity <= u32::MAX);
            let ghost before = needed@;
            let q = mats[i].quantity * quantity;
            let code = mats[i].code.clone();
            let item = SimpleItemSchema { code, quantity: q };
            proof {
                let sc = scaled_mats(items_view(mats@), quantity as nat);
                assert(items_view(mats@)[i as int] == mats@[i as int]@);
                assert(sc[i as int] == item@);
                assert(sc.take(i + 1) =~= sc.take(i as int).push(item@));
            }
            needed.push(item);
            assert(items_view(needed@) =~= items_view(before).push(item@));
            i = i + 1;
        }
        let ghost all = items_view(needed@);
        assert(all =~= scaled_mats(items_view(mats@), quantity as nat));
        assert(all.skip(0) =~= all);
        let mut j: usize = 0;
        while j < needed.len()
            invariant
                j <= needed.len(),
                all == items_view(needed@),
                bank@.wf(),
                name == self.name@,
                after_reserv_each(start, all, name) == after_reserv_each(bank@, all.skip(j as int), name),
            decreases needed.len() - j,
        {
            assert(all.skip(j as int)[0] == all[j as int]);
            assert(all.skip(j as int).drop_first() =~= all.skip(j + 1));
            let _ = bank.reserv_item(&needed[j].code, needed[j].quantity, &self.name);
            j = j + 1;
        }
        assert(all.skip(j as int).len() == 0);
        assert(forall|k: int| 0 <= k < all.len() ==> all[k] == (#[trigger] needed@[k])@);
        if !bank.has_multiple_available(&needed, &self.name) {
            return Err(CraftCommandError::InsufficientMaterials);
        }
        Ok(needed)
    }
}

} // verus!
