use artifactsmmo_semi_auto_bot::account::AccountController;
use artifactsmmo_semi_auto_bot::bank::BankController;
use artifactsmmo_semi_auto_bot::bot_config::{CharConfig, Goal, TaskType};
use artifactsmmo_semi_auto_bot::character::{
    next_step, LoopAction, LoopOutcome, LoopStage,
    goals_to_pursue, time_to_kill_with, CharacterController, CraftInfo, EquippedSlot, SkillLevels,
    TaskState,
};
use artifactsmmo_semi_auto_bot::error::{
    BankExpansionCommandError, DepositItemCommandError, GoldDepositCommandError,
    GoldWithdrawCommandError, WithdrawItemCommandError,
    CraftCommandError, DeleteCommandError, GatherCommandError, KillMonsterCommandError,
    RecycleCommandError, TaskAcceptationCommandError, TaskCancellationCommandError,
    TaskTradeCommandError, TasksCoinExchangeCommandError,
};
use artifactsmmo_semi_auto_bot::gear::Slot;
use artifactsmmo_semi_auto_bot::inventory::{InventoryController, InventorySlot};
use artifactsmmo_semi_auto_bot::orderboard::{OrderBoard, Purpose};
use artifactsmmo_semi_auto_bot::schema::SimpleItemSchema;
use artifactsmmo_semi_auto_bot::sdk::skill::Skill;

fn s(x: &str) -> String {
    x.to_string()
}

fn character(name: &str, skills: Vec<Skill>, max_items: u32) -> CharacterController {
    CharacterController::new(
        s(name),
        InventoryController::new(vec![
            InventorySlot { slot: 1, code: s("copper_ore"), quantity: 6 },
            InventorySlot { slot: 2, code: s("copper_ring"), quantity: 1 },
        ]),
        vec![
            EquippedSlot { slot: Slot::Weapon, code: s("copper_dagger") },
            EquippedSlot { slot: Slot::Ring1, code: s("copper_ring") },
            EquippedSlot { slot: Slot::Ring2, code: s("copper_ring") },
            EquippedSlot { slot: Slot::Helmet, code: s("") },
        ],
        CharConfig::new(false, false, TaskType::Monsters, skills, vec![Goal::Orders]),
        120,
        max_items,
        levels(10, 5, 1),
        TaskState { code: s(""), task_type: None, missing: 0 },
    )
}

fn bank() -> BankController {
    BankController::new(vec![
        SimpleItemSchema::new(s("copper_ore"), 30),
        SimpleItemSchema::new(s("copper_ring"), 2),
        SimpleItemSchema::new(s("ash_wood"), 8),
    ])
}

#[test]
fn character_equipment_counts() {
    let c = character("char1", vec![Skill::Mining], 100);
    assert_eq!("char1", c.get_name());
    assert_eq!(2, c.has_equiped(&s("copper_ring")));
    assert_eq!(0, c.has_equiped(&s("iron_ring")));
    assert_eq!("copper_dagger", c.equiped_in(Slot::Weapon));
    assert_eq!("copper_ring", c.equiped_in(Slot::Ring2));
    assert_eq!("", c.equiped_in(Slot::Boots));
    assert_eq!(100, c.max_items());
}

#[test]
fn character_availability_with_bank() {
    let c = character("char1", vec![Skill::Mining], 100);
    let mut b = bank();
    assert_eq!(36, c.has_in_bank_or_inv(&s("copper_ore"), &b));
    assert_eq!(5, c.has_available(&s("copper_ring"), &b));
    b.reserv_item(&s("copper_ore"), 10, &s("char2")).unwrap();
    assert_eq!(26, c.has_in_bank_or_inv(&s("copper_ore"), &b));
    assert_eq!(150, c.gold_available(30));
}

#[test]
fn character_skills_and_idle() {
    let mut c = character("char1", vec![Skill::Mining], 100);
    assert!(c.skill_enabled(Skill::Mining));
    assert!(!c.skill_enabled(Skill::Fishing));
    c.toggle_idle();
    c.toggle_idle();
    assert!(c.skill_enabled(Skill::Mining));
}

#[test]
fn character_orders_missing_gear() {
    let c = character("char1", vec![], 100);
    let b = bank();
    let mut board = OrderBoard::new(vec![s("copper_ring"), s("iron_ring")]);
    assert!(!c.order_if_needed(&s("copper_ring"), 5, &mut board, &b));
    assert!(c.order_if_needed(&s("iron_ring"), 2, &mut board, &b));
    let o = board
        .get(
            &s("iron_ring"),
            &None,
            &Purpose::Gear { char: s("char1"), item_code: s("iron_ring") },
        )
        .unwrap();
    assert_eq!(2, o.quantity());
    assert!(!c.order_if_needed(&s("iron_ring"), 2, &mut board, &b));
}

#[test]
fn character_reserves_what_the_inventory_misses() {
    let c = character("char1", vec![], 100);
    let mut b = bank();
    c.reserv_if_needed_and_available(&s("copper_ore"), 10, Slot::Weapon, &mut b);
    assert_eq!(4, b.quantity_reserved(&s("copper_ore")));
    c.reserv_if_needed_and_available(&s("copper_ring"), 2, Slot::Ring1, &mut b);
    assert_eq!(0, b.quantity_reserved(&s("copper_ring")));
}

#[test]
fn character_craft_capacity_and_missing_mats() {
    let c = character("char1", vec![], 100);
    let b = bank();
    assert_eq!(12, c.max_craftable_items(8));
    let mats = vec![
        SimpleItemSchema::new(s("copper_ore"), 8),
        SimpleItemSchema::new(s("ash_wood"), 2),
    ];
    assert_eq!(3, c.max_craftable_items_from_bank(&mats, 10, &b));
    assert_eq!(2, c.max_craftable_items_from_bank(&mats, 50, &b));
    let mut board = OrderBoard::new(vec![s("copper_ore"), s("ash_wood")]);
    let missing = c.missing_mats_for(&mats, 5, &board, &b);
    assert_eq!(2, missing.len());
    assert_eq!("copper_ore", missing[0].code);
    assert_eq!(4, missing[0].quantity);
    assert_eq!("ash_wood", missing[1].code);
    assert_eq!(2, missing[1].quantity);
    board.add(&s("ash_wood"), 2, &None, Purpose::Cli).unwrap();
    let missing = c.missing_mats_for(&mats, 5, &board, &b);
    assert_eq!(10, missing[1].quantity);
}

#[test]
fn time_to_kill_rounds_rest_up() {
    assert_eq!(10, time_to_kill_with(10, 0));
    assert_eq!(11, time_to_kill_with(10, 1));
    assert_eq!(12, time_to_kill_with(10, 10));
    assert_eq!(13, time_to_kill_with(10, 11));
}

#[test]
fn account_sums_over_characters() {
    let a = AccountController::new(
        bank(),
        vec![
            character("char1", vec![Skill::Fishing], 100),
            character("char2", vec![Skill::Mining], 80),
            character("char3", vec![Skill::Fishing], 90),
        ],
    );
    assert_eq!(18, a.available_in_inventories(&s("copper_ore")));
    assert_eq!(30 + 18, a.total_of(&s("copper_ore")));
    assert_eq!(2 + 3 * 3, a.total_of(&s("copper_ring")));
    assert_eq!(90, a.fisher_max_items());
    assert_eq!("char2", a.get_character(1).unwrap().get_name());
    assert!(a.get_character(3).is_none());
    assert_eq!("char3", a.get_character_by_name(&s("char3")).unwrap().get_name());
    assert!(a.get_character_by_name(&s("char4")).is_none());
}

#[test]
fn account_without_fishers() {
    let a = AccountController::new(bank(), vec![character("char1", vec![], 100)]);
    assert_eq!(0, a.fisher_max_items());
}

fn levels(mining: u32, cooking: u32, fishing: u32) -> SkillLevels {
    SkillLevels {
        combat: 1,
        mining,
        woodcutting: 1,
        fishing,
        weaponcrafting: 1,
        gearcrafting: 1,
        jewelrycrafting: 1,
        cooking,
        alchemy: 1,
    }
}

#[test]
fn goals_pursued_in_order() {
    let goals = vec![
        Goal::Events,
        Goal::ReachSkillLevel { skill: Skill::Mining, level: 10 },
        Goal::Orders,
        Goal::ReachSkillLevel { skill: Skill::Cooking, level: 20 },
        Goal::FollowMaxSkillLevel { skill: Skill::Cooking, skill_to_follow: Skill::Fishing },
    ];
    let mine = levels(12, 5, 1);
    let best = levels(12, 5, 30);
    assert_eq!(
        vec![
            Goal::Orders,
            Goal::ReachSkillLevel { skill: Skill::Cooking, level: 20 },
            Goal::FollowMaxSkillLevel { skill: Skill::Cooking, skill_to_follow: Skill::Fishing },
        ],
        goals_to_pursue(&goals, &mine, &best, 50)
    );
    let mine = levels(3, 31, 1);
    assert_eq!(
        vec![Goal::ReachSkillLevel { skill: Skill::Mining, level: 10 }, Goal::Orders],
        goals_to_pursue(&goals, &mine, &best, 50)
    );
    let mine = levels(12, 30, 1);
    assert_eq!(vec![Goal::Orders], goals_to_pursue(&goals, &mine, &best, 30));
    assert_eq!(12, mine.level(Skill::Mining));
}

fn with_task(code: &str, task_type: Option<TaskType>, missing: u32) -> CharacterController {
    CharacterController::new(
        s("char1"),
        InventoryController::new(vec![InventorySlot { slot: 1, code: s("tasks_coin"), quantity: 3 }]),
        vec![],
        CharConfig::new(false, false, TaskType::Items, vec![Skill::Combat, Skill::Mining], vec![]),
        0,
        100,
        levels(10, 5, 1),
        TaskState { code: s(code), task_type, missing },
    )
}

#[test]
fn character_gather_and_fight_checks() {
    let c = with_task("", None, 0);
    assert!(c.can_gather(Skill::Mining, 10).is_ok());
    assert!(matches!(
        c.can_gather(Skill::Mining, 11),
        Err(GatherCommandError::InsufficientSkillLevel(Skill::Mining))
    ));
    assert!(matches!(
        c.can_gather(Skill::Fishing, 1),
        Err(GatherCommandError::SkillDisabled(Skill::Fishing))
    ));
    assert!(matches!(
        c.can_gather_now(Skill::Mining, 1, false),
        Err(GatherCommandError::MapNotFound)
    ));
    assert!(c.can_gather_now(Skill::Mining, 1, true).is_ok());
    assert!(c.can_fight(true).is_ok());
    assert!(matches!(c.can_fight(false), Err(KillMonsterCommandError::MapNotFound)));
    let peaceful = character("char2", vec![Skill::Mining], 100);
    assert!(matches!(
        peaceful.can_fight(true),
        Err(KillMonsterCommandError::SkillDisabled(Skill::Combat))
    ));
}

#[test]
fn character_craft_and_recycle_checks() {
    let c = character("char1", vec![Skill::Weaponcrafting, Skill::Cooking], 100);
    let dagger = CraftInfo { skill: Some(Skill::Weaponcrafting), level: 1 };
    assert!(matches!(c.can_craft(None), Err(CraftCommandError::ItemNotFound)));
    assert!(matches!(
        c.can_craft(Some(CraftInfo { skill: None, level: 1 })),
        Err(CraftCommandError::ItemNotCraftable)
    ));
    assert!(matches!(
        c.can_craft(Some(CraftInfo { skill: Some(Skill::Alchemy), level: 1 })),
        Err(CraftCommandError::SkillDisabled(Skill::Alchemy))
    ));
    assert!(matches!(
        c.can_craft(Some(CraftInfo { skill: Some(Skill::Cooking), level: 6 })),
        Err(CraftCommandError::InsufficientSkillLevel(Skill::Cooking, 6))
    ));
    assert!(matches!(c.can_craft(Some(dagger)), Ok(Skill::Weaponcrafting)));
    let b = bank();
    let board = OrderBoard::new(vec![]);
    let mats = vec![SimpleItemSchema::new(s("copper_ore"), 6)];
    assert!(matches!(
        c.can_craft_now(Some(dagger), &mats, 6, 6, &board, &b),
        Ok(Skill::Weaponcrafting)
    ));
    assert!(matches!(
        c.can_craft_now(Some(dagger), &mats, 6, 7, &board, &b),
        Err(CraftCommandError::InsufficientMaterials)
    ));
    assert!(matches!(
        c.can_craft_now(Some(dagger), &mats, 30, 4, &board, &b),
        Err(CraftCommandError::InsufficientInventorySpace)
    ));
    assert!(matches!(c.can_recycle(Some(dagger), 10, 10), Ok(Skill::Weaponcrafting)));
    assert!(matches!(
        c.can_recycle(Some(dagger), 10, 11),
        Err(RecycleCommandError::InsufficientInventorySpace)
    ));
    assert!(matches!(c.can_recycle(None, 1, 1), Err(RecycleCommandError::ItemNotFound)));
    assert!(c.can_delete(&s("copper_ore"), 36, &b).is_ok());
    assert!(matches!(
        c.can_delete(&s("copper_ore"), 37, &b),
        Err(DeleteCommandError::InsufficientQuantity)
    ));
}

#[test]
fn character_task_checks() {
    let b = BankController::new(vec![
        SimpleItemSchema::new(s("tasks_coin"), 8),
        SimpleItemSchema::new(s("copper_ore"), 10),
    ]);
    let board = OrderBoard::new(vec![s("tasks_coin")]);
    let idle = with_task("", None, 0);
    assert!(idle.can_accept_task().is_ok());
    assert!(matches!(idle.can_trade_task(&b), Err(TaskTradeCommandError::NoTask)));
    let monsters = with_task("chicken", Some(TaskType::Monsters), 10);
    assert!(matches!(
        monsters.can_accept_task(),
        Err(TaskAcceptationCommandError::TaskAlreadyInProgress)
    ));
    assert!(matches!(monsters.can_trade_task(&b), Err(TaskTradeCommandError::InvalidTaskType)));
    let done = with_task("copper_ore", Some(TaskType::Items), 0);
    assert!(matches!(done.can_trade_task(&b), Err(TaskTradeCommandError::TaskAlreadyCompleted)));
    let short = with_task("copper_ore", Some(TaskType::Items), 14);
    match short.can_trade_task(&b) {
        Err(TaskTradeCommandError::MissingItems { item, quantity }) => {
            assert_eq!("copper_ore", item);
            assert_eq!(4, quantity);
        }
        other => panic!("unexpected: {other:?}"),
    }
    assert!(with_task("copper_ore", Some(TaskType::Items), 10).can_trade_task(&b).is_ok());
    // 3 coins in the inventory and 8 in the bank: 11, the price being 6 and 4 kept.
    assert!(idle.can_exchange_task(&s("tasks_coin"), 6, &OrderBoard::new(vec![]), &b).is_ok());
    assert!(matches!(
        idle.can_exchange_task(&s("tasks_coin"), 8, &OrderBoard::new(vec![]), &b),
        Err(TasksCoinExchangeCommandError::InsufficientCoins(1))
    ));
    let mut ordered = board;
    ordered
        .add(&s("tasks_coin"), 5, &None, artifactsmmo_semi_auto_bot::orderboard::Purpose::Cli)
        .unwrap();
    assert!(matches!(
        idle.can_exchange_task(&s("tasks_coin"), 6, &ordered, &b),
        Err(TasksCoinExchangeCommandError::InsufficientCoins(10))
    ));
    assert!(idle.can_cancel_task(&s("tasks_coin"), 1, &b).is_ok());
    assert!(matches!(
        idle.can_cancel_task(&s("tasks_coin"), 5, &b),
        Err(TaskCancellationCommandError::NotEnoughCoins)
    ));
}

#[test]
fn account_skill_levels_and_crafting() {
    let a = AccountController::new(
        bank(),
        vec![character("char2", vec![Skill::Fishing], 100), with_task("", None, 0)],
    );
    assert_eq!(10, a.max_skill_level(Skill::Mining));
    assert_eq!(1, a.max_skill_level(Skill::Fishing));
    assert!(a.can_craft(Some(CraftInfo { skill: Some(Skill::Mining), level: 10 })));
    assert!(!a.can_craft(Some(CraftInfo { skill: Some(Skill::Mining), level: 11 })));
    assert!(!a.can_craft(Some(CraftInfo { skill: Some(Skill::Weaponcrafting), level: 1 })));
    assert!(!a.can_craft(None));
    let empty = AccountController::new(bank(), vec![]);
    assert_eq!(0, empty.max_skill_level(Skill::Mining));
}

#[test]
fn character_quantities_for_task_commands() {
    assert_eq!(14, with_task("copper_ore", Some(TaskType::Items), 14).task_trade_quantity());
    assert_eq!(100, with_task("copper_ore", Some(TaskType::Items), 140).task_trade_quantity());
    let b = BankController::new(vec![SimpleItemSchema::new(s("tasks_coin"), 40)]);
    let c = with_task("", None, 0);
    // Half of 100 is 50, more than the 40 in the bank; 40 rounded down to a multiple of 6.
    assert_eq!(36, c.coins_to_exchange(&s("tasks_coin"), 6, &b));
    let b = BankController::new(vec![SimpleItemSchema::new(s("tasks_coin"), 400)]);
    assert_eq!(48, c.coins_to_exchange(&s("tasks_coin"), 6, &b));
}

#[test]
fn character_lock_in_inventory() {
    let mut c = character("char1", vec![], 100);
    let mut b = bank();
    // 6 copper ore in the inventory, 30 in the bank.
    assert_eq!(4, c.lock_in_inventory(&s("copper_ore"), 10, &mut b));
    assert_eq!(6, c.inventory().quantity_reserved(&s("copper_ore")));
    assert_eq!(4, b.quantity_reserved(&s("copper_ore")));
    assert_eq!(0, c.lock_in_inventory(&s("copper_ring"), 1, &mut b));
    assert_eq!(1, c.inventory().quantity_reserved(&s("copper_ring")));
    assert_eq!(0, b.quantity_reserved(&s("copper_ring")));
    assert_eq!(3, c.lock_in_inventory(&s("ash_wood"), 3, &mut b));
    assert_eq!(0, c.inventory().quantity_reserved(&s("ash_wood")));
    assert_eq!(3, b.quantity_reserved(&s("ash_wood")));
}

fn pairs(items: Vec<SimpleItemSchema>) -> Vec<(String, u32)> {
    items.into_iter().map(|i| (i.code, i.quantity)).collect()
}

#[test]
fn character_items_to_deposit() {
    let mut c = character("char1", vec![], 100);
    let mut b = bank();
    c.lock_in_inventory(&s("copper_ring"), 1, &mut b);
    assert_eq!(vec![(s("copper_ore"), 6)], pairs(c.items_but_reserved()));
    assert_eq!(vec![(s("copper_ring"), 1)], pairs(c.items_but(&s("copper_ore"))));
    let keep = vec![
        SimpleItemSchema::new(s("copper_ore"), 2),
        SimpleItemSchema::new(s("copper_ore"), 3),
    ];
    assert_eq!(
        vec![(s("copper_ore"), 1), (s("copper_ring"), 1)],
        pairs(c.items_but_multiple(&keep))
    );
    let keep = vec![
        SimpleItemSchema::new(s("copper_ore"), 2),
        SimpleItemSchema::new(s("copper_ore"), 4),
        SimpleItemSchema::new(s("copper_ring"), 1),
    ];
    assert!(c.items_but_multiple(&keep).is_empty());
}

#[test]
fn character_deposit_and_withdraw_checks() {
    let c = character("char1", vec![], 100);
    let b = bank();
    assert!(c.can_deposit(&[], &b, 0).is_ok());
    assert!(c.can_deposit(&[SimpleItemSchema::new(s("copper_ore"), 6)], &b, 0).is_ok());
    assert!(matches!(
        c.can_deposit(&[SimpleItemSchema::new(s("copper_ore"), 7)], &b, 10),
        Err(DepositItemCommandError::MissingQuantity)
    ));
    let new_items = [SimpleItemSchema::new(s("iron_ore"), 0), SimpleItemSchema::new(s("gold_ore"), 0)];
    assert!(matches!(
        c.can_deposit(&new_items, &b, 1),
        Err(DepositItemCommandError::InsufficientBankSpace)
    ));
    assert!(c.can_deposit(&new_items, &b, 2).is_ok());
    assert!(c.can_withdraw(&[SimpleItemSchema::new(s("copper_ore"), 30)], &b).is_ok());
    assert!(matches!(
        c.can_withdraw(&[SimpleItemSchema::new(s("copper_ore"), 31)], &b),
        Err(WithdrawItemCommandError::InsufficientQuantity)
    ));
    assert!(matches!(c.can_deposit_gold(0), Ok(false)));
    assert!(matches!(c.can_deposit_gold(120), Ok(true)));
    assert!(matches!(c.can_deposit_gold(121), Err(GoldDepositCommandError::InsufficientGold)));
    assert!(matches!(c.can_withdraw_gold(0, 0), Ok(false)));
    assert!(matches!(c.can_withdraw_gold(10, 10), Ok(true)));
    assert!(matches!(c.can_withdraw_gold(11, 10), Err(GoldWithdrawCommandError::InsufficientGold)));
    assert!(matches!(c.can_expand_bank(100, 200), Ok(80)));
    assert!(matches!(c.can_expand_bank(0, 100), Ok(0)));
    assert!(matches!(c.can_expand_bank(79, 200), Err(BankExpansionCommandError::InsufficientGold)));
}

#[test]
fn main_loop_steps() {
    let goals = vec![Goal::Orders, Goal::ReachSkillLevel { skill: Skill::Mining, level: 20 }];
    let skills = vec![Skill::Mining, Skill::Cooking];
    let step = |stage, outcome, idle, full| next_step(stage, outcome, idle, full, &goals, &skills);
    assert!(matches!(step(LoopStage::Begin, LoopOutcome::Succeeded, true, true), (LoopStage::Begin, LoopAction::Wait)));
    assert!(matches!(step(LoopStage::Begin, LoopOutcome::Succeeded, false, true), (LoopStage::Begin, LoopAction::DepositAll)));
    assert!(matches!(step(LoopStage::Begin, LoopOutcome::Failed, false, false), (LoopStage::Prepared, LoopAction::Prepare)));
    assert!(matches!(step(LoopStage::Prepared, LoopOutcome::Succeeded, false, false), (LoopStage::CleanedUp, LoopAction::CleanupBank)));
    assert!(matches!(step(LoopStage::CleanedUp, LoopOutcome::Succeeded, false, false), (LoopStage::Begin, LoopAction::NextRound)));
    assert!(matches!(
        step(LoopStage::CleanedUp, LoopOutcome::Failed, false, false),
        (LoopStage::GoalTried(0), LoopAction::PursueGoal(Goal::Orders))
    ));
    assert!(matches!(
        step(LoopStage::GoalTried(0), LoopOutcome::Failed, false, false),
        (LoopStage::GoalTried(1), LoopAction::PursueGoal(Goal::ReachSkillLevel { skill: Skill::Mining, level: 20 }))
    ));
    assert!(matches!(step(LoopStage::GoalTried(1), LoopOutcome::Failed, false, false), (LoopStage::TaskTried, LoopAction::ProgressTask)));
    assert!(matches!(step(LoopStage::GoalTried(0), LoopOutcome::Succeeded, false, false), (LoopStage::Begin, LoopAction::NextRound)));
    match step(LoopStage::TaskTried, LoopOutcome::TaskItemsMissing { item: s("copper_ore"), quantity: 4 }, false, false) {
        (LoopStage::TaskOrdered, LoopAction::OrderTaskItems { item, quantity }) => {
            assert_eq!("copper_ore", item);
            assert_eq!(4, quantity);
        }
        other => panic!("unexpected: {other:?}"),
    }
    assert!(matches!(
        step(LoopStage::TaskOrdered, LoopOutcome::Failed, false, false),
        (LoopStage::SkillTried(0), LoopAction::LevelSkill(Skill::Mining))
    ));
    assert!(matches!(
        step(LoopStage::TaskTried, LoopOutcome::Failed, false, false),
        (LoopStage::SkillTried(0), LoopAction::LevelSkill(Skill::Mining))
    ));
    assert!(matches!(
        step(LoopStage::SkillTried(0), LoopOutcome::Succeeded, false, false),
        (LoopStage::SkillTried(1), LoopAction::LevelSkill(Skill::Cooking))
    ));
    assert!(matches!(step(LoopStage::SkillTried(1), LoopOutcome::Failed, false, false), (LoopStage::Begin, LoopAction::NextRound)));
}

#[test]
fn craft_from_bank_plan() {
    let c = character("char1", vec![], 100);
    let mats = vec![SimpleItemSchema::new(s("copper_ore"), 8), SimpleItemSchema::new(s("ash_wood"), 2)];
    let mut b = bank();
    assert!(matches!(
        c.plan_craft_from_bank(&mats, 10, 4, &mut b),
        Err(CraftCommandError::InsufficientMaterials)
    ));
    assert_eq!(0, b.quantity_reserved(&s("copper_ore")));
    assert!(matches!(
        c.plan_craft_from_bank(&mats, 10, 2_000_000_000, &mut b),
        Err(CraftCommandError::InsufficientMaterials)
    ));
    assert_eq!(0, b.quantity_reserved(&s("copper_ore")));
    let planned = c.plan_craft_from_bank(&mats, 10, 3, &mut b).unwrap();
    assert_eq!(vec![(s("copper_ore"), 24), (s("ash_wood"), 6)], pairs(planned));
    assert_eq!(24, b.quantity_reserved(&s("copper_ore")));
    assert_eq!(6, b.quantity_reserved(&s("ash_wood")));
}
