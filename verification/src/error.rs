use crate::orderboard::OrderError;
use crate::sdk::api_error::ApiErrorSchema;
use crate::sdk::skill::Skill;
use vstd::prelude::*;

verus! {

#[derive(Debug)]
pub enum KillMonsterCommandError {
    /// The message: "{0} skill is disabled".
    SkillDisabled(Skill),
    /// The message: "No map with monster found".
    MapNotFound,
    /// The message: "Unable to check bank for available gear".
    BankUnavailable,
    /// The message: "No gear powerfull enough available to kill monster".
    GearTooWeak { monster_code: String },
    /// The message: "Failed to deposit before gathering: {0}".
    DepositItemCommandError(DepositItemCommandError),
    /// The message: "Failed to move: {0}".
    MoveCommandError(MoveCommandError),
    /// The message: "Failed to fight".
    ClientError(ApiErrorSchema),
}

#[derive(Debug)]
pub enum GatherCommandError {
    /// The message: "{0} skill is disabled".
    SkillDisabled(Skill),
    /// The message: "Insufficient skill ({0}) level".
    InsufficientSkillLevel(Skill),
    /// The message: "Insufficient inventory space".
    MapNotFound,
    /// The message: "Failed to deposit before gathering: {0}".
    DepositItemCommandError(DepositItemCommandError),
    /// The message: "Failed to move: {0}".
    MoveCommandError(MoveCommandError),
    /// The message: "Failed to request gather: {0}".
    ClientError(ApiErrorSchema),
}

#[derive(Debug)]
pub enum CraftCommandError {
    /// The message: "Item not found".
    ItemNotFound,
    /// The message: "Item not craftable".
    ItemNotCraftable,
    /// The message: "Skill ({0}) is disabled".
    SkillDisabled(Skill),
    /// The message: "Insufficient skill ({0}) level".
    InsufficientSkillLevel(Skill, i32),
    /// The message: "Insufficient inventory space".
    InsufficientInventorySpace,
    /// The message: "Not enough materials available".
    InsufficientMaterials,
    /// The message: "Failed to deposit items: {0}".
    DepositItemCommandError(DepositItemCommandError),
    /// The message: "Failed to withdraw mats: {0}".
    WithdrawItemCommandError(WithdrawItemCommandError),
    /// The message: "Failed to move to workbench: {0}".
    MoveCommandError(MoveCommandError),
    /// The message: "Failed to request craft: {0}".
    ClientError(ApiErrorSchema),
}

#[derive(Debug)]
pub enum RecycleCommandError {
    /// The message: "Item not found".
    ItemNotFound,
    /// The message: "Item not craftable".
    ItemNotCraftable,
    /// The message: "{0} skill is disabled".
    SkillDisabled(Skill),
    /// The message: "Insufficient skill level".
    InsufficientSkillLevel(Skill, i32),
    /// The message: "Insufficient inventory space".
    InsufficientInventorySpace,
    /// The message: "Not enough item available".
    InsufficientQuantity,
    /// The message: "Failed to withdraw mats".
    WithdrawItemCommandError(WithdrawItemCommandError),
    /// The message: "Failed to move to workbench".
    MoveCommandError(MoveCommandError),
    /// The message: "Failed to craft item".
    ClientError(ApiErrorSchema),
}
#[derive(Debug)]
pub enum DeleteCommandError {
    /// The message: "Not enough item available".
    InsufficientQuantity,
    /// The message: "Failed to withdraw item".
    WithdrawItemCommandError(WithdrawItemCommandError),
    /// The message: "Failed to craft item".
    ClientError(ApiErrorSchema),
}

#[derive(Debug)]
pub enum TaskTradeCommandError {
    /// The message: "No current task".
    NoTask,
    /// The message: "Invalid task type".
    InvalidTaskType,
    /// The message: "Task already completed".
    TaskAlreadyCompleted,
    /// The message: "Missing item(s): '{item}'x{quantity}".
    MissingItems { item: String, quantity: i32 },
    /// The message: "Failed to move to tasks master".
    MoveCommandError(MoveCommandError),
    /// The message: "Failed to exchange task coins".
    ClientError(ApiErrorSchema),
}

#[derive(Debug)]
pub enum TaskAcceptationCommandError {
    /// The message: "Task already in progress".
    TaskAlreadyInProgress,
    /// The message: "Failed to move to tasks master".
    MoveCommandError(MoveCommandError),
    /// The message: "Failed to exchange task coins".
    TaskAcceptationError(ApiErrorSchema),
}

#[derive(Debug)]
pub enum TaskCompletionCommandError {
    /// The message: "No current task".
    NoTask,
    /// The message: "Task no finished".
    TaskNotFinished,
    /// The message: "Failed to move to tasks master".
    MoveCommandError(MoveCommandError),
    /// The message: "Failed to complete task".
    ClientError(ApiErrorSchema),
}

#[derive(Debug)]
pub enum TasksCoinExchangeCommandError {
    /// The message: "Not enough coins".
    InsufficientCoins(i32),
    /// The message: "Failed to withdraw coins required".
    WithdrawItemCommandError(WithdrawItemCommandError),
    /// The message: "Failed to move to tasks master".
    MoveCommandError(MoveCommandError),
    /// The message: "Failed to request task coin exchange".
    ClientError(ApiErrorSchema),
}

#[derive(Debug)]
pub enum TaskCancellationCommandError {
    /// The message: "Not enough coins".
    NotEnoughCoins,
    /// The message: "Failed to withdraw coins required".
    WithdrawItemCommandError(WithdrawItemCommandError),
    /// The message: "Failed to move to task master".
    MoveCommandError(MoveCommandError),
    /// The message: "Failed to cancel task".
    ClientError(ApiErrorSchema),
}

#[derive(Debug)]
pub enum BankExpansionCommandError {
    /// The message: "Bank is unavailable".
    BankUnavailable,
    /// The message: "Insufficient gold".
    InsufficientGold,
    /// The message: "Failed to move to bank".
    MoveCommandError(MoveCommandError),
    /// The message: "Failed to withdraw required gold".
    GoldWithdrawCommandError(GoldWithdrawCommandError),
    /// The message: "Failed to withdraw gold: {0}".
    ClientError(ApiErrorSchema),
}

#[derive(Debug)]
pub enum GoldWithdrawCommandError {
    /// The message: "Insufficient gold".
    InsufficientGold,
    /// The message: "Failed to move to bank".
    MoveCommandError(MoveCommandError),
    /// The message: "Failed to withdraw gold: {0}".
    ClientError(ApiErrorSchema),
}

#[derive(Debug)]
pub enum GoldDepositCommandError {
    /// The message: "Insufficient gold".
    InsufficientGold,
    /// The message: "Failed to move to bank".
    MoveCommandError(MoveCommandError),
    /// The message: "Failed to request gold deposit: {0}".
    ClientError(ApiErrorSchema),
}

#[derive(Debug)]
pub enum MoveCommandError {
    /// The message: "Failed to find target map".
    MapNotFound,
    /// The message: "Failed to request movement: {0}".
    MoveError(ApiErrorSchema),
}

#[derive(Debug)]
pub enum WithdrawItemCommandError {
    /// The message: "Missing item quantity".
    InsufficientQuantity,
    /// The message: "Failed to move to bank: {0}".
    MoveCommandError(MoveCommandError),
    /// The message: "Failed to request item withdrawal: {0}".
    ClientError(ApiErrorSchema),
}

#[derive(Debug)]
pub enum DepositItemCommandError {
    /// The message: "Missing item quantity".
    MissingQuantity,
    /// The message: "Failed to move to bank: {0}".
    MoveCommandError(MoveCommandError),
    /// The message: "Insufficient bank space".
    InsufficientBankSpace,
    /// The message: "Failed to request item deposit: {0}".
    ClientError(ApiErrorSchema),
}

#[derive(Debug)]
pub enum EquipCommandError {
    /// The message: "Item not found".
    ItemNotFound,
    /// The message: "Conditions not met".
    ConditionsNotMet,
    /// The message: "Failed to unequip equiped item before equiping item: {0}".
    UnequipCommandError(UnequipCommandError),
    /// The message: "Failed to request equip item: {0}".
    ClientError(ApiErrorSchema),
}

#[derive(Debug)]
pub enum UnequipCommandError {
    /// The message: "Failed to rest".
    RestError(ApiErrorSchema),
    /// The message: "Insufficient inventory space".
    InsufficientInventorySpace,
    /// The message: "Failed to unequip item".
    ClientError(ApiErrorSchema),
}

#[derive(Debug)]
pub enum UseItemCommandError {
    /// The message: "Failed to request item use: {0}".
    ClientError(ApiErrorSchema),
}

#[derive(Debug)]
pub enum BuyNpcCommandError {
    /// The message: "Item not found: {0}".
    ItemNotFound(String),
    /// The message: "Item not purchasable".
    ItemNotPurchasable,
    /// The message: "Insufficient currency: '{currency}'x{quantity}".
    InsufficientCurrency { currency: String, quantity: i32 },
    /// The message: "Failed to deposit all before withdrawing currency: {0}".
    DepositItemCommandError(DepositItemCommandError),
    /// The message: "Failed to withdraw gold from bank: {0}".
    GoldWithdrawCommandError(GoldWithdrawCommandError),
    /// The message: "Failed to withdraw currency from bank: {0}".
    WithdrawItemCommandError(WithdrawItemCommandError),
    /// The message: "No map with an NPC selling the item found: {0}".
    MoveCommandError(MoveCommandError),
    /// The message: "Failed to request npc purchase : {0}".
    ClientError(ApiErrorSchema),
}

#[derive(Debug)]
pub enum OrderProgressionError {
    /// The message: "No item missing".
    NoItemMissing,
    /// The message: "No item source found to progress order".
    NoSourceForItem,
    /// The message: "Failed to progress resource order: {0}".
    GatherCommandError(GatherCommandError),
    /// The message: "Failed to progress monster order: {0}".
    KillMonsterCommandError(KillMonsterCommandError),
    /// The message: "Failed to progress crafting order: {0}".
    CraftCommandError(CraftCommandError),
    /// The message: "Failed to progress tasks coin exchange order: {0}".
    TasksCoinExchangeOrderProgressionError(TasksCoinExchangeOrderProgressionError),
    /// The message: "Failed to progress tasks progression order: {0}".
    TaskProgressionError(TaskProgressionError),
    /// The message: "Failed to progress npc purchase order: {0}".
    BuyNpcOrderProgressionError(BuyNpcOrderProgressionError),
}

#[derive(Debug)]
pub enum TaskProgressionError {
    /// The message: "Failed to accept task: {0}".
    TaskAcceptationCommandError(TaskAcceptationCommandError),
    /// The message: "Failed to complete task: {0}".
    TaskCompletionCommandError(TaskCompletionCommandError),
    /// The message: "Failed to trade task: {0}".
    TaskTradeCommandError(TaskTradeCommandError),
    /// The message: "Failed to cancel task: {0}".
    TaskCancellationCommandError(TaskCancellationCommandError),
    /// The message: "Failed to fight: {0}".
    KillMonsterCommandError(KillMonsterCommandError),
    /// The message: "Order error: ".
    OrderError(OrderError),
}

#[derive(Debug)]
pub enum BuyNpcOrderProgressionError {
    /// The message: "Failed to command npc buy: {0}".
    BuyNpcCommandError(BuyNpcCommandError),
    /// The message: "Failed to order missing currency: {0}".
    OrderError(OrderError),
}

#[derive(Debug)]
pub enum TasksCoinExchangeOrderProgressionError {
    /// The message: "Failed to command tasks coin exchange: {0}".
    TasksCoinExchangeCommandError(TasksCoinExchangeCommandError),
    /// The message: "Failed to order missing items: {0}".
    OrderError(OrderError),
}

#[derive(Debug)]
pub enum SkillLevelingError {
    /// The message: "Skill is already at max level".
    SkillAlreadyMaxed,
    /// The message: "Failed to kill monster to level combat: {0}".
    KillMonsterCommandError(KillMonsterCommandError),
    /// The message: "Failed to craft to level skill: {0}".
    CraftCommandError(CraftCommandError),
    /// The message: "Failed to gather to level skill: {0}".
    GatherCommandError(GatherCommandError),
}

#[derive(Debug)]
pub enum OrderDepositError {
    /// The message: "No item to deposit in inventory".
    NoItemToDeposit,
    /// The message: "Failed to deposit order items".
    DepositItemCommandError(DepositItemCommandError),
}

} // verus!
