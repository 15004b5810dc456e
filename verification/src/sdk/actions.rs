use crate::sdk::gear::Slot;
use vstd::prelude::*;

verus! {

/// An action a character asks the game to perform.
#[derive(Debug)]
pub enum Action<'a> {
    Move { x: i32, y: i32 },
    Fight,
    Gather,
    Craft { code: &'a str, quantity: i32 },
    Withdraw { code: &'a str, quantity: i32 },
    Deposit { code: &'a str, quantity: i32 },
    Recycle { code: &'a str, quantity: i32 },
    Equip { code: &'a str, slot: Slot, quantity: i32 },
    Unequip { slot: Slot, quantity: i32 },
    AcceptTask,
    CompleteTask,
    CancelTask,
    TaskTrade { code: &'a str, quantity: i32 },
}

/// What is done with crafted items.
#[derive(Debug, Clone, Copy, PartialEq, Eq, Structural)]
pub enum PostCraftAction {
    Deposit,
    Recycle,
    NoAction,
}

/// What is done when the game refuses an action.
#[derive(Debug, Clone, Copy, PartialEq, Eq, Structural)]
pub enum ErrorAction {
    /// The clocks are out of step: sync with the server's time, then try again.
    ResyncAndRetry,
    /// The server failed: wait, then try again.
    WaitAndRetry,
    /// The error stands.
    Fail,
}

/// What is done for the error `code` the game answered an action with: code 499
/// means the character's cooldown is out of step with the server's time, codes 500
/// and 520 an error of the server; any other code stands.
pub open spec fn on_action_error_spec(code: i32) -> ErrorAction {
    if code == 499 {
        ErrorAction::ResyncAndRetry
    } else if code == 500 || code == 520 {
        ErrorAction::WaitAndRetry
    } else {
        ErrorAction::Fail
    }
}

/// What is done for the error `code` the game answered an action with.
pub fn on_action_error(code: i32) -> (res: ErrorAction)
    ensures
        res == on_action_error_spec(code),
{
    if code == 499 {
        ErrorAction::ResyncAndRetry
    } else if code == 500 || code == 520 {
        ErrorAction::WaitAndRetry
    } else {
        ErrorAction::Fail
    }
}

} // verus!
