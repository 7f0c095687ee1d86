//! The choices of the start menu.

use vstd::prelude::*;

verus! {

/// What a choice in the start menu leads to.
#[derive(Copy, Clone, PartialEq, Eq, Structural, Debug)]
pub enum MenuAction {
    /// Start a new game.
    StartGame,
    /// Show the high scores.
    ShowHighScores,
    /// Leave the program.
    Quit,
    /// The number stands for nothing.
    Unknown,
}

/// The action behind each number of the menu.
pub open spec fn action_of(choice: nat) -> MenuAction {
    if choice == 1 {
        MenuAction::StartGame
    } else if choice == 2 {
        MenuAction::ShowHighScores
    } else if choice == 3 {
        MenuAction::Quit
    } else {
        MenuAction::Unknown
    }
}

/// The action that the number typed at the menu stands for: 1 starts a
/// game, 2 shows the high scores, 3 quits, any other number is unknown.
pub fn menu_action(choice: u32) -> (action: MenuAction)
    ensures
        action == action_of(choice as nat),
{
    match choice {
        1 => MenuAction::StartGame,
        2 => MenuAction::ShowHighScores,
        3 => MenuAction::Quit,
        _ => MenuAction::Unknown,
    }
}

} // verus!
