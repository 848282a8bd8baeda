//! Menu decisions: moving a selection through a menu, and what each entry of
//! the pause, victory and lost-game menus asks for.

use vstd::prelude::*;

use vstd::arithmetic::div_mod::{lemma_mod_self_0, lemma_small_mod};

use crate::startup::MAX_LEVEL;

verus! {

/// Number of entries in the pause menu.
pub const PAUSE_MENU_ITEMS: usize = 7;

/// The entries of the pause menu, top to bottom.
#[derive(Debug, Clone, Copy, PartialEq, Eq)]
pub enum PauseChoice {
    NewGame,
    Undo,
    Hint,
    Shuffle,
    ToggleMute,
    About,
    Quit,
}

/// What an end-of-game dialog asks for.
#[derive(Debug, Clone, Copy, PartialEq, Eq)]
pub enum EndChoice {
    /// Go on to the next level.
    NextLevel,
    /// Start again from level 1.
    NewGame,
    /// Show the leaderboard.
    ShowLeaderboard,
    /// Shuffle the remaining tiles.
    Shuffle,
    /// Enter a name to keep the score of a game that is over.
    SaveScore,
    /// Keep the game for later (a shuffle may come with the next level) and quit.
    SaveAndQuit,
}

/// The selection after one step down (`down`) or up through `count` entries,
/// wrapping around at either end.
pub open spec fn stepped(selection: int, count: int, down: bool) -> int {
    if down {
        (selection + 1) % count
    } else if selection == 0 {
        count - 1
    } else {
        selection - 1
    }
}

/// Moves a menu selection one entry down or up, wrapping around.
pub fn step_selection(selection: usize, count: usize, down: bool) -> (next: usize)
    requires
        selection < count,
    ensures
        next == stepped(selection as int, count as int, down),
        next < count,
{
    if down {
        (selection + 1) % count
    } else if selection == 0 {
        count - 1
    } else {
        selection - 1
    }
}

/// The pause menu entry at `selection`, counting from the top; past the last
/// entry, `Quit`.
pub open spec fn pause_entry(selection: int) -> PauseChoice {
    if selection == 0 {
        PauseChoice::NewGame
    } else if selection == 1 {
        PauseChoice::Undo
    } else if selection == 2 {
        PauseChoice::Hint
    } else if selection == 3 {
        PauseChoice::Shuffle
    } else if selection == 4 {
        PauseChoice::ToggleMute
    } else if selection == 5 {
        PauseChoice::About
    } else {
        PauseChoice::Quit
    }
}

/// What the selected pause menu entry asks for.
pub fn pause_choice(selection: usize) -> (choice: PauseChoice)
    ensures
        choice == pause_entry(selection as int),
{
    if selection == 0 {
        PauseChoice::NewGame
    } else if selection == 1 {
        PauseChoice::Undo
    } else if selection == 2 {
        PauseChoice::Hint
    } else if selection == 3 {
        PauseChoice::Shuffle
    } else if selection == 4 {
        PauseChoice::ToggleMute
    } else if selection == 5 {
        PauseChoice::About
    } else {
        PauseChoice::Quit
    }
}

/// Number of entries of the victory dialog: next level, new game and
/// leaderboard while a next level exists; otherwise new game and leaderboard.
pub fn victory_items(level: u32) -> (n: usize)
    ensures
        n == if level < MAX_LEVEL { 3usize } else { 2usize },
{
    if level < MAX_LEVEL { 3 } else { 2 }
}

/// The victory dialog entry at `selection` after finishing `level`.
pub open spec fn victory_entry(selection: int, level: int) -> EndChoice {
    if level < MAX_LEVEL {
        if selection == 0 {
            EndChoice::NextLevel
        } else if selection == 1 {
            EndChoice::NewGame
        } else {
            EndChoice::ShowLeaderboard
        }
    } else if selection == 0 {
        EndChoice::NewGame
    } else {
        EndChoice::ShowLeaderboard
    }
}

/// What the victory dialog asks for.
pub fn victory_choice(selection: usize, level: u32) -> (choice: EndChoice)
    ensures
        choice == victory_entry(selection as int, level as int),
{
    if level < MAX_LEVEL {
        if selection == 0 {
            EndChoice::NextLevel
        } else if selection == 1 {
            EndChoice::NewGame
        } else {
            EndChoice::ShowLeaderboard
        }
    } else if selection == 0 {
        EndChoice::NewGame
    } else {
        EndChoice::ShowLeaderboard
    }
}

/// Number of entries of the dialog of a lost game: shuffle and new game while
/// shuffles remain; once none is left the game is over, and its dialog offers
/// saving the score, a new game, and keeping the game for later.
pub fn lost_items(shuffles_remaining: u8) -> (n: usize)
    ensures
        n == if shuffles_remaining > 0 { 2usize } else { 3usize },
{
    if shuffles_remaining > 0 { 2 } else { 3 }
}

/// The entry at `selection` of the dialog of a lost game.
pub open spec fn lost_entry(selection: int, shuffles_remaining: int) -> EndChoice {
    if shuffles_remaining > 0 {
        if selection == 0 { EndChoice::Shuffle } else { EndChoice::NewGame }
    } else if selection == 0 {
        EndChoice::SaveScore
    } else if selection == 1 {
        EndChoice::NewGame
    } else {
        EndChoice::SaveAndQuit
    }
}

/// What the dialog of a lost game asks for.
pub fn lost_choice(selection: usize, shuffles_remaining: u8) -> (choice: EndChoice)
    ensures
        choice == lost_entry(selection as int, shuffles_remaining as int),
{
    if shuffles_remaining > 0 {
        if selection == 0 { EndChoice::Shuffle } else { EndChoice::NewGame }
    } else if selection == 0 {
        EndChoice::SaveScore
    } else if selection == 1 {
        EndChoice::NewGame
    } else {
        EndChoice::SaveAndQuit
    }
}

/// Stepping down then up, or up then down, comes back to the same entry.
pub proof fn lemma_steps_undo_each_other(selection: int, count: int)
    requires
        0 <= selection < count,
    ensures
        0 <= stepped(selection, count, true) < count,
        stepped(stepped(selection, count, true), count, false) == selection,
        stepped(stepped(selection, count, false), count, true) == selection,
{
    lemma_mod_self_0(count);
    if selection + 1 < count {
        lemma_small_mod((selection + 1) as nat, count as nat);
    }
    lemma_small_mod(selection as nat, count as nat);
}

} // verus!
