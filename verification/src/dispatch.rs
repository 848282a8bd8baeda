//! Which key does what in which state: the keys of the dialogs (pause,
//! victory, lost game), the game actions that apply in each status, and what
//! an action does while the quit confirmation or the update prompt shows, and
//! a key during name entry.

use vstd::prelude::*;

use crate::game_state::GameStatus;
use crate::input::GameAction;
use crate::menu::{
    lost_choice, lost_entry, lost_items, pause_choice, pause_entry, step_selection, stepped, victory_choice,
    victory_entry, victory_items, EndChoice, PauseChoice, PAUSE_MENU_ITEMS,
};
use crate::display::{half_toward_zero, halve};
use crate::startup::MAX_LEVEL;

verus! {

/// The keys a dialog reacts to.
#[derive(Debug, Clone, Copy, PartialEq, Eq)]
pub enum MenuKey {
    Up,
    Down,
    /// Return or keypad Enter.
    Enter,
    /// Any other key.
    Other,
}

/// What a key does in a dialog.
#[derive(Debug, Clone, Copy, PartialEq, Eq)]
pub enum MenuStep {
    /// The selection moves to this entry.
    Moved(usize),
    /// The selected pause menu entry is chosen.
    Pause(PauseChoice),
    /// The selected entry of an end-of-game dialog is chosen.
    End(EndChoice),
    /// The key does nothing in the dialog.
    Ignored,
}

/// The number of entries of the dialog shown in `status`, 0 where none is.
pub open spec fn dialog_items(status: GameStatus, level: int, shuffles_remaining: int) -> int {
    match status {
        GameStatus::Paused => PAUSE_MENU_ITEMS as int,
        GameStatus::Won => if level < MAX_LEVEL { 3 } else { 2 },
        GameStatus::Lost => if shuffles_remaining > 0 { 2 } else { 3 },
        _ => 0,
    }
}

/// What `key` does in the dialog shown in `status` with entry `selection`
/// selected: up and down move the selection, wrapping around; Enter chooses
/// the entry; in a status without a dialog, or for any other key, nothing.
pub open spec fn menu_effect(status: GameStatus, selection: int, key: MenuKey, level: int, shuffles_remaining: int) -> MenuStep {
    let n = dialog_items(status, level, shuffles_remaining);
    if n == 0 {
        MenuStep::Ignored
    } else {
        match key {
            MenuKey::Up => MenuStep::Moved(stepped(selection, n, false) as usize),
            MenuKey::Down => MenuStep::Moved(stepped(selection, n, true) as usize),
            MenuKey::Enter => match status {
                GameStatus::Paused => MenuStep::Pause(pause_entry(selection)),
                GameStatus::Won => MenuStep::End(victory_entry(selection, level)),
                _ => MenuStep::End(lost_entry(selection, shuffles_remaining)),
            },
            MenuKey::Other => MenuStep::Ignored,
        }
    }
}

/// What `key` does in the dialog shown in `status`.
pub fn menu_step(status: GameStatus, selection: usize, key: MenuKey, level: u32, shuffles_remaining: u8) -> (step: MenuStep)
    requires
        dialog_items(status, level as int, shuffles_remaining as int) > 0
            ==> selection < dialog_items(status, level as int, shuffles_remaining as int),
    ensures
        step == menu_effect(status, selection as int, key, level as int, shuffles_remaining as int),
{
    let n: usize = match status {
        GameStatus::Paused => PAUSE_MENU_ITEMS,
        GameStatus::Won => victory_items(level),
        GameStatus::Lost => lost_items(shuffles_remaining),
        _ => 0,
    };
    if n == 0 {
        return MenuStep::Ignored;
    }
    match key {
        MenuKey::Up => MenuStep::Moved(step_selection(selection, n, false)),
        MenuKey::Down => MenuStep::Moved(step_selection(selection, n, true)),
        MenuKey::Enter => match status {
            GameStatus::Paused => MenuStep::Pause(pause_choice(selection)),
            GameStatus::Won => MenuStep::End(victory_choice(selection, level)),
            _ => MenuStep::End(lost_choice(selection, shuffles_remaining)),
        },
        MenuKey::Other => MenuStep::Ignored,
    }
}

/// Whether a game action applies in `status` with `shuffles_remaining`
/// shuffles left: undo, hint and the pause menu while playing; shuffle while
/// playing or in a lost game that is not over (a shuffle is left); resume
/// while paused; clicks, new game, mute, fullscreen and quit always.
pub open spec fn applies(action: GameAction, status: GameStatus, shuffles_remaining: u8) -> bool {
    match action {
        GameAction::Undo | GameAction::Hint | GameAction::PauseMenu => status == GameStatus::Playing,
        GameAction::Shuffle => status == GameStatus::Playing || (status == GameStatus::Lost && shuffles_remaining > 0),
        GameAction::Resume => status == GameStatus::Paused,
        _ => true,
    }
}

/// Whether `action` applies in `status` with `shuffles_remaining` shuffles left.
pub fn action_applies(action: GameAction, status: GameStatus, shuffles_remaining: u8) -> (r: bool)
    ensures
        r == applies(action, status, shuffles_remaining),
{
    let playing = match status {
        GameStatus::Playing => true,
        _ => false,
    };
    match action {
        GameAction::Undo | GameAction::Hint | GameAction::PauseMenu => playing,
        GameAction::Shuffle => match status {
            GameStatus::Playing => true,
            GameStatus::Lost => shuffles_remaining > 0,
            _ => false,
        },
        GameAction::Resume => match status {
            GameStatus::Paused => true,
            _ => false,
        },
        _ => true,
    }
}

/// Which button of a two-button dialog a click hits.
#[derive(Debug, Clone, Copy, PartialEq, Eq)]
pub enum DialogButton {
    First,
    Second,
    Neither,
}

/// The button a click at (`x`, `y`) hits in a `dialog_w` by `dialog_h` dialog
/// centred in a `win_w` by `win_h` window, whose two buttons, `btn_w` wide, 40
/// high and 20 apart, sit centred in a row `btn_y` below the dialog's top.
/// Halving rounds toward zero, as the integer arithmetic on screen does.
pub open spec fn button_at(win_w: int, win_h: int, dialog_w: int, dialog_h: int, btn_w: int, btn_y: int, x: int, y: int) -> DialogButton {
    let left = half_toward_zero(win_w - dialog_w) + half_toward_zero(dialog_w - (2 * btn_w + 20));
    let top = half_toward_zero(win_h - dialog_h) + btn_y;
    let in_row = top <= y < top + 40;
    if in_row && left <= x < left + btn_w {
        DialogButton::First
    } else if in_row && left + btn_w + 20 <= x < left + 2 * btn_w + 20 {
        DialogButton::Second
    } else {
        DialogButton::Neither
    }
}

fn button_hit(win_w: u32, win_h: u32, dialog_w: i64, dialog_h: i64, btn_w: i64, btn_y: i64, x: i32, y: i32) -> (b: DialogButton)
    requires
        0 <= dialog_w <= 1000,
        0 <= dialog_h <= 1000,
        0 <= btn_w <= 1000,
        0 <= btn_y <= 1000,
    ensures
        b == button_at(win_w as int, win_h as int, dialog_w as int, dialog_h as int, btn_w as int, btn_y as int, x as int, y as int),
{
    let left = halve(win_w as i64 - dialog_w) + halve(dialog_w - (2 * btn_w + 20));
    let top = halve(win_h as i64 - dialog_h) + btn_y;
    let (x, y) = (x as i64, y as i64);
    let in_row = top <= y && y < top + 40;
    if in_row && left <= x && x < left + btn_w {
        DialogButton::First
    } else if in_row && left + btn_w + 20 <= x && x < left + 2 * btn_w + 20 {
        DialogButton::Second
    } else {
        DialogButton::Neither
    }
}

/// What an action does while the quit confirmation shows.
#[derive(Debug, Clone, Copy, PartialEq, Eq)]
pub enum QuitStep {
    /// Leave the game.
    Quit,
    /// Close the confirmation and play on.
    Close,
    /// Keep the confirmation up.
    Stay,
}

/// What `action` does while the 300 by 180 quit confirmation shows in a
/// `win_w` by `win_h` window: quitting again, or a click on YES, quits; a
/// click on NO closes it; a click elsewhere leaves it up; any other action
/// closes it.
pub fn quit_confirmation_step(action: GameAction, win_w: u32, win_h: u32) -> (step: QuitStep)
    ensures
        step == match action {
            GameAction::Quit => QuitStep::Quit,
            GameAction::SelectTile(x, y) => match button_at(win_w as int, win_h as int, 300, 180, 120, 110, x as int, y as int) {
                DialogButton::First => QuitStep::Quit,
                DialogButton::Second => QuitStep::Close,
                DialogButton::Neither => QuitStep::Stay,
            },
            _ => QuitStep::Close,
        },
{
    match action {
        GameAction::Quit => QuitStep::Quit,
        GameAction::SelectTile(x, y) => match button_hit(win_w, win_h, 300, 180, 120, 110, x, y) {
            DialogButton::First => QuitStep::Quit,
            DialogButton::Second => QuitStep::Close,
            DialogButton::Neither => QuitStep::Stay,
        },
        _ => QuitStep::Close,
    }
}

/// What an action does while the update prompt shows.
#[derive(Debug, Clone, Copy, PartialEq, Eq)]
pub enum UpdateStep {
    /// Open the download page and close the prompt.
    Download,
    /// Close the prompt.
    Dismiss,
    /// Keep the prompt up.
    Stay,
}

/// What `action` does while the 360 by 200 update prompt shows in a `win_w`
/// by `win_h` window: a click on DOWNLOAD opens the download page, a click on
/// NOT NOW closes it, a click elsewhere leaves it up; any other action closes it.
pub fn update_prompt_step(action: GameAction, win_w: u32, win_h: u32) -> (step: UpdateStep)
    ensures
        step == match action {
            GameAction::SelectTile(x, y) => match button_at(win_w as int, win_h as int, 360, 200, 140, 140, x as int, y as int) {
                DialogButton::First => UpdateStep::Download,
                DialogButton::Second => UpdateStep::Dismiss,
                DialogButton::Neither => UpdateStep::Stay,
            },
            _ => UpdateStep::Dismiss,
        },
{
    match action {
        GameAction::SelectTile(x, y) => match button_hit(win_w, win_h, 360, 200, 140, 140, x, y) {
            DialogButton::First => UpdateStep::Download,
            DialogButton::Second => UpdateStep::Dismiss,
            DialogButton::Neither => UpdateStep::Stay,
        },
        _ => UpdateStep::Dismiss,
    }
}

/// The keys name entry reacts to.
#[derive(Debug, Clone, Copy, PartialEq, Eq)]
pub enum NameKey {
    Enter,
    Backspace,
    Escape,
    Other,
}

/// What a key does during name entry.
#[derive(Debug, Clone, Copy, PartialEq, Eq)]
pub enum NameStep {
    /// Store the name if it is valid (an empty name is ignored).
    Submit,
    /// Take off the last character.
    Erase,
    /// Leave name entry without storing a name.
    Cancel,
    /// Nothing.
    Ignored,
}

/// What `key` does during name entry: Enter submits, Backspace erases,
/// Escape cancels; other keys do nothing (typed text arrives separately).
pub fn name_entry_step(key: NameKey) -> (step: NameStep)
    ensures
        step == match key {
            NameKey::Enter => NameStep::Submit,
            NameKey::Backspace => NameStep::Erase,
            NameKey::Escape => NameStep::Cancel,
            NameKey::Other => NameStep::Ignored,
        },
{
    match key {
        NameKey::Enter => NameStep::Submit,
        NameKey::Backspace => NameStep::Erase,
        NameKey::Escape => NameStep::Cancel,
        NameKey::Other => NameStep::Ignored,
    }
}

} // verus!
