//! Input handling: which game action an input event asks for.

use vstd::prelude::*;

verus! {

/// Actions the player can trigger.
#[derive(Debug, Clone, Copy, PartialEq, Eq)]
pub enum GameAction {
    /// Click at screen coordinates (x, y) to select a tile.
    SelectTile(i32, i32),
    /// Start a new game (Ctrl+N).
    NewGame,
    /// Undo the last match (Ctrl+Z).
    Undo,
    /// Ask for a hint (Ctrl+H).
    Hint,
    /// Shuffle the remaining tiles (Ctrl+S).
    Shuffle,
    /// Toggle audio mute (Ctrl+M).
    ToggleMute,
    /// Toggle fullscreen (F11).
    ToggleFullscreen,
    /// Open the pause menu (Escape while playing).
    PauseMenu,
    /// Resume from the menu (Escape while paused).
    Resume,
    /// Quit the game.
    Quit,
}

/// Keys the game distinguishes.
#[derive(Debug, Clone, Copy, PartialEq, Eq)]
pub enum Key {
    N,
    Z,
    H,
    S,
    M,
    F11,
    Escape,
    /// Any other key.
    Other,
}

/// Mouse buttons the game distinguishes.
#[derive(Debug, Clone, Copy, PartialEq, Eq)]
pub enum MouseButton {
    Left,
    /// Any other button.
    Other,
}

/// An input event, reduced to what the game reads of it.
#[derive(Debug, Clone, Copy, PartialEq, Eq)]
pub enum InputEvent {
    /// The window was asked to close.
    Quit,
    /// A mouse button went down at (x, y).
    MouseButtonDown { button: MouseButton, x: i32, y: i32 },
    /// A key went down, with the state of the two Ctrl keys.
    KeyDown { keycode: Option<Key>, left_ctrl: bool, right_ctrl: bool },
    /// Anything else.
    Other,
}

/// The action for a key press: Ctrl with N, Z, H, S or M; F11 or Escape without
/// Ctrl, Escape resuming when paused and pausing otherwise.
pub open spec fn key_action(ctrl: bool, key: Key, is_paused: bool) -> Option<GameAction> {
    match (ctrl, key) {
        (true, Key::N) => Some(GameAction::NewGame),
        (true, Key::Z) => Some(GameAction::Undo),
        (true, Key::H) => Some(GameAction::Hint),
        (true, Key::S) => Some(GameAction::Shuffle),
        (true, Key::M) => Some(GameAction::ToggleMute),
        (false, Key::F11) => Some(GameAction::ToggleFullscreen),
        (false, Key::Escape) => Some(if is_paused { GameAction::Resume } else { GameAction::PauseMenu }),
        _ => None,
    }
}

/// The action an event asks for.
pub open spec fn event_action(event: InputEvent, is_paused: bool) -> Option<GameAction> {
    match event {
        InputEvent::Quit => Some(GameAction::Quit),
        InputEvent::MouseButtonDown { button: MouseButton::Left, x, y } => Some(GameAction::SelectTile(x, y)),
        InputEvent::KeyDown { keycode: Some(key), left_ctrl, right_ctrl } => key_action(left_ctrl || right_ctrl, key, is_paused),
        _ => None,
    }
}

/// Translates input events into game actions.
pub struct InputHandler;

impl InputHandler {
    /// A new input handler.
    pub fn new() -> Self {
        InputHandler
    }

    /// The action `event` asks for; Escape resumes when `is_paused` and opens
    /// the pause menu otherwise.
    pub fn process_event(&self, event: &InputEvent, is_paused: bool) -> (action: Option<GameAction>)
        ensures
            action == event_action(*event, is_paused),
    {
        match event {
            InputEvent::Quit => Some(GameAction::Quit),
            InputEvent::MouseButtonDown { button: MouseButton::Left, x, y } => Some(GameAction::SelectTile(*x, *y)),
            InputEvent::KeyDown { keycode: Some(keycode), left_ctrl, right_ctrl } => {
                let ctrl = *left_ctrl || *right_ctrl;
                match (ctrl, *keycode) {
                    (true, Key::N) => Some(GameAction::NewGame),
                    (true, Key::Z) => Some(GameAction::Undo),
                    (true, Key::H) => Some(GameAction::Hint),
                    (true, Key::S) => Some(GameAction::Shuffle),
                    (true, Key::M) => Some(GameAction::ToggleMute),
                    (false, Key::F11) => Some(GameAction::ToggleFullscreen),
                    (false, Key::Escape) => {
                        if is_paused {
                            Some(GameAction::Resume)
                        } else {
                            Some(GameAction::PauseMenu)
                        }
                    },
                    _ => None,
                }
            },
            _ => None,
        }
    }
}

impl Default for InputHandler {
    fn default() -> Self {
        Self::new()
    }
}

} // verus!
