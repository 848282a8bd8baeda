use xmahjong::input::{GameAction, InputEvent, InputHandler, Key, MouseButton};

fn handler() -> InputHandler {
    InputHandler::new()
}

fn key(keycode: Key, left_ctrl: bool, right_ctrl: bool) -> InputEvent {
    InputEvent::KeyDown { keycode: Some(keycode), left_ctrl, right_ctrl }
}

#[test]
fn quit_event_maps_to_quit() {
    let h = handler();
    assert_eq!(h.process_event(&InputEvent::Quit, false), Some(GameAction::Quit));
}

#[test]
fn left_click_maps_to_select_tile() {
    let h = handler();
    let event = InputEvent::MouseButtonDown { button: MouseButton::Left, x: 150, y: 300 };
    assert_eq!(h.process_event(&event, false), Some(GameAction::SelectTile(150, 300)));
}

#[test]
fn right_click_is_ignored() {
    let h = handler();
    let event = InputEvent::MouseButtonDown { button: MouseButton::Other, x: 100, y: 200 };
    assert_eq!(h.process_event(&event, false), None);
}

#[test]
fn ctrl_n_maps_to_new_game() {
    let h = handler();
    assert_eq!(h.process_event(&key(Key::N, true, false), false), Some(GameAction::NewGame));
}

#[test]
fn ctrl_z_maps_to_undo() {
    let h = handler();
    assert_eq!(h.process_event(&key(Key::Z, true, false), false), Some(GameAction::Undo));
}

#[test]
fn ctrl_h_maps_to_hint() {
    let h = handler();
    assert_eq!(h.process_event(&key(Key::H, true, false), false), Some(GameAction::Hint));
}

#[test]
fn ctrl_s_maps_to_shuffle() {
    let h = handler();
    assert_eq!(h.process_event(&key(Key::S, true, false), false), Some(GameAction::Shuffle));
}

#[test]
fn ctrl_m_maps_to_toggle_mute() {
    let h = handler();
    assert_eq!(h.process_event(&key(Key::M, true, false), false), Some(GameAction::ToggleMute));
}

#[test]
fn right_ctrl_also_works() {
    let h = handler();
    assert_eq!(h.process_event(&key(Key::N, false, true), false), Some(GameAction::NewGame));
}

#[test]
fn f11_maps_to_toggle_fullscreen() {
    let h = handler();
    assert_eq!(h.process_event(&key(Key::F11, false, false), false), Some(GameAction::ToggleFullscreen));
}

#[test]
fn escape_when_playing_maps_to_pause_menu() {
    let h = handler();
    assert_eq!(h.process_event(&key(Key::Escape, false, false), false), Some(GameAction::PauseMenu));
}

#[test]
fn escape_when_paused_maps_to_resume() {
    let h = handler();
    assert_eq!(h.process_event(&key(Key::Escape, false, false), true), Some(GameAction::Resume));
}

#[test]
fn unbound_key_returns_none() {
    let h = handler();
    assert_eq!(h.process_event(&key(Key::Other, false, false), false), None);
}

#[test]
fn n_without_ctrl_returns_none() {
    let h = handler();
    assert_eq!(h.process_event(&key(Key::N, false, false), false), None);
}

#[test]
fn f11_with_ctrl_returns_none() {
    let h = handler();
    assert_eq!(h.process_event(&key(Key::F11, true, false), false), None);
}

#[test]
fn mouse_motion_is_ignored() {
    let h = handler();
    assert_eq!(h.process_event(&InputEvent::Other, false), None);
}

// A key event without a key code, and Escape with Ctrl held, map to nothing.
#[test]
fn keyless_and_ctrl_escape_return_none() {
    let h = handler();
    let event = InputEvent::KeyDown { keycode: None, left_ctrl: true, right_ctrl: false };
    assert_eq!(h.process_event(&event, false), None);
    assert_eq!(h.process_event(&key(Key::Escape, true, true), true), None);
    assert_eq!(InputHandler::default().process_event(&InputEvent::Quit, true), Some(GameAction::Quit));
}
