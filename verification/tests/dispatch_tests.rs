use xmahjong::dispatch::{
    action_applies, menu_step, name_entry_step, quit_confirmation_step, update_prompt_step, MenuKey, MenuStep, NameKey, NameStep,
    QuitStep, UpdateStep,
};
use xmahjong::game_state::GameStatus;
use xmahjong::input::GameAction;
use xmahjong::logic::SelectionResult;
use xmahjong::menu::{EndChoice, PauseChoice};
use xmahjong::session::{Difficulty, SessionProgress};

#[test]
fn dialog_keys_move_and_choose() {
    assert_eq!(menu_step(GameStatus::Paused, 0, MenuKey::Up, 1, 1), MenuStep::Moved(6));
    assert_eq!(menu_step(GameStatus::Paused, 6, MenuKey::Down, 1, 1), MenuStep::Moved(0));
    assert_eq!(menu_step(GameStatus::Paused, 2, MenuKey::Enter, 1, 1), MenuStep::Pause(PauseChoice::Hint));
    assert_eq!(menu_step(GameStatus::Paused, 2, MenuKey::Other, 1, 1), MenuStep::Ignored);

    assert_eq!(menu_step(GameStatus::Won, 2, MenuKey::Down, 4, 1), MenuStep::Moved(0));
    assert_eq!(menu_step(GameStatus::Won, 2, MenuKey::Enter, 4, 1), MenuStep::End(EndChoice::ShowLeaderboard));
    assert_eq!(menu_step(GameStatus::Won, 1, MenuKey::Down, 50, 1), MenuStep::Moved(0));
    assert_eq!(menu_step(GameStatus::Won, 0, MenuKey::Enter, 50, 1), MenuStep::End(EndChoice::NewGame));

    assert_eq!(menu_step(GameStatus::Lost, 0, MenuKey::Enter, 3, 2), MenuStep::End(EndChoice::Shuffle));
    assert_eq!(menu_step(GameStatus::Lost, 1, MenuKey::Down, 3, 2), MenuStep::Moved(0));
    assert_eq!(menu_step(GameStatus::Lost, 0, MenuKey::Up, 3, 0), MenuStep::Moved(2));
    assert_eq!(menu_step(GameStatus::Lost, 2, MenuKey::Enter, 3, 0), MenuStep::End(EndChoice::SaveAndQuit));

    assert_eq!(menu_step(GameStatus::Playing, 0, MenuKey::Enter, 3, 1), MenuStep::Ignored);
    assert_eq!(menu_step(GameStatus::NameEntry, 0, MenuKey::Up, 3, 1), MenuStep::Ignored);
}

#[test]
fn actions_apply_by_status() {
    assert!(action_applies(GameAction::Undo, GameStatus::Playing, 1));
    assert!(!action_applies(GameAction::Undo, GameStatus::Paused, 1));
    assert!(!action_applies(GameAction::Hint, GameStatus::Lost, 1));
    assert!(action_applies(GameAction::Shuffle, GameStatus::Lost, 1));
    assert!(!action_applies(GameAction::Shuffle, GameStatus::Won, 1));
    assert!(!action_applies(GameAction::Shuffle, GameStatus::Lost, 0));
    assert!(action_applies(GameAction::Shuffle, GameStatus::Playing, 0));
    assert!(action_applies(GameAction::PauseMenu, GameStatus::Playing, 1));
    assert!(!action_applies(GameAction::PauseMenu, GameStatus::Paused, 1));
    assert!(action_applies(GameAction::Resume, GameStatus::Paused, 1));
    assert!(!action_applies(GameAction::Resume, GameStatus::Playing, 1));
    assert!(action_applies(GameAction::NewGame, GameStatus::Won, 1));
    assert!(action_applies(GameAction::SelectTile(3, 4), GameStatus::Lost, 1));
}

#[test]
fn session_counters_count_matches_and_undos() {
    let mut progress = SessionProgress {
        level: 1,
        base_score: 0,
        base_time_ms: 0,
        base_hints: 0,
        base_shuffles: 0,
        base_undos: 0,
        undos_used: 0,
        pairs_matched: 0,
        difficulty: Difficulty::Easy,
    };
    progress.count_selection(SelectionResult::Matched(1, 2));
    progress.count_selection(SelectionResult::Mismatched(1, 3));
    progress.count_selection(SelectionResult::Selected);
    assert_eq!(progress.pairs_matched, 1);
    progress.count_undo();
    assert_eq!(progress.undos_used, 1);
    assert_eq!(progress.level, 1);
}

#[test]
fn quit_confirmation_reads_its_buttons() {
    assert_eq!(quit_confirmation_step(GameAction::Quit, 800, 600), QuitStep::Quit);
    assert_eq!(quit_confirmation_step(GameAction::SelectTile(270, 320), 800, 600), QuitStep::Quit);
    assert_eq!(quit_confirmation_step(GameAction::SelectTile(389, 359), 800, 600), QuitStep::Quit);
    assert_eq!(quit_confirmation_step(GameAction::SelectTile(390, 330), 800, 600), QuitStep::Stay);
    assert_eq!(quit_confirmation_step(GameAction::SelectTile(410, 330), 800, 600), QuitStep::Close);
    assert_eq!(quit_confirmation_step(GameAction::SelectTile(300, 360), 800, 600), QuitStep::Stay);
    assert_eq!(quit_confirmation_step(GameAction::Hint, 800, 600), QuitStep::Close);
    // A window smaller than the dialog: halves round toward zero.
    assert_eq!(quit_confirmation_step(GameAction::SelectTile(-30, 70), 200, 100), QuitStep::Quit);
    assert_eq!(quit_confirmation_step(GameAction::SelectTile(-31, 70), 200, 100), QuitStep::Stay);
}

#[test]
fn update_prompt_reads_its_buttons() {
    assert_eq!(update_prompt_step(GameAction::SelectTile(250, 340), 800, 600), UpdateStep::Download);
    assert_eq!(update_prompt_step(GameAction::SelectTile(549, 379), 800, 600), UpdateStep::Dismiss);
    assert_eq!(update_prompt_step(GameAction::SelectTile(400, 340), 800, 600), UpdateStep::Stay);
    assert_eq!(update_prompt_step(GameAction::NewGame, 800, 600), UpdateStep::Dismiss);
    assert_eq!(update_prompt_step(GameAction::Quit, 800, 600), UpdateStep::Dismiss);
}

#[test]
fn name_entry_keys() {
    assert_eq!(name_entry_step(NameKey::Enter), NameStep::Submit);
    assert_eq!(name_entry_step(NameKey::Backspace), NameStep::Erase);
    assert_eq!(name_entry_step(NameKey::Escape), NameStep::Cancel);
    assert_eq!(name_entry_step(NameKey::Other), NameStep::Ignored);
}
