use xmahjong::menu::{
    lost_choice, lost_items, pause_choice, step_selection, victory_choice, victory_items, EndChoice, PauseChoice,
    PAUSE_MENU_ITEMS,
};

#[test]
fn selections_wrap_around() {
    assert_eq!(step_selection(0, PAUSE_MENU_ITEMS, true), 1);
    assert_eq!(step_selection(6, PAUSE_MENU_ITEMS, true), 0);
    assert_eq!(step_selection(0, PAUSE_MENU_ITEMS, false), 6);
    assert_eq!(step_selection(3, PAUSE_MENU_ITEMS, false), 2);
    assert_eq!(step_selection(1, 2, true), 0);
    for s in 0..PAUSE_MENU_ITEMS {
        assert_eq!(step_selection(step_selection(s, PAUSE_MENU_ITEMS, true), PAUSE_MENU_ITEMS, false), s);
    }
}

#[test]
fn pause_menu_entries_in_order() {
    let all: Vec<PauseChoice> = (0..PAUSE_MENU_ITEMS).map(pause_choice).collect();
    assert_eq!(
        all,
        vec![
            PauseChoice::NewGame,
            PauseChoice::Undo,
            PauseChoice::Hint,
            PauseChoice::Shuffle,
            PauseChoice::ToggleMute,
            PauseChoice::About,
            PauseChoice::Quit
        ]
    );
    assert_eq!(pause_choice(99), PauseChoice::Quit);
}

#[test]
fn end_dialogs_choose_by_level_and_shuffles() {
    assert_eq!(victory_items(1), 3);
    assert_eq!(victory_items(50), 2);
    assert_eq!(victory_choice(0, 1), EndChoice::NextLevel);
    assert_eq!(victory_choice(0, 49), EndChoice::NextLevel);
    assert_eq!(victory_choice(1, 3), EndChoice::NewGame);
    assert_eq!(victory_choice(2, 3), EndChoice::ShowLeaderboard);
    assert_eq!(victory_choice(0, 50), EndChoice::NewGame);
    assert_eq!(victory_choice(1, 50), EndChoice::ShowLeaderboard);

    assert_eq!(lost_items(1), 2);
    assert_eq!(lost_items(0), 3);
    assert_eq!(lost_choice(0, 1), EndChoice::Shuffle);
    assert_eq!(lost_choice(1, 2), EndChoice::NewGame);
    assert_eq!(lost_choice(0, 0), EndChoice::SaveScore);
    assert_eq!(lost_choice(1, 0), EndChoice::NewGame);
    assert_eq!(lost_choice(2, 0), EndChoice::SaveAndQuit);
}
