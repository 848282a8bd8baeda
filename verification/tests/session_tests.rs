use xmahjong::audio::{AudioManager, Sound};
use xmahjong::board::{turtle_layout, Board, Tile};
use xmahjong::game_state::{GameState, GameStatus, ScoreTracker};
use xmahjong::logic::{select_tile, SelectionResult};
use xmahjong::session::{
    capture_saved_game, create_new_game_state_for_level, difficulty_from_name, difficulty_name, handle_select_tile,
    new_game_for_level, restore_game_state, save_current_game, Difficulty, SessionProgress,
};
use xmahjong::timer::GameTimer;

fn two_tile_state(face_a: u8, face_b: u8) -> GameState {
    let layout = turtle_layout();
    let mut board = Board::new(&layout);
    board.tiles[142] = Some(Tile { face_id: face_a, position: layout.positions[142] });
    board.tiles[143] = Some(Tile { face_id: face_b, position: layout.positions[143] });
    GameState {
        board,
        timer: GameTimer::new(),
        score: ScoreTracker::new(),
        status: GameStatus::Playing,
        selection: None,
        hint: None,
        undo_stack: Vec::new(),
        shuffles_remaining: 1,
        animations: Vec::new(),
    }
}

fn progress() -> SessionProgress {
    SessionProgress {
        level: 7,
        base_score: 1234,
        base_time_ms: 98_765,
        base_hints: 2,
        base_shuffles: 1,
        base_undos: 3,
        undos_used: 4,
        pairs_matched: 5,
        difficulty: Difficulty::Normal,
    }
}

#[test]
fn new_games_deal_the_level_tile_count() {
    for (level, seed) in [(1u32, 42u64), (4, 9), (10, 7), (11, 5), (23, 1), (50, 3)] {
        let state = new_game_for_level(level, seed).expect("generation should succeed");
        let expected = xmahjong::levels::tiles_for_level(level);
        assert_eq!(state.board.remaining_count(), expected);
        assert_eq!(state.shuffles_remaining, 1);
        assert_eq!(state.status, GameStatus::Playing);
        assert!(state.undo_stack.is_empty());
        let pool = xmahjong::levels::face_pool_for_level(level);
        for tile in state.board.tiles.iter().flatten() {
            if level <= 10 {
                assert!(tile.face_id < 50);
            } else {
                assert!(pool.contains(&tile.face_id));
            }
        }
    }
    assert!(create_new_game_state_for_level(3).is_ok());
}

#[test]
fn clicking_the_last_pair_wins() {
    let mut state = two_tile_state(9, 9);
    let audio = AudioManager::new(true, true, true, true, true);
    let first = handle_select_tile(&mut state, &audio, 142);
    assert_eq!(first.result, SelectionResult::Selected);
    assert!(!first.won);
    assert!(first.sounds.is_empty());
    let second = handle_select_tile(&mut state, &audio, 143);
    assert_eq!(second.result, SelectionResult::Matched(142, 143));
    assert!(second.won);
    assert_eq!(second.sounds, vec![Sound::Match, Sound::Victory]);
    assert_eq!(state.status, GameStatus::Won);
    assert!(!state.timer.running);
    assert_eq!(state.board.remaining_count(), 0);
}

#[test]
fn a_mismatch_plays_the_error_effect_unless_muted() {
    let mut state = two_tile_state(1, 2);
    let mut audio = AudioManager::new(true, true, true, true, true);
    handle_select_tile(&mut state, &audio, 142);
    let outcome = handle_select_tile(&mut state, &audio, 143);
    assert_eq!(outcome.result, SelectionResult::Mismatched(142, 143));
    assert_eq!(outcome.sounds, vec![Sound::Error]);
    assert_eq!(state.status, GameStatus::Playing);
    audio.set_mute(true);
    handle_select_tile(&mut state, &audio, 142);
    let muted = handle_select_tile(&mut state, &audio, 143);
    assert!(muted.sounds.is_empty());
}

#[test]
fn saving_and_restoring_gives_the_game_back() {
    let mut state = new_game_for_level(10, 77).unwrap();
    // Play one pair that is free and matching.
    let pairs = state.board.valid_pairs();
    let (a, b) = pairs[0];
    select_tile(&mut state, a);
    select_tile(&mut state, b);
    let saved = capture_saved_game(&state, 4321, &progress());
    assert_eq!(saved.elapsed_ms, 4321);
    assert_eq!(saved.level, 7);
    assert_eq!(saved.difficulty, "normal");
    assert_eq!(saved.undo_stack, vec![(a, state.undo_stack[0].tile_a.face_id, b, state.undo_stack[0].tile_b.face_id)]);

    let (restored, carried) = restore_game_state(&saved).expect("a captured game restores");
    assert_eq!(restored.board.tiles, state.board.tiles);
    assert_eq!(restored.undo_stack, state.undo_stack);
    assert_eq!(restored.timer.elapsed_ms, 4321);
    assert!(!restored.timer.running);
    assert_eq!(restored.shuffles_remaining, state.shuffles_remaining);
    assert_eq!(carried, progress());
}

#[test]
fn unusable_saves_are_refused() {
    let state = two_tile_state(3, 3);
    let mut saved = capture_saved_game(&state, 0, &progress());
    saved.shuffles_remaining = 256;
    assert!(restore_game_state(&saved).is_none());
    saved.shuffles_remaining = 2;
    saved.tiles.pop();
    assert!(restore_game_state(&saved).is_none());
}

#[test]
fn a_stopped_timer_is_saved_as_is() {
    let mut state = two_tile_state(3, 3);
    state.timer.elapsed_ms = 5555;
    let saved = save_current_game(&state, &progress());
    assert_eq!(saved.elapsed_ms, 5555);
    state.timer.start();
    let running = save_current_game(&state, &progress());
    assert!(running.elapsed_ms >= 5555);
}

#[test]
fn difficulty_names() {
    assert_eq!(difficulty_name(Difficulty::Easy), "easy");
    assert_eq!(difficulty_name(Difficulty::Normal), "normal");
    assert_eq!(difficulty_from_name("normal"), Difficulty::Normal);
    assert_eq!(difficulty_from_name("easy"), Difficulty::Easy);
    assert_eq!(difficulty_from_name("Normal"), Difficulty::Easy);
    assert_eq!(difficulty_from_name(""), Difficulty::Easy);
}

#[test]
fn pausing_and_resuming_keep_the_time() {
    let mut state = two_tile_state(1, 1);
    state.timer.elapsed_ms = 1200;
    xmahjong::session::pause_game(&mut state);
    assert_eq!(state.status, GameStatus::Paused);
    assert!(!state.timer.running);
    assert_eq!(state.timer.elapsed_ms, 1200);
    xmahjong::session::resume_game(&mut state);
    assert_eq!(state.status, GameStatus::Playing);
    assert!(state.timer.running);
    assert_eq!(state.timer.elapsed_ms, 1200);
}

#[test]
fn the_next_level_carries_the_totals() {
    let mut state = two_tile_state(4, 4);
    state.timer.elapsed_ms = 60_000;
    state.score.hints_used = 2;
    state.score.shuffles_used = 1;
    state.shuffles_remaining = 0;
    let p = progress();
    let (next, carried) = xmahjong::session::next_level(&state, &p, 500).unwrap();
    assert_eq!(carried.level, 8);
    assert_eq!(carried.base_score, 1734);
    assert_eq!(carried.base_time_ms, 158_765);
    assert_eq!(carried.base_hints, 4);
    assert_eq!(carried.base_shuffles, 2);
    assert_eq!(carried.base_undos, 7);
    assert_eq!(carried.undos_used, 0);
    assert_eq!(carried.pairs_matched, 0);
    assert_eq!(carried.difficulty, Difficulty::Normal);
    assert_eq!(next.shuffles_remaining, 1);
    assert_eq!(next.board.remaining_count(), xmahjong::levels::tiles_for_level(8));
}

#[test]
fn leaderboard_records_hold_session_totals() {
    let mut state = two_tile_state(4, 4);
    state.score.hints_used = 1;
    let mut entry = xmahjong::game_state::NameEntryState::new(777, 95);
    entry.push_char('K');
    let record = xmahjong::session::leaderboard_entry_for(&entry, &state, &progress(), "2024-06-01".to_string(), 3);
    assert_eq!(record.name, "K");
    assert_eq!(record.score, 777);
    assert_eq!(record.time_seconds, 95);
    assert_eq!(record.hints_used, 3);
    assert_eq!(record.shuffles_used, 1);
    assert_eq!(record.undos_used, 7);
    assert_eq!(record.difficulty, "normal");
    assert_eq!(record.date, "2024-06-01");
    assert_eq!(record.consecutive_days, 3);
}

#[test]
fn equal_seeds_deal_equal_games() {
    for level in [1u32, 10, 12] {
        let a = new_game_for_level(level, 4242).unwrap();
        let b = new_game_for_level(level, 4242).unwrap();
        let faces_a: Vec<Option<u8>> = a.board.tiles.iter().map(|t| t.map(|t| t.face_id)).collect();
        let faces_b: Vec<Option<u8>> = b.board.tiles.iter().map(|t| t.map(|t| t.face_id)).collect();
        assert_eq!(faces_a, faces_b);
    }
}
