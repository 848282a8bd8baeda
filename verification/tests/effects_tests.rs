use std::time::Instant;
use xmahjong::board::{turtle_layout, Board};
use xmahjong::effects::{
    expire_animations, get_shuffle_progress, highlight_for, retain_live, shuffle_progress_for, TileHighlight,
};
use xmahjong::game_state::{Animation, GameState, GameStatus, HintState, ScoreTracker};
use xmahjong::timer::GameTimer;

fn state_with(animations: Vec<Animation>) -> GameState {
    let layout = turtle_layout();
    GameState {
        board: Board::new(&layout),
        timer: GameTimer::new(),
        score: ScoreTracker::new(),
        status: GameStatus::Playing,
        selection: None,
        hint: None,
        undo_stack: Vec::new(),
        shuffles_remaining: 1,
        animations,
    }
}

#[test]
fn live_animations_are_those_within_their_time() {
    let t = Instant::now();
    let anims = vec![
        Animation::TileRemoval { positions: (1, 2), start_time: t, duration_ms: 300 },
        Animation::TileMismatch { positions: (3, 4), start_time: t, duration_ms: 500 },
        Animation::HintPulse { positions: (5, 6), start_time: t },
        Animation::Shuffle { start_time: t, duration_ms: 500 },
    ];
    let ages = vec![(299, 0), (500, 0), (2999, 2), (600, 0)];
    let live = retain_live(&anims, &ages);
    assert_eq!(live, vec![anims[0], anims[2]]);
    let later = vec![(300, 0), (10, 0), (3000, 3), (499, 0)];
    assert_eq!(retain_live(&anims, &later), vec![anims[1], anims[3]]);
}

#[test]
fn fresh_animations_survive_expiry() {
    let t = Instant::now();
    let mut state = state_with(vec![
        Animation::Shuffle { start_time: t, duration_ms: 60_000 },
        Animation::TileRemoval { positions: (0, 1), start_time: t, duration_ms: 0 },
    ]);
    expire_animations(&mut state);
    assert_eq!(state.animations.len(), 1);
    assert!(matches!(state.animations[0], Animation::Shuffle { .. }));
}

#[test]
fn the_first_animation_on_a_tile_decides_its_highlight() {
    let t = Instant::now();
    let mut state = state_with(vec![
        Animation::TileMismatch { positions: (3, 4), start_time: t, duration_ms: 500 },
        Animation::TileRemoval { positions: (4, 7), start_time: t, duration_ms: 300 },
        Animation::HintPulse { positions: (8, 9), start_time: t },
    ]);
    state.selection = Some(10);
    state.hint = Some(HintState { position_a: 11, position_b: 12, activated_at: t });
    let ages = vec![100, 120, 2345];
    assert_eq!(highlight_for(&state, 4, &ages, 0), TileHighlight::MismatchFlash);
    assert_eq!(highlight_for(&state, 7, &ages, 0), TileHighlight::Removing { elapsed_ms: 120, duration_ms: 300 });
    assert_eq!(highlight_for(&state, 9, &ages, 0), TileHighlight::HintGlow { phase_ms: 345 });
    assert_eq!(highlight_for(&state, 12, &ages, 1750), TileHighlight::HintGlow { phase_ms: 750 });
    assert_eq!(highlight_for(&state, 10, &ages, 0), TileHighlight::Selected);
    assert_eq!(highlight_for(&state, 0, &ages, 0), TileHighlight::Plain);
    // A mismatch flash that has run its course gives way to what follows.
    let old = vec![900, 120, 0];
    assert_eq!(highlight_for(&state, 4, &old, 0), TileHighlight::Removing { elapsed_ms: 120, duration_ms: 300 });
    assert_eq!(highlight_for(&state, 3, &old, 0), TileHighlight::Plain);
}

#[test]
fn shuffle_progress_reports_the_running_shuffle() {
    let t = Instant::now();
    let state = state_with(vec![
        Animation::HintPulse { positions: (1, 2), start_time: t },
        Animation::Shuffle { start_time: t, duration_ms: 500 },
    ]);
    assert_eq!(shuffle_progress_for(&state, &vec![10, 250]), Some((250, 500)));
    assert_eq!(shuffle_progress_for(&state, &vec![10, 500]), None);
    let fresh = state_with(vec![Animation::Shuffle { start_time: Instant::now(), duration_ms: 60_000 }]);
    let progress = get_shuffle_progress(&fresh, &Instant::now());
    assert!(matches!(progress, Some((_, 60_000))));
}
