//! A game session: starting a game at a level, applying a click on a tile,
//! keeping animations while they last, and moving a game in and out of a
//! save record.

use vstd::prelude::*;

use crate::audio::{AudioManager, Sound};
use crate::board::{count_occupied, turtle_layout, turtle_positions_spec, Board, Layout, Tile, TilePosition};
use crate::clock::{millis_since, nanos_since_unix_epoch};
use crate::game_state::{GameState, GameStatus, NameEntryState, ScoreTracker};
use crate::generator::{default_attempts, dealt_with_default_faces, dealt_with_pool_faces, pool_attempts, BoardGenerator, GenerationError};
use crate::levels::{face_pool_for_level, level_face_pool, lemma_level_face_pools, lemma_level_tile_counts, level_tile_count, tiles_for_level};
use crate::logic::{check_game_over, select_tile, selection_step, selection_usable, GameOverReason, SelectionResult, UndoEntry};
use crate::storage::{LeaderboardEntry, SavedGame};
use crate::text::string_of;
use crate::timer::{add_capped, GameTimer};

verus! {

/// The difficulty chosen for a session.
#[derive(Debug, Clone, Copy, PartialEq, Eq)]
pub enum Difficulty {
    /// The default.
    Easy,
    /// The harder setting.
    Normal,
}

/// A fresh game on `board`: timer stopped at zero, nothing used, one shuffle left.
pub open spec fn fresh_game(state: GameState, board: Board) -> bool {
    &&& state.board == board
    &&& state.timer.elapsed_ms == 0 && !state.timer.running && state.timer.last_tick is None
    &&& state.score == ScoreTracker { hints_used: 0, shuffles_used: 0, elapsed_seconds: 0 }
    &&& state.status == GameStatus::Playing
    &&& state.selection is None
    &&& state.hint is None
    &&& state.undo_stack@.len() == 0
    &&& state.shuffles_remaining == 1
    &&& state.animations@.len() == 0
}

/// `board` was dealt for `level` on the Turtle layout: it comes with a removal
/// order that clears it, on the level's tile count; up to level 10 its faces
/// are distinct default faces, each on four tiles; from level 11 they are drawn
/// from the level's face pool, each on four tiles.
pub open spec fn dealt_for_level(board: Board, level: int) -> bool {
    &&& board.layout.positions@ == turtle_positions_spec()
    &&& board.layout.wf()
    &&& if level <= 10 {
        exists|order: Seq<(usize, usize)>| #[trigger] dealt_with_default_faces(*board.layout, board.tiles@, order, level_tile_count(level))
    } else {
        exists|order: Seq<(usize, usize)>| #[trigger] dealt_with_pool_faces(*board.layout, board.tiles@, order, level_tile_count(level), level_face_pool(level))
    }
}

/// The tiles a generator seeded with `seed` deals for `level` on `layout`, as
/// `new_game_for_level` asks for them; `None` when every attempt fails.
pub open spec fn level_deal(layout: Layout, level: int, seed: u64) -> Option<Seq<Option<Tile>>> {
    let tile_count = level_tile_count(level);
    if level <= 10 {
        if tile_count < 144 {
            default_attempts(layout, tile_count, seed, Seq::empty(), 10).0
        } else {
            default_attempts(layout, layout.positions.len() as int, seed, Seq::empty(), 5).0
        }
    } else {
        pool_attempts(layout, tile_count, level_face_pool(level), seed, Seq::empty(), 10).0
    }
}

/// A fresh game with a board dealt for `level` from a generator seeded with
/// `seed`. Levels up to 10 deal the default faces (the full board through the
/// plain generator, smaller boards through the tile-count generator); later
/// levels draw their faces from the level's pool. Fails when every attempt of
/// the generator fails.
pub fn new_game_for_level(level: u32, seed: u64) -> (r: Result<GameState, GenerationError>)
    requires
        level >= 1,
    ensures
        r matches Ok(state) ==> {
            &&& state.board.wf()
            &&& fresh_game(state, state.board)
            &&& count_occupied(state.board.tiles@) == level_tile_count(level as int)
            &&& dealt_for_level(state.board, level as int)
            &&& level_deal(*state.board.layout, level as int, seed) == Some(state.board.tiles@)
        },
        r matches Err(e) ==> e == GenerationError::MaxAttemptsExceeded,
{
    let layout = turtle_layout();
    let tile_count = tiles_for_level(level);
    let face_pool = face_pool_for_level(level);
    proof {
        lemma_level_tile_counts(level as int);
        lemma_level_face_pools(level as int);
        assert(layout.positions@.len() == 144);
    }
    let mut generator = BoardGenerator::new(seed);
    let generated = if level <= 10 {
        if tile_count < 144 {
            generator.generate_with_tile_count(&layout, tile_count, 10)
        } else {
            generator.generate(&layout, 5)
        }
    } else {
        generator.generate_with_faces(&layout, tile_count, face_pool.as_slice(), 10)
    };
    match generated {
        Ok(board) => Ok(GameState {
            board,
            timer: GameTimer::new(),
            score: ScoreTracker::new(),
            status: GameStatus::Playing,
            selection: None,
            hint: None,
            undo_stack: Vec::new(),
            shuffles_remaining: 1,
            animations: Vec::new(),
        }),
        Err(e) => Err(e),
    }
}

/// A fresh game for `level`, dealt by `new_game_for_level` from a generator
/// seeded with the nanoseconds since 1970-01-01 that the system clock reads:
/// its board is the deal `level_deal` gives for that seed.
pub fn create_new_game_state_for_level(level: u32) -> (r: Result<GameState, GenerationError>)
    requires
        level >= 1,
    ensures
        r matches Ok(state) ==> {
            &&& state.board.wf()
            &&& fresh_game(state, state.board)
            &&& count_occupied(state.board.tiles@) == level_tile_count(level as int)
            &&& dealt_for_level(state.board, level as int)
            &&& exists|seed: u64| #[trigger] level_deal(*state.board.layout, level as int, seed) == Some(state.board.tiles@)
        },
        r matches Err(e) ==> e == GenerationError::MaxAttemptsExceeded,
{
    new_game_for_level(level, nanos_since_unix_epoch())
}

/// What a click on a tile did: the outcome of the selection, whether it won
/// the game, and the sound effects to play, in order.
pub struct ClickOutcome {
    /// The outcome of the selection.
    pub result: SelectionResult,
    /// The click removed the last pair.
    pub won: bool,
    /// Sound effects to play, in order.
    pub sounds: Vec<Sound>,
}

/// `s` with the clock-related fields (timer, status, score) taken from `before`.
pub open spec fn with_clock_of(s: GameState, before: GameState) -> GameState {
    GameState { timer: before.timer, status: before.status, score: before.score, ..s }
}

/// The sounds `audio` plays for a selection outcome: the match effect for a
/// match (then the victory effect when it won), the error effect for a
/// mismatch, nothing otherwise.
pub open spec fn click_sounds(audio: AudioManager, result: SelectionResult, won: bool) -> Seq<Sound> {
    let one = |p: Option<Sound>| match p { Some(x) => seq![x], None => Seq::<Sound>::empty() };
    match result {
        SelectionResult::Matched(_, _) => one(audio.played(Sound::Match)) + if won { one(audio.played(Sound::Victory)) } else { Seq::empty() },
        SelectionResult::Mismatched(_, _) => one(audio.played(Sound::Error)),
        _ => Seq::empty(),
    }
}

fn push_played(sounds: &mut Vec<Sound>, played: Option<Sound>)
    ensures
        final(sounds)@ == old(sounds)@ + match played { Some(x) => seq![x], None => Seq::<Sound>::empty() },
{
    if let Some(x) = played {
        sounds.push(x);
    }
    assert(sounds@ =~= old(sounds)@ + match played { Some(x) => seq![x], None => Seq::<Sound>::empty() });
}

/// Applies a click on the tile at `pos`: selects it as `select_tile` does, and
/// when that removes the last pair, stops the timer, records the elapsed
/// seconds in the score and marks the game won.
pub fn handle_select_tile(state: &mut GameState, audio: &AudioManager, pos: usize) -> (outcome: ClickOutcome)
    requires
        old(state).board.wf(),
        pos < old(state).board.tiles.len(),
        selection_usable(old(state), pos as int),
    ensures
        final(state).board.wf(),
        outcome.won == (outcome.result is Matched && count_occupied(final(state).board.tiles@) == 0),
        !outcome.won ==> selection_step(old(state), final(state), pos, outcome.result),
        outcome.won ==> {
            &&& selection_step(old(state), &with_clock_of(*final(state), *old(state)), pos, outcome.result)
            &&& final(state).status == GameStatus::Won
            &&& !final(state).timer.running
            &&& old(state).timer.running && old(state).timer.last_tick is Some ==> exists|segment: u64|
                final(state).timer.elapsed_ms == #[trigger] add_capped(old(state).timer.elapsed_ms, segment)
            &&& !(old(state).timer.running && old(state).timer.last_tick is Some)
                ==> final(state).timer.elapsed_ms == old(state).timer.elapsed_ms
            &&& final(state).score.hints_used == old(state).score.hints_used
            &&& final(state).score.shuffles_used == old(state).score.shuffles_used
            &&& final(state).score.elapsed_seconds == (final(state).timer.elapsed_ms / 1000) as u32
        },
        outcome.sounds@ == click_sounds(*audio, outcome.result, outcome.won),
{
    let result = select_tile(state, pos);
    let mut sounds: Vec<Sound> = Vec::new();
    let mut won = false;
    match result {
        SelectionResult::Matched(_, _) => {
            push_played(&mut sounds, audio.play_match());
            let over = check_game_over(state);
            if let Some(GameOverReason::Won) = over {
                let ghost mid = *state;
                state.timer.pause();
                state.score.elapsed_seconds = state.timer.elapsed_seconds();
                state.status = GameStatus::Won;
                push_played(&mut sounds, audio.play_victory());
                won = true;
                assert(with_clock_of(*state, *old(state)) == mid);
            }
        },
        SelectionResult::Mismatched(_, _) => {
            push_played(&mut sounds, audio.play_error());
        },
        _ => {},
    }
    ClickOutcome { result, won, sounds }
}

/// What a session carries besides the game state: the level, the totals of
/// the levels before it, the undo and pair counts of this level, and the difficulty.
#[derive(Debug, Clone, Copy, PartialEq, Eq)]
pub struct SessionProgress {
    /// The current level.
    pub level: u32,
    /// Score accumulated over previous levels.
    pub base_score: u32,
    /// Milliseconds accumulated over previous levels.
    pub base_time_ms: u64,
    /// Hints used over previous levels.
    pub base_hints: u32,
    /// Shuffles used over previous levels.
    pub base_shuffles: u32,
    /// Undos used over previous levels.
    pub base_undos: u32,
    /// Undos used this level.
    pub undos_used: u32,
    /// Pairs matched this level.
    pub pairs_matched: u32,
    /// The difficulty.
    pub difficulty: Difficulty,
}

impl SessionProgress {
    /// Counts the outcome of a click: a removed pair adds one to the pairs
    /// matched this level; nothing else changes.
    pub fn count_selection(&mut self, result: SelectionResult)
        requires
            result is Matched ==> old(self).pairs_matched < u32::MAX,
        ensures
            result is Matched ==> *final(self) == (SessionProgress { pairs_matched: (old(self).pairs_matched + 1) as u32, ..*old(self) }),
            !(result is Matched) ==> *final(self) == *old(self),
    {
        if let SelectionResult::Matched(_, _) = result {
            self.pairs_matched = self.pairs_matched + 1;
        }
    }

    /// Counts an undo that took place this level; nothing else changes.
    pub fn count_undo(&mut self)
        requires
            old(self).undos_used < u32::MAX,
        ensures
            *final(self) == (SessionProgress { undos_used: (old(self).undos_used + 1) as u32, ..*old(self) }),
    {
        self.undos_used = self.undos_used + 1;
    }
}

/// The name a difficulty is stored under.
pub open spec fn difficulty_text(d: Difficulty) -> Seq<char> {
    match d {
        Difficulty::Easy => "easy"@,
        Difficulty::Normal => "normal"@,
    }
}

/// The stored name of a difficulty: "easy" or "normal".
pub fn difficulty_name(d: Difficulty) -> (name: String)
    ensures
        name@ == difficulty_text(d),
{
    match d {
        Difficulty::Easy => string_of("easy"),
        Difficulty::Normal => string_of("normal"),
    }
}

/// The difficulty stored as `name`: "normal" is `Normal`, anything else `Easy`.
pub fn difficulty_from_name(name: &str) -> (d: Difficulty)
    ensures
        d == if name@ == "normal"@ { Difficulty::Normal } else { Difficulty::Easy },
{
    proof { reveal_strlit("normal"); }
    let n = name.unicode_len();
    if n != 6 {
        proof {
            if name@ == "normal"@ {
                assert(name@.len() == 6);
            }
        }
        return Difficulty::Easy;
    }
    let is_normal = name.get_char(0) == 'n' && name.get_char(1) == 'o' && name.get_char(2) == 'r'
        && name.get_char(3) == 'm' && name.get_char(4) == 'a' && name.get_char(5) == 'l';
    if is_normal {
        assert(name@ =~= "normal"@);
        Difficulty::Normal
    } else {
        proof {
            if name@ == "normal"@ {
                assert(name@[0] == 'n' && name@[1] == 'o' && name@[2] == 'r' && name@[3] == 'm' && name@[4] == 'a' && name@[5] == 'l');
            }
        }
        Difficulty::Easy
    }
}

/// The stored form of a slot: the face of its tile, if any.
pub open spec fn face_record(t: Option<Tile>) -> Option<u8> {
    match t {
        Some(tile) => Some(tile.face_id),
        None => None,
    }
}

/// The stored form of an undo entry: (position a, face a, position b, face b).
pub open spec fn undo_record(e: UndoEntry) -> (usize, u8, usize, u8) {
    (e.position_a, e.tile_a.face_id, e.position_b, e.tile_b.face_id)
}

/// The slot `i` of a layout with `positions`, rebuilt from its stored face.
pub open spec fn tile_from_record(positions: Seq<TilePosition>, i: int, face: Option<u8>) -> Option<Tile> {
    match face {
        Some(f) => Some(Tile { face_id: f, position: positions[i] }),
        None => None,
    }
}

/// An undo entry rebuilt from its stored form on a layout with `positions`.
pub open spec fn undo_from_record(positions: Seq<TilePosition>, r: (usize, u8, usize, u8)) -> UndoEntry {
    UndoEntry {
        tile_a: Tile { face_id: r.1, position: positions[r.0 as int] },
        tile_b: Tile { face_id: r.3, position: positions[r.2 as int] },
        position_a: r.0,
        position_b: r.2,
    }
}

/// Each tile of `e` sits at the layout position that the entry names.
pub open spec fn undo_at_own_positions(positions: Seq<TilePosition>, e: UndoEntry) -> bool {
    &&& e.position_a < positions.len() && e.position_b < positions.len()
    &&& e.tile_a.position == positions[e.position_a as int]
    &&& e.tile_b.position == positions[e.position_b as int]
}

/// `saved` records `state` with `elapsed_ms` on the clock and the session's `progress`.
pub open spec fn is_record_of(saved: SavedGame, state: GameState, elapsed_ms: u64, progress: SessionProgress) -> bool {
    &&& saved.tiles@ == state.board.tiles@.map_values(|t: Option<Tile>| face_record(t))
    &&& saved.undo_stack@ == state.undo_stack@.map_values(|e: UndoEntry| undo_record(e))
    &&& saved.elapsed_ms == elapsed_ms
    &&& saved.hints_used == state.score.hints_used
    &&& saved.shuffles_used == state.score.shuffles_used
    &&& saved.shuffles_remaining == state.shuffles_remaining as u32
    &&& saved.pairs_matched == progress.pairs_matched
    &&& saved.undos_used == progress.undos_used
    &&& saved.level == progress.level
    &&& saved.base_score == progress.base_score
    &&& saved.base_time_ms == progress.base_time_ms
    &&& saved.base_hints == progress.base_hints
    &&& saved.base_shuffles == progress.base_shuffles
    &&& saved.base_undos == progress.base_undos
    &&& saved.difficulty@ == difficulty_text(progress.difficulty)
}

/// The save record of `state` with `elapsed_ms` on the clock and the session's `progress`.
pub fn capture_saved_game(state: &GameState, elapsed_ms: u64, progress: &SessionProgress) -> (saved: SavedGame)
    ensures
        is_record_of(saved, *state, elapsed_ms, *progress),
{
    let mut tiles: Vec<Option<u8>> = Vec::new();
    let mut i: usize = 0;
    while i < state.board.tiles.len()
        invariant
            i <= state.board.tiles.len(),
            tiles@ =~= state.board.tiles@.take(i as int).map_values(|t: Option<Tile>| face_record(t)),
        decreases state.board.tiles.len() - i,
    {
        let f = match state.board.tiles[i] {
            Some(t) => Some(t.face_id),
            None => None,
        };
        tiles.push(f);
        i = i + 1;
        assert(state.board.tiles@.take(i as int).map_values(|t: Option<Tile>| face_record(t))
            =~= state.board.tiles@.take(i - 1).map_values(|t: Option<Tile>| face_record(t)).push(f));
    }
    assert(state.board.tiles@.take(i as int) =~= state.board.tiles@);
    let mut undo: Vec<(usize, u8, usize, u8)> = Vec::new();
    let mut k: usize = 0;
    while k < state.undo_stack.len()
        invariant
            k <= state.undo_stack.len(),
            undo@ =~= state.undo_stack@.take(k as int).map_values(|e: UndoEntry| undo_record(e)),
        decreases state.undo_stack.len() - k,
    {
        let e = state.undo_stack[k];
        let r = (e.position_a, e.tile_a.face_id, e.position_b, e.tile_b.face_id);
        undo.push(r);
        k = k + 1;
        assert(state.undo_stack@.take(k as int).map_values(|e: UndoEntry| undo_record(e))
            =~= state.undo_stack@.take(k - 1).map_values(|e: UndoEntry| undo_record(e)).push(r));
    }
    assert(state.undo_stack@.take(k as int) =~= state.undo_stack@);
    SavedGame {
        tiles,
        undo_stack: undo,
        elapsed_ms,
        hints_used: state.score.hints_used,
        shuffles_used: state.score.shuffles_used,
        shuffles_remaining: state.shuffles_remaining as u32,
        pairs_matched: progress.pairs_matched,
        undos_used: progress.undos_used,
        level: progress.level,
        base_score: progress.base_score,
        base_time_ms: progress.base_time_ms,
        base_hints: progress.base_hints,
        base_shuffles: progress.base_shuffles,
        base_undos: progress.base_undos,
        difficulty: difficulty_name(progress.difficulty),
    }
}

/// The save record of the game now: the timer's time including its running
/// segment (read from the clock, the sum capped at `u64::MAX`).
pub fn save_current_game(state: &GameState, progress: &SessionProgress) -> (saved: SavedGame)
    ensures
        exists|segment: u64| #[trigger] is_record_of(saved, *state, add_capped(state.timer.elapsed_ms, segment), *progress),
        state.timer.last_tick is None ==> is_record_of(saved, *state, state.timer.elapsed_ms, *progress),
{
    let segment = match &state.timer.last_tick {
        Some(t) => millis_since(t),
        None => 0,
    };
    let elapsed = state.timer.elapsed_ms.saturating_add(segment);
    assert(elapsed == add_capped(state.timer.elapsed_ms, segment));
    capture_saved_game(state, elapsed, progress)
}

/// Rebuilds a game from its save record on the Turtle layout: tiles and undo
/// entries at the layout positions they name, the timer stopped at the saved
/// time, the saved counters, nothing selected, hinted or animating, and the
/// session's level, totals and difficulty. A record whose tile count does not
/// match the layout gives `None`, and so does one with more than 255 shuffles
/// left, which the game state cannot hold.
pub fn restore_game_state(saved: &SavedGame) -> (r: Option<(GameState, SessionProgress)>)
    requires
        saved.tiles@.len() == turtle_positions_spec().len() ==> forall|k: int| 0 <= k < saved.undo_stack@.len() ==> {
            &&& (#[trigger] saved.undo_stack@[k]).0 < turtle_positions_spec().len()
            &&& saved.undo_stack@[k].2 < turtle_positions_spec().len()
        },
    ensures
        r is None <==> (saved.tiles@.len() != turtle_positions_spec().len() || saved.shuffles_remaining > 255),
        r matches Some((state, progress)) ==> {
            let positions = turtle_positions_spec();
            &&& state.board.wf()
            &&& state.board.layout.positions@ == positions
            &&& state.board.tiles@ == Seq::new(positions.len(), |i: int| tile_from_record(positions, i, saved.tiles@[i]))
            &&& state.undo_stack@ == saved.undo_stack@.map_values(|rec: (usize, u8, usize, u8)| undo_from_record(positions, rec))
            &&& state.timer.elapsed_ms == saved.elapsed_ms && !state.timer.running && state.timer.last_tick is None
            &&& state.score == ScoreTracker { hints_used: saved.hints_used, shuffles_used: saved.shuffles_used, elapsed_seconds: 0 }
            &&& state.status == GameStatus::Playing
            &&& state.selection is None && state.hint is None
            &&& state.shuffles_remaining as u32 == saved.shuffles_remaining
            &&& state.animations@.len() == 0
            &&& progress.level == saved.level
            &&& progress.base_score == saved.base_score
            &&& progress.base_time_ms == saved.base_time_ms
            &&& progress.base_hints == saved.base_hints
            &&& progress.base_shuffles == saved.base_shuffles
            &&& progress.base_undos == saved.base_undos
            &&& progress.undos_used == saved.undos_used
            &&& progress.pairs_matched == saved.pairs_matched
            &&& progress.difficulty == if saved.difficulty@ == "normal"@ { Difficulty::Normal } else { Difficulty::Easy }
        },
{
    let layout = turtle_layout();
    let ghost positions = turtle_positions_spec();
    if saved.tiles.len() != layout.positions.len() {
        return None;
    }
    if saved.shuffles_remaining > 255 {
        return None;
    }
    let n = layout.positions.len();
    let mut tiles: Vec<Option<Tile>> = Vec::new();
    let mut i: usize = 0;
    while i < n
        invariant
            n == layout.positions@.len(),
            layout.positions@ == positions,
            saved.tiles@.len() == n,
            i <= n,
            tiles@ =~= Seq::new(i as nat, |j: int| tile_from_record(positions, j, saved.tiles@[j])),
        decreases n - i,
    {
        let t = match saved.tiles[i] {
            Some(f) => Some(Tile { face_id: f, position: layout.positions[i] }),
            None => None,
        };
        tiles.push(t);
        i = i + 1;
    }
    let mut undo_stack: Vec<UndoEntry> = Vec::new();
    let mut k: usize = 0;
    while k < saved.undo_stack.len()
        invariant
            n == layout.positions@.len(),
            layout.positions@ == positions,
            n == positions.len(),
            saved.tiles@.len() == positions.len(),
            forall|j: int| 0 <= j < saved.undo_stack@.len() ==> {
                &&& (#[trigger] saved.undo_stack@[j]).0 < positions.len()
                &&& saved.undo_stack@[j].2 < positions.len()
            },
            k <= saved.undo_stack.len(),
            undo_stack@ =~= saved.undo_stack@.take(k as int).map_values(|rec: (usize, u8, usize, u8)| undo_from_record(positions, rec)),
        decreases saved.undo_stack.len() - k,
    {
        let (pa, fa, pb, fb) = saved.undo_stack[k];
        let e = UndoEntry {
            tile_a: Tile { face_id: fa, position: layout.positions[pa] },
            tile_b: Tile { face_id: fb, position: layout.positions[pb] },
            position_a: pa,
            position_b: pb,
        };
        undo_stack.push(e);
        k = k + 1;
        assert(saved.undo_stack@.take(k as int).map_values(|rec: (usize, u8, usize, u8)| undo_from_record(positions, rec))
            =~= saved.undo_stack@.take(k - 1).map_values(|rec: (usize, u8, usize, u8)| undo_from_record(positions, rec)).push(e));
    }
    assert(saved.undo_stack@.take(k as int) =~= saved.undo_stack@);
    let mut timer = GameTimer::new();
    timer.elapsed_ms = saved.elapsed_ms;
    let state = GameState {
        board: Board { tiles, layout },
        timer,
        score: ScoreTracker { hints_used: saved.hints_used, shuffles_used: saved.shuffles_used, elapsed_seconds: 0 },
        status: GameStatus::Playing,
        selection: None,
        hint: None,
        undo_stack,
        shuffles_remaining: saved.shuffles_remaining as u8,
        animations: Vec::new(),
    };
    let progress = SessionProgress {
        level: saved.level,
        base_score: saved.base_score,
        base_time_ms: saved.base_time_ms,
        base_hints: saved.base_hints,
        base_shuffles: saved.base_shuffles,
        base_undos: saved.base_undos,
        undos_used: saved.undos_used,
        pairs_matched: saved.pairs_matched,
        difficulty: difficulty_from_name(saved.difficulty.as_str()),
    };
    Some((state, progress))
}

/// Saving a game and restoring it gives back its tiles and its undo stack,
/// when every tile and every undo entry sits at the layout position it names.
pub proof fn lemma_restore_after_capture(positions: Seq<TilePosition>, tiles: Seq<Option<Tile>>, stack: Seq<UndoEntry>)
    requires
        tiles.len() == positions.len(),
        forall|i: int| 0 <= i < tiles.len() && (#[trigger] tiles[i]) is Some ==> tiles[i].unwrap().position == positions[i],
        forall|k: int| 0 <= k < stack.len() ==> undo_at_own_positions(positions, #[trigger] stack[k]),
    ensures
        Seq::new(positions.len(), |i: int| tile_from_record(positions, i, tiles.map_values(|t: Option<Tile>| face_record(t))[i])) == tiles,
        stack.map_values(|e: UndoEntry| undo_record(e)).map_values(|rec: (usize, u8, usize, u8)| undo_from_record(positions, rec)) == stack,
{
    let rebuilt = Seq::new(positions.len(), |i: int| tile_from_record(positions, i, tiles.map_values(|t: Option<Tile>| face_record(t))[i]));
    assert forall|i: int| 0 <= i < tiles.len() implies rebuilt[i] == tiles[i] by {
        if tiles[i] is Some {
            let t = tiles[i].unwrap();
            assert(rebuilt[i] == Some(Tile { face_id: t.face_id, position: positions[i] }));
        }
    }
    assert(rebuilt =~= tiles);
    let back = stack.map_values(|e: UndoEntry| undo_record(e)).map_values(|rec: (usize, u8, usize, u8)| undo_from_record(positions, rec));
    assert forall|k: int| 0 <= k < stack.len() implies back[k] == stack[k] by {
        assert(undo_at_own_positions(positions, stack[k]));
    }
    assert(back =~= stack);
}

/// Pauses play: the timer stops and the game shows as paused.
pub fn pause_game(state: &mut GameState)
    ensures
        final(state).status == GameStatus::Paused,
        !final(state).timer.running,
        old(state).timer.running && old(state).timer.last_tick is Some ==> exists|segment: u64|
            final(state).timer.elapsed_ms == #[trigger] add_capped(old(state).timer.elapsed_ms, segment),
        !(old(state).timer.running && old(state).timer.last_tick is Some)
            ==> final(state).timer.elapsed_ms == old(state).timer.elapsed_ms,
        final(state).board == old(state).board,
        final(state).selection == old(state).selection,
        final(state).undo_stack == old(state).undo_stack,
        final(state).score == old(state).score,
        final(state).shuffles_remaining == old(state).shuffles_remaining,
{
    state.timer.pause();
    state.status = GameStatus::Paused;
}

/// Resumes play: the timer runs again from its accumulated time.
pub fn resume_game(state: &mut GameState)
    ensures
        final(state).status == GameStatus::Playing,
        final(state).timer.running,
        final(state).timer.elapsed_ms == old(state).timer.elapsed_ms,
        final(state).board == old(state).board,
        final(state).selection == old(state).selection,
        final(state).undo_stack == old(state).undo_stack,
        final(state).score == old(state).score,
        final(state).shuffles_remaining == old(state).shuffles_remaining,
{
    state.timer.resume();
    state.status = GameStatus::Playing;
}

/// The progress a session carries into the level after `p`'s: the level's
/// score, time, hints, shuffles and undos added to the totals, and this
/// level's own counters back at zero.
pub open spec fn carried_progress(p: SessionProgress, level_score: u32, level_time_ms: u64, hints: u32, shuffles: u32) -> SessionProgress {
    SessionProgress {
        level: (p.level + 1) as u32,
        base_score: (p.base_score + level_score) as u32,
        base_time_ms: (p.base_time_ms + level_time_ms) as u64,
        base_hints: (p.base_hints + hints) as u32,
        base_shuffles: (p.base_shuffles + shuffles) as u32,
        base_undos: (p.base_undos + p.undos_used) as u32,
        undos_used: 0,
        pairs_matched: 0,
        difficulty: p.difficulty,
    }
}

/// Goes on to the next level after winning `state`: a fresh game for the next
/// level holding one more shuffle than were left, and the totals carried over
/// (`carried_progress`, with the level's score `level_score`). Fails when the
/// generator fails.
pub fn next_level(state: &GameState, progress: &SessionProgress, level_score: u32)
    -> (r: Result<(GameState, SessionProgress), GenerationError>)
    requires
        1 <= progress.level < u32::MAX,
        progress.base_score + level_score <= u32::MAX,
        progress.base_time_ms + state.timer.elapsed_ms <= u64::MAX,
        progress.base_hints + state.score.hints_used <= u32::MAX,
        progress.base_shuffles + state.score.shuffles_used <= u32::MAX,
        progress.base_undos + progress.undos_used <= u32::MAX,
        state.shuffles_remaining < 255,
    ensures
        r matches Ok((next, carried)) ==> {
            &&& next.board.wf()
            &&& fresh_game(GameState { shuffles_remaining: 1, ..next }, next.board)
            &&& next.shuffles_remaining == state.shuffles_remaining + 1
            &&& count_occupied(next.board.tiles@) == level_tile_count(progress.level + 1)
            &&& dealt_for_level(next.board, progress.level + 1)
            &&& exists|seed: u64| #[trigger] level_deal(*next.board.layout, progress.level + 1, seed) == Some(next.board.tiles@)
            &&& carried == carried_progress(*progress, level_score, state.timer.elapsed_ms, state.score.hints_used, state.score.shuffles_used)
        },
        r matches Err(e) ==> e == GenerationError::MaxAttemptsExceeded,
{
    let carried = SessionProgress {
        level: progress.level + 1,
        base_score: progress.base_score + level_score,
        base_time_ms: progress.base_time_ms + state.timer.elapsed_ms,
        base_hints: progress.base_hints + state.score.hints_used,
        base_shuffles: progress.base_shuffles + state.score.shuffles_used,
        base_undos: progress.base_undos + progress.undos_used,
        undos_used: 0,
        pairs_matched: 0,
        difficulty: progress.difficulty,
    };
    match create_new_game_state_for_level(carried.level) {
        Ok(mut next) => {
            next.shuffles_remaining = state.shuffles_remaining + 1;
            Ok((next, carried))
        },
        Err(e) => Err(e),
    }
}

/// The leaderboard record of a finished session: the name entered, the score
/// and time of the entry, the session's totals of hints, shuffles and undos,
/// its difficulty, the date and the day streak.
pub fn leaderboard_entry_for(
    entry: &NameEntryState,
    state: &GameState,
    progress: &SessionProgress,
    date: String,
    consecutive_days: u32,
) -> (record: LeaderboardEntry)
    requires
        progress.base_hints + state.score.hints_used <= u32::MAX,
        progress.base_shuffles + state.score.shuffles_used <= u32::MAX,
        progress.base_undos + progress.undos_used <= u32::MAX,
    ensures
        record.name@ == entry.text@,
        record.score == entry.score,
        record.time_seconds == entry.time_seconds,
        record.hints_used == progress.base_hints + state.score.hints_used,
        record.shuffles_used == progress.base_shuffles + state.score.shuffles_used,
        record.undos_used == progress.base_undos + progress.undos_used,
        record.difficulty@ == difficulty_text(progress.difficulty),
        record.date@ == date@,
        record.consecutive_days == consecutive_days,
{
    LeaderboardEntry {
        name: string_of(entry.text.as_str()),
        score: entry.score,
        time_seconds: entry.time_seconds,
        hints_used: progress.base_hints + state.score.hints_used,
        shuffles_used: progress.base_shuffles + state.score.shuffles_used,
        undos_used: progress.base_undos + progress.undos_used,
        difficulty: difficulty_name(progress.difficulty),
        date,
        consecutive_days,
    }
}

} // verus!
