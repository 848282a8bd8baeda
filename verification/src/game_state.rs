//! The central game state, the game status, score tracking, name entry and
//! the hint and animation records.

use std::time::Instant;
use vstd::prelude::*;

use crate::board::Board;
use crate::logic::UndoEntry;
use crate::text::{pop_char, push_char};
use crate::timer::GameTimer;

verus! {

/// Everything that describes the current game session.
pub struct GameState {
    /// The board with tile positions and occupancy.
    pub board: Board,
    /// Elapsed time tracker with pause support.
    pub timer: GameTimer,
    /// Score statistics (hints, shuffles, time).
    pub score: ScoreTracker,
    /// Current game phase.
    pub status: GameStatus,
    /// Currently selected tile position, if any.
    pub selection: Option<usize>,
    /// Active hint highlight, if any.
    pub hint: Option<HintState>,
    /// Matches that can be undone, oldest first (kept to at most 10 by play).
    pub undo_stack: Vec<UndoEntry>,
    /// Number of shuffles remaining.
    pub shuffles_remaining: u8,
    /// Animations being played.
    pub animations: Vec<Animation>,
}

impl GameState {
    /// `self` and `other` hold the same values, Vec fields compared by contents.
    pub open spec fn same_as(&self, other: &GameState) -> bool {
        &&& self.board.tiles@ == other.board.tiles@
        &&& self.board.layout == other.board.layout
        &&& self.timer == other.timer
        &&& self.score == other.score
        &&& self.status == other.status
        &&& self.selection == other.selection
        &&& self.hint == other.hint
        &&& self.undo_stack@ == other.undo_stack@
        &&& self.shuffles_remaining == other.shuffles_remaining
        &&& self.animations@ == other.animations@
    }
}

/// The phase of the game.
#[derive(Debug, Clone, Copy, PartialEq, Eq)]
pub enum GameStatus {
    /// Being played.
    Playing,
    /// Paused: timer stopped, input disabled.
    Paused,
    /// All tiles cleared.
    Won,
    /// No valid moves remain.
    Lost,
    /// The main menu is shown.
    Menu,
    /// The player is entering a name for the leaderboard.
    NameEntry,
}

/// Score-relevant statistics of the current game.
#[derive(Debug, Clone, Copy, PartialEq, Eq)]
pub struct ScoreTracker {
    /// Hints used this game.
    pub hints_used: u32,
    /// Shuffles used this game.
    pub shuffles_used: u32,
    /// Elapsed seconds at completion.
    pub elapsed_seconds: u32,
}

/// The final score: `max(0, 1000 - elapsed_seconds - 50 * hints_used - 100 * shuffles_used)`.
pub open spec fn score_formula(elapsed_seconds: int, hints_used: int, shuffles_used: int) -> int {
    let raw = 1000 - elapsed_seconds - 50 * hints_used - 100 * shuffles_used;
    if raw < 0 { 0 } else { raw }
}

impl ScoreTracker {
    /// A tracker with all statistics at zero.
    pub fn new() -> (t: Self)
        ensures
            t.hints_used == 0,
            t.shuffles_used == 0,
            t.elapsed_seconds == 0,
    {
        ScoreTracker { hints_used: 0, shuffles_used: 0, elapsed_seconds: 0 }
    }

    /// The score by `score_formula`. The penalty sum must fit in `u32`.
    pub fn calculate_score(&self) -> (s: u32)
        requires
            self.elapsed_seconds + 50 * self.hints_used + 100 * self.shuffles_used <= u32::MAX,
        ensures
            s == score_formula(self.elapsed_seconds as int, self.hints_used as int, self.shuffles_used as int),
    {
        let penalty = self.elapsed_seconds + self.hints_used * 50 + self.shuffles_used * 100;
        1000u32.saturating_sub(penalty)
    }
}

impl Default for ScoreTracker {
    fn default() -> (t: Self)
        ensures
            t.hints_used == 0,
            t.shuffles_used == 0,
            t.elapsed_seconds == 0,
    {
        Self::new()
    }
}

/// Longest name the leaderboard accepts, in characters.
pub const MAX_NAME_CHARS: usize = 20;

/// State of the leaderboard name entry.
#[derive(Debug, Clone, PartialEq, Eq)]
pub struct NameEntryState {
    /// Characters typed so far.
    pub text: String,
    /// The score that qualified.
    pub score: u32,
    /// The elapsed time in seconds at completion.
    pub time_seconds: u32,
}

impl NameEntryState {
    /// An empty name for the given score and time.
    pub fn new(score: u32, time_seconds: u32) -> (e: Self)
        ensures
            e.text@ == Seq::<char>::empty(),
            e.score == score,
            e.time_seconds == time_seconds,
    {
        NameEntryState { text: String::new(), score, time_seconds }
    }

    /// Appends `c` unless the name already has 20 characters; says whether it did.
    pub fn push_char(&mut self, c: char) -> (added: bool)
        ensures
            added == (old(self).text@.len() < 20),
            added ==> final(self).text@ == old(self).text@.push(c),
            !added ==> final(self).text@ == old(self).text@,
            final(self).score == old(self).score,
            final(self).time_seconds == old(self).time_seconds,
    {
        if self.text.as_str().unicode_len() < MAX_NAME_CHARS {
            push_char(&mut self.text, c);
            true
        } else {
            false
        }
    }

    /// Removes the last character; says whether there was one.
    pub fn pop_char(&mut self) -> (removed: bool)
        ensures
            removed == (old(self).text@.len() > 0),
            removed ==> final(self).text@ == old(self).text@.drop_last(),
            !removed ==> final(self).text@ == old(self).text@,
            final(self).score == old(self).score,
            final(self).time_seconds == old(self).time_seconds,
    {
        pop_char(&mut self.text).is_some()
    }

    /// The name has between 1 and 20 characters.
    pub fn is_valid(&self) -> (ok: bool)
        ensures
            ok == (1 <= self.text@.len() <= 20),
    {
        let len = self.text.as_str().unicode_len();
        1 <= len && len <= MAX_NAME_CHARS
    }
}

/// An active hint highlight.
#[derive(Debug, Clone, Copy, PartialEq, Eq)]
pub struct HintState {
    /// First position of the hinted pair.
    pub position_a: usize,
    /// Second position of the hinted pair.
    pub position_b: usize,
    /// When the hint was shown (it is dismissed after a while).
    pub activated_at: Instant,
}

/// Animations that can be playing on the board.
#[derive(Debug, Clone, Copy, PartialEq, Eq)]
pub enum Animation {
    /// Fade-out of a matched pair.
    TileRemoval { positions: (usize, usize), start_time: Instant, duration_ms: u32 },
    /// Red flash of a mismatched pair.
    TileMismatch { positions: (usize, usize), start_time: Instant, duration_ms: u32 },
    /// Pulsing glow on hinted tiles.
    HintPulse { positions: (usize, usize), start_time: Instant },
    /// Tiles being rearranged.
    Shuffle { start_time: Instant, duration_ms: u32 },
}

} // verus!
