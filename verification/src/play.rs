//! The decisions of play around the board: a hint that finds no pair ends the
//! game as lost (over, once no shuffle is left), a shuffle out of a lost game
//! resumes it, a win or a game that is over leads to name entry, the timer
//! counts only during play, the hint fades after a while, a hint is suggested
//! after a minute without an action, and an unfinished game is kept on exit.

use vstd::prelude::*;

use crate::board::{count_occupied, pair_before};
use crate::clock::seconds_since;
use crate::effects::{expire_animations, live_animations, HINT_DISMISS_SECS};
use crate::game_state::{GameState, GameStatus, NameEntryState};
use crate::logic::{every_rearrangement_pairs, request_hint, shuffle, HintResult, ShuffleError};
use crate::session::{resume_game, with_clock_of, SessionProgress};
use crate::storage::Leaderboard;
use crate::timer::add_capped;

verus! {

/// Asks for a hint during play. When no pair can be removed the game is lost:
/// while a shuffle remains only the status changes; with none left the game is
/// over, so the timer also stops and the elapsed seconds are recorded.
/// Otherwise the first removable pair is highlighted and counted, as
/// `request_hint` does.
pub fn hint_or_lose(state: &mut GameState) -> (result: HintResult)
    requires
        old(state).board.wf(),
        old(state).board.has_pair() ==> old(state).score.hints_used < u32::MAX,
    ensures
        !old(state).board.has_pair() ==> result == HintResult::NoMatchesAvailable,
        !old(state).board.has_pair() && old(state).shuffles_remaining > 0
            ==> *final(state) == (GameState { status: GameStatus::Lost, ..*old(state) }),
        !old(state).board.has_pair() && old(state).shuffles_remaining == 0 ==> {
            &&& with_clock_of(*final(state), *old(state)) == *old(state)
            &&& final(state).status == GameStatus::Lost
            &&& !final(state).timer.running
            &&& old(state).timer.running && old(state).timer.last_tick is Some ==> exists|segment: u64|
                final(state).timer.elapsed_ms == #[trigger] add_capped(old(state).timer.elapsed_ms, segment)
            &&& !(old(state).timer.running && old(state).timer.last_tick is Some)
                ==> final(state).timer.elapsed_ms == old(state).timer.elapsed_ms
            &&& final(state).score.hints_used == old(state).score.hints_used
            &&& final(state).score.shuffles_used == old(state).score.shuffles_used
            &&& final(state).score.elapsed_seconds == (final(state).timer.elapsed_ms / 1000) as u32
        },
        old(state).board.has_pair() ==> {
            &&& result matches HintResult::Found(a, b) && {
                &&& old(state).board.is_match(a as int, b as int)
                &&& forall|c: int, d: int| old(state).board.is_match(c, d) ==> !pair_before((c as usize, d as usize), (a, b))
                &&& final(state).hint matches Some(h) && h.position_a == a && h.position_b == b
            }
            &&& final(state).score.hints_used == old(state).score.hints_used + 1
            &&& final(state).score.shuffles_used == old(state).score.shuffles_used
            &&& final(state).score.elapsed_seconds == old(state).score.elapsed_seconds
            &&& final(state).board == old(state).board
            &&& final(state).selection == old(state).selection
            &&& final(state).undo_stack == old(state).undo_stack
            &&& final(state).timer == old(state).timer
            &&& final(state).status == old(state).status
            &&& final(state).shuffles_remaining == old(state).shuffles_remaining
            &&& final(state).animations == old(state).animations
        },
{
    let result = request_hint(state);
    if let HintResult::NoMatchesAvailable = result {
        if state.shuffles_remaining == 0 {
            let ghost before = *state;
            state.timer.pause();
            state.score.elapsed_seconds = state.timer.elapsed_seconds();
            assert(with_clock_of(*state, before) == before);
        }
        state.status = GameStatus::Lost;
    }
    result
}

/// Shuffles the remaining tiles. Out of a lost game that still has a shuffle,
/// play resumes whatever the shuffle gives; otherwise the status and timer
/// stay as they were.
pub fn shuffle_and_resume(state: &mut GameState) -> (result: Result<(), ShuffleError>)
    requires
        old(state).board.wf(),
        old(state).shuffles_remaining > 0 ==> old(state).score.shuffles_used < u32::MAX,
    ensures
        old(state).shuffles_remaining == 0 <==> result == Err::<(), ShuffleError>(ShuffleError::NoShufflesRemaining),
        old(state).shuffles_remaining == 0 ==> *final(state) == *old(state),
        old(state).shuffles_remaining > 0 && every_rearrangement_pairs(*old(state).board.layout, old(state).board.tiles@)
            ==> result == Ok::<(), ShuffleError>(()),
        old(state).shuffles_remaining > 0 ==> {
            &&& final(state).board.layout == old(state).board.layout
            &&& final(state).score.hints_used == old(state).score.hints_used
            &&& final(state).score.elapsed_seconds == old(state).score.elapsed_seconds
            &&& final(state).timer.elapsed_ms == old(state).timer.elapsed_ms
        },
        old(state).status == GameStatus::Lost && old(state).shuffles_remaining > 0
            ==> final(state).status == GameStatus::Playing && final(state).timer.running,
        !(old(state).status == GameStatus::Lost && old(state).shuffles_remaining > 0)
            ==> final(state).status == old(state).status && final(state).timer == old(state).timer,
        result == Ok::<(), ShuffleError>(()) ==> {
            &&& final(state).board.has_pair()
            &&& final(state).shuffles_remaining == old(state).shuffles_remaining - 1
            &&& final(state).score.shuffles_used == old(state).score.shuffles_used + 1
            &&& final(state).undo_stack@.len() == 0
            &&& final(state).selection is None
        },
        result == Err::<(), ShuffleError>(ShuffleError::NoValidArrangement) ==> {
            &&& !final(state).board.has_pair()
            &&& final(state).shuffles_remaining == old(state).shuffles_remaining
            &&& final(state).score == old(state).score
        },
{
    let resume = match state.status {
        GameStatus::Lost => state.shuffles_remaining > 0,
        _ => false,
    };
    let result = shuffle(state);
    if resume {
        resume_game(state);
    }
    result
}

/// After the level's last pair, or once the game is over: the entry to fill
/// in for the session's total score, `base_score + level_score`, and its total
/// time in whole seconds; the game moves to name entry.
pub fn enter_name_for_session(state: &mut GameState, progress: &SessionProgress, level_score: u32) -> (entry: NameEntryState)
    requires
        progress.base_score + level_score <= u32::MAX,
        progress.base_time_ms + old(state).timer.elapsed_ms <= u64::MAX,
    ensures
        entry.text@.len() == 0,
        entry.score == progress.base_score + level_score,
        entry.time_seconds == ((progress.base_time_ms + old(state).timer.elapsed_ms) / 1000) as u32,
        *final(state) == (GameState { status: GameStatus::NameEntry, ..*old(state) }),
{
    let total_ms = progress.base_time_ms + state.timer.elapsed_ms;
    let entry = NameEntryState::new(progress.base_score + level_score, (total_ms / 1000) as u32);
    state.status = GameStatus::NameEntry;
    entry
}

/// After the last pair of a level is removed, with `level_score` the level's
/// score: when the session's total score, `base_score + level_score`, earns a
/// place on `leaderboard` (every score does), the game moves to name entry and
/// the entry to fill in is returned, holding that total and the session's
/// total time in whole seconds.
pub fn enter_name_if_qualifies(
    state: &mut GameState,
    leaderboard: &Leaderboard,
    progress: &SessionProgress,
    level_score: u32,
) -> (entry: Option<NameEntryState>)
    requires
        progress.base_score + level_score <= u32::MAX,
        progress.base_time_ms + old(state).timer.elapsed_ms <= u64::MAX,
    ensures
        entry matches Some(e) ==> {
            &&& e.text@.len() == 0
            &&& e.score == progress.base_score + level_score
            &&& e.time_seconds == ((progress.base_time_ms + old(state).timer.elapsed_ms) / 1000) as u32
            &&& *final(state) == (GameState { status: GameStatus::NameEntry, ..*old(state) })
        },
        entry is Some,
{
    if leaderboard.qualifies(progress.base_score + level_score) {
        Some(enter_name_for_session(state, progress, level_score))
    } else {
        None
    }
}

/// Leaves name entry without storing a name: back to the won level, or, when
/// the entry was for a game that is over, back to that game.
pub fn close_name_entry(state: &mut GameState, after_game_over: bool)
    ensures
        *final(state) == (GameState { status: if after_game_over { GameStatus::Lost } else { GameStatus::Won }, ..*old(state) }),
{
    state.status = if after_game_over { GameStatus::Lost } else { GameStatus::Won };
}

/// `state` after its hint, if it has one, has been shown for `age_secs` whole
/// seconds: without the hint from `HINT_DISMISS_SECS` seconds on.
pub open spec fn dismissed_after(state: GameState, age_secs: u64) -> GameState {
    if state.hint is Some && age_secs >= HINT_DISMISS_SECS { GameState { hint: None, ..state } } else { state }
}

/// Clears the hint once it has been shown for `HINT_DISMISS_SECS` whole
/// seconds, given its age in whole seconds; nothing else changes.
pub fn dismiss_hint_after(state: &mut GameState, hint_age_secs: u64)
    ensures
        old(state).hint is Some && hint_age_secs >= HINT_DISMISS_SECS
            ==> *final(state) == (GameState { hint: None, ..*old(state) }),
        !(old(state).hint is Some && hint_age_secs >= HINT_DISMISS_SECS) ==> *final(state) == *old(state),
{
    if state.hint.is_some() && hint_age_secs >= HINT_DISMISS_SECS {
        state.hint = None;
    }
}

/// Clears the hint when it has been shown for `HINT_DISMISS_SECS` whole
/// seconds by the clock: `dismiss_hint_after` with the hint's age in whole
/// seconds as the clock reads it. Which age that is depends on the clock;
/// nothing but the hint can change, and the hint can only go.
pub fn dismiss_expired_hint(state: &mut GameState)
    ensures
        *final(state) == *old(state) || *final(state) == (GameState { hint: None, ..*old(state) }),
        exists|age_secs: u64| #[trigger] dismissed_after(*old(state), age_secs) == *final(state),
{
    let age_secs = match &state.hint {
        Some(h) => seconds_since(&h.activated_at),
        None => 0,
    };
    let ghost before = *state;
    dismiss_hint_after(state, age_secs);
    assert(dismissed_after(before, age_secs) == *state);
}

/// Advances the clocks of one frame: the timer counts only while the game is
/// being played, finished animations go (those `live_animations` keeps for
/// the ages read stay, in order), and an expired hint fades. The
/// board, score, status, selection, undo history and shuffles stay.
pub fn advance_clocks(state: &mut GameState)
    ensures
        final(state).board == old(state).board,
        final(state).score == old(state).score,
        final(state).status == old(state).status,
        final(state).selection == old(state).selection,
        final(state).undo_stack == old(state).undo_stack,
        final(state).shuffles_remaining == old(state).shuffles_remaining,
        final(state).hint == old(state).hint || final(state).hint is None,
        old(state).status != GameStatus::Playing ==> final(state).timer == old(state).timer,
        final(state).timer.running == old(state).timer.running,
        old(state).status == GameStatus::Playing && old(state).timer.running && old(state).timer.last_tick is Some ==> exists|segment: u64|
            final(state).timer.elapsed_ms == #[trigger] add_capped(old(state).timer.elapsed_ms, segment),
        !(old(state).timer.running && old(state).timer.last_tick is Some) ==> final(state).timer == old(state).timer,
        exists|ages: Seq<(u32, u64)>|
            ages.len() == old(state).animations@.len()
            && #[trigger] live_animations(old(state).animations@, ages) == final(state).animations@,
{
    if let GameStatus::Playing = state.status {
        state.timer.update();
    }
    expire_animations(state);
    dismiss_expired_hint(state);
}

/// Seconds without an action during play after which a hint is suggested.
pub const INACTIVITY_HINT_SECS: u64 = 60;

/// Whether the hint suggestion shows, given whether it shows already and the
/// whole seconds since the player's last action during play: once shown it
/// stays until the next action; otherwise it appears after
/// `INACTIVITY_HINT_SECS` seconds.
pub fn hint_suggestion_shown(showing: bool, idle_secs: u64) -> (shown: bool)
    ensures
        shown == (showing || idle_secs >= INACTIVITY_HINT_SECS),
{
    showing || idle_secs >= INACTIVITY_HINT_SECS
}

/// Whether the game is kept for the next start when the program ends: never
/// in developer mode; otherwise when it is unfinished (being played, paused
/// or lost) and tiles remain on the board.
pub fn should_save_on_exit(state: &GameState, dev: bool) -> (save: bool)
    ensures
        save == (!dev
            && (state.status == GameStatus::Playing || state.status == GameStatus::Paused || state.status == GameStatus::Lost)
            && count_occupied(state.board.tiles@) > 0),
{
    let unfinished = match state.status {
        GameStatus::Playing | GameStatus::Paused | GameStatus::Lost => true,
        _ => false,
    };
    !dev && unfinished && state.board.remaining_count() > 0
}

} // verus!
