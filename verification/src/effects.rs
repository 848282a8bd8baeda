//! Animations over time: which are still playing, how each tile is
//! highlighted, and how far a shuffle has got. Ages are read from the clock
//! and passed in, so the decisions themselves are exact.

use std::time::Instant;
use vstd::prelude::*;

use crate::clock::{age_since, now};
use crate::game_state::{Animation, GameState, HintState};

verus! {

/// Seconds a hint stays shown.
pub const HINT_DISMISS_SECS: u64 = 3;

/// Milliseconds of one cycle of the hint glow.
pub const HINT_PULSE_CYCLE_MS: u32 = 1000;

/// Whether an animation `age_ms` milliseconds (`age_secs` whole seconds) old
/// still plays: a timed one until its duration has passed, a hint pulse for
/// `HINT_DISMISS_SECS` seconds.
pub open spec fn animation_live(a: Animation, age_ms: u32, age_secs: u64) -> bool {
    match a {
        Animation::TileRemoval { duration_ms, .. } => age_ms < duration_ms,
        Animation::TileMismatch { duration_ms, .. } => age_ms < duration_ms,
        Animation::HintPulse { .. } => age_secs < HINT_DISMISS_SECS,
        Animation::Shuffle { duration_ms, .. } => age_ms < duration_ms,
    }
}

/// The animations of `anims` that still play at the given ages, in order.
pub open spec fn live_animations(anims: Seq<Animation>, ages: Seq<(u32, u64)>) -> Seq<Animation>
    decreases anims.len(),
{
    if anims.len() == 0 {
        Seq::empty()
    } else {
        let i = anims.len() - 1;
        live_animations(anims.drop_last(), ages.take(i)) + if animation_live(anims[i], ages[i].0, ages[i].1) {
            seq![anims[i]]
        } else {
            Seq::empty()
        }
    }
}

/// The animations that still play, each paired with its age (milliseconds, seconds).
pub fn retain_live(anims: &Vec<Animation>, ages: &Vec<(u32, u64)>) -> (live: Vec<Animation>)
    requires
        ages.len() == anims.len(),
    ensures
        live@ == live_animations(anims@, ages@),
{
    let mut live: Vec<Animation> = Vec::new();
    let mut i: usize = 0;
    while i < anims.len()
        invariant
            ages.len() == anims.len(),
            i <= anims.len(),
            live@ == live_animations(anims@.take(i as int), ages@.take(i as int)),
        decreases anims.len() - i,
    {
        let a = anims[i];
        let (ms, secs) = ages[i];
        assert(anims@.take(i + 1).drop_last() =~= anims@.take(i as int));
        assert(ages@.take(i + 1).take(i as int) =~= ages@.take(i as int));
        let keep = match a {
            Animation::TileRemoval { duration_ms, .. } => ms < duration_ms,
            Animation::TileMismatch { duration_ms, .. } => ms < duration_ms,
            Animation::HintPulse { .. } => secs < HINT_DISMISS_SECS,
            Animation::Shuffle { duration_ms, .. } => ms < duration_ms,
        };
        if keep {
            live.push(a);
        }
        assert(live@ =~= live_animations(anims@.take(i + 1), ages@.take(i + 1)));
        i = i + 1;
    }
    assert(anims@.take(anims.len() as int) =~= anims@);
    assert(ages@.take(anims.len() as int) =~= ages@);
    live
}

/// When an animation started.
pub open spec fn animation_start(a: Animation) -> Instant {
    match a {
        Animation::TileRemoval { start_time, .. } => start_time,
        Animation::TileMismatch { start_time, .. } => start_time,
        Animation::HintPulse { start_time, .. } => start_time,
        Animation::Shuffle { start_time, .. } => start_time,
    }
}

fn start_of(a: &Animation) -> (t: Instant)
    ensures
        t == animation_start(*a),
{
    match a {
        Animation::TileRemoval { start_time, .. } => *start_time,
        Animation::TileMismatch { start_time, .. } => *start_time,
        Animation::HintPulse { start_time, .. } => *start_time,
        Animation::Shuffle { start_time, .. } => *start_time,
    }
}

/// The age of each animation at `now`, in milliseconds (truncated to 32 bits)
/// and whole seconds. The ages depend on the clock; only their number is stated.
pub fn animation_ages(anims: &Vec<Animation>, now: &Instant) -> (ages: Vec<(u32, u64)>)
    ensures
        ages.len() == anims.len(),
{
    let mut ages: Vec<(u32, u64)> = Vec::new();
    let mut i: usize = 0;
    while i < anims.len()
        invariant
            i <= anims.len(),
            ages.len() == i,
        decreases anims.len() - i,
    {
        let start = start_of(&anims[i]);
        ages.push(age_since(now, &start));
        i = i + 1;
    }
    ages
}

/// Drops the animations that have finished by the clock; the rest of the state
/// is unchanged. Which have finished depends on the clock: the animations kept
/// are those `live_animations` keeps for some ages.
pub fn expire_animations(state: &mut GameState)
    ensures
        exists|ages: Seq<(u32, u64)>|
            ages.len() == old(state).animations@.len()
            && #[trigger] live_animations(old(state).animations@, ages) == final(state).animations@,
        final(state).board == old(state).board,
        final(state).timer == old(state).timer,
        final(state).score == old(state).score,
        final(state).status == old(state).status,
        final(state).selection == old(state).selection,
        final(state).hint == old(state).hint,
        final(state).undo_stack == old(state).undo_stack,
        final(state).shuffles_remaining == old(state).shuffles_remaining,
{
    let t = now();
    let ages = animation_ages(&state.animations, &t);
    let live = retain_live(&state.animations, &ages);
    state.animations = live;
}

/// How a tile is highlighted. Times are whole milliseconds; turning them into
/// fractions and colours is left to the renderer.
#[derive(Debug, Clone, Copy, PartialEq, Eq)]
pub enum TileHighlight {
    /// No highlight.
    Plain,
    /// The tile is selected.
    Selected,
    /// Part of a hint; `phase_ms` is the position within the glow cycle.
    HintGlow { phase_ms: u32 },
    /// Part of a mismatch that is still flashing.
    MismatchFlash,
    /// Being removed, `elapsed_ms` into a fade of `duration_ms`.
    Removing { elapsed_ms: u32, duration_ms: u32 },
}

/// `pos` is one of the two positions of `pair`.
pub open spec fn touches(pair: (usize, usize), pos: usize) -> bool {
    pair.0 == pos || pair.1 == pos
}

/// The highlight of the tile at `pos` when nothing animates it: the glow of
/// a hint on it (`hint_age` milliseconds after the hint), else the selection mark.
pub open spec fn still_highlight(pos: usize, hint: Option<HintState>, hint_age: u32, selection: Option<usize>) -> TileHighlight {
    if hint matches Some(h) && touches((h.position_a, h.position_b), pos) {
        TileHighlight::HintGlow { phase_ms: hint_age % HINT_PULSE_CYCLE_MS }
    } else if selection == Some(pos) {
        TileHighlight::Selected
    } else {
        TileHighlight::Plain
    }
}

/// The highlight of the tile at `pos`: the first of the animations (aged
/// `ages` milliseconds) that concerns it decides: a removal fades it, a
/// mismatch still flashing flashes it, a hint pulse makes it glow; without
/// one, `still_highlight` decides.
pub open spec fn highlight_from(
    anims: Seq<Animation>,
    ages: Seq<u32>,
    pos: usize,
    hint: Option<HintState>,
    hint_age: u32,
    selection: Option<usize>,
) -> TileHighlight
    decreases anims.len(),
{
    if anims.len() == 0 {
        still_highlight(pos, hint, hint_age, selection)
    } else {
        let rest = highlight_from(anims.drop_first(), ages.drop_first(), pos, hint, hint_age, selection);
        match anims[0] {
            Animation::TileRemoval { positions, duration_ms, .. } =>
                if touches(positions, pos) { TileHighlight::Removing { elapsed_ms: ages[0], duration_ms } } else { rest },
            Animation::TileMismatch { positions, duration_ms, .. } =>
                if touches(positions, pos) && ages[0] < duration_ms { TileHighlight::MismatchFlash } else { rest },
            Animation::HintPulse { positions, .. } =>
                if touches(positions, pos) { TileHighlight::HintGlow { phase_ms: ages[0] % HINT_PULSE_CYCLE_MS } } else { rest },
            Animation::Shuffle { .. } => rest,
        }
    }
}

/// The highlight of the tile at `pos` (see `highlight_from`), given the age in
/// milliseconds of each animation and of the hint.
pub fn highlight_for(state: &GameState, pos: usize, ages: &Vec<u32>, hint_age: u32) -> (h: TileHighlight)
    requires
        ages.len() == state.animations.len(),
    ensures
        h == highlight_from(state.animations@, ages@, pos, state.hint, hint_age, state.selection),
{
    let mut i: usize = 0;
    assert(state.animations@.skip(0) =~= state.animations@);
    assert(ages@.skip(0) =~= ages@);
    while i < state.animations.len()
        invariant
            ages.len() == state.animations.len(),
            i <= state.animations.len(),
            highlight_from(state.animations@, ages@, pos, state.hint, hint_age, state.selection)
                == highlight_from(state.animations@.skip(i as int), ages@.skip(i as int), pos, state.hint, hint_age, state.selection),
        decreases state.animations.len() - i,
    {
        let ghost rest_a = state.animations@.skip(i as int);
        let ghost rest_g = ages@.skip(i as int);
        assert(rest_a.drop_first() =~= state.animations@.skip(i + 1));
        assert(rest_g.drop_first() =~= ages@.skip(i + 1));
        assert(rest_a[0] == state.animations@[i as int]);
        assert(rest_g[0] == ages@[i as int]);
        let age = ages[i];
        match state.animations[i] {
            Animation::TileRemoval { positions, duration_ms, .. } => {
                if positions.0 == pos || positions.1 == pos {
                    return TileHighlight::Removing { elapsed_ms: age, duration_ms };
                }
            },
            Animation::TileMismatch { positions, duration_ms, .. } => {
                if (positions.0 == pos || positions.1 == pos) && age < duration_ms {
                    return TileHighlight::MismatchFlash;
                }
            },
            Animation::HintPulse { positions, .. } => {
                if positions.0 == pos || positions.1 == pos {
                    return TileHighlight::HintGlow { phase_ms: age % HINT_PULSE_CYCLE_MS };
                }
            },
            Animation::Shuffle { .. } => {},
        }
        i = i + 1;
    }
    assert(state.animations@.skip(i as int).len() == 0);
    if let Some(h) = &state.hint {
        if h.position_a == pos || h.position_b == pos {
            return TileHighlight::HintGlow { phase_ms: hint_age % HINT_PULSE_CYCLE_MS };
        }
    }
    if state.selection == Some(pos) {
        return TileHighlight::Selected;
    }
    TileHighlight::Plain
}

/// The millisecond ages of the animations, as `animation_ages` reads them.
fn millisecond_ages(ages: &Vec<(u32, u64)>) -> (ms: Vec<u32>)
    ensures
        ms.len() == ages.len(),
        forall|i: int| 0 <= i < ms.len() ==> #[trigger] ms@[i] == ages@[i].0,
{
    let mut ms: Vec<u32> = Vec::new();
    let mut i: usize = 0;
    while i < ages.len()
        invariant
            i <= ages.len(),
            ms.len() == i,
            forall|k: int| 0 <= k < i ==> #[trigger] ms@[k] == ages@[k].0,
        decreases ages.len() - i,
    {
        ms.push(ages[i].0);
        i = i + 1;
    }
    ms
}

/// The highlight of the tile at `pos` at time `now`: `highlight_from` at the
/// ages that the clock gives.
pub fn determine_highlight(state: &GameState, pos: usize, now: &Instant) -> (h: TileHighlight)
    ensures
        exists|ages: Seq<u32>, hint_age: u32|
            ages.len() == state.animations@.len()
            && h == #[trigger] highlight_from(state.animations@, ages, pos, state.hint, hint_age, state.selection),
{
    let ages = millisecond_ages(&animation_ages(&state.animations, now));
    let hint_age: u32 = match &state.hint {
        Some(h) => age_since(now, &h.activated_at).0,
        None => 0,
    };
    highlight_for(state, pos, &ages, hint_age)
}

/// The first shuffle animation still running at the given ages, as (elapsed,
/// duration) in milliseconds.
pub open spec fn shuffle_progress_from(anims: Seq<Animation>, ages: Seq<u32>) -> Option<(u32, u32)>
    decreases anims.len(),
{
    if anims.len() == 0 {
        None
    } else {
        match anims[0] {
            Animation::Shuffle { duration_ms, .. } =>
                if ages[0] < duration_ms { Some((ages[0], duration_ms)) } else { shuffle_progress_from(anims.drop_first(), ages.drop_first()) },
            _ => shuffle_progress_from(anims.drop_first(), ages.drop_first()),
        }
    }
}

/// How far a running shuffle animation has got (see `shuffle_progress_from`).
pub fn shuffle_progress_for(state: &GameState, ages: &Vec<u32>) -> (p: Option<(u32, u32)>)
    requires
        ages.len() == state.animations.len(),
    ensures
        p == shuffle_progress_from(state.animations@, ages@),
{
    let mut i: usize = 0;
    assert(state.animations@.skip(0) =~= state.animations@);
    assert(ages@.skip(0) =~= ages@);
    while i < state.animations.len()
        invariant
            ages.len() == state.animations.len(),
            i <= state.animations.len(),
            shuffle_progress_from(state.animations@, ages@)
                == shuffle_progress_from(state.animations@.skip(i as int), ages@.skip(i as int)),
        decreases state.animations.len() - i,
    {
        let ghost rest_a = state.animations@.skip(i as int);
        let ghost rest_g = ages@.skip(i as int);
        assert(rest_a.drop_first() =~= state.animations@.skip(i + 1));
        assert(rest_g.drop_first() =~= ages@.skip(i + 1));
        assert(rest_a[0] == state.animations@[i as int]);
        assert(rest_g[0] == ages@[i as int]);
        if let Animation::Shuffle { duration_ms, .. } = state.animations[i] {
            if ages[i] < duration_ms {
                return Some((ages[i], duration_ms));
            }
        }
        i = i + 1;
    }
    None
}

/// How far a running shuffle animation has got at time `now`.
pub fn get_shuffle_progress(state: &GameState, now: &Instant) -> (p: Option<(u32, u32)>)
    ensures
        exists|ages: Seq<u32>| ages.len() == state.animations@.len() && p == #[trigger] shuffle_progress_from(state.animations@, ages),
{
    let ages = millisecond_ages(&animation_ages(&state.animations, now));
    shuffle_progress_for(state, &ages)
}

} // verus!
