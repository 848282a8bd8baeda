//! Game logic: tile selection and matching, undo, shuffle, hints, and the end
//! of the game.

use vstd::prelude::*;

use crate::board::{
    count_occupied, faces_in_order, has_matching_pair, lemma_occupied_list, lemma_occupied_list_same_shape, lemma_same_shape_trans,
    occupied_list, pair_before, removed, same_shape, Board, Layout, Tile,
};
use crate::rng::{shuffle_thread, thread_rng};
use crate::clock::now;
use crate::game_state::{Animation, GameState, HintState};

verus! {

/// The outcome of clicking a position.
#[derive(Debug, Clone, Copy, PartialEq, Eq)]
pub enum SelectionResult {
    /// The tile became the selection (nothing was selected before).
    Selected,
    /// The selected tile and this one show the same face and were removed.
    Matched(usize, usize),
    /// The selected tile and this one show different faces; both are deselected.
    Mismatched(usize, usize),
    /// The selected tile was clicked again and is no longer selected.
    Deselected,
    /// The position is empty or its tile is not free.
    Ignored,
}

/// Error of `undo`.
#[derive(Debug, Clone, PartialEq, Eq)]
pub enum UndoError {
    /// There is no match to undo.
    EmptyStack,
}

/// A match that can be undone: the two removed tiles and where they were.
#[derive(Debug, Clone, Copy, PartialEq, Eq)]
pub struct UndoEntry {
    /// The first removed tile.
    pub tile_a: Tile,
    /// The second removed tile.
    pub tile_b: Tile,
    /// Position of `tile_a`.
    pub position_a: usize,
    /// Position of `tile_b`.
    pub position_b: usize,
}

/// Most matches the undo stack keeps.
pub const UNDO_CAPACITY: usize = 10;

/// The tiles with the two tiles of `e` put back.
pub open spec fn restored(tiles: Seq<Option<Tile>>, e: UndoEntry) -> Seq<Option<Tile>> {
    tiles.update(e.position_a as int, Some(e.tile_a)).update(e.position_b as int, Some(e.tile_b))
}

/// The undo record of matching the tiles at `a` and `b`.
pub open spec fn match_entry(tiles: Seq<Option<Tile>>, a: usize, b: usize) -> UndoEntry {
    UndoEntry { tile_a: tiles[a as int].unwrap(), tile_b: tiles[b as int].unwrap(), position_a: a, position_b: b }
}

/// The undo stack after recording `e`: when it already holds 10 or more
/// entries, the oldest is dropped first.
pub open spec fn push_capped(stack: Seq<UndoEntry>, e: UndoEntry) -> Seq<UndoEntry> {
    if stack.len() >= 10 { stack.drop_first().push(e) } else { stack.push(e) }
}

/// Fields that a selection never changes.
pub open spec fn same_outside_selection(a: &GameState, b: &GameState) -> bool {
    &&& a.board.layout == b.board.layout
    &&& a.timer == b.timer
    &&& a.score == b.score
    &&& a.status == b.status
    &&& a.shuffles_remaining == b.shuffles_remaining
    &&& a.animations == b.animations
}

/// Clicking `pos` needs the selected position, if it is compared with `pos`,
/// to hold a tile.
pub open spec fn selection_usable(state: &GameState, pos: int) -> bool {
    (state.board.free_at(pos) && state.selection is Some && state.selection.unwrap() != pos) ==> {
        &&& state.selection.unwrap() < state.board.tiles.len()
        &&& state.board.tiles@[state.selection.unwrap() as int] is Some
    }
}

/// Clicking `pos` turned `before` into `after` with outcome `result`, as `select_tile` does.
pub open spec fn selection_step(before: &GameState, after: &GameState, pos: usize, result: SelectionResult) -> bool {
    &&& same_outside_selection(after, before)
    &&& !before.board.free_at(pos as int) ==> result == SelectionResult::Ignored && *after == *before
    &&& before.board.free_at(pos as int) ==> after.hint is None && after.selection != before.selection
    &&& before.board.free_at(pos as int) && before.selection == Some(pos) ==> {
        &&& result == SelectionResult::Deselected
        &&& after.selection is None
        &&& after.board.tiles@ == before.board.tiles@
        &&& after.undo_stack@ == before.undo_stack@
    }
    &&& before.board.free_at(pos as int) && before.selection is None ==> {
        &&& result == SelectionResult::Selected
        &&& after.selection == Some(pos)
        &&& after.board.tiles@ == before.board.tiles@
        &&& after.undo_stack@ == before.undo_stack@
    }
    &&& before.board.free_at(pos as int) && before.selection is Some && before.selection != Some(pos) ==> {
        let other = before.selection.unwrap();
        let tiles = before.board.tiles@;
        &&& after.selection is None
        &&& if tiles[other as int].unwrap().face_id == tiles[pos as int].unwrap().face_id {
            &&& result == SelectionResult::Matched(other, pos)
            &&& after.board.tiles@ == removed(tiles, other as int, pos as int)
            &&& after.undo_stack@ == push_capped(before.undo_stack@, match_entry(tiles, other, pos))
        } else {
            &&& result == SelectionResult::Mismatched(other, pos)
            &&& after.board.tiles@ == tiles
            &&& after.undo_stack@ == before.undo_stack@
        }
    }
}

/// Handles a click on position `pos`.
///
/// An empty position or a tile that is not free is ignored. Otherwise any hint
/// is dismissed, and: clicking the selected tile deselects it; with nothing
/// selected the tile becomes the selection; with another tile selected, the two
/// are removed when their faces match (recording the match for undo) and are
/// both deselected when they do not.
pub fn select_tile(state: &mut GameState, pos: usize) -> (result: SelectionResult)
    requires
        old(state).board.wf(),
        pos < old(state).board.tiles.len(),
        selection_usable(old(state), pos as int),
    ensures
        selection_step(old(state), final(state), pos, result),
{
    if state.board.tiles[pos].is_none() {
        return SelectionResult::Ignored;
    }
    if !state.board.is_free(pos) {
        return SelectionResult::Ignored;
    }
    state.hint = None;
    if state.selection == Some(pos) {
        state.selection = None;
        return SelectionResult::Deselected;
    }
    if state.selection.is_none() {
        state.selection = Some(pos);
        return SelectionResult::Selected;
    }
    let other = state.selection.unwrap();
    let ghost tiles = state.board.tiles@;
    let tile_a = state.board.tiles[other].unwrap();
    let tile_b = state.board.tiles[pos].unwrap();
    if tile_a.face_id == tile_b.face_id {
        state.board.remove_pair(other, pos);
        let ghost before = state.undo_stack@;
        if state.undo_stack.len() >= UNDO_CAPACITY {
            state.undo_stack.remove(0);
            assert(state.undo_stack@ =~= before.drop_first());
        }
        state.undo_stack.push(UndoEntry { tile_a, tile_b, position_a: other, position_b: pos });
        state.selection = None;
        SelectionResult::Matched(other, pos)
    } else {
        state.selection = None;
        SelectionResult::Mismatched(other, pos)
    }
}

/// Undoes the last recorded match: puts both tiles back and clears the
/// selection. Fails when nothing is recorded.
pub fn undo(state: &mut GameState) -> (result: Result<(), UndoError>)
    requires
        old(state).undo_stack.len() > 0 ==> {
            let e = old(state).undo_stack@.last();
            &&& e.position_a < old(state).board.tiles.len()
            &&& e.position_b < old(state).board.tiles.len()
        },
    ensures
        old(state).undo_stack.len() == 0 <==> result == Err::<(), UndoError>(UndoError::EmptyStack),
        old(state).undo_stack.len() == 0 ==> final(state).same_as(old(state)),
        old(state).undo_stack.len() > 0 ==> {
            &&& result == Ok::<(), UndoError>(())
            &&& final(state).undo_stack@ == old(state).undo_stack@.drop_last()
            &&& final(state).board.tiles@ == restored(old(state).board.tiles@, old(state).undo_stack@.last())
            &&& final(state).selection is None
            &&& final(state).board.layout == old(state).board.layout
            &&& final(state).hint == old(state).hint
            &&& same_outside_selection(final(state), old(state))
        },
{
    let entry = match state.undo_stack.pop() {
        Some(e) => e,
        None => return Err(UndoError::EmptyStack),
    };
    state.board.restore_pair(entry.position_a, entry.position_b, entry.tile_a, entry.tile_b);
    state.selection = None;
    Ok(())
}

/// Clicking the two tiles of a matching pair, with nothing selected, removes
/// them: the first click selects, the second matches and records the match.
pub proof fn lemma_clicking_a_pair_removes_it(
    before: GameState,
    mid: GameState,
    after: GameState,
    a: usize,
    b: usize,
    first: SelectionResult,
    second: SelectionResult,
)
    requires
        before.board.is_match(a as int, b as int),
        before.selection is None,
        selection_step(&before, &mid, a, first),
        selection_step(&mid, &after, b, second),
    ensures
        first == SelectionResult::Selected,
        second == SelectionResult::Matched(a, b),
        after.board.tiles@ == removed(before.board.tiles@, a as int, b as int),
        after.undo_stack@ == push_capped(before.undo_stack@, match_entry(before.board.tiles@, a, b)),
        after.selection is None,
        after.hint is None,
{
    assert(mid.board.layout == before.board.layout);
    assert(mid.board.tiles@ == before.board.tiles@);
    assert(mid.board.free_at(b as int));
}

/// Undoing a match restores the board exactly: removing two tiles and putting
/// back the tiles that were recorded for them gives the initial tiles, and
/// recording a match on a stack below capacity and then taking it off gives the
/// initial stack.
pub proof fn lemma_undo_round_trip(tiles: Seq<Option<Tile>>, stack: Seq<UndoEntry>, a: usize, b: usize)
    requires
        a != b,
        a < tiles.len(),
        b < tiles.len(),
        tiles[a as int] is Some,
        tiles[b as int] is Some,
    ensures
        restored(removed(tiles, a as int, b as int), match_entry(tiles, a, b)) == tiles,
        push_capped(stack, match_entry(tiles, a, b)).last() == match_entry(tiles, a, b),
        stack.len() < 10 ==> push_capped(stack, match_entry(tiles, a, b)).drop_last() == stack,
        stack.len() <= 10 ==> push_capped(stack, match_entry(tiles, a, b)).len() <= 10,
{
    assert(restored(removed(tiles, a as int, b as int), match_entry(tiles, a, b)) =~= tiles);
    if stack.len() < 10 {
        assert(stack.push(match_entry(tiles, a, b)).drop_last() =~= stack);
    }
}

/// The outcome of asking for a hint.
#[derive(Debug, Clone, Copy, PartialEq, Eq)]
pub enum HintResult {
    /// This pair matches and is now highlighted.
    Found(usize, usize),
    /// No matching pair exists.
    NoMatchesAvailable,
}

/// Why the game ended.
#[derive(Debug, Clone, Copy, PartialEq, Eq)]
pub enum GameOverReason {
    /// All tiles were cleared.
    Won,
    /// Tiles remain but no pair can be matched.
    Lost,
}

/// Error of `shuffle`.
#[derive(Debug, Clone, PartialEq, Eq)]
pub enum ShuffleError {
    /// No shuffles are left.
    NoShufflesRemaining,
    /// Ten rearrangements in a row left no matching pair.
    NoValidArrangement,
}


/// The occupied positions of the board, in increasing order.
fn occupied_positions(board: &Board) -> (occupied: Vec<usize>)
    ensures
        occupied@ == occupied_list(board.tiles@),
{
    let mut occupied: Vec<usize> = Vec::new();
    let mut i: usize = 0;
    while i < board.tiles.len()
        invariant
            i <= board.tiles.len(),
            occupied@ == occupied_list(board.tiles@.take(i as int)),
        decreases board.tiles.len() - i,
    {
        let ghost prefix = board.tiles@.take(i + 1);
        assert(prefix.drop_last() =~= board.tiles@.take(i as int));
        assert(prefix.last() == board.tiles@[i as int]);
        if board.tiles[i].is_some() {
            occupied.push(i);
        }
        i = i + 1;
        assert(occupied@ =~= occupied_list(prefix));
    }
    assert(board.tiles@.take(board.tiles.len() as int) =~= board.tiles@);
    occupied
}

/// Writes `faces[k]` onto the tile at `occupied[k]`, keeping positions and shape.
fn assign_faces(board: &mut Board, occupied: &Vec<usize>, faces: &Vec<u8>)
    requires
        occupied@ == occupied_list(old(board).tiles@),
        faces.len() == occupied.len(),
        old(board).tiles.len() <= usize::MAX,
    ensures
        final(board).layout == old(board).layout,
        same_shape(old(board).tiles@, final(board).tiles@),
        faces_in_order(final(board).tiles@) == faces@,
{
    let ghost start = board.tiles@;
    proof { lemma_occupied_list(start); }
    let mut idx: usize = 0;
    while idx < occupied.len()
        invariant
            idx <= occupied.len(),
            faces.len() == occupied.len(),
            occupied@ == occupied_list(start),
            forall|k: int| 0 <= k < occupied_list(start).len() ==> {
                &&& #[trigger] occupied_list(start)[k] < start.len()
                &&& start[occupied_list(start)[k] as int] is Some
            },
            forall|k1: int, k2: int| 0 <= k1 < k2 < occupied_list(start).len() ==> occupied_list(start)[k1] < occupied_list(start)[k2],
            board.layout == old(board).layout,
            same_shape(start, board.tiles@),
            forall|k: int| 0 <= k < idx ==> board.tiles@[#[trigger] occupied@[k] as int].unwrap().face_id == faces@[k],
        decreases occupied.len() - idx,
    {
        let pos = occupied[idx];
        assert(start[pos as int] is Some);
        let ghost before = board.tiles@;
        match board.tiles[pos] {
            Some(tile) => {
                board.tiles.set(pos, Some(Tile { face_id: faces[idx], position: tile.position }));
            },
            None => {},
        }
        assert forall|k: int| 0 <= k < idx + 1 implies board.tiles@[#[trigger] occupied@[k] as int].unwrap().face_id == faces@[k] by {
            if k < idx {
                assert(occupied@[k] < occupied@[idx as int]);
            }
        }
        assert(same_shape(start, board.tiles@)) by {
            assert forall|i: int| 0 <= i < start.len() && #[trigger] start[i] is Some implies start[i].unwrap().position == board.tiles@[i].unwrap().position by {
                assert(before[i] is Some);
            }
        }
        idx = idx + 1;
    }
    proof {
        lemma_occupied_list_same_shape(start, board.tiles@);
        assert(faces_in_order(board.tiles@) =~= faces@);
    }
}

/// However the faces of `tiles` are rearranged over the same positions, some
/// pair of free tiles matches: no shuffle of such a board can fail to find one.
pub open spec fn every_rearrangement_pairs(layout: Layout, tiles: Seq<Option<Tile>>) -> bool {
    forall|t: Seq<Option<Tile>>|
        same_shape(tiles, t) && faces_in_order(t).to_multiset() == faces_in_order(tiles).to_multiset()
            ==> #[trigger] has_matching_pair(layout, t)
}

/// Rearranges the faces of the tiles left on the board.
///
/// Fails when no shuffle is left. Otherwise the faces are permuted among the
/// occupied positions up to ten times until some pair of free tiles matches; if
/// none of the ten arrangements has one, it fails and the last arrangement stays.
/// On success it uses up a shuffle, clears the undo stack and the selection,
/// starts a shuffle animation and counts the shuffle.
pub fn shuffle(state: &mut GameState) -> (result: Result<(), ShuffleError>)
    requires
        old(state).board.wf(),
        old(state).shuffles_remaining > 0 ==> old(state).score.shuffles_used < u32::MAX,
    ensures
        old(state).shuffles_remaining == 0 <==> result == Err::<(), ShuffleError>(ShuffleError::NoShufflesRemaining),
        old(state).shuffles_remaining == 0 ==> *final(state) == *old(state),
        old(state).shuffles_remaining > 0 && every_rearrangement_pairs(*old(state).board.layout, old(state).board.tiles@)
            ==> result == Ok::<(), ShuffleError>(()),
        old(state).shuffles_remaining > 0 ==> {
            &&& final(state).board.layout == old(state).board.layout
            &&& same_shape(old(state).board.tiles@, final(state).board.tiles@)
            &&& faces_in_order(final(state).board.tiles@).to_multiset() == faces_in_order(old(state).board.tiles@).to_multiset()
            &&& final(state).hint == old(state).hint
            &&& final(state).timer == old(state).timer
            &&& final(state).status == old(state).status
            &&& final(state).score.hints_used == old(state).score.hints_used
            &&& final(state).score.elapsed_seconds == old(state).score.elapsed_seconds
        },
        result == Ok::<(), ShuffleError>(()) ==> {
            &&& final(state).board.has_pair()
            &&& final(state).shuffles_remaining == old(state).shuffles_remaining - 1
            &&& final(state).undo_stack@.len() == 0
            &&& final(state).selection is None
            &&& final(state).animations@.drop_last() == old(state).animations@
            &&& final(state).animations@.len() == old(state).animations@.len() + 1
            &&& final(state).animations@.last() matches Animation::Shuffle { duration_ms, .. } && duration_ms == 500
            &&& final(state).score.shuffles_used == old(state).score.shuffles_used + 1
        },
        result == Err::<(), ShuffleError>(ShuffleError::NoValidArrangement) ==> {
            &&& !final(state).board.has_pair()
            &&& final(state).shuffles_remaining == old(state).shuffles_remaining
            &&& final(state).undo_stack == old(state).undo_stack
            &&& final(state).selection == old(state).selection
            &&& final(state).animations == old(state).animations
            &&& final(state).score == old(state).score
        },
{
    if state.shuffles_remaining == 0 {
        return Err(ShuffleError::NoShufflesRemaining);
    }
    let ghost initial = state.board.tiles@;
    let occupied = occupied_positions(&state.board);
    proof { lemma_occupied_list(initial); }
    let mut face_ids: Vec<u8> = Vec::new();
    let mut k: usize = 0;
    while k < occupied.len()
        invariant
            k <= occupied.len(),
            occupied@ == occupied_list(initial),
            initial == state.board.tiles@,
            forall|j: int| 0 <= j < occupied_list(initial).len() ==> {
                &&& #[trigger] occupied_list(initial)[j] < initial.len()
                &&& initial[occupied_list(initial)[j] as int] is Some
            },
            face_ids@ == faces_in_order(initial).take(k as int),
        decreases occupied.len() - k,
    {
        assert(initial[occupied@[k as int] as int] is Some);
        face_ids.push(state.board.tiles[occupied[k]].unwrap().face_id);
        k = k + 1;
        assert(face_ids@ =~= faces_in_order(initial).take(k as int));
    }
    assert(face_ids@ =~= faces_in_order(initial));
    let mut rng = thread_rng();
    let mut found = false;
    let mut attempt: u8 = 0;
    while attempt < 10 && !found
        invariant
            attempt <= 10,
            state.board.wf(),
            state.board.layout == old(state).board.layout,
            state.board.tiles.len() == initial.len(),
            initial == old(state).board.tiles@,
            occupied@ == occupied_list(initial),
            face_ids.len() == occupied.len(),
            face_ids@.to_multiset() == faces_in_order(initial).to_multiset(),
            same_shape(initial, state.board.tiles@),
            faces_in_order(state.board.tiles@).to_multiset() == faces_in_order(initial).to_multiset(),
            found ==> state.board.has_pair(),
            attempt > 0 && !found ==> !state.board.has_pair(),
            state.hint == old(state).hint,
            state.timer == old(state).timer,
            state.status == old(state).status,
            state.score == old(state).score,
            state.shuffles_remaining == old(state).shuffles_remaining,
            state.undo_stack == old(state).undo_stack,
            state.selection == old(state).selection,
            state.animations == old(state).animations,
        decreases 10 - attempt,
    {
        shuffle_thread(&mut face_ids, &mut rng);
        let ghost before = state.board.tiles@;
        proof { lemma_occupied_list_same_shape(initial, before); }
        assign_faces(&mut state.board, &occupied, &face_ids);
        proof { lemma_same_shape_trans(initial, before, state.board.tiles@); }
        let pairs = state.board.valid_pairs();
        if pairs.len() > 0 {
            assert(state.board.is_match(pairs@[0].0 as int, pairs@[0].1 as int));
            found = true;
        } else {
            proof {
                if state.board.has_pair() {
                    let (a, b) = choose|a: int, b: int| state.board.is_match(a, b);
                    assert(pairs@.contains((a as usize, b as usize)));
                }
            }
        }
        attempt = attempt + 1;
    }
    if !found {
        return Err(ShuffleError::NoValidArrangement);
    }
    state.shuffles_remaining = state.shuffles_remaining - 1;
    state.undo_stack.clear();
    state.selection = None;
    state.animations.push(Animation::Shuffle { start_time: now(), duration_ms: 500 });
    state.score.shuffles_used = state.score.shuffles_used + 1;
    Ok(())
}

/// Highlights the first matching pair (in position order) and counts the hint.
pub fn request_hint(state: &mut GameState) -> (result: HintResult)
    requires
        old(state).board.wf(),
        old(state).board.has_pair() ==> old(state).score.hints_used < u32::MAX,
    ensures
        !old(state).board.has_pair() ==> {
            &&& result == HintResult::NoMatchesAvailable
            &&& *final(state) == *old(state)
        },
        old(state).board.has_pair() ==> {
            &&& result matches HintResult::Found(a, b) && {
                &&& old(state).board.is_match(a as int, b as int)
                &&& forall|c: int, d: int| old(state).board.is_match(c, d) ==> !pair_before((c as usize, d as usize), (a, b))
                &&& final(state).hint matches Some(h) && h.position_a == a && h.position_b == b
            }
            &&& final(state).score.hints_used == old(state).score.hints_used + 1
            &&& final(state).score.shuffles_used == old(state).score.shuffles_used
            &&& final(state).score.elapsed_seconds == old(state).score.elapsed_seconds
            &&& final(state).board == old(state).board
            &&& final(state).selection == old(state).selection
            &&& final(state).undo_stack == old(state).undo_stack
            &&& final(state).timer == old(state).timer
            &&& final(state).status == old(state).status
            &&& final(state).shuffles_remaining == old(state).shuffles_remaining
            &&& final(state).animations == old(state).animations
        },
{
    let pairs = state.board.valid_pairs();
    if pairs.len() == 0 {
        proof {
            if state.board.has_pair() {
                let (a, b) = choose|a: int, b: int| state.board.is_match(a, b);
                assert(pairs@.contains((a as usize, b as usize)));
            }
        }
        return HintResult::NoMatchesAvailable;
    }
    let (a, b) = pairs[0];
    proof {
        assert(state.board.is_match(a as int, b as int));
        assert forall|c: int, d: int| state.board.is_match(c, d)
            implies !pair_before((c as usize, d as usize), (a, b)) by {
            assert(pairs@.contains((c as usize, d as usize)));
            let k = choose|k: int| 0 <= k < pairs@.len() && pairs@[k] == (c as usize, d as usize);
            if k > 0 {
                assert(pair_before(pairs@[0], pairs@[k]));
            }
        }
    }
    state.hint = Some(HintState { position_a: a, position_b: b, activated_at: now() });
    state.score.hints_used = state.score.hints_used + 1;
    HintResult::Found(a, b)
}

/// Whether the game is over: won when no tile is left, lost when tiles are left
/// but none can be matched, and still on otherwise.
pub fn check_game_over(state: &GameState) -> (result: Option<GameOverReason>)
    requires
        state.board.wf(),
    ensures
        result == if count_occupied(state.board.tiles@) == 0 {
            Some(GameOverReason::Won)
        } else if !state.board.has_pair() {
            Some(GameOverReason::Lost)
        } else {
            None::<GameOverReason>
        },
{
    if state.board.remaining_count() == 0 {
        return Some(GameOverReason::Won);
    }
    let pairs = state.board.valid_pairs();
    if pairs.len() == 0 {
        proof {
            if state.board.has_pair() {
                let (a, b) = choose|a: int, b: int| state.board.is_match(a, b);
                assert(pairs@.contains((a as usize, b as usize)));
            }
        }
        return Some(GameOverReason::Lost);
    }
    assert(state.board.is_match(pairs@[0].0 as int, pairs@[0].1 as int));
    None
}

} // verus!
