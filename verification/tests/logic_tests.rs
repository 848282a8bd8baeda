use std::time::Instant;
use xmahjong::board::{turtle_layout, Board, Tile};
use xmahjong::game_state::{Animation, GameState, GameStatus, HintState, ScoreTracker};
use xmahjong::logic::{
    check_game_over, request_hint, select_tile, shuffle, undo, GameOverReason, HintResult, SelectionResult,
    ShuffleError, UndoEntry, UndoError,
};
use xmahjong::timer::GameTimer;

/// Helper to create a minimal GameState with a given board.
fn make_state(board: Board) -> GameState {
    GameState {
        board,
        timer: GameTimer::new(),
        score: ScoreTracker::new(),
        status: GameStatus::Playing,
        selection: None,
        hint: None,
        undo_stack: Vec::new(),
        shuffles_remaining: 3,
        animations: Vec::new(),
    }
}

#[test]
fn select_empty_position_returns_ignored() {
    let layout = turtle_layout();
    let board = Board::new(&layout);
    let mut state = make_state(board);

    // Position 0 has no tile — should be ignored
    assert_eq!(select_tile(&mut state, 0), SelectionResult::Ignored);
    assert_eq!(state.selection, None);
}

#[test]
fn select_non_free_tile_returns_ignored() {
    let layout = turtle_layout();
    let mut board = Board::new(&layout);

    // Place a tile on layer 3 and block it from above with a layer 4 tile
    let layer_3_idx = layout
        .positions
        .iter()
        .enumerate()
        .find(|(_, p)| p.layer == 3)
        .map(|(i, _)| i)
        .unwrap();

    board.tiles[layer_3_idx] = Some(Tile {
        face_id: 1,
        position: layout.positions[layer_3_idx],
    });

    // Find a layer 4 blocker
    let blocker = layout.blocking[layer_3_idx]
        .blocked_by
        .iter()
        .find(|&&b| layout.positions[b].layer == 4)
        .copied();

    if let Some(blocker_idx) = blocker {
        board.tiles[blocker_idx] = Some(Tile {
            face_id: 2,
            position: layout.positions[blocker_idx],
        });

        let mut state = make_state(board);
        // layer_3_idx is blocked from above
        assert_eq!(
            select_tile(&mut state, layer_3_idx),
            SelectionResult::Ignored
        );
    }
}

#[test]
fn select_free_tile_first_selection() {
    let layout = turtle_layout();
    let mut board = Board::new(&layout);

    // Place only the two top-layer tiles
    board.tiles[142] = Some(Tile {
        face_id: 5,
        position: layout.positions[142],
    });
    board.tiles[143] = Some(Tile {
        face_id: 5,
        position: layout.positions[143],
    });

    let mut state = make_state(board);
    assert_eq!(select_tile(&mut state, 142), SelectionResult::Selected);
    assert_eq!(state.selection, Some(142));
}

#[test]
fn select_same_tile_again_deselects() {
    let layout = turtle_layout();
    let mut board = Board::new(&layout);

    board.tiles[142] = Some(Tile {
        face_id: 5,
        position: layout.positions[142],
    });
    board.tiles[143] = Some(Tile {
        face_id: 5,
        position: layout.positions[143],
    });

    let mut state = make_state(board);
    select_tile(&mut state, 142);
    assert_eq!(select_tile(&mut state, 142), SelectionResult::Deselected);
    assert_eq!(state.selection, None);
}

#[test]
fn select_matching_pair_removes_tiles() {
    let layout = turtle_layout();
    let mut board = Board::new(&layout);

    board.tiles[142] = Some(Tile {
        face_id: 10,
        position: layout.positions[142],
    });
    board.tiles[143] = Some(Tile {
        face_id: 10,
        position: layout.positions[143],
    });

    let mut state = make_state(board);
    select_tile(&mut state, 142);
    let result = select_tile(&mut state, 143);

    assert_eq!(result, SelectionResult::Matched(142, 143));
    assert!(state.board.tiles[142].is_none());
    assert!(state.board.tiles[143].is_none());
    assert_eq!(state.selection, None);
}

#[test]
fn select_mismatched_pair_deselects_both() {
    let layout = turtle_layout();
    let mut board = Board::new(&layout);

    board.tiles[142] = Some(Tile {
        face_id: 10,
        position: layout.positions[142],
    });
    board.tiles[143] = Some(Tile {
        face_id: 20,
        position: layout.positions[143],
    });

    let mut state = make_state(board);
    select_tile(&mut state, 142);
    let result = select_tile(&mut state, 143);

    assert_eq!(result, SelectionResult::Mismatched(142, 143));
    // Tiles still present
    assert!(state.board.tiles[142].is_some());
    assert!(state.board.tiles[143].is_some());
    assert_eq!(state.selection, None);
}

#[test]
fn match_pushes_undo_entry() {
    let layout = turtle_layout();
    let mut board = Board::new(&layout);

    board.tiles[142] = Some(Tile {
        face_id: 7,
        position: layout.positions[142],
    });
    board.tiles[143] = Some(Tile {
        face_id: 7,
        position: layout.positions[143],
    });

    let mut state = make_state(board);
    select_tile(&mut state, 142);
    select_tile(&mut state, 143);

    assert_eq!(state.undo_stack.len(), 1);
    let entry = &state.undo_stack[0];
    assert_eq!(entry.position_a, 142);
    assert_eq!(entry.position_b, 143);
    assert_eq!(entry.tile_a.face_id, 7);
    assert_eq!(entry.tile_b.face_id, 7);
}

#[test]
fn undo_stack_capped_at_10() {
    let layout = turtle_layout();
    let board = Board::new(&layout);

    // Pre-fill the undo stack with 9 entries, then match two pairs.
    let mut state = make_state(board);

    // Pre-fill with 9 dummy entries
    for i in 0..9 {
        state.undo_stack.push(UndoEntry {
            tile_a: Tile {
                face_id: i as u8,
                position: layout.positions[0],
            },
            tile_b: Tile {
                face_id: i as u8,
                position: layout.positions[1],
            },
            position_a: 0,
            position_b: 1,
        });
    }

    // Place a matchable pair
    state.board.tiles[142] = Some(Tile {
        face_id: 30,
        position: layout.positions[142],
    });
    state.board.tiles[143] = Some(Tile {
        face_id: 30,
        position: layout.positions[143],
    });

    select_tile(&mut state, 142);
    select_tile(&mut state, 143);

    assert_eq!(state.undo_stack.len(), 10);
    // The last entry should be our match
    assert_eq!(state.undo_stack[9].tile_a.face_id, 30);

    // Now add one more — stack should still be 10, oldest removed
    state.board.tiles[140] = Some(Tile {
        face_id: 25,
        position: layout.positions[140],
    });
    state.board.tiles[141] = Some(Tile {
        face_id: 25,
        position: layout.positions[141],
    });

    // Positions 140-141 are on layer 3; the layer 4 tiles above are gone.
    select_tile(&mut state, 140);
    select_tile(&mut state, 141);

    assert_eq!(state.undo_stack.len(), 10);
    assert_eq!(state.undo_stack[9].tile_a.face_id, 25);
}

#[test]
fn match_dismisses_active_hint() {
    let layout = turtle_layout();
    let mut board = Board::new(&layout);

    board.tiles[142] = Some(Tile {
        face_id: 5,
        position: layout.positions[142],
    });
    board.tiles[143] = Some(Tile {
        face_id: 5,
        position: layout.positions[143],
    });

    let mut state = make_state(board);
    state.hint = Some(HintState {
        position_a: 142,
        position_b: 143,
        activated_at: Instant::now(),
    });

    select_tile(&mut state, 142);
    // Hint should be dismissed on first valid selection
    assert!(state.hint.is_none());
}

#[test]
fn free_tiles_recalculated_after_match() {
    let layout = turtle_layout();
    let mut board = Board::new(&layout);

    // Fill all positions
    for i in 0..144 {
        board.tiles[i] = Some(Tile {
            face_id: (i % 50) as u8,
            position: layout.positions[i],
        });
    }

    // Make top-layer tiles have the same face_id for a valid match
    board.tiles[142] = Some(Tile {
        face_id: 35,
        position: layout.positions[142],
    });
    board.tiles[143] = Some(Tile {
        face_id: 35,
        position: layout.positions[143],
    });

    let mut state = make_state(board);

    // Before match, layer 3 tiles blocked by layer 4 should not be free
    let free_before = state.board.free_tiles();
    // Layer 3 tiles that are blocked by positions 142/143 should not be in free set
    let layer3_blocked: Vec<usize> = (0..144)
        .filter(|&i| {
            layout.positions[i].layer == 3
                && layout.blocking[i]
                    .blocked_by
                    .iter()
                    .any(|&b| b == 142 || b == 143)
        })
        .collect();

    for &idx in &layer3_blocked {
        assert!(
            !free_before.contains(&idx),
            "Layer 3 tile at {} should not be free before removing layer 4",
            idx
        );
    }

    // Match the top-layer pair
    select_tile(&mut state, 142);
    select_tile(&mut state, 143);

    // After match, layer 3 tiles that were only blocked by 142/143 may now be free
    let free_after = state.board.free_tiles();
    // At least verify the removed tiles are not in free set
    assert!(!free_after.contains(&142));
    assert!(!free_after.contains(&143));
}

#[test]
fn undo_after_match_restores_tiles() {
    let layout = turtle_layout();
    let mut board = Board::new(&layout);

    let tile_a = Tile {
        face_id: 12,
        position: layout.positions[142],
    };
    let tile_b = Tile {
        face_id: 12,
        position: layout.positions[143],
    };

    board.tiles[142] = Some(tile_a);
    board.tiles[143] = Some(tile_b);

    let mut state = make_state(board);

    // Match the pair
    select_tile(&mut state, 142);
    select_tile(&mut state, 143);

    // Tiles should be removed
    assert!(state.board.tiles[142].is_none());
    assert!(state.board.tiles[143].is_none());
    assert_eq!(state.undo_stack.len(), 1);

    // Undo the match
    let result = undo(&mut state);
    assert_eq!(result, Ok(()));

    // Tiles should be restored
    assert_eq!(state.board.tiles[142], Some(tile_a));
    assert_eq!(state.board.tiles[143], Some(tile_b));
    assert_eq!(state.undo_stack.len(), 0);
}

#[test]
fn undo_on_empty_stack_returns_error() {
    let layout = turtle_layout();
    let board = Board::new(&layout);
    let mut state = make_state(board);

    assert!(state.undo_stack.is_empty());
    let result = undo(&mut state);
    assert_eq!(result, Err(UndoError::EmptyStack));
}

#[test]
fn undo_clears_current_selection() {
    let layout = turtle_layout();
    let mut board = Board::new(&layout);

    board.tiles[142] = Some(Tile {
        face_id: 8,
        position: layout.positions[142],
    });
    board.tiles[143] = Some(Tile {
        face_id: 8,
        position: layout.positions[143],
    });

    let mut state = make_state(board);

    // Match the pair
    select_tile(&mut state, 142);
    select_tile(&mut state, 143);

    // Simulate a selection being active before undo
    // (e.g., user selected another tile, then triggered undo)
    state.board.tiles[140] = Some(Tile {
        face_id: 3,
        position: layout.positions[140],
    });
    state.selection = Some(140);

    // Undo should clear selection
    let result = undo(&mut state);
    assert_eq!(result, Ok(()));
    assert_eq!(state.selection, None);
}

// =========================================================================
// Shuffle tests
// =========================================================================

/// Helper to create a board with multiple pairs of free tiles for shuffle testing.
/// Places 4 tiles at top layer positions (142, 143) and layer 3 positions (140, 141)
/// all with the same face_id so that any shuffle permutation always guarantees a valid
/// pair among the free tiles (142, 143).
fn make_shuffleable_state() -> GameState {
    let layout = turtle_layout();
    let mut board = Board::new(&layout);

    // Use the same face_id for all 4 tiles to guarantee that any permutation
    // of face_ids will always produce a valid pair at the free positions (142, 143).
    board.tiles[142] = Some(Tile {
        face_id: 1,
        position: layout.positions[142],
    });
    board.tiles[143] = Some(Tile {
        face_id: 1,
        position: layout.positions[143],
    });
    board.tiles[140] = Some(Tile {
        face_id: 1,
        position: layout.positions[140],
    });
    board.tiles[141] = Some(Tile {
        face_id: 1,
        position: layout.positions[141],
    });

    make_state(board)
}

#[test]
fn shuffle_rearranges_face_ids() {
    let mut state = make_shuffleable_state();

    // Collect the face_ids before shuffling (as a multiset)
    let faces_before: Vec<u8> = (0..state.board.tiles.len())
        .filter_map(|i| state.board.tiles[i].map(|t| t.face_id))
        .collect();
    let mut sorted_before = faces_before.clone();
    sorted_before.sort();

    let result = shuffle(&mut state);
    assert_eq!(result, Ok(()));

    // Collect post-shuffle face_ids
    let shuffled_faces: Vec<u8> = (0..state.board.tiles.len())
        .filter_map(|i| state.board.tiles[i].map(|t| t.face_id))
        .collect();
    let mut shuffled_sorted = shuffled_faces.clone();
    shuffled_sorted.sort();

    // Multiset of face_ids should be preserved
    assert_eq!(sorted_before, shuffled_sorted);
}

#[test]
fn shuffle_fails_when_no_shuffles_remaining() {
    let mut state = make_shuffleable_state();
    state.shuffles_remaining = 0;

    let result = shuffle(&mut state);
    assert_eq!(result, Err(ShuffleError::NoShufflesRemaining));
}

#[test]
fn shuffle_clears_undo_stack() {
    let mut state = make_shuffleable_state();

    // Pre-fill undo stack with some entries
    let layout = turtle_layout();
    state.undo_stack.push(UndoEntry {
        tile_a: Tile {
            face_id: 5,
            position: layout.positions[0],
        },
        tile_b: Tile {
            face_id: 5,
            position: layout.positions[1],
        },
        position_a: 0,
        position_b: 1,
    });
    assert!(!state.undo_stack.is_empty());

    let result = shuffle(&mut state);
    assert_eq!(result, Ok(()));

    // Undo stack should be cleared
    assert!(state.undo_stack.is_empty());
}

#[test]
fn shuffle_clears_selection() {
    let mut state = make_shuffleable_state();

    // Set a selection
    state.selection = Some(142);

    let result = shuffle(&mut state);
    assert_eq!(result, Ok(()));

    // Selection should be cleared
    assert_eq!(state.selection, None);
}

#[test]
fn shuffle_decrements_shuffles_remaining() {
    let mut state = make_shuffleable_state();
    assert_eq!(state.shuffles_remaining, 3);

    let result = shuffle(&mut state);
    assert_eq!(result, Ok(()));
    assert_eq!(state.shuffles_remaining, 2);

    let result = shuffle(&mut state);
    assert_eq!(result, Ok(()));
    assert_eq!(state.shuffles_remaining, 1);

    let result = shuffle(&mut state);
    assert_eq!(result, Ok(()));
    assert_eq!(state.shuffles_remaining, 0);

    // Fourth shuffle should fail
    let result = shuffle(&mut state);
    assert_eq!(result, Err(ShuffleError::NoShufflesRemaining));
}

#[test]
fn shuffle_increments_shuffles_used() {
    let mut state = make_shuffleable_state();
    assert_eq!(state.score.shuffles_used, 0);

    let _ = shuffle(&mut state);
    assert_eq!(state.score.shuffles_used, 1);
}

#[test]
fn shuffle_adds_animation() {
    let mut state = make_shuffleable_state();
    assert!(state.animations.is_empty());

    let _ = shuffle(&mut state);
    assert_eq!(state.animations.len(), 1);

    match state.animations[0] {
        Animation::Shuffle { duration_ms, .. } => {
            assert_eq!(duration_ms, 500);
        }
        _ => panic!("Expected Shuffle animation"),
    }
}

// =========================================================================
// Hint and game-over detection tests
// =========================================================================

#[test]
fn request_hint_valid_pairs_exist_sets_hint_state() {
    let layout = turtle_layout();
    let mut board = Board::new(&layout);

    // Place a matching pair at top layer
    board.tiles[142] = Some(Tile {
        face_id: 10,
        position: layout.positions[142],
    });
    board.tiles[143] = Some(Tile {
        face_id: 10,
        position: layout.positions[143],
    });

    let mut state = make_state(board);
    assert!(state.hint.is_none());
    assert_eq!(state.score.hints_used, 0);

    let result = request_hint(&mut state);

    assert_eq!(result, HintResult::Found(142, 143));
    assert!(state.hint.is_some());
    let hint = state.hint.unwrap();
    assert_eq!(hint.position_a, 142);
    assert_eq!(hint.position_b, 143);
    assert_eq!(state.score.hints_used, 1);
}

#[test]
fn request_hint_no_valid_pairs_returns_no_matches() {
    let layout = turtle_layout();
    let mut board = Board::new(&layout);

    // Place two tiles with different face_ids — no valid pair
    board.tiles[142] = Some(Tile {
        face_id: 10,
        position: layout.positions[142],
    });
    board.tiles[143] = Some(Tile {
        face_id: 20,
        position: layout.positions[143],
    });

    let mut state = make_state(board);

    let result = request_hint(&mut state);

    assert_eq!(result, HintResult::NoMatchesAvailable);
    assert!(state.hint.is_none());
    assert_eq!(state.score.hints_used, 0);
}

#[test]
fn request_hint_replaces_existing_hint() {
    let layout = turtle_layout();
    let mut board = Board::new(&layout);

    // Place a matching pair at top layer
    board.tiles[142] = Some(Tile {
        face_id: 10,
        position: layout.positions[142],
    });
    board.tiles[143] = Some(Tile {
        face_id: 10,
        position: layout.positions[143],
    });

    let mut state = make_state(board);

    // Set a previous hint (different positions, simulating a stale hint)
    state.hint = Some(HintState {
        position_a: 0,
        position_b: 1,
        activated_at: Instant::now(),
    });

    let result = request_hint(&mut state);

    // Should replace the old hint with the new valid pair
    assert_eq!(result, HintResult::Found(142, 143));
    let hint = state.hint.unwrap();
    assert_eq!(hint.position_a, 142);
    assert_eq!(hint.position_b, 143);
    // hints_used should be incremented
    assert_eq!(state.score.hints_used, 1);
}

#[test]
fn check_game_over_board_empty_returns_won() {
    let layout = turtle_layout();
    let board = Board::new(&layout);
    let state = make_state(board);

    // Empty board — all tiles cleared
    assert_eq!(state.board.remaining_count(), 0);
    let result = check_game_over(&state);
    assert_eq!(result, Some(GameOverReason::Won));
}

#[test]
fn check_game_over_no_valid_pairs_returns_lost() {
    let layout = turtle_layout();
    let mut board = Board::new(&layout);

    // Place tiles with different face_ids so no valid pairs exist
    board.tiles[142] = Some(Tile {
        face_id: 10,
        position: layout.positions[142],
    });
    board.tiles[143] = Some(Tile {
        face_id: 20,
        position: layout.positions[143],
    });

    let state = make_state(board);

    assert_eq!(state.board.remaining_count(), 2);
    let result = check_game_over(&state);
    assert_eq!(result, Some(GameOverReason::Lost));
}

#[test]
fn check_game_over_valid_pairs_exist_returns_none() {
    let layout = turtle_layout();
    let mut board = Board::new(&layout);

    // Place a matching pair — game is still in progress
    board.tiles[142] = Some(Tile {
        face_id: 10,
        position: layout.positions[142],
    });
    board.tiles[143] = Some(Tile {
        face_id: 10,
        position: layout.positions[143],
    });

    let state = make_state(board);

    let result = check_game_over(&state);
    assert_eq!(result, None);
}

#[test]
fn request_hint_increments_hints_used_each_time() {
    let layout = turtle_layout();
    let mut board = Board::new(&layout);

    board.tiles[142] = Some(Tile {
        face_id: 10,
        position: layout.positions[142],
    });
    board.tiles[143] = Some(Tile {
        face_id: 10,
        position: layout.positions[143],
    });

    let mut state = make_state(board);

    request_hint(&mut state);
    assert_eq!(state.score.hints_used, 1);

    request_hint(&mut state);
    assert_eq!(state.score.hints_used, 2);

    request_hint(&mut state);
    assert_eq!(state.score.hints_used, 3);
}


// A shuffle really rearranges a full board: the faces, read in position
// order, come out in another order, while each face keeps its count.
#[test]
fn shuffle_moves_faces_around() {
    let layout = turtle_layout();
    let board = xmahjong::generator::BoardGenerator::new(31).generate(&layout, 5).unwrap();
    let mut state = make_state(board);
    let before: Vec<u8> = state.board.tiles.iter().map(|t| t.unwrap().face_id).collect();
    assert_eq!(shuffle(&mut state), Ok(()));
    let after: Vec<u8> = state.board.tiles.iter().map(|t| t.unwrap().face_id).collect();
    assert_ne!(before, after);
    let mut a = before.clone();
    let mut b = after.clone();
    a.sort();
    b.sort();
    assert_eq!(a, b);
    assert!(!state.board.valid_pairs().is_empty());
}

// The hinted pair is a pair that clicking removes.
#[test]
fn clicking_the_hinted_pair_removes_it() {
    let layout = turtle_layout();
    let board = xmahjong::generator::BoardGenerator::new(8).generate(&layout, 5).unwrap();
    let mut state = make_state(board);
    let (a, b) = match request_hint(&mut state) {
        HintResult::Found(a, b) => (a, b),
        HintResult::NoMatchesAvailable => panic!("a fresh board has a pair"),
    };
    assert_eq!(select_tile(&mut state, a), SelectionResult::Selected);
    assert_eq!(select_tile(&mut state, b), SelectionResult::Matched(a, b));
    assert!(state.board.tiles[a].is_none() && state.board.tiles[b].is_none());
    assert_eq!(state.board.remaining_count(), 142);
}
