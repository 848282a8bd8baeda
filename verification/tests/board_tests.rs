use std::collections::HashSet;
use xmahjong::board::{turtle_layout, turtle_positions, Board, Tile};

#[test]
fn turtle_layout_has_144_positions() {
    assert_eq!(turtle_positions().len(), 144);
}

#[test]
fn turtle_layout_has_5_layers() {
    let max_layer = turtle_positions().iter().map(|p| p.layer).max().unwrap();
    assert_eq!(max_layer, 4);
}

#[test]
fn turtle_layout_layer_counts() {
    let positions = turtle_positions();
    let layer_0 = positions.iter().filter(|p| p.layer == 0).count();
    let layer_1 = positions.iter().filter(|p| p.layer == 1).count();
    let layer_2 = positions.iter().filter(|p| p.layer == 2).count();
    let layer_3 = positions.iter().filter(|p| p.layer == 3).count();
    let layer_4 = positions.iter().filter(|p| p.layer == 4).count();

    assert_eq!(layer_0, 86);
    assert_eq!(layer_1, 36);
    assert_eq!(layer_2, 16);
    assert_eq!(layer_3, 4);
    assert_eq!(layer_4, 2);
    assert_eq!(layer_0 + layer_1 + layer_2 + layer_3 + layer_4, 144);
}

#[test]
fn turtle_layout_no_duplicate_positions() {
    let mut seen = HashSet::new();
    for pos in turtle_positions().iter() {
        assert!(
            seen.insert((pos.layer, pos.row, pos.col)),
            "Duplicate position: layer={}, row={}, col={}",
            pos.layer,
            pos.row,
            pos.col
        );
    }
}

#[test]
fn blocking_relations_computed_correctly() {
    let layout = turtle_layout();
    assert_eq!(layout.blocking.len(), 144);

    for rel in &layout.blocking {
        let pos = &layout.positions[rel.position];
        if pos.layer == 4 {
            assert!(
                rel.blocked_by.is_empty(),
                "Top layer tile at ({},{},{}) should not be blocked from above",
                pos.layer,
                pos.row,
                pos.col
            );
        }
    }

    let layer_4_indices: Vec<usize> = layout
        .positions
        .iter()
        .enumerate()
        .filter(|(_, p)| p.layer == 4)
        .map(|(i, _)| i)
        .collect();

    let layer_3_indices: Vec<usize> = layout
        .positions
        .iter()
        .enumerate()
        .filter(|(_, p)| p.layer == 3)
        .map(|(i, _)| i)
        .collect();

    let any_blocked = layer_3_indices.iter().any(|&i| {
        layout.blocking[i]
            .blocked_by
            .iter()
            .any(|&b| layer_4_indices.contains(&b))
    });
    assert!(any_blocked, "Some layer 3 tiles should be blocked by layer 4 tiles");
}

#[test]
fn board_new_creates_empty_board() {
    let layout = turtle_layout();
    let board = Board::new(&layout);
    assert_eq!(board.tiles.len(), 144);
    assert!(board.tiles.iter().all(|t| t.is_none()));
    assert_eq!(board.remaining_count(), 0);
}

#[test]
fn board_is_free_returns_false_for_empty_position() {
    let layout = turtle_layout();
    let board = Board::new(&layout);
    assert!(!board.is_free(0));
}

#[test]
fn board_is_free_top_layer_tiles_are_free() {
    let layout = turtle_layout();
    let mut board = Board::new(&layout);

    let tile_142 = Tile { face_id: 0, position: layout.positions[142] };
    let tile_143 = Tile { face_id: 0, position: layout.positions[143] };
    board.tiles[142] = Some(tile_142);
    board.tiles[143] = Some(tile_143);

    assert!(board.is_free(142));
    assert!(board.is_free(143));
}

#[test]
fn board_is_free_blocked_from_above() {
    let layout = turtle_layout();
    let mut board = Board::new(&layout);

    let layer_3_idx = layout
        .positions
        .iter()
        .enumerate()
        .find(|(_, p)| p.layer == 3)
        .map(|(i, _)| i)
        .unwrap();

    board.tiles[layer_3_idx] = Some(Tile { face_id: 1, position: layout.positions[layer_3_idx] });

    let blocker = layout.blocking[layer_3_idx]
        .blocked_by
        .iter()
        .find(|&&b| layout.positions[b].layer == 4)
        .copied();

    if let Some(blocker_idx) = blocker {
        board.tiles[blocker_idx] = Some(Tile { face_id: 2, position: layout.positions[blocker_idx] });
        assert!(!board.is_free(layer_3_idx));
    }
}

#[test]
fn board_is_free_blocked_on_both_sides() {
    let layout = turtle_layout();
    let mut board = Board::new(&layout);

    let target = layout
        .blocking
        .iter()
        .find(|rel| !rel.left_adjacent.is_empty() && !rel.right_adjacent.is_empty());

    if let Some(rel) = target {
        let pos = rel.position;
        board.tiles[pos] = Some(Tile { face_id: 5, position: layout.positions[pos] });
        for &left in &rel.left_adjacent {
            board.tiles[left] = Some(Tile { face_id: 6, position: layout.positions[left] });
        }
        for &right in &rel.right_adjacent {
            board.tiles[right] = Some(Tile { face_id: 7, position: layout.positions[right] });
        }
        assert!(!board.is_free(pos));
    }
}

#[test]
fn board_free_tiles_empty_board() {
    let layout = turtle_layout();
    let board = Board::new(&layout);
    assert!(board.free_tiles().is_empty());
}

#[test]
fn board_free_tiles_only_top_layer() {
    let layout = turtle_layout();
    let mut board = Board::new(&layout);

    board.tiles[142] = Some(Tile { face_id: 0, position: layout.positions[142] });
    board.tiles[143] = Some(Tile { face_id: 0, position: layout.positions[143] });

    let free = board.free_tiles();
    assert_eq!(free.len(), 2);
    assert!(free.contains(&142));
    assert!(free.contains(&143));
}

#[test]
fn board_valid_pairs_matching_faces() {
    let layout = turtle_layout();
    let mut board = Board::new(&layout);

    board.tiles[142] = Some(Tile { face_id: 10, position: layout.positions[142] });
    board.tiles[143] = Some(Tile { face_id: 10, position: layout.positions[143] });

    let pairs = board.valid_pairs();
    assert_eq!(pairs.len(), 1);
    assert_eq!(pairs[0], (142, 143));
}

#[test]
fn board_valid_pairs_no_match_different_faces() {
    let layout = turtle_layout();
    let mut board = Board::new(&layout);

    board.tiles[142] = Some(Tile { face_id: 10, position: layout.positions[142] });
    board.tiles[143] = Some(Tile { face_id: 20, position: layout.positions[143] });

    let pairs = board.valid_pairs();
    assert!(pairs.is_empty());
}

#[test]
fn board_remove_pair() {
    let layout = turtle_layout();
    let mut board = Board::new(&layout);

    board.tiles[142] = Some(Tile { face_id: 5, position: layout.positions[142] });
    board.tiles[143] = Some(Tile { face_id: 5, position: layout.positions[143] });

    assert_eq!(board.remaining_count(), 2);
    board.remove_pair(142, 143);
    assert_eq!(board.remaining_count(), 0);
    assert!(board.tiles[142].is_none());
    assert!(board.tiles[143].is_none());
}

#[test]
fn board_restore_pair() {
    let layout = turtle_layout();
    let mut board = Board::new(&layout);

    let tile_a = Tile { face_id: 5, position: layout.positions[142] };
    let tile_b = Tile { face_id: 5, position: layout.positions[143] };

    board.restore_pair(142, 143, tile_a, tile_b);
    assert_eq!(board.remaining_count(), 2);
    assert_eq!(board.tiles[142], Some(tile_a));
    assert_eq!(board.tiles[143], Some(tile_b));
}

#[test]
fn board_remove_and_restore_round_trip() {
    let layout = turtle_layout();
    let mut board = Board::new(&layout);

    let tile_a = Tile { face_id: 12, position: layout.positions[142] };
    let tile_b = Tile { face_id: 12, position: layout.positions[143] };

    board.tiles[142] = Some(tile_a);
    board.tiles[143] = Some(tile_b);

    board.remove_pair(142, 143);
    assert_eq!(board.remaining_count(), 0);

    board.restore_pair(142, 143, tile_a, tile_b);
    assert_eq!(board.remaining_count(), 2);
    assert_eq!(board.tiles[142], Some(tile_a));
    assert_eq!(board.tiles[143], Some(tile_b));
}

#[test]
fn board_remaining_count_full_board() {
    let layout = turtle_layout();
    let mut board = Board::new(&layout);

    for i in 0..144 {
        board.tiles[i] = Some(Tile { face_id: (i % 36) as u8, position: layout.positions[i] });
    }

    assert_eq!(board.remaining_count(), 144);
}

#[test]
fn board_free_tiles_updates_after_removal() {
    let layout = turtle_layout();
    let mut board = Board::new(&layout);

    for i in 0..144 {
        board.tiles[i] = Some(Tile { face_id: (i % 36) as u8, position: layout.positions[i] });
    }

    let free_before = board.free_tiles();
    assert!(free_before.contains(&142) || free_before.contains(&143));

    board.remove_pair(142, 143);

    let free_after = board.free_tiles();
    assert!(!free_after.contains(&142));
    assert!(!free_after.contains(&143));
}

// Freeness follows the layout's geometry: a layer-0 corner tile with nothing
// around it is free, and stops being free once tiles sit on both of its sides.
#[test]
fn board_free_matches_geometry_on_a_row() {
    let layout = turtle_layout();
    let mut board = Board::new(&layout);
    // Positions 0..12 are the first row of the bottom layer, left to right.
    for i in 0..3 {
        board.tiles[i] = Some(Tile { face_id: 1, position: layout.positions[i] });
    }
    assert!(board.is_free(0));
    assert!(!board.is_free(1));
    assert!(board.is_free(2));
    // Removing the tile on one side frees the middle one.
    board.tiles[0] = None;
    assert!(board.is_free(1));
}
