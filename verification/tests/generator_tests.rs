use std::collections::HashMap;
use std::rc::Rc;
use xmahjong::board::{turtle_layout, BlockingRelation, Layout, TilePosition};
use xmahjong::generator::{BoardGenerator, GenerationError};

#[test]
fn generates_board_successfully() {
    let layout = turtle_layout();
    let mut generator = BoardGenerator::new(42);
    let result = generator.generate(&layout, 5);
    assert!(result.is_ok(), "Board generation should succeed");
}

#[test]
fn generated_board_has_144_tiles() {
    let layout = turtle_layout();
    let mut generator = BoardGenerator::new(123);
    let board = generator.generate(&layout, 5).unwrap();
    assert_eq!(board.remaining_count(), 144);
}

#[test]
fn each_face_id_appears_exactly_4_times() {
    let layout = turtle_layout();
    let mut generator = BoardGenerator::new(456);
    let board = generator.generate(&layout, 5).unwrap();

    let mut face_counts: HashMap<u8, usize> = HashMap::new();
    for tile in board.tiles.iter().flatten() {
        *face_counts.entry(tile.face_id).or_insert(0) += 1;
    }

    assert_eq!(face_counts.len(), 36);

    for (&face_id, &count) in &face_counts {
        assert_eq!(count, 4, "Face ID {} appears {} times, expected 4", face_id, count);
    }
}

#[test]
fn different_seeds_produce_different_boards() {
    let layout = turtle_layout();

    let mut gen1 = BoardGenerator::new(100);
    let board1 = gen1.generate(&layout, 5).unwrap();

    let mut gen2 = BoardGenerator::new(200);
    let board2 = gen2.generate(&layout, 5).unwrap();

    let faces1: Vec<u8> = board1.tiles.iter().map(|t| t.unwrap().face_id).collect();
    let faces2: Vec<u8> = board2.tiles.iter().map(|t| t.unwrap().face_id).collect();

    assert_ne!(faces1, faces2, "Different seeds should produce different boards");
}

#[test]
fn same_seed_produces_same_board() {
    let layout = turtle_layout();

    let mut gen1 = BoardGenerator::new(999);
    let board1 = gen1.generate(&layout, 5).unwrap();

    let mut gen2 = BoardGenerator::new(999);
    let board2 = gen2.generate(&layout, 5).unwrap();

    let faces1: Vec<u8> = board1.tiles.iter().map(|t| t.unwrap().face_id).collect();
    let faces2: Vec<u8> = board2.tiles.iter().map(|t| t.unwrap().face_id).collect();

    assert_eq!(faces1, faces2, "Same seed should produce identical boards");
}

#[test]
fn all_tiles_have_valid_positions() {
    let layout = turtle_layout();
    let mut generator = BoardGenerator::new(789);
    let board = generator.generate(&layout, 5).unwrap();

    for (i, tile) in board.tiles.iter().enumerate() {
        let tile = tile.unwrap();
        assert_eq!(tile.position, layout.positions[i], "Tile at index {} has wrong position", i);
    }
}

#[test]
fn face_ids_are_in_valid_range() {
    let layout = turtle_layout();
    let mut generator = BoardGenerator::new(321);
    let board = generator.generate(&layout, 5).unwrap();

    for tile in board.tiles.iter().flatten() {
        assert!(tile.face_id < 50, "Face ID {} is out of range 0..49", tile.face_id);
    }
}

// A generated board is solvable: removing the recorded pairs in order always
// removes two free tiles with the same face and clears the board.
#[test]
fn generated_solution_clears_the_board() {
    let layout = turtle_layout();
    let mut generator = BoardGenerator::new(2024);
    let (mut board, order) = generator.generate_with_solution(&layout, 5).unwrap();
    assert_eq!(order.len(), 72);
    for &(a, b) in &order {
        assert!(board.is_free(a) && board.is_free(b));
        assert_eq!(board.tiles[a].unwrap().face_id, board.tiles[b].unwrap().face_id);
        board.remove_pair(a, b);
    }
    assert_eq!(board.remaining_count(), 0);
}

// Smaller boards: exactly the requested number of tiles, each face on four of them.
#[test]
fn tile_count_boards_have_the_requested_size() {
    let layout = turtle_layout();
    let mut generator = BoardGenerator::new(7);
    let board = generator.generate_with_tile_count(&layout, 36, 10).unwrap();
    assert_eq!(board.remaining_count(), 36);
    let mut counts: HashMap<u8, usize> = HashMap::new();
    for tile in board.tiles.iter().flatten() {
        *counts.entry(tile.face_id).or_insert(0) += 1;
    }
    assert_eq!(counts.len(), 9);
    assert!(counts.values().all(|&c| c == 4));
}

// Faces come from the given pool only.
#[test]
fn pool_boards_use_only_pool_faces() {
    let layout = turtle_layout();
    let mut generator = BoardGenerator::new(11);
    let pool: Vec<u8> = (100..140).collect();
    let board = generator.generate_with_faces(&layout, 48, &pool, 10).unwrap();
    assert_eq!(board.remaining_count(), 48);
    for tile in board.tiles.iter().flatten() {
        assert!(pool.contains(&tile.face_id));
    }
}

// Zero attempts always fail.
#[test]
fn zero_attempts_fail() {
    let layout = turtle_layout();
    let mut generator = BoardGenerator::new(5);
    assert_eq!(generator.generate(&layout, 0).err(), Some(GenerationError::MaxAttemptsExceeded));
}

/// Eight slots on one layer, far enough apart that none blocks another.
fn spread_out_layout() -> Rc<Layout> {
    let positions: Vec<TilePosition> = (0..8u8).map(|i| TilePosition { layer: 0, row: 0, col: 4 * i }).collect();
    let blocking = (0..8usize)
        .map(|i| BlockingRelation { position: i, blocked_by: Vec::new(), left_adjacent: Vec::new(), right_adjacent: Vec::new() })
        .collect();
    Rc::new(Layout { positions, blocking })
}

#[test]
fn unblocked_layouts_always_deal() {
    let layout = spread_out_layout();
    for seed in 0..20u64 {
        let mut generator = BoardGenerator::new(seed);
        let board = generator.generate_with_tile_count(&layout, 8, 1).unwrap();
        assert_eq!(board.remaining_count(), 8);
        let mut generator = BoardGenerator::new(seed);
        assert!(generator.generate_with_faces(&layout, 4, &[7, 9], 1).is_ok());
        let mut generator = BoardGenerator::new(seed);
        assert!(generator.generate_with_tile_count(&layout, 8, 0).is_err());
    }
}
