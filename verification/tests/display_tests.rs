use xmahjong::board::turtle_layout;
use xmahjong::display::{bitmap_glyph, bitmap_text_cells, compute_tile_geometry, hud_labels, name_field_layout, topmost_hit, UiTextures};

#[test]
fn glyphs_ignore_letter_case() {
    let upper = bitmap_glyph('A');
    assert_eq!(upper, Some([0b01110, 0b10001, 0b10001, 0b11111, 0b10001, 0b10001, 0b10001]));
    assert_eq!(bitmap_glyph('a'), upper);
    assert_eq!(bitmap_glyph('z'), bitmap_glyph('Z'));
    assert_eq!(bitmap_glyph(':'), Some([0, 0b00100, 0b00100, 0, 0b00100, 0b00100, 0]));
    assert_eq!(bitmap_glyph('~'), None);
    assert_eq!(bitmap_glyph('é'), None);
}

#[test]
fn every_supported_character_has_five_pixel_rows() {
    let supported = "ABCDEFGHIJKLMNOPQRSTUVWXYZ0123456789 :?!-/+.,()";
    for ch in supported.chars() {
        let rows = bitmap_glyph(ch).unwrap();
        assert!(rows.iter().all(|&r| r < 32), "glyph for {:?} is wider than five pixels", ch);
    }
}

#[test]
fn text_cells_of_one_letter() {
    // 'I': a bar of three on top and bottom, a single stem in between.
    let cells = bitmap_text_cells("I", 10, 20, 2);
    let expected: Vec<(i32, i32)> = vec![
        (12, 20), (14, 20), (16, 20),
        (14, 22), (14, 24), (14, 26), (14, 28), (14, 30),
        (12, 32), (14, 32), (16, 32),
    ];
    assert_eq!(cells, expected);
}

#[test]
fn text_cells_advance_six_pixels_per_character() {
    let one = bitmap_text_cells("-", 0, 0, 3);
    assert_eq!(one, vec![(0, 9), (3, 9), (6, 9), (9, 9), (12, 9)]);
    // An unknown character leaves a gap of one character.
    let two = bitmap_text_cells("~-", 0, 0, 3);
    assert_eq!(two, vec![(18, 9), (21, 9), (24, 9), (27, 9), (30, 9)]);
    assert!(bitmap_text_cells("   ", 5, 5, 1).is_empty());
}

#[test]
fn tile_geometry_of_the_turtle() {
    let layout = turtle_layout();
    assert_eq!(compute_tile_geometry(&layout, 0, 0, 1000, 800), (66, 82, 5, 72));
    assert_eq!(compute_tile_geometry(&layout, 10, -4, 100, 800), (6, 7, 15, 371));
}

#[test]
fn name_field_bar_and_cursor() {
    assert_eq!(name_field_layout(0), (0, 0));
    assert_eq!(name_field_layout(10), (140, 140));
    assert_eq!(name_field_layout(22), (308, 308));
    assert_eq!(name_field_layout(30), (312, 308));
}

#[test]
fn hud_counters() {
    let (score, shuffles) = hud_labels(680, 2);
    assert_eq!(score, "SCORE 680");
    assert_eq!(shuffles, "SHUFFLE 2");
    assert_eq!(hud_labels(0, 0), ("SCORE 0".to_string(), "SHUFFLE 0".to_string()));
    let textures = UiTextures { loaded: false };
    assert!(!textures.loaded);
}

#[test]
fn clicks_pick_the_topmost_tile_under_the_pointer() {
    let layers = vec![0u8, 1, 2, 2, 5, 1];
    let present = vec![true, true, true, true, true, false];
    let hits = vec![true, true, true, true, true, true];
    assert_eq!(topmost_hit(&layers, &present, &hits), Some(2));

    let hits_lower = vec![true, true, false, false, true, true];
    assert_eq!(topmost_hit(&layers, &present, &hits_lower), Some(1));

    let none_present = vec![false; 6];
    assert_eq!(topmost_hit(&layers, &none_present, &hits), None);

    let only_above_top = vec![false, false, false, false, true, false];
    assert_eq!(topmost_hit(&layers, &present, &only_above_top), None);
}
