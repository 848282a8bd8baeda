//! What the screen shows that is not floating-point geometry: the built-in
//! 5x7 bitmap font and the grid cells that a line of its text fills.

use vstd::prelude::*;
use crate::board::{Layout, TilePosition};
use crate::text::{decimal, push_decimal, string_of};

verus! {

/// Which UI textures were found.
pub struct UiTextures {
    /// Whether real UI textures were loaded successfully.
    pub loaded: bool,
}

/// The 5x7 glyph of `ch` in the built-in font, or `None` where the font has
/// none. Each of the seven rows is a byte whose bits 4 to 0 are the pixels from
/// left to right. Letters are drawn in capitals whatever their case.
pub open spec fn glyph_rows(ch: char) -> Option<Seq<u8>> {
    match ch {
        'A' | 'a' => Some(seq![0b01110u8, 0b10001u8, 0b10001u8, 0b11111u8, 0b10001u8, 0b10001u8, 0b10001u8]),
        'B' | 'b' => Some(seq![0b11110u8, 0b10001u8, 0b10001u8, 0b11110u8, 0b10001u8, 0b10001u8, 0b11110u8]),
        'C' | 'c' => Some(seq![0b01110u8, 0b10001u8, 0b10000u8, 0b10000u8, 0b10000u8, 0b10001u8, 0b01110u8]),
        'D' | 'd' => Some(seq![0b11110u8, 0b10001u8, 0b10001u8, 0b10001u8, 0b10001u8, 0b10001u8, 0b11110u8]),
        'E' | 'e' => Some(seq![0b11111u8, 0b10000u8, 0b10000u8, 0b11110u8, 0b10000u8, 0b10000u8, 0b11111u8]),
        'F' | 'f' => Some(seq![0b11111u8, 0b10000u8, 0b10000u8, 0b11110u8, 0b10000u8, 0b10000u8, 0b10000u8]),
        'G' | 'g' => Some(seq![0b01110u8, 0b10001u8, 0b10000u8, 0b10111u8, 0b10001u8, 0b10001u8, 0b01110u8]),
        'H' | 'h' => Some(seq![0b10001u8, 0b10001u8, 0b10001u8, 0b11111u8, 0b10001u8, 0b10001u8, 0b10001u8]),
        'I' | 'i' => Some(seq![0b01110u8, 0b00100u8, 0b00100u8, 0b00100u8, 0b00100u8, 0b00100u8, 0b01110u8]),
        'J' | 'j' => Some(seq![0b00111u8, 0b00010u8, 0b00010u8, 0b00010u8, 0b00010u8, 0b10010u8, 0b01100u8]),
        'K' | 'k' => Some(seq![0b10001u8, 0b10010u8, 0b10100u8, 0b11000u8, 0b10100u8, 0b10010u8, 0b10001u8]),
        'L' | 'l' => Some(seq![0b10000u8, 0b10000u8, 0b10000u8, 0b10000u8, 0b10000u8, 0b10000u8, 0b11111u8]),
        'M' | 'm' => Some(seq![0b10001u8, 0b11011u8, 0b10101u8, 0b10101u8, 0b10001u8, 0b10001u8, 0b10001u8]),
        'N' | 'n' => Some(seq![0b10001u8, 0b11001u8, 0b10101u8, 0b10011u8, 0b10001u8, 0b10001u8, 0b10001u8]),
        'O' | 'o' => Some(seq![0b01110u8, 0b10001u8, 0b10001u8, 0b10001u8, 0b10001u8, 0b10001u8, 0b01110u8]),
        'P' | 'p' => Some(seq![0b11110u8, 0b10001u8, 0b10001u8, 0b11110u8, 0b10000u8, 0b10000u8, 0b10000u8]),
        'Q' | 'q' => Some(seq![0b01110u8, 0b10001u8, 0b10001u8, 0b10001u8, 0b10101u8, 0b10010u8, 0b01101u8]),
        'R' | 'r' => Some(seq![0b11110u8, 0b10001u8, 0b10001u8, 0b11110u8, 0b10100u8, 0b10010u8, 0b10001u8]),
        'S' | 's' => Some(seq![0b01110u8, 0b10001u8, 0b10000u8, 0b01110u8, 0b00001u8, 0b10001u8, 0b01110u8]),
        'T' | 't' => Some(seq![0b11111u8, 0b00100u8, 0b00100u8, 0b00100u8, 0b00100u8, 0b00100u8, 0b00100u8]),
        'U' | 'u' => Some(seq![0b10001u8, 0b10001u8, 0b10001u8, 0b10001u8, 0b10001u8, 0b10001u8, 0b01110u8]),
        'V' | 'v' => Some(seq![0b10001u8, 0b10001u8, 0b10001u8, 0b10001u8, 0b10001u8, 0b01010u8, 0b00100u8]),
        'W' | 'w' => Some(seq![0b10001u8, 0b10001u8, 0b10001u8, 0b10101u8, 0b10101u8, 0b11011u8, 0b10001u8]),
        'X' | 'x' => Some(seq![0b10001u8, 0b10001u8, 0b01010u8, 0b00100u8, 0b01010u8, 0b10001u8, 0b10001u8]),
        'Y' | 'y' => Some(seq![0b10001u8, 0b10001u8, 0b01010u8, 0b00100u8, 0b00100u8, 0b00100u8, 0b00100u8]),
        'Z' | 'z' => Some(seq![0b11111u8, 0b00001u8, 0b00010u8, 0b00100u8, 0b01000u8, 0b10000u8, 0b11111u8]),
        '0' => Some(seq![0b01110u8, 0b10001u8, 0b10011u8, 0b10101u8, 0b11001u8, 0b10001u8, 0b01110u8]),
        '1' => Some(seq![0b00100u8, 0b01100u8, 0b00100u8, 0b00100u8, 0b00100u8, 0b00100u8, 0b01110u8]),
        '2' => Some(seq![0b01110u8, 0b10001u8, 0b00001u8, 0b00110u8, 0b01000u8, 0b10000u8, 0b11111u8]),
        '3' => Some(seq![0b01110u8, 0b10001u8, 0b00001u8, 0b00110u8, 0b00001u8, 0b10001u8, 0b01110u8]),
        '4' => Some(seq![0b00010u8, 0b00110u8, 0b01010u8, 0b10010u8, 0b11111u8, 0b00010u8, 0b00010u8]),
        '5' => Some(seq![0b11111u8, 0b10000u8, 0b11110u8, 0b00001u8, 0b00001u8, 0b10001u8, 0b01110u8]),
        '6' => Some(seq![0b01110u8, 0b10000u8, 0b10000u8, 0b11110u8, 0b10001u8, 0b10001u8, 0b01110u8]),
        '7' => Some(seq![0b11111u8, 0b00001u8, 0b00010u8, 0b00100u8, 0b01000u8, 0b01000u8, 0b01000u8]),
        '8' => Some(seq![0b01110u8, 0b10001u8, 0b10001u8, 0b01110u8, 0b10001u8, 0b10001u8, 0b01110u8]),
        '9' => Some(seq![0b01110u8, 0b10001u8, 0b10001u8, 0b01111u8, 0b00001u8, 0b00001u8, 0b01110u8]),
        ' ' => Some(seq![0b00000u8, 0b00000u8, 0b00000u8, 0b00000u8, 0b00000u8, 0b00000u8, 0b00000u8]),
        ':' => Some(seq![0b00000u8, 0b00100u8, 0b00100u8, 0b00000u8, 0b00100u8, 0b00100u8, 0b00000u8]),
        '?' => Some(seq![0b01110u8, 0b10001u8, 0b00001u8, 0b00110u8, 0b00100u8, 0b00000u8, 0b00100u8]),
        '!' => Some(seq![0b00100u8, 0b00100u8, 0b00100u8, 0b00100u8, 0b00100u8, 0b00000u8, 0b00100u8]),
        '-' => Some(seq![0b00000u8, 0b00000u8, 0b00000u8, 0b11111u8, 0b00000u8, 0b00000u8, 0b00000u8]),
        '/' => Some(seq![0b00001u8, 0b00010u8, 0b00010u8, 0b00100u8, 0b01000u8, 0b01000u8, 0b10000u8]),
        '+' => Some(seq![0b00000u8, 0b00100u8, 0b00100u8, 0b11111u8, 0b00100u8, 0b00100u8, 0b00000u8]),
        '.' => Some(seq![0b00000u8, 0b00000u8, 0b00000u8, 0b00000u8, 0b00000u8, 0b00000u8, 0b00100u8]),
        ',' => Some(seq![0b00000u8, 0b00000u8, 0b00000u8, 0b00000u8, 0b00000u8, 0b00100u8, 0b01000u8]),
        '(' => Some(seq![0b00010u8, 0b00100u8, 0b01000u8, 0b01000u8, 0b01000u8, 0b00100u8, 0b00010u8]),
        ')' => Some(seq![0b01000u8, 0b00100u8, 0b00010u8, 0b00010u8, 0b00010u8, 0b00100u8, 0b01000u8]),
        _ => None,
    }
}

/// The glyph of `ch` in the built-in 5x7 font (see `glyph_rows`).
pub fn bitmap_glyph(ch: char) -> (glyph: Option<[u8; 7]>)
    ensures
        match glyph {
            Some(rows) => glyph_rows(ch) == Some(rows@),
            None => glyph_rows(ch) is None,
        },
{
    let glyph = match ch {
        'A' | 'a' => Some([0b01110u8, 0b10001, 0b10001, 0b11111, 0b10001, 0b10001, 0b10001]),
        'B' | 'b' => Some([0b11110u8, 0b10001, 0b10001, 0b11110, 0b10001, 0b10001, 0b11110]),
        'C' | 'c' => Some([0b01110u8, 0b10001, 0b10000, 0b10000, 0b10000, 0b10001, 0b01110]),
        'D' | 'd' => Some([0b11110u8, 0b10001, 0b10001, 0b10001, 0b10001, 0b10001, 0b11110]),
        'E' | 'e' => Some([0b11111u8, 0b10000, 0b10000, 0b11110, 0b10000, 0b10000, 0b11111]),
        'F' | 'f' => Some([0b11111u8, 0b10000, 0b10000, 0b11110, 0b10000, 0b10000, 0b10000]),
        'G' | 'g' => Some([0b01110u8, 0b10001, 0b10000, 0b10111, 0b10001, 0b10001, 0b01110]),
        'H' | 'h' => Some([0b10001u8, 0b10001, 0b10001, 0b11111, 0b10001, 0b10001, 0b10001]),
        'I' | 'i' => Some([0b01110u8, 0b00100, 0b00100, 0b00100, 0b00100, 0b00100, 0b01110]),
        'J' | 'j' => Some([0b00111u8, 0b00010, 0b00010, 0b00010, 0b00010, 0b10010, 0b01100]),
        'K' | 'k' => Some([0b10001u8, 0b10010, 0b10100, 0b11000, 0b10100, 0b10010, 0b10001]),
        'L' | 'l' => Some([0b10000u8, 0b10000, 0b10000, 0b10000, 0b10000, 0b10000, 0b11111]),
        'M' | 'm' => Some([0b10001u8, 0b11011, 0b10101, 0b10101, 0b10001, 0b10001, 0b10001]),
        'N' | 'n' => Some([0b10001u8, 0b11001, 0b10101, 0b10011, 0b10001, 0b10001, 0b10001]),
        'O' | 'o' => Some([0b01110u8, 0b10001, 0b10001, 0b10001, 0b10001, 0b10001, 0b01110]),
        'P' | 'p' => Some([0b11110u8, 0b10001, 0b10001, 0b11110, 0b10000, 0b10000, 0b10000]),
        'Q' | 'q' => Some([0b01110u8, 0b10001, 0b10001, 0b10001, 0b10101, 0b10010, 0b01101]),
        'R' | 'r' => Some([0b11110u8, 0b10001, 0b10001, 0b11110, 0b10100, 0b10010, 0b10001]),
        'S' | 's' => Some([0b01110u8, 0b10001, 0b10000, 0b01110, 0b00001, 0b10001, 0b01110]),
        'T' | 't' => Some([0b11111u8, 0b00100, 0b00100, 0b00100, 0b00100, 0b00100, 0b00100]),
        'U' | 'u' => Some([0b10001u8, 0b10001, 0b10001, 0b10001, 0b10001, 0b10001, 0b01110]),
        'V' | 'v' => Some([0b10001u8, 0b10001, 0b10001, 0b10001, 0b10001, 0b01010, 0b00100]),
        'W' | 'w' => Some([0b10001u8, 0b10001, 0b10001, 0b10101, 0b10101, 0b11011, 0b10001]),
        'X' | 'x' => Some([0b10001u8, 0b10001, 0b01010, 0b00100, 0b01010, 0b10001, 0b10001]),
        'Y' | 'y' => Some([0b10001u8, 0b10001, 0b01010, 0b00100, 0b00100, 0b00100, 0b00100]),
        'Z' | 'z' => Some([0b11111u8, 0b00001, 0b00010, 0b00100, 0b01000, 0b10000, 0b11111]),
        '0' => Some([0b01110u8, 0b10001, 0b10011, 0b10101, 0b11001, 0b10001, 0b01110]),
        '1' => Some([0b00100u8, 0b01100, 0b00100, 0b00100, 0b00100, 0b00100, 0b01110]),
        '2' => Some([0b01110u8, 0b10001, 0b00001, 0b00110, 0b01000, 0b10000, 0b11111]),
        '3' => Some([0b01110u8, 0b10001, 0b00001, 0b00110, 0b00001, 0b10001, 0b01110]),
        '4' => Some([0b00010u8, 0b00110, 0b01010, 0b10010, 0b11111, 0b00010, 0b00010]),
        '5' => Some([0b11111u8, 0b10000, 0b11110, 0b00001, 0b00001, 0b10001, 0b01110]),
        '6' => Some([0b01110u8, 0b10000, 0b10000, 0b11110, 0b10001, 0b10001, 0b01110]),
        '7' => Some([0b11111u8, 0b00001, 0b00010, 0b00100, 0b01000, 0b01000, 0b01000]),
        '8' => Some([0b01110u8, 0b10001, 0b10001, 0b01110, 0b10001, 0b10001, 0b01110]),
        '9' => Some([0b01110u8, 0b10001, 0b10001, 0b01111, 0b00001, 0b00001, 0b01110]),
        ' ' => Some([0b00000u8, 0b00000, 0b00000, 0b00000, 0b00000, 0b00000, 0b00000]),
        ':' => Some([0b00000u8, 0b00100, 0b00100, 0b00000, 0b00100, 0b00100, 0b00000]),
        '?' => Some([0b01110u8, 0b10001, 0b00001, 0b00110, 0b00100, 0b00000, 0b00100]),
        '!' => Some([0b00100u8, 0b00100, 0b00100, 0b00100, 0b00100, 0b00000, 0b00100]),
        '-' => Some([0b00000u8, 0b00000, 0b00000, 0b11111, 0b00000, 0b00000, 0b00000]),
        '/' => Some([0b00001u8, 0b00010, 0b00010, 0b00100, 0b01000, 0b01000, 0b10000]),
        '+' => Some([0b00000u8, 0b00100, 0b00100, 0b11111, 0b00100, 0b00100, 0b00000]),
        '.' => Some([0b00000u8, 0b00000, 0b00000, 0b00000, 0b00000, 0b00000, 0b00100]),
        ',' => Some([0b00000u8, 0b00000, 0b00000, 0b00000, 0b00000, 0b00100, 0b01000]),
        '(' => Some([0b00010u8, 0b00100, 0b01000, 0b01000, 0b01000, 0b00100, 0b00010]),
        ')' => Some([0b01000u8, 0b00100, 0b00010, 0b00010, 0b00010, 0b00100, 0b01000]),
        _ => None,
    };
    proof {
        if let Some(rows) = glyph {
            assert(glyph_rows(ch) == Some(rows@));
        }
    }
    glyph
}

/// The bit of a glyph row that holds pixel column `col` (0 is leftmost).
pub open spec fn column_bit(col: int) -> u8 {
    if col == 0 { 16 } else if col == 1 { 8 } else if col == 2 { 4 } else if col == 3 { 2 } else { 1 }
}

/// Pixel `col` of a glyph row is drawn.
pub open spec fn pixel_on(row: u8, col: int) -> bool {
    row & column_bit(col) != 0
}

/// The top-left corners of the drawn pixels among the first `cols` columns of
/// a glyph row, each pixel a `scale`-sized square, the row's first pixel at (x, y).
pub open spec fn row_cells(row: u8, x: int, y: int, scale: int, cols: int) -> Seq<(int, int)>
    decreases cols,
{
    if cols <= 0 {
        Seq::empty()
    } else {
        row_cells(row, x, y, scale, cols - 1) + if pixel_on(row, cols - 1) {
            seq![(x + (cols - 1) * scale, y)]
        } else {
            Seq::empty()
        }
    }
}

/// The cells of the first `n` rows of a glyph drawn with its top-left at (x, y).
pub open spec fn glyph_cells(rows: Seq<u8>, x: int, y: int, scale: int, n: int) -> Seq<(int, int)>
    decreases n,
{
    if n <= 0 {
        Seq::empty()
    } else {
        glyph_cells(rows, x, y, scale, n - 1) + row_cells(rows[n - 1], x, y + (n - 1) * scale, scale, 5)
    }
}

/// The cells of `text` written from (x, y): each character advances six
/// pixels (five and a gap), and characters without a glyph leave a blank.
pub open spec fn text_cells(text: Seq<char>, x: int, y: int, scale: int) -> Seq<(int, int)>
    decreases text.len(),
{
    if text.len() == 0 {
        Seq::empty()
    } else {
        text_cells(text.drop_last(), x, y, scale) + match glyph_rows(text.last()) {
            Some(rows) => glyph_cells(rows, x + 6 * scale * (text.len() - 1), y, scale, 7),
            None => Seq::empty(),
        }
    }
}

fn column_mask(col: u32) -> (mask: u8)
    requires
        col < 5,
    ensures
        mask == column_bit(col as int),
{
    if col == 0 { 16 } else if col == 1 { 8 } else if col == 2 { 4 } else if col == 3 { 2 } else { 1 }
}

/// A pair of coordinates as integers.
pub open spec fn int_pair(c: (i32, i32)) -> (int, int) {
    (c.0 as int, c.1 as int)
}

/// The top-left corners of the `scale`-sized squares that draw `text` in the
/// built-in font from (x, y), character by character, row by row, left to right.
/// Every coordinate reached must fit in `i32`.
pub fn bitmap_text_cells(text: &str, x: i32, y: i32, scale: u32) -> (cells: Vec<(i32, i32)>)
    requires
        x + 6 * scale * text@.len() <= i32::MAX,
        y + 7 * scale <= i32::MAX,
    ensures
        cells@.map_values(|c: (i32, i32)| int_pair(c)) == text_cells(text@, x as int, y as int, scale as int),
{
    let ghost sc = scale as int;
    let n = text.unicode_len();
    let step: i64 = 6 * scale as i64;
    let mut cursor: i64 = x as i64;
    let mut cells: Vec<(i32, i32)> = Vec::new();
    let mut i: usize = 0;
    while i < n
        invariant
            n == text@.len(),
            i <= n,
            sc == scale as int,
            step == 6 * sc,
            cursor == x + 6 * sc * i,
            x + 6 * sc * n <= i32::MAX,
            y + 7 * sc <= i32::MAX,
            cells@.map_values(|c: (i32, i32)| int_pair(c)) == text_cells(text@.take(i as int), x as int, y as int, sc),
        decreases n - i,
    {
        let ch = text.get_char(i);
        let ghost before = text@.take(i as int);
        let ghost done = cells@.map_values(|c: (i32, i32)| int_pair(c));
        assert(text@.take(i + 1).drop_last() =~= before);
        assert(text@.take(i + 1).last() == ch);
        proof {
            assert(6 * sc * i + 6 * sc <= 6 * sc * n) by (nonlinear_arith)
                requires
                    i < n,
                    sc >= 0,
            ;
            assert(6 * sc * (i + 1) == 6 * sc * i + 6 * sc) by (nonlinear_arith);
        }
        let cx: i32 = cursor as i32;
        if let Some(glyph) = bitmap_glyph(ch) {
            let ghost rows = glyph@;
            let mut r: usize = 0;
            while r < 7
                invariant
                    r <= 7,
                    rows == glyph@,
                    rows.len() == 7,
                    cx as int == x + 6 * sc * i,
                    cx + 6 * sc <= i32::MAX,
                    y + 7 * sc <= i32::MAX,
                    sc == scale as int,
                    cells@.map_values(|c: (i32, i32)| int_pair(c)) == done + glyph_cells(rows, cx as int, y as int, sc, r as int),
                decreases 7 - r,
            {
                let row_bits = glyph[r];
                let ghost row_start = cells@.map_values(|c: (i32, i32)| int_pair(c));
                proof {
                    assert(r * sc <= 7 * sc) by (nonlinear_arith)
                        requires
                            r <= 7,
                            sc >= 0,
                    ;
                }
                let py: i32 = (y as i64 + (r as i64) * (scale as i64)) as i32;
                let mut col: u32 = 0;
                while col < 5
                    invariant
                        col <= 5,
                        r < 7,
                        rows == glyph@,
                        row_bits == rows[r as int],
                        cx + 6 * sc <= i32::MAX,
                        py as int == y + r * sc,
                        sc == scale as int,
                        cells@.map_values(|c: (i32, i32)| int_pair(c)) == row_start + row_cells(row_bits, cx as int, py as int, sc, col as int),
                    decreases 5 - col,
                {
                    let ghost prev = cells@;
                    if row_bits & column_mask(col) != 0 {
                        proof {
                            assert(col * sc <= 6 * sc) by (nonlinear_arith)
                                requires
                                    col <= 5,
                                    sc >= 0,
                            ;
                        }
                        let px: i32 = (cx as i64 + (col as i64) * (scale as i64)) as i32;
                        cells.push((px, py));
                        assert(cells@.map_values(|c: (i32, i32)| int_pair(c))
                            =~= prev.map_values(|c: (i32, i32)| int_pair(c)).push(int_pair((px, py))));
                    } else {
                        assert(cells@ == prev);
                    }
                    assert(row_start + row_cells(row_bits, cx as int, py as int, sc, col + 1)
                        =~= (row_start + row_cells(row_bits, cx as int, py as int, sc, col as int)) + if pixel_on(row_bits, col as int) {
                            seq![(cx + col * sc, py as int)]
                        } else {
                            Seq::<(int, int)>::empty()
                        });
                    col = col + 1;
                }
                assert(done + glyph_cells(rows, cx as int, y as int, sc, r + 1)
                    =~= (done + glyph_cells(rows, cx as int, y as int, sc, r as int))
                        + row_cells(rows[r as int], cx as int, y + r * sc, sc, 5));
                r = r + 1;
            }
            assert(text_cells(text@.take(i + 1), x as int, y as int, sc)
                == done + glyph_cells(rows, x + 6 * sc * i, y as int, sc, 7));
        } else {
            assert(text_cells(text@.take(i + 1), x as int, y as int, sc) =~= done);
        }
        cursor = cursor + step;
        i = i + 1;
    }
    assert(text@.take(n as int) =~= text@);
    cells
}

/// The largest column of `ps` (0 when there is none).
pub open spec fn max_col(ps: Seq<TilePosition>) -> int
    decreases ps.len(),
{
    if ps.len() == 0 {
        0
    } else {
        let rest = max_col(ps.drop_last());
        if ps.last().col > rest { ps.last().col as int } else { rest }
    }
}

/// The largest row of `ps` (0 when there is none).
pub open spec fn max_row(ps: Seq<TilePosition>) -> int
    decreases ps.len(),
{
    if ps.len() == 0 {
        0
    } else {
        let rest = max_row(ps.drop_last());
        if ps.last().row > rest { ps.last().row as int } else { rest }
    }
}

/// `v / 2` rounded toward zero.
pub open spec fn half_toward_zero(v: int) -> int {
    if v >= 0 { v / 2 } else { -((-v) / 2) }
}

/// The smaller of `a` and `b`.
pub open spec fn min_int(a: int, b: int) -> int {
    if a <= b { a } else { b }
}

/// Tile size and layout origin for drawing the layout `ps` centred in the
/// rectangle at (x, y) of `w` by `h` pixels. The layout spans its largest
/// column and row plus two grid units; a tile is two grid units wide, at most
/// 4:5, and the whole is centred. Also: every step stays within its integer type.
pub open spec fn tile_geometry(ps: Seq<TilePosition>, x: int, y: int, w: int, h: int) -> (int, int, int, int, bool) {
    let cols = max_col(ps) + 2;
    let rows = max_row(ps) + 2;
    let tw0 = (w * 2) / (cols + 2);
    let th0 = (h * 2) / (rows + 2);
    let tw = min_int(tw0, th0 * 4 / 5);
    let th = min_int(th0, tw * 5 / 4);
    let total_w = cols * (tw / 2) + tw;
    let total_h = rows * (th / 2) + th;
    let x_off = x + half_toward_zero(w - total_w);
    let y_off = y + half_toward_zero(h - total_h);
    let fits = w * 2 <= u32::MAX && h * 2 <= u32::MAX && tw * 5 <= u32::MAX
        && w <= i32::MAX && h <= i32::MAX && total_w <= i32::MAX && total_h <= i32::MAX
        && i32::MIN <= x_off <= i32::MAX && i32::MIN <= y_off <= i32::MAX;
    (tw, th, x_off, y_off, fits)
}

fn largest_col_and_row(ps: &Vec<TilePosition>) -> (m: (u32, u32))
    ensures
        m.0 == max_col(ps@),
        m.1 == max_row(ps@),
        m.0 < 256,
        m.1 < 256,
{
    let mut mc: u32 = 0;
    let mut mr: u32 = 0;
    let mut i: usize = 0;
    while i < ps.len()
        invariant
            i <= ps.len(),
            mc == max_col(ps@.take(i as int)),
            mr == max_row(ps@.take(i as int)),
            mc < 256,
            mr < 256,
        decreases ps.len() - i,
    {
        assert(ps@.take(i + 1).drop_last() =~= ps@.take(i as int));
        let p = ps[i];
        if p.col as u32 > mc {
            mc = p.col as u32;
        }
        if p.row as u32 > mr {
            mr = p.row as u32;
        }
        i = i + 1;
    }
    assert(ps@.take(ps.len() as int) =~= ps@);
    (mc, mr)
}

/// `v / 2` rounded toward zero, as Rust's integer division rounds.
pub(crate) fn halve(v: i64) -> (r: i64)
    requires
        i64::MIN < v,
    ensures
        r == half_toward_zero(v as int),
{
    if v >= 0 { v / 2 } else { -((-v) / 2) }
}

/// Tile width and height and the layout's top-left corner for drawing `layout`
/// centred in the rectangle at (x, y) of `width` by `height` pixels (see
/// `tile_geometry`, whose every step must stay within its integer type).
pub fn compute_tile_geometry(layout: &Layout, x: i32, y: i32, width: u32, height: u32) -> (g: (u32, u32, i32, i32))
    requires
        tile_geometry(layout.positions@, x as int, y as int, width as int, height as int).4,
    ensures
        ({
            let want = tile_geometry(layout.positions@, x as int, y as int, width as int, height as int);
            g.0 == want.0 && g.1 == want.1 && g.2 == want.2 && g.3 == want.3
        }),
{
    let (mc, mr) = largest_col_and_row(&layout.positions);
    let cols = mc + 2;
    let rows = mr + 2;
    let tw0 = (width * 2) / (cols + 2);
    let th0 = (height * 2) / (rows + 2);
    assert(th0 * 2 <= height) by (nonlinear_arith)
        requires
            th0 == (height * 2) / (rows + 2),
            rows >= 2,
    ;
    let tw = if tw0 <= th0 * 4 / 5 { tw0 } else { th0 * 4 / 5 };
    let th = if th0 <= tw * 5 / 4 { th0 } else { tw * 5 / 4 };
    let total_w = cols * (tw / 2) + tw;
    let total_h = rows * (th / 2) + th;
    let x_off = x as i64 + halve(width as i64 - total_w as i64);
    let y_off = y as i64 + halve(height as i64 - total_h as i64);
    (tw, th, x_off as i32, y_off as i32)
}

/// Width of the name entry field, in pixels.
pub const NAME_FIELD_WIDTH: u32 = 320;

/// The name entry field for a name of `chars` characters: the width of the bar
/// that stands for the typed text (14 pixels a character, at most the field
/// width less 8) and the cursor's offset from the field's text start (14 a
/// character, at most the field width less 12).
pub fn name_field_layout(chars: u32) -> (layout: (u32, i32))
    requires
        chars * 14 <= i32::MAX,
    ensures
        layout.0 == min_int(chars * 14, NAME_FIELD_WIDTH - 8),
        layout.1 == min_int(chars * 14, NAME_FIELD_WIDTH - 12),
{
    let bar = chars * 14;
    let bar_width = if bar <= NAME_FIELD_WIDTH - 8 { bar } else { NAME_FIELD_WIDTH - 8 };
    let cursor_span = chars as i32 * 14;
    let cursor = if cursor_span <= (NAME_FIELD_WIDTH as i32) - 12 { cursor_span } else { (NAME_FIELD_WIDTH as i32) - 12 };
    (bar_width, cursor)
}

/// `label` followed by a space and the decimal digits of `n`.
pub open spec fn labelled_number(label: Seq<char>, n: nat) -> Seq<char> {
    label + seq![' '] + decimal(n)
}

/// The score and shuffle counters of the heads-up display: `SCORE n` and `SHUFFLE n`.
pub fn hud_labels(score: u32, shuffles_remaining: u8) -> (labels: (String, String))
    ensures
        labels.0@ == labelled_number("SCORE"@, score as nat),
        labels.1@ == labelled_number("SHUFFLE"@, shuffles_remaining as nat),
{
    let mut score_text = string_of("SCORE ");
    push_decimal(&mut score_text, score as u64);
    let mut shuffle_text = string_of("SHUFFLE ");
    push_decimal(&mut shuffle_text, shuffles_remaining as u64);
    proof {
        reveal_strlit("SCORE ");
        reveal_strlit("SCORE");
        reveal_strlit("SHUFFLE ");
        reveal_strlit("SHUFFLE");
    }
    assert(score_text@ =~= labelled_number("SCORE"@, score as nat));
    assert(shuffle_text@ =~= labelled_number("SHUFFLE"@, shuffles_remaining as nat));
    (score_text, shuffle_text)
}

/// The highest layer a click can reach; tiles above it are not picked.
pub const TOP_CLICK_LAYER: u8 = 4;

/// Position `i` is a tile under the pointer that a click can pick: it is
/// present, the pointer is over it, and its layer is at most `TOP_CLICK_LAYER`.
pub open spec fn hit_candidate(layers: Seq<u8>, present: Seq<bool>, hits: Seq<bool>, i: int) -> bool {
    0 <= i < layers.len() && present[i] && hits[i] && layers[i] <= TOP_CLICK_LAYER
}

/// The tile a click picks, given each position's layer, whether its tile is
/// present and whether the pointer is over it: the candidate on the highest
/// layer, the lowest position among those; `None` when there is none.
pub fn topmost_hit(layers: &Vec<u8>, present: &Vec<bool>, hits: &Vec<bool>) -> (r: Option<usize>)
    requires
        present.len() == layers.len(),
        hits.len() == layers.len(),
    ensures
        r is None <==> !exists|i: int| #[trigger] hit_candidate(layers@, present@, hits@, i),
        r matches Some(i) ==> {
            &&& hit_candidate(layers@, present@, hits@, i as int)
            &&& forall|j: int| #[trigger] hit_candidate(layers@, present@, hits@, j)
                ==> layers@[j] < layers@[i as int] || (layers@[j] == layers@[i as int] && i <= j)
        },
{
    let mut best: Option<usize> = None;
    let mut k: usize = 0;
    while k < layers.len()
        invariant
            k <= layers.len(),
            present.len() == layers.len(),
            hits.len() == layers.len(),
            best is None ==> forall|j: int| 0 <= j < k ==> !#[trigger] hit_candidate(layers@, present@, hits@, j),
            best matches Some(b) ==> {
                &&& b < k
                &&& hit_candidate(layers@, present@, hits@, b as int)
                &&& forall|j: int| 0 <= j < k && #[trigger] hit_candidate(layers@, present@, hits@, j)
                    ==> layers@[j] < layers@[b as int] || (layers@[j] == layers@[b as int] && b <= j)
            },
        decreases layers.len() - k,
    {
        if present[k] && hits[k] && layers[k] <= TOP_CLICK_LAYER {
            let better = match best {
                None => true,
                Some(b) => layers[k] > layers[b],
            };
            if better {
                best = Some(k);
            }
        }
        k = k + 1;
    }
    best
}

} // verus!
