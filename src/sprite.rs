use vstd::prelude::*;

use crate::model::{sprite_col_of, sprite_row_of, SCREEN_CELLS, SCREEN_HEIGHT, SCREEN_WIDTH};

verus! {

/// The cell that row `row` and column `col` of a sprite drawn at `(vx, vy)`
/// land on, coordinates wrapping around the screen edges.
pub open spec fn sprite_cell(vx: u8, vy: u8, row: int, col: int) -> int {
    ((vy + row) % SCREEN_HEIGHT as int) * SCREEN_WIDTH as int + (vx + col) % SCREEN_WIDTH as int
}

/// The cell of a sprite row and column is on screen, and that row and column
/// are the ones that land on it.
pub proof fn lemma_sprite_cell_offsets(vx: u8, vy: u8, row: int, col: int)
    requires
        0 <= row < SCREEN_HEIGHT,
        0 <= col < SCREEN_WIDTH,
    ensures
        0 <= sprite_cell(vx, vy, row, col) < SCREEN_CELLS,
        sprite_row_of(sprite_cell(vx, vy, row, col), vy) == row,
        sprite_col_of(sprite_cell(vx, vy, row, col), vx) == col,
{
    let cy = (vy + row) % 32;
    let cx = (vx + col) % 64;
    let c = cy * 64 + cx;
    assert(0 <= c < 2048) by (nonlinear_arith)
        requires
            0 <= cy < 32,
            0 <= cx < 64,
            c == cy * 64 + cx,
    ;
    vstd::arithmetic::div_mod::lemma_fundamental_div_mod_converse(c, 64, cy, cx);
    assert((cy + 256 - vy) % 32 == row);
    assert((cx + 256 - vx) % 64 == col);
}

/// A cell is the one that its own sprite row and column land on.
pub proof fn lemma_sprite_cell_of_offsets(vx: u8, vy: u8, c: int)
    requires
        0 <= c < SCREEN_CELLS,
    ensures
        c == sprite_cell(vx, vy, sprite_row_of(c, vy), sprite_col_of(c, vx)),
{
    let cy = c / 64;
    let cx = c % 64;
    assert(c == cy * 64 + cx);
    assert(0 <= cy < 32);
    assert((vy + (cy + 256 - vy) % 32) % 32 == cy);
    assert((vx + (cx + 256 - vx) % 64) % 64 == cx);
}

} // verus!
