//! Board geometry: cell addressing and the mapping between cells and screen
//! pixels.

use vstd::prelude::*;

verus! {

/// Number of columns of the board.
pub const TILES_WIDE: usize = 8;

/// Number of rows of the board.
pub const TILES_HIGH: usize = 8;

/// Width of one cell on screen, in pixels.
pub const TILE_WIDTH: usize = 50;

/// Height of one cell on screen, in pixels.
pub const TILE_HEIGHT: usize = 50;

/// How far outside a block's screen rectangle a press still grabs it.
pub const GRAB_MARGIN: usize = 10;

/// Glyph `*`: an empty cell.
pub const FLOOR: u8 = 42;

/// Glyph `&`: a wall.
pub const WALL: u8 = 38;

/// Glyph `-`: a piece that slides left and right.
pub const LEFTRIGHT1: u8 = 45;

/// Glyph `_`: a piece that slides left and right, told apart from a `-` neighbour.
pub const LEFTRIGHT2: u8 = 95;

/// Glyph `|`: a piece that slides up and down.
pub const UPDOWN1: u8 = 124;

/// Glyph `(`: a piece that slides up and down, told apart from a `|` neighbour.
pub const UPDOWN2: u8 = 40;

/// Glyph `=`: the player's piece.
pub const PLAYER: u8 = 61;

/// Glyph `^`: the exit.
pub const EXIT: u8 = 94;

/// Whether `(x, y)` names a cell of the board.
pub open spec fn on_board(x: int, y: int) -> bool {
    0 <= x < 8 && 0 <= y < 8
}

/// The value that a 64-cell grid holds at column `x`, row `y`.
pub open spec fn cell(grid: Seq<u8>, x: int, y: int) -> u8 {
    grid[x + 8 * y]
}

/// Blank space around a board that is centred in a window side of `extent`
/// pixels, where the board itself takes `span` pixels. A window smaller than
/// the board leaves no margin.
pub open spec fn margin(extent: int, span: int) -> int {
    if extent >= span {
        (extent - span) / 2
    } else {
        0
    }
}

/// The board coordinate under screen coordinate `s`, clamped to the board.
pub open spec fn clamp_cell(extent: int, s: int) -> int {
    let m = margin(extent, 400);
    if s <= m {
        0
    } else if (s - m) / 50 >= 8 {
        7
    } else {
        (s - m) / 50
    }
}

/// Whether screen coordinate `s` lies over the board.
pub open spec fn over_board(extent: int, s: int) -> bool {
    margin(extent, 400) <= s < margin(extent, 400) + 400
}

/// Column and row of a row-major cell index.
pub fn pos_to_xy(pos: usize) -> (r: (usize, usize))
    ensures
        r.0 == pos % 8,
        r.1 == pos / 8,
        pos < 64 ==> on_board(r.0 as int, r.1 as int) && pos == r.0 + 8 * r.1,
{
    let x = pos % TILES_WIDE;
    let y = pos / TILES_WIDE;
    (x, y)
}

/// Row-major index of the cell at column `x`, row `y`.
pub fn xy_to_pos(x: usize, y: usize) -> (pos: usize)
    requires
        on_board(x as int, y as int),
    ensures
        pos == x + 8 * y,
        pos < 64,
{
    x + y * 8
}

/// Margin in pixels on one side of the board.
pub fn margin_of(extent: usize) -> (m: usize)
    ensures
        m == margin(extent as int, 400),
{
    if extent >= TILE_WIDTH * TILES_WIDE {
        (extent - TILE_WIDTH * TILES_WIDE) / 2
    } else {
        0
    }
}

/// Screen position of the top left corner of cell `(x, y)` in a window of
/// `width` by `height` pixels. Column 8 and row 8 give the board's far edges.
pub fn xy_to_sxy(width: usize, height: usize, x: usize, y: usize) -> (r: (usize, usize))
    requires
        x <= 8,
        y <= 8,
    ensures
        r.0 == x * 50 + margin(width as int, 400),
        r.1 == y * 50 + margin(height as int, 400),
{
    let margin_x = margin_of(width);
    let margin_y = margin_of(height);
    (x * TILE_WIDTH + margin_x, y * TILE_HEIGHT + margin_y)
}

/// The cell under screen position `(sx, sy)`, each coordinate clamped to the
/// board.
pub fn screen_to_cell(width: usize, height: usize, sx: usize, sy: usize) -> (r: (usize, usize))
    ensures
        r.0 == clamp_cell(width as int, sx as int),
        r.1 == clamp_cell(height as int, sy as int),
        on_board(r.0 as int, r.1 as int),
{
    (clamp_axis(width, sx), clamp_axis(height, sy))
}

fn clamp_axis(extent: usize, s: usize) -> (c: usize)
    ensures
        c == clamp_cell(extent as int, s as int),
        c < 8,
{
    let m = margin_of(extent);
    if s <= m {
        0
    } else {
        let c = (s - m) / TILE_WIDTH;
        if c >= TILES_WIDE {
            TILES_WIDE - 1
        } else {
            c
        }
    }
}

/// Whether screen position `(sx, sy)` lies over the board.
pub fn pointer_on_board(width: usize, height: usize, sx: usize, sy: usize) -> (b: bool)
    ensures
        b == (over_board(width as int, sx as int) && over_board(height as int, sy as int)),
{
    let mx = margin_of(width);
    let my = margin_of(height);
    mx <= sx && sx - mx < TILE_WIDTH * TILES_WIDE && my <= sy && sy - my < TILE_HEIGHT
        * TILES_HIGH
}

} // verus!
