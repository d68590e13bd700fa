//! The live grid: what stands on each cell.
//!
//! A cell under a piece that can move holds the piece's number. The pieces
//! are numbered from 1 in the order of the block list, walls and exits not
//! counted, and the numbers pass over the three marks below. A cell under a
//! wall holds `WALL`. A cell under nothing holds `FLOOR`, but for the cell of
//! an exit, which holds `EXIT` until a piece has stood on it: a piece that
//! leaves a cell leaves floor behind.

use vstd::prelude::*;
use crate::block::{Block, BlockDir, BlockType};
use crate::board::{cell, on_board, EXIT, FLOOR, WALL};

verus! {

/// Whether two footprints share a cell.
pub open spec fn overlap(a: Block, b: Block) -> bool {
    a.x1 <= b.x2 && b.x1 <= a.x2 && a.y1 <= b.y2 && b.y1 <= a.y2
}

/// Whether every block has a well-formed footprint.
pub open spec fn shapes_ok(blocks: Seq<Block>) -> bool {
    forall|i: int| 0 <= i < blocks.len() ==> (#[trigger] blocks[i]).shape_ok()
}

/// The number of the `k`-th piece: `k` itself below the wall mark, and from
/// there on the next value that is no mark.
pub open spec fn run_mark(k: int) -> u8 {
    if k < 38 {
        k as u8
    } else if k < 41 {
        (k + 1) as u8
    } else {
        (k + 2) as u8
    }
}

/// How many of the blocks can move.
pub open spec fn runs(blocks: Seq<Block>) -> int
    decreases blocks.len(),
{
    if blocks.len() == 0 {
        0
    } else {
        runs(blocks.drop_last()) + if blocks.last().movable() {
            1int
        } else {
            0int
        }
    }
}

/// The number of block `i`, for a block that can move: one more than the
/// count of movable blocks before it, passed through `run_mark`.
pub open spec fn run_id(blocks: Seq<Block>, i: int) -> u8 {
    run_mark(runs(blocks.take(i)) + 1)
}

/// What the cells under solid block `i` hold: its number if it can move, the
/// wall mark if it cannot.
pub open spec fn stamp(blocks: Seq<Block>, i: int) -> u8 {
    if blocks[i].movable() {
        run_id(blocks, i)
    } else {
        WALL
    }
}

/// Whether a solid block stands on cell `(x, y)`.
pub open spec fn covered(blocks: Seq<Block>, x: int, y: int) -> bool {
    exists|i: int| 0 <= i < blocks.len() && blocks[i].solid() && #[trigger] blocks[i].contains(x, y)
}

/// Whether an exit lies on cell `(x, y)`.
pub open spec fn exit_at(blocks: Seq<Block>, x: int, y: int) -> bool {
    exists|i: int|
        0 <= i < blocks.len() && blocks[i].kind == BlockType::Exit && #[trigger] blocks[i].contains(
            x,
            y,
        )
}

/// Whether `mark` may stand on cell `(x, y)` while no solid block does:
/// floor anywhere, the exit mark only where an exit lies.
pub open spec fn open_mark(blocks: Seq<Block>, x: int, y: int, mark: u8) -> bool {
    mark == FLOOR || (mark == EXIT && exit_at(blocks, x, y))
}

/// Whether `grid` is an occupancy of `blocks`: every cell under a solid
/// block holds that block's stamp, and every other cell holds floor, or the
/// exit mark where an exit lies.
pub open spec fn occupancy(grid: Seq<u8>, blocks: Seq<Block>) -> bool {
    &&& grid.len() == 64
    &&& blocks.len() <= 64
    &&& forall|i: int, x: int, y: int|
        0 <= i < blocks.len() && on_board(x, y) && blocks[i].solid()
            && #[trigger] blocks[i].contains(x, y) ==> cell(grid, x, y) == stamp(blocks, i)
    &&& forall|x: int, y: int|
        on_board(x, y) && !covered(blocks, x, y) ==> open_mark(
            blocks,
            x,
            y,
            #[trigger] cell(grid, x, y),
        )
}

/// Whether `blocks[i]` could stand with its top left cell at `(x, y)`: it is
/// movable, stays on its axis and on the board, and meets no other solid
/// block there.
pub open spec fn can_place(blocks: Seq<Block>, i: int, x: int, y: int) -> bool {
    let b = blocks[i];
    &&& 0 <= i < blocks.len()
    &&& b.movable()
    &&& b.dir == BlockDir::LeftRight ==> y == b.y1
    &&& b.dir == BlockDir::UpDown ==> x == b.x1
    &&& 0 <= x && x + b.x2 - b.x1 < 8
    &&& 0 <= y && y + b.y2 - b.y1 < 8
    &&& forall|j: int|
        0 <= j < blocks.len() && j != i && (#[trigger] blocks[j]).solid() ==> !overlap(
            b.moved_to(x, y),
            blocks[j],
        )
}

/// The blocks after `blocks[i]` has moved to `(x, y)`.
pub open spec fn place(blocks: Seq<Block>, i: int, x: int, y: int) -> Seq<Block> {
    blocks.update(i, blocks[i].moved_to(x, y))
}

/// The grid after the piece with number `id` has left footprint `from` and
/// taken footprint `to`: the cells it has left hold floor.
pub open spec fn moved_grid(grid: Seq<u8>, from: Block, to: Block, id: u8) -> Seq<u8> {
    Seq::new(
        64,
        |c: int|
            if to.contains(c % 8, c / 8) {
                id
            } else if from.contains(c % 8, c / 8) {
                FLOOR
            } else {
                grid[c]
            },
    )
}

/// No more blocks can move than there are blocks.
pub proof fn lemma_runs_bound(blocks: Seq<Block>)
    ensures
        0 <= runs(blocks) <= blocks.len(),
    decreases blocks.len(),
{
    if blocks.len() > 0 {
        lemma_runs_bound(blocks.drop_last());
    }
}

/// The count of movable blocks grows along the list, and by at least one
/// past a block that can move.
pub proof fn lemma_runs_grow(blocks: Seq<Block>, i: int, j: int)
    requires
        0 <= i <= j <= blocks.len(),
    ensures
        runs(blocks.take(i)) <= runs(blocks.take(j)),
        i < j && blocks[i].movable() ==> runs(blocks.take(i)) < runs(blocks.take(j)),
    decreases j - i,
{
    if i < j {
        assert(blocks.take(j).drop_last() =~= blocks.take(j - 1));
        assert(blocks.take(j).last() == blocks[j - 1]);
        lemma_runs_grow(blocks, i, j - 1);
    }
}

/// The number of a piece is no mark, and no two pieces share a number.
pub proof fn lemma_run_id(blocks: Seq<Block>, i: int, j: int)
    requires
        blocks.len() <= 64,
        0 <= i < blocks.len(),
        0 <= j < blocks.len(),
    ensures
        run_id(blocks, i) != WALL,
        run_id(blocks, i) != FLOOR,
        run_id(blocks, i) != EXIT,
        i != j && blocks[i].movable() && blocks[j].movable() ==> run_id(blocks, i) != run_id(
            blocks,
            j,
        ),
{
    lemma_runs_bound(blocks.take(i));
    lemma_runs_bound(blocks.take(j));
    if i < j {
        lemma_runs_grow(blocks, i, j);
    } else {
        lemma_runs_grow(blocks, j, i);
    }
}

/// Numbers depend only on which blocks can move.
pub proof fn lemma_runs_same(a: Seq<Block>, b: Seq<Block>, i: int)
    requires
        a.len() == b.len(),
        0 <= i <= a.len(),
        forall|k: int| 0 <= k < a.len() ==> (#[trigger] a[k]).movable() == b[k].movable(),
    ensures
        runs(a.take(i)) == runs(b.take(i)),
    decreases i,
{
    if i > 0 {
        assert(a.take(i).drop_last() =~= a.take(i - 1));
        assert(b.take(i).drop_last() =~= b.take(i - 1));
        assert(a.take(i).last() == a[i - 1]);
        assert(b.take(i).last() == b[i - 1]);
        lemma_runs_same(a, b, i - 1);
    }
}

/// Under an occupancy a piece that can move shares no cell with another
/// solid block.
pub proof fn occupancy_disjoint(grid: Seq<u8>, blocks: Seq<Block>, i: int, j: int)
    requires
        occupancy(grid, blocks),
        shapes_ok(blocks),
        0 <= i < blocks.len(),
        0 <= j < blocks.len(),
        i != j,
        blocks[i].movable(),
        blocks[i].solid(),
        blocks[j].solid(),
    ensures
        !overlap(blocks[i], blocks[j]),
{
    let a = blocks[i];
    let b = blocks[j];
    if overlap(a, b) {
        let x = if a.x1 >= b.x1 { a.x1 as int } else { b.x1 as int };
        let y = if a.y1 >= b.y1 { a.y1 as int } else { b.y1 as int };
        assert(a.shape_ok() && b.shape_ok());
        assert(blocks[i].contains(x, y));
        assert(blocks[j].contains(x, y));
        lemma_run_id(blocks, i, j);
    }
}

} // verus!
