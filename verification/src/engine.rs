//! The move engine: how far a dragged block may follow the pointer.
//!
//! The block walks one cell at a time from where it stands towards the
//! pointer. A step is taken only if the cells that the block's two ends
//! would then stand on are on the board and free: floor, the exit, or
//! already its own.
//! The walk ends at the first step that cannot be taken.

use vstd::prelude::*;
use crate::block::{Block, BlockDir};
use crate::board::{cell, on_board, xy_to_pos, EXIT, FLOOR};
use crate::grid::{can_place, lemma_run_id, occupancy, overlap, run_id, shapes_ok};

verus! {

/// Whether cell `(x, y)` is on the board and free for the piece with number
/// `id`: floor, the exit, or taken by that piece itself.
pub open spec fn free_for(grid: Seq<u8>, id: u8, x: int, y: int) -> bool {
    on_board(x, y) && (cell(grid, x, y) == FLOOR || cell(grid, x, y) == EXIT || cell(grid, x, y)
        == id)
}

/// Column of the block's first cell after it has moved `k` cells along its axis.
pub open spec fn shifted_x(b: Block, k: int) -> int {
    if b.dir == BlockDir::LeftRight {
        b.x1 + k
    } else {
        b.x1 as int
    }
}

/// Row of the block's first cell after it has moved `k` cells along its axis.
pub open spec fn shifted_y(b: Block, k: int) -> int {
    if b.dir == BlockDir::UpDown {
        b.y1 + k
    } else {
        b.y1 as int
    }
}

/// Whether the block may stand at offset `k`, as far as its two end cells
/// tell.
pub open spec fn step_ok(grid: Seq<u8>, b: Block, id: u8, k: int) -> bool {
    let x = shifted_x(b, k);
    let y = shifted_y(b, k);
    free_for(grid, id, x, y) && free_for(grid, id, x + b.x2 - b.x1, y + b.y2 - b.y1)
}

/// The offset one step nearer to zero.
pub open spec fn toward_zero(d: int) -> int {
    if d > 0 {
        d - 1
    } else {
        d + 1
    }
}

/// The offset that a drag by `delta` cells is granted: `delta` itself if
/// every step up to it can be taken, else the last offset before the first
/// step that cannot.
pub open spec fn extent(grid: Seq<u8>, b: Block, id: u8, delta: int) -> int
    decreases (if delta >= 0 { delta } else { -delta }),
{
    if delta == 0 {
        0
    } else {
        let prev = extent(grid, b, id, toward_zero(delta));
        if prev == toward_zero(delta) && step_ok(grid, b, id, delta) {
            delta
        } else {
            prev
        }
    }
}

/// Whether offset `k` lies between zero and `delta`, both included.
pub open spec fn within(k: int, delta: int) -> bool {
    (0 <= k <= delta) || (delta <= k <= 0)
}

/// The granted offset lies between zero and the offset asked for, and every
/// step up to it can be taken.
pub proof fn lemma_extent_steps(grid: Seq<u8>, b: Block, id: u8, delta: int)
    ensures
        within(extent(grid, b, id, delta), delta),
        forall|k: int|
            within(k, extent(grid, b, id, delta)) && k != 0 ==> #[trigger] step_ok(grid, b, id, k),
    decreases (if delta >= 0 { delta } else { -delta }),
{
    if delta != 0 {
        lemma_extent_steps(grid, b, id, toward_zero(delta));
    }
}

/// Once a step cannot be taken, asking for more grants no more.
pub proof fn lemma_extent_stuck(grid: Seq<u8>, b: Block, id: u8, k: int, delta: int)
    requires
        within(k, delta),
        k != delta,
        extent(grid, b, id, k) == k,
        !step_ok(grid, b, id, if delta > 0 { k + 1 } else { k - 1 }),
    ensures
        extent(grid, b, id, delta) == k,
    decreases (if delta >= 0 { delta } else { -delta }),
{
    if toward_zero(delta) != k {
        lemma_extent_stuck(grid, b, id, k, toward_zero(delta));
    }
}

/// Where the granted offset takes a block, it stands on the board and meets
/// no other solid block: all it may share a cell with is the exit.
pub proof fn lemma_extent_clear(grid: Seq<u8>, blocks: Seq<Block>, i: int, delta: int)
    requires
        occupancy(grid, blocks),
        shapes_ok(blocks),
        0 <= i < blocks.len(),
        blocks[i].movable(),
    ensures
        ({
            let r = extent(grid, blocks[i], run_id(blocks, i), delta);
            can_place(blocks, i, shifted_x(blocks[i], r), shifted_y(blocks[i], r))
        }),
{
    let b = blocks[i];
    let id = run_id(blocks, i);
    let r = extent(grid, b, id, delta);
    let x = shifted_x(b, r);
    let y = shifted_y(b, r);
    lemma_extent_steps(grid, b, id, delta);
    assert(b.shape_ok());
    if r != 0 {
        assert(step_ok(grid, b, id, r));
    }
    assert forall|j: int|
        0 <= j < blocks.len() && j != i && (#[trigger] blocks[j]).solid() implies !overlap(
        b.moved_to(x, y),
        blocks[j],
    ) by {
        let o = blocks[j];
        let m = b.moved_to(x, y);
        assert(o.shape_ok());
        if overlap(m, o) {
            let cx = if m.x1 >= o.x1 { m.x1 as int } else { o.x1 as int };
            let cy = if m.y1 >= o.y1 { m.y1 as int } else { o.y1 as int };
            assert(blocks[j].contains(cx, cy));
            lemma_run_id(blocks, i, j);
            lemma_run_id(blocks, j, i);
            assert(cell(grid, cx, cy) == crate::grid::stamp(blocks, j));
            if b.contains(cx, cy) {
                assert(blocks[i].contains(cx, cy));
            } else if b.dir == BlockDir::LeftRight {
                let k = if r > 0 { cx - b.x2 } else { cx - b.x1 };
                assert(within(k, r) && k != 0);
                assert(step_ok(grid, b, id, k));
            } else {
                let k = if r > 0 { cy - b.y2 } else { cy - b.y1 };
                assert(within(k, r) && k != 0);
                assert(step_ok(grid, b, id, k));
            }
        }
    }
}

/// Whether cell `(x, y)` is floor, the exit, or taken by the piece with
/// number `id`.
fn is_free(data: &[u8; 64], id: u8, x: usize, y: usize) -> (b: bool)
    requires
        on_board(x as int, y as int),
    ensures
        b == free_for(data@, id, x as int, y as int),
{
    let v = data[xy_to_pos(x, y)];
    v == FLOOR || v == EXIT || v == id
}

/// How far the piece with number `id` may follow a drag by `delta` cells
/// along its axis, over the grid `data`.
pub fn compute_extent(data: &[u8; 64], block: &Block, id: u8, delta: isize) -> (r: isize)
    requires
        block.shape_ok(),
        block.movable(),
    ensures
        r == extent(data@, *block, id, delta as int),
        -8 < r < 8,
{
    let wide = block.x2 - block.x1;
    let high = block.y2 - block.y1;
    let sideways = block.dir == BlockDir::LeftRight;
    let mut x = block.x1;
    let mut y = block.y1;
    let mut k: isize = 0;
    while k != delta
        invariant
            block.shape_ok(),
            block.movable(),
            sideways == (block.dir == BlockDir::LeftRight),
            wide == block.x2 - block.x1,
            high == block.y2 - block.y1,
            within(k as int, delta as int),
            extent(data@, *block, id, k as int) == k,
            x == shifted_x(*block, k as int),
            y == shifted_y(*block, k as int),
            x + wide < 8,
            y + high < 8,
        ensures
            k == extent(data@, *block, id, delta as int),
            -8 < k < 8,
        decreases (if delta >= k { delta - k } else { k - delta }),
    {
        let forward = delta > 0;
        let ghost next: int = if forward { k + 1 } else { k - 1 };
        let mut ok = if sideways {
            if forward {
                x + wide < 7
            } else {
                x > 0
            }
        } else {
            if forward {
                y + high < 7
            } else {
                y > 0
            }
        };
        let mut nx = x;
        let mut ny = y;
        if ok {
            if sideways {
                nx = if forward { x + 1 } else { x - 1 };
            } else {
                ny = if forward { y + 1 } else { y - 1 };
            }
            ok = is_free(data, id, nx, ny) && is_free(data, id, nx + wide, ny + high);
        }
        assert(ok == step_ok(data@, *block, id, next));
        if !ok {
            proof {
                lemma_extent_stuck(data@, *block, id, k as int, delta as int);
            }
            break ;
        }
        x = nx;
        y = ny;
        k = if forward { k + 1 } else { k - 1 };
    }
    k
}

} // verus!
