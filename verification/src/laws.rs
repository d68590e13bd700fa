//! Laws of the game, proved of every level.

use vstd::prelude::*;
use crate::block::{Block, BlockDir, BlockType};
use crate::board::{cell, on_board, EXIT, FLOOR, WALL};
use crate::codec::{
    block_at, decode_blocks, decode_grid, decoded, encode_blocks, glyph_at, heads, is_block_glyph,
    is_horizontal, is_vertical, lemma_block_at, lemma_decode_wf, lemma_owner, owner,
    run_end_down, run_end_right,
};
use crate::grid::{
    covered, exit_at, lemma_runs_bound, lemma_runs_grow, lemma_runs_same, overlap, run_id, runs,
};
use crate::level_set::LevelSetView;
use crate::play::{covers_exit, settle, LevelView};

verus! {

/// The record with every glyph that stands for no block made floor.
pub open spec fn normal(t: Seq<u8>) -> Seq<u8> {
    Seq::new(
        64,
        |c: int|
            if is_block_glyph(t[c]) {
                t[c]
            } else {
                FLOOR
            },
    )
}

/// What the blocks that begin before position `n` show at position `c`: the
/// glyph of the record if its run has begun by then, else floor.
proof fn lemma_glyph_at(t: Seq<u8>, n: int, c: int)
    requires
        t.len() == 64,
        0 <= n <= 64,
        0 <= c < 64,
    ensures
        glyph_at(decoded(t, n), c % 8, c / 8) == if is_block_glyph(t[c]) && owner(t, c) < n {
            t[c]
        } else {
            FLOOR
        },
    decreases n,
{
    lemma_owner(t, c);
    if n > 0 {
        lemma_glyph_at(t, n - 1, c);
        if heads(t, n - 1) {
            let b = block_at(t, n - 1);
            lemma_block_at(t, n - 1);
            assert(decoded(t, n).drop_last() =~= decoded(t, n - 1));
            assert(decoded(t, n).last() == b);
            assert(b.contains(c % 8, c / 8) <==> (is_block_glyph(t[c]) && owner(t, c) == n - 1));
        }
    }
}

/// Encoding the blocks of a record gives the record back, but for the glyphs
/// that stand for no block.
pub proof fn lemma_encode_decode(t: Seq<u8>)
    requires
        t.len() == 64,
    ensures
        encode_blocks(decode_blocks(t)) == normal(t),
{
    assert forall|c: int| 0 <= c < 64 implies encode_blocks(decode_blocks(t))[c] == normal(t)[c] by {
        lemma_glyph_at(t, 64, c);
        lemma_owner(t, c);
    }
    assert(encode_blocks(decode_blocks(t)) =~= normal(t));
}

/// A run to the right ends where it did before the record was made normal.
proof fn lemma_normal_right(t: Seq<u8>, p: int)
    requires
        t.len() == 64,
        0 <= p < 64,
        is_horizontal(t[p]),
    ensures
        run_end_right(normal(t), p) == run_end_right(t, p),
    decreases 64 - p,
{
    if p < 63 && p % 8 < 7 && t[p + 1] == t[p] {
        lemma_normal_right(t, p + 1);
    }
}

/// A run downwards ends where it did before the record was made normal.
proof fn lemma_normal_down(t: Seq<u8>, p: int)
    requires
        t.len() == 64,
        0 <= p < 64,
        is_vertical(t[p]),
    ensures
        run_end_down(normal(t), p) == run_end_down(t, p),
    decreases 64 - p,
{
    if p < 56 && t[p + 8] == t[p] {
        lemma_normal_down(t, p + 8);
    }
}

/// A record and its normal form hold the same blocks.
proof fn lemma_normal_decoded(t: Seq<u8>, n: int)
    requires
        t.len() == 64,
        0 <= n <= 64,
    ensures
        decoded(normal(t), n) == decoded(t, n),
    decreases n,
{
    if n > 0 {
        lemma_normal_decoded(t, n - 1);
        let p = n - 1;
        assert(heads(normal(t), p) == heads(t, p));
        if heads(t, p) {
            if is_horizontal(t[p]) {
                lemma_normal_right(t, p);
            } else if is_vertical(t[p]) {
                lemma_normal_down(t, p);
            }
            assert(block_at(normal(t), p) == block_at(t, p));
        }
    }
}

/// A run begins where it did before the record was made normal.
proof fn lemma_normal_owner(t: Seq<u8>, c: int)
    requires
        t.len() == 64,
        0 <= c < 64,
    ensures
        owner(normal(t), c) == owner(t, c),
    decreases c,
{
    if is_horizontal(t[c]) && c % 8 != 0 && t[c - 1] == t[c] {
        lemma_normal_owner(t, c - 1);
    } else if is_vertical(t[c]) && c >= 8 && t[c - 8] == t[c] {
        lemma_normal_owner(t, c - 8);
    }
}

/// Decoding a record, encoding the blocks and decoding again gives the same
/// blocks, with the same kinds, axes and footprints in the same order, and
/// the same grid. This holds of every record of 64 glyphs.
pub proof fn law_round_trip(t: Seq<u8>)
    requires
        t.len() == 64,
    ensures
        decode_blocks(encode_blocks(decode_blocks(t))) == decode_blocks(t),
        decode_grid(encode_blocks(decode_blocks(t))) == decode_grid(t),
{
    lemma_encode_decode(t);
    lemma_normal_decoded(t, 64);
    assert forall|c: int| 0 <= c < 64 implies decode_grid(normal(t))[c] == decode_grid(t)[c] by {
        lemma_normal_owner(t, c);
        lemma_owner(t, c);
        lemma_normal_decoded(t, owner(t, c));
    }
    assert(decode_grid(normal(t)) =~= decode_grid(t));
}

/// A level set up from a record of 64 glyphs is well formed, whatever the
/// glyphs are.
pub proof fn law_loaded_wf(l: LevelView, t: Seq<u8>)
    requires
        t.len() == 64,
    ensures
        l.loaded(t).wf(),
        LevelView::fresh(t).wf(),
{
    lemma_decode_wf(t);
}

/// While there are fewer than 38 pieces, each has as its number its place
/// among the pieces in the block list, counted from 1.
pub proof fn law_numbers(blocks: Seq<Block>, i: int)
    requires
        0 <= i < blocks.len(),
        blocks[i].movable(),
        runs(blocks) < 38,
    ensures
        run_id(blocks, i) == runs(blocks.take(i)) + 1,
{
    lemma_runs_bound(blocks.take(i));
    lemma_runs_grow(blocks, i, blocks.len() as int);
    assert(blocks.take(blocks.len() as int) =~= blocks);
}

/// What a cell of a well-formed level holds: under a piece that can move, the
/// number of the piece; under a wall, the wall mark; under nothing solid,
/// floor, or the exit mark, which stands only where an exit lies.
pub proof fn law_cells(l: LevelView, i: int, x: int, y: int)
    requires
        l.wf(),
        on_board(x, y),
        0 <= i < l.blocks.len(),
    ensures
        l.blocks[i].movable() && l.blocks[i].contains(x, y) ==> cell(l.grid, x, y) == run_id(
            l.blocks,
            i,
        ),
        l.blocks[i].kind == BlockType::Wall && l.blocks[i].contains(x, y) ==> cell(l.grid, x, y)
            == WALL,
        !covered(l.blocks, x, y) ==> cell(l.grid, x, y) == FLOOR || cell(l.grid, x, y) == EXIT,
        !covered(l.blocks, x, y) && !exit_at(l.blocks, x, y) ==> cell(l.grid, x, y) == FLOOR,
{
    assert(l.blocks[i].shape_ok());
}

/// In a well-formed level a block that slides left and right lies in one
/// row, one that slides up and down in one column, and one that stays covers
/// one cell.
pub proof fn law_axis(l: LevelView, i: int)
    requires
        l.wf(),
        0 <= i < l.blocks.len(),
    ensures
        l.blocks[i].dir == BlockDir::LeftRight ==> l.blocks[i].y1 == l.blocks[i].y2,
        l.blocks[i].dir == BlockDir::UpDown ==> l.blocks[i].x1 == l.blocks[i].x2,
        l.blocks[i].dir == BlockDir::Static ==> l.blocks[i].x1 == l.blocks[i].x2
            && l.blocks[i].y1 == l.blocks[i].y2,
{
    assert(l.blocks[i].shape_ok());
}

/// During a drag the target of the dragged block shares no cell with any
/// other block but the exit.
pub proof fn law_target_clear(l: LevelView, mx: int, my: int, j: int)
    requires
        l.wf(),
        l.drag_target is Some,
        0 <= j < l.blocks.len(),
        j != l.drag_target.unwrap(),
        l.blocks[j].solid(),
    ensures
        ({
            let after = l.dragged(mx, my);
            let b = after.blocks[l.drag_target.unwrap() as int];
            !overlap(b.moved_to(b.target_x as int, b.target_y as int), after.blocks[j])
        }),
{
    l.lemma_dragged_wf(mx, my);
    let after = l.dragged(mx, my);
    assert(after.blocks[j] == l.blocks[j]);
}

/// After a release the cells of the new footprint hold the block's number,
/// and the cells of the old footprint outside the new one hold floor.
pub proof fn law_released_cells(l: LevelView, x: int, y: int)
    requires
        l.wf(),
        l.drag_target is Some,
        on_board(x, y),
    ensures
        ({
            let i = l.drag_target.unwrap() as int;
            let b = l.blocks[i];
            let landed = l.committed().blocks[i];
            &&& landed == b.moved_to(b.target_x as int, b.target_y as int)
            &&& landed.contains(x, y) ==> cell(l.committed().grid, x, y) == run_id(l.blocks, i)
            &&& b.contains(x, y) && !landed.contains(x, y) ==> cell(l.committed().grid, x, y)
                == FLOOR
            &&& !b.contains(x, y) && !landed.contains(x, y) ==> cell(l.committed().grid, x, y)
                == cell(l.grid, x, y)
        }),
{
    let c = x + 8 * y;
    assert(c % 8 == x && c / 8 == y);
}

/// A release followed at once by taking the move back restores the grid,
/// every footprint and the record of moves, where the block did not land on
/// an exit. (The cell of an exit that a block has stood on holds floor once
/// the block has left.)
pub proof fn law_commit_undo(l: LevelView)
    requires
        l.wf(),
        l.drag_target is Some,
        ({
            let b = l.blocks[l.drag_target.unwrap() as int];
            !covers_exit(l.blocks, b.moved_to(b.target_x as int, b.target_y as int))
        }),
    ensures
        l.committed().undone().grid == l.grid,
        l.committed().undone().blocks == settle(l.blocks),
        l.committed().undone().moves == l.moves,
        l.committed().undone().template == l.template,
{
    let i = l.drag_target.unwrap() as int;
    let b = l.blocks[i];
    let c = l.committed();
    let u = c.undone();
    let landed = b.moved_to(b.target_x as int, b.target_y as int);
    let id = run_id(l.blocks, i);
    assert(b.shape_ok());
    assert(b.solid());
    assert(c.moves.last().block == i);
    assert(c.moves.drop_last() =~= l.moves);
    assert(c.blocks[i] == landed);
    assert(landed.moved_to(b.x1 as int, b.y1 as int) == b.settled());
    assert(u.blocks =~= settle(l.blocks));
    assert(run_id(c.blocks, i) == id) by {
        assert forall|k: int| 0 <= k < l.blocks.len() implies (#[trigger] l.blocks[k]).movable()
            == c.blocks[k].movable() by {}
        lemma_runs_same(l.blocks, c.blocks, i);
    }
    assert forall|q: int| 0 <= q < 64 implies u.grid[q] == l.grid[q] by {
        let x = q % 8;
        let y = q / 8;
        assert(on_board(x, y) && q == x + 8 * y);
        assert(cell(l.grid, x, y) == l.grid[q]);
        if b.contains(x, y) {
            assert(l.blocks[i].contains(x, y));
        } else if landed.contains(x, y) {
            // Nothing stood where the block landed, and no exit lies there.
            if covered(l.blocks, x, y) {
                let k = choose|k: int|
                    0 <= k < l.blocks.len() && l.blocks[k].solid() && #[trigger] l.blocks[k].contains(
                        x,
                        y,
                    );
                assert(!overlap(landed, l.blocks[k]));
            }
            if exit_at(l.blocks, x, y) {
                let k = choose|k: int|
                    0 <= k < l.blocks.len() && l.blocks[k].kind == BlockType::Exit
                        && #[trigger] l.blocks[k].contains(x, y);
                assert(l.blocks[k].shape_ok());
                assert(landed.contains(l.blocks[k].x1 as int, l.blocks[k].y1 as int));
            }
        }
    }
    assert(u.grid =~= l.grid);
}

/// A release solves a level that was not solved exactly when the block lands
/// on the cell of an exit.
pub proof fn law_solved(l: LevelView)
    requires
        l.wf(),
        l.drag_target is Some,
        !l.solved,
    ensures
        ({
            let b = l.blocks[l.drag_target.unwrap() as int];
            l.committed().solved <==> covers_exit(
                l.blocks,
                b.moved_to(b.target_x as int, b.target_y as int),
            )
        }),
{
}

/// Stepping on from the last level, and back from the first, changes
/// nothing, however often it is done.
pub proof fn law_bounds(s: LevelSetView)
    ensures
        s.current + 1 >= s.levels.len() ==> s.advanced() == s && s.advanced().advanced() == s,
        s.current == 0 ==> s.retreated() == s && s.retreated().retreated() == s,
{
}

} // verus!
