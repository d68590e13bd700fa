//! The level format: 64 glyphs in row-major order, decoded into blocks and
//! encoded back.
//!
//! A run of one horizontal glyph within a row is one block, as is a run of one
//! vertical glyph within a column. Walls and exits are one cell each. Any
//! glyph that is not recognised counts as floor.
//!
//! On the grid a run holds its number: the runs are counted from 1 in
//! row-major order of their first cells. Walls, the exit and floor hold their
//! own glyphs.

use vstd::prelude::*;
use crate::block::{Block, BlockDir, BlockType};
use crate::board::{
    cell, on_board, pos_to_xy, xy_to_pos, EXIT, FLOOR, LEFTRIGHT1, LEFTRIGHT2, PLAYER, UPDOWN1,
    UPDOWN2, WALL,
};
use crate::grid::{
    covered, exit_at, lemma_run_id, lemma_runs_bound, occupancy, open_mark, run_mark, runs,
    shapes_ok, stamp,
};
use crate::stream::ByteStream;

verus! {

/// Bytes that separate glyphs: space, carriage return, line feed.
pub open spec fn is_blank(b: u8) -> bool {
    b == 32 || b == 13 || b == 10
}

/// The first `n` glyphs of `s` and what follows the last of them; `None`
/// where `s` holds fewer than `n` glyphs.
pub open spec fn take_glyphs(s: Seq<u8>, n: nat) -> Option<(Seq<u8>, Seq<u8>)>
    decreases s.len(),
{
    if n == 0 {
        Some((Seq::empty(), s))
    } else if s.len() == 0 {
        None
    } else if is_blank(s[0]) {
        take_glyphs(s.skip(1), n)
    } else {
        match take_glyphs(s.skip(1), (n - 1) as nat) {
            Some((glyphs, rest)) => Some((seq![s[0]] + glyphs, rest)),
            None => None,
        }
    }
}

/// Glyphs already read, followed by those that `more` holds.
pub open spec fn joined(read: Seq<u8>, more: Option<(Seq<u8>, Seq<u8>)>) -> Option<
    (Seq<u8>, Seq<u8>),
> {
    match more {
        Some((glyphs, rest)) => Some((read + glyphs, rest)),
        None => None,
    }
}

/// Glyphs of blocks that grow to the right: the two piece glyphs and the player.
pub open spec fn is_horizontal(g: u8) -> bool {
    g == LEFTRIGHT1 || g == LEFTRIGHT2 || g == PLAYER
}

/// Glyphs of blocks that grow downwards.
pub open spec fn is_vertical(g: u8) -> bool {
    g == UPDOWN1 || g == UPDOWN2
}

/// Glyphs of blocks of one cell.
pub open spec fn is_single(g: u8) -> bool {
    g == WALL || g == EXIT
}

/// Glyphs that stand for a block.
pub open spec fn is_block_glyph(g: u8) -> bool {
    is_horizontal(g) || is_vertical(g) || is_single(g)
}

/// Glyphs of blocks that take up room.
pub open spec fn is_solid_glyph(g: u8) -> bool {
    is_horizontal(g) || is_vertical(g) || g == WALL
}

/// Whether a block begins at position `p` of record `t`: a wall or an exit, or
/// the first cell of a run.
pub open spec fn heads(t: Seq<u8>, p: int) -> bool {
    if is_horizontal(t[p]) {
        p % 8 == 0 || t[p - 1] != t[p]
    } else if is_vertical(t[p]) {
        p < 8 || t[p - 8] != t[p]
    } else {
        is_single(t[p])
    }
}

/// Last position of the run of `t[p]` that goes right from `p` within its row.
pub open spec fn run_end_right(t: Seq<u8>, p: int) -> int
    decreases 64 - p,
{
    if 0 <= p < 63 && p % 8 < 7 && t[p + 1] == t[p] {
        run_end_right(t, p + 1)
    } else {
        p
    }
}

/// Last position of the run of `t[p]` that goes down from `p` within its column.
pub open spec fn run_end_down(t: Seq<u8>, p: int) -> int
    decreases 64 - p,
{
    if 0 <= p < 56 && t[p + 8] == t[p] {
        run_end_down(t, p + 8)
    } else {
        p
    }
}

/// The block that begins at position `p` of record `t`.
pub open spec fn block_at(t: Seq<u8>, p: int) -> Block {
    let x = (p % 8) as usize;
    let y = (p / 8) as usize;
    let g = t[p];
    let rest = Block {
        dir: BlockDir::Static,
        kind: BlockType::Wall,
        x1: x,
        y1: y,
        x2: x,
        y2: y,
        drag: false,
        target_x: 0,
        target_y: 0,
    };
    if is_horizontal(g) {
        Block {
            dir: BlockDir::LeftRight,
            kind: if g == PLAYER {
                BlockType::Player
            } else {
                BlockType::Other(g)
            },
            x2: (run_end_right(t, p) % 8) as usize,
            ..rest
        }
    } else if is_vertical(g) {
        Block {
            dir: BlockDir::UpDown,
            kind: BlockType::Other(g),
            y2: (run_end_down(t, p) / 8) as usize,
            ..rest
        }
    } else if g == EXIT {
        Block { kind: BlockType::Exit, ..rest }
    } else {
        rest
    }
}

/// The blocks that begin before position `n` of record `t`, in row-major order.
pub open spec fn decoded(t: Seq<u8>, n: int) -> Seq<Block>
    decreases n,
{
    if n <= 0 {
        Seq::empty()
    } else if heads(t, n - 1) {
        decoded(t, n - 1).push(block_at(t, n - 1))
    } else {
        decoded(t, n - 1)
    }
}

/// The blocks of a 64-glyph record.
pub open spec fn decode_blocks(t: Seq<u8>) -> Seq<Block> {
    decoded(t, 64)
}

/// Glyphs of pieces that can move.
pub open spec fn is_run_glyph(g: u8) -> bool {
    is_horizontal(g) || is_vertical(g)
}

/// What the grid of record `t` holds at position `c`: under a piece, the
/// number of the piece, which counts the pieces that begin before it; under
/// a wall the wall mark; on the exit the exit mark; elsewhere the floor mark.
pub open spec fn mark_at(t: Seq<u8>, c: int) -> u8 {
    if is_run_glyph(t[c]) {
        run_mark(runs(decoded(t, owner(t, c))) + 1)
    } else if t[c] == WALL {
        WALL
    } else if t[c] == EXIT {
        EXIT
    } else {
        FLOOR
    }
}

/// The grid of record `t`.
pub open spec fn decode_grid(t: Seq<u8>) -> Seq<u8> {
    Seq::new(64, |c: int| mark_at(t, c))
}

/// The glyph that `blocks` show at cell `(x, y)`: that of the last block that
/// covers the cell, floor where none does.
pub open spec fn glyph_at(blocks: Seq<Block>, x: int, y: int) -> u8
    decreases blocks.len(),
{
    if blocks.len() == 0 {
        FLOOR
    } else if blocks.last().contains(x, y) {
        blocks.last().glyph()
    } else {
        glyph_at(blocks.drop_last(), x, y)
    }
}

/// The 64-glyph record that shows `blocks`.
pub open spec fn encode_blocks(blocks: Seq<Block>) -> Seq<u8> {
    Seq::new(64, |c: int| glyph_at(blocks, c % 8, c / 8))
}

/// First position of the run that position `p` belongs to; `p` itself where
/// `p` is no later cell of a run.
pub open spec fn owner(t: Seq<u8>, p: int) -> int
    decreases p,
{
    if 0 <= p < 64 && is_horizontal(t[p]) && p % 8 != 0 && t[p - 1] == t[p] {
        owner(t, p - 1)
    } else if 0 <= p < 64 && is_vertical(t[p]) && p >= 8 && t[p - 8] == t[p] {
        owner(t, p - 8)
    } else {
        p
    }
}

/// What holds of the first position of the run of `q`.
pub proof fn lemma_owner(t: Seq<u8>, q: int)
    requires
        t.len() == 64,
        0 <= q < 64,
    ensures
        0 <= owner(t, q) <= q,
        t[owner(t, q)] == t[q],
        is_block_glyph(t[q]) ==> heads(t, owner(t, q)),
        owner(t, q) == q <==> (is_block_glyph(t[q]) ==> heads(t, q)),
        is_horizontal(t[q]) ==> owner(t, q) / 8 == q / 8 && forall|k: int|
            owner(t, q) <= k <= q ==> t[k] == t[q],
        is_vertical(t[q]) ==> owner(t, q) % 8 == q % 8 && forall|k: int|
            owner(t, q) <= k <= q && k % 8 == q % 8 ==> t[k] == t[q],
    decreases q,
{
    if is_horizontal(t[q]) && q % 8 != 0 && t[q - 1] == t[q] {
        lemma_owner(t, q - 1);
    } else if is_vertical(t[q]) && q >= 8 && t[q - 8] == t[q] {
        lemma_owner(t, q - 8);
        assert forall|k: int| owner(t, q) <= k <= q && k % 8 == q % 8 implies t[k] == t[q] by {
            if k != q {
                assert(k <= q - 8);
            }
        }
    }
}

/// What holds of the end of the run that goes right from `p`.
pub proof fn lemma_run_end_right(t: Seq<u8>, p: int)
    requires
        t.len() == 64,
        0 <= p < 64,
    ensures
        p <= run_end_right(t, p) < 64,
        run_end_right(t, p) / 8 == p / 8,
        forall|k: int| p <= k <= run_end_right(t, p) ==> t[k] == t[p],
        run_end_right(t, p) % 8 == 7 || t[run_end_right(t, p) + 1] != t[p],
    decreases 64 - p,
{
    if p < 63 && p % 8 < 7 && t[p + 1] == t[p] {
        lemma_run_end_right(t, p + 1);
    }
}

/// What holds of the end of the run that goes down from `p`.
pub proof fn lemma_run_end_down(t: Seq<u8>, p: int)
    requires
        t.len() == 64,
        0 <= p < 64,
    ensures
        p <= run_end_down(t, p) < 64,
        run_end_down(t, p) % 8 == p % 8,
        forall|k: int| p <= k <= run_end_down(t, p) && k % 8 == p % 8 ==> t[k] == t[p],
        run_end_down(t, p) >= 56 || t[run_end_down(t, p) + 8] != t[p],
    decreases 64 - p,
{
    if p < 56 && t[p + 8] == t[p] {
        lemma_run_end_down(t, p + 8);
        assert forall|k: int| p <= k <= run_end_down(t, p) && k % 8 == p % 8 implies t[k]
            == t[p] by {
            if k != p {
                assert(k >= p + 8);
            }
        }
    }
}

/// The positions whose run begins at the head `h` of a horizontal run are
/// those from `h` to the end of the run.
pub proof fn lemma_members_right(t: Seq<u8>, h: int, q: int)
    requires
        t.len() == 64,
        0 <= h < 64,
        0 <= q < 64,
        is_horizontal(t[h]),
        heads(t, h),
    ensures
        (is_block_glyph(t[q]) && owner(t, q) == h) <==> h <= q <= run_end_right(t, h),
    decreases q,
{
    lemma_run_end_right(t, h);
    lemma_owner(t, q);
    let e = run_end_right(t, h);
    if h < q <= e {
        assert(t[q] == t[h]);
        assert(t[q - 1] == t[h]);
        lemma_members_right(t, h, q - 1);
    } else if q > e && is_block_glyph(t[q]) && owner(t, q) == h {
        assert(t[e + 1] == t[q]);
    }
}

/// The positions whose run begins at the head `h` of a vertical run are those
/// of its column from `h` to the end of the run.
pub proof fn lemma_members_down(t: Seq<u8>, h: int, q: int)
    requires
        t.len() == 64,
        0 <= h < 64,
        0 <= q < 64,
        is_vertical(t[h]),
        heads(t, h),
    ensures
        (is_block_glyph(t[q]) && owner(t, q) == h) <==> (h <= q <= run_end_down(t, h) && q % 8
            == h % 8),
    decreases q,
{
    lemma_run_end_down(t, h);
    lemma_owner(t, q);
    let e = run_end_down(t, h);
    if h < q <= e && q % 8 == h % 8 {
        assert(q - 8 >= h);
        assert(t[q] == t[h]);
        assert(t[q - 8] == t[h]);
        lemma_members_down(t, h, q - 8);
    } else if q > e && q % 8 == h % 8 && is_block_glyph(t[q]) && owner(t, q) == h {
        assert(t[e + 8] == t[q]);
    }
}

/// The block that begins at a head is well formed and covers the positions
/// whose run begins there.
pub proof fn lemma_block_at(t: Seq<u8>, h: int)
    requires
        t.len() == 64,
        0 <= h < 64,
        heads(t, h),
    ensures
        block_at(t, h).shape_ok(),
        block_at(t, h).glyph() == t[h],
        block_at(t, h).solid() == is_solid_glyph(t[h]),
        block_at(t, h).x1 == h % 8,
        block_at(t, h).y1 == h / 8,
        forall|q: int|
            0 <= q < 64 ==> (#[trigger] block_at(t, h).contains(q % 8, q / 8) <==> (
            is_block_glyph(t[q]) && owner(t, q) == h)),
{
    lemma_run_end_right(t, h);
    lemma_run_end_down(t, h);
    assert forall|q: int| 0 <= q < 64 implies (#[trigger] block_at(t, h).contains(q % 8, q / 8)
        <==> (is_block_glyph(t[q]) && owner(t, q) == h)) by {
        lemma_owner(t, q);
        if is_horizontal(t[h]) {
            lemma_members_right(t, h, q);
        } else if is_vertical(t[h]) {
            lemma_members_down(t, h, q);
        }
    }
}


/// Stamps `id` on the run that goes right from `pos` and returns its last
/// position.
fn flood_right(template: &[u8; 64], data: &mut [u8; 64], pos: usize, id: u8) -> (end: usize)
    requires
        pos < 64,
    ensures
        end == run_end_right(template@, pos as int),
        forall|q: int|
            0 <= q < 64 ==> final(data)@[q] == if pos <= q <= end {
                id
            } else {
                old(data)@[q]
            },
{
    let ch = template[pos];
    let row = pos / 8;
    let mut pos2 = pos;
    while pos2 < 64 && pos2 / 8 == row && template[pos2] == ch
        invariant
            pos <= pos2 <= 64,
            pos < 64,
            row == pos / 8,
            ch == template@[pos as int],
            pos2 > pos ==> (pos2 - 1) / 8 == row && template@[pos2 - 1] == ch && run_end_right(
                template@,
                pos2 - 1,
            ) == run_end_right(template@, pos as int),
            forall|q: int|
                0 <= q < 64 ==> data@[q] == if pos <= q < pos2 {
                    id
                } else {
                    old(data)@[q]
                },
        decreases 64 - pos2,
    {
        data[pos2] = id;
        pos2 += 1;
    }
    pos2 - 1
}

/// Stamps `id` on the run that goes down from `pos` and returns its last
/// position.
fn flood_down(template: &[u8; 64], data: &mut [u8; 64], pos: usize, id: u8) -> (end: usize)
    requires
        pos < 64,
    ensures
        end == run_end_down(template@, pos as int),
        forall|q: int|
            0 <= q < 64 ==> final(data)@[q] == if pos <= q <= end && q % 8 == pos % 8 {
                id
            } else {
                old(data)@[q]
            },
{
    let ch = template[pos];
    let mut pos2 = pos;
    while pos2 < 64 && template[pos2] == ch
        invariant
            pos <= pos2 < 72,
            pos < 64,
            pos2 % 8 == pos % 8,
            ch == template@[pos as int],
            pos2 > pos ==> template@[pos2 - 8] == ch && run_end_down(template@, pos2 - 8)
                == run_end_down(template@, pos as int),
            forall|q: int|
                0 <= q < 64 ==> data@[q] == if pos <= q < pos2 && q % 8 == pos % 8 {
                    id
                } else {
                    old(data)@[q]
                },
        decreases 72 - pos2,
    {
        data[pos2] = id;
        pos2 += 8;
    }
    pos2 - 8
}

/// Whether `data` holds the marks of the blocks that begin before position
/// `n`, and floor elsewhere.
pub open spec fn claimed(t: Seq<u8>, data: Seq<u8>, n: int) -> bool {
    forall|q: int|
        0 <= q < 64 ==> (#[trigger] data[q]) == if owner(t, q) < n {
            mark_at(t, q)
        } else {
            FLOOR
        }
}

/// Whether every block is at rest.
pub open spec fn at_rest(blocks: Seq<Block>) -> bool {
    forall|i: int| 0 <= i < blocks.len() ==> (#[trigger] blocks[i]) == blocks[i].settled()
}

/// No more blocks begin before position `n` than there are positions.
pub proof fn lemma_decoded_len(t: Seq<u8>, n: int)
    requires
        0 <= n,
    ensures
        decoded(t, n).len() <= n,
        0 <= runs(decoded(t, n)) <= n,
    decreases n,
{
    lemma_runs_bound(decoded(t, n));
    if n > 0 {
        lemma_decoded_len(t, n - 1);
    }
}

/// The number of the `k`-th piece.
fn mark_of(k: usize) -> (m: u8)
    requires
        1 <= k <= 64,
    ensures
        m == run_mark(k as int),
{
    if k < 38 {
        k as u8
    } else if k < 41 {
        (k + 1) as u8
    } else {
        (k + 2) as u8
    }
}

/// Decodes a record into its blocks and the grid they take up.
///
/// The record is scanned in row-major order. A cell that an earlier run has
/// already claimed is passed over; a wall or an exit becomes a block of one
/// cell and leaves its mark; any other block glyph begins a run that is
/// followed to its end and claimed as a whole under a fresh number.
pub fn decode(template: &[u8; 64]) -> (r: (Vec<Block>, [u8; 64]))
    ensures
        r.0@ == decode_blocks(template@),
        r.1@ == decode_grid(template@),
        occupancy(r.1@, r.0@),
        shapes_ok(r.0@),
        at_rest(r.0@),
{
    let mut blocks: Vec<Block> = Vec::new();
    let mut data: [u8; 64] = [FLOOR; 64];
    let mut pieces: usize = 0;
    let mut pos: usize = 0;
    proof {
        assert forall|q: int| 0 <= q < 64 implies owner(template@, q) >= 0 by {
            lemma_owner(template@, q);
        }
    }
    while pos < 64
        invariant
            pos <= 64,
            blocks@ == decoded(template@, pos as int),
            pieces == runs(blocks@),
            claimed(template@, data@, pos as int),
        decreases 64 - pos,
    {
        let ghost t = template@;
        let ghost before = data@;
        let ghost earlier = blocks@;
        let (x, y) = pos_to_xy(pos);
        let ch = template[pos];
        proof {
            lemma_owner(t, pos as int);
            lemma_decoded_len(t, pos as int);
            lemma_decoded_len(t, owner(t, pos as int));
        }
        if data[pos] != FLOOR {
            proof {
                lemma_scan_passes(t, before, pos as int);
            }
        } else if ch == WALL {
            data[pos] = WALL;
            blocks.push(Block::new(BlockType::Wall, BlockDir::Static, x, y, x, y));
            proof {
                lemma_block_at(t, pos as int);
                lemma_scan_claims(t, before, data@, pos as int);
                assert(blocks@.drop_last() =~= earlier);
            }
        } else if ch == EXIT {
            data[pos] = EXIT;
            blocks.push(Block::new(BlockType::Exit, BlockDir::Static, x, y, x, y));
            proof {
                lemma_block_at(t, pos as int);
                lemma_scan_claims(t, before, data@, pos as int);
                assert(blocks@.drop_last() =~= earlier);
            }
        } else if ch == LEFTRIGHT1 || ch == LEFTRIGHT2 || ch == PLAYER {
            let id = mark_of(pieces + 1);
            let end = flood_right(template, &mut data, pos, id);
            proof {
                lemma_run_end_right(t, pos as int);
            }
            let (x2, y2) = pos_to_xy(end);
            let kind = if ch == PLAYER {
                BlockType::Player
            } else {
                BlockType::Other(ch)
            };
            blocks.push(Block::new(kind, BlockDir::LeftRight, x, y, x2, y2));
            pieces += 1;
            proof {
                lemma_block_at(t, pos as int);
                assert forall|q: int| 0 <= q < 64 implies (pos <= q <= end <==> #[trigger] block_at(
                    t,
                    pos as int,
                ).contains(q % 8, q / 8)) by {
                    lemma_members_right(t, pos as int, q);
                }
                lemma_scan_claims(t, before, data@, pos as int);
                assert(blocks@.drop_last() =~= earlier);
            }
        } else if ch == UPDOWN1 || ch == UPDOWN2 {
            let id = mark_of(pieces + 1);
            let end = flood_down(template, &mut data, pos, id);
            proof {
                lemma_run_end_down(t, pos as int);
            }
            let (x2, y2) = pos_to_xy(end);
            blocks.push(Block::new(BlockType::Other(ch), BlockDir::UpDown, x, y, x2, y2));
            pieces += 1;
            proof {
                lemma_block_at(t, pos as int);
                assert forall|q: int| 0 <= q < 64 implies ((pos <= q <= end && q % 8 == pos % 8)
                    <==> #[trigger] block_at(t, pos as int).contains(q % 8, q / 8)) by {
                    lemma_members_down(t, pos as int, q);
                }
                lemma_scan_claims(t, before, data@, pos as int);
                assert(blocks@.drop_last() =~= earlier);
            }
        } else {
            proof {
                lemma_scan_passes(t, before, pos as int);
            }
        }
        pos += 1;
    }
    proof {
        assert forall|q: int| 0 <= q < 64 implies data@[q] == decode_grid(template@)[q] by {
            lemma_owner(template@, q);
        }
        assert(data@ =~= decode_grid(template@));
        lemma_decode_wf(template@);
    }
    (blocks, data)
}

/// Passing over a position where no block begins leaves the claims as they
/// are.
proof fn lemma_scan_passes(t: Seq<u8>, data: Seq<u8>, pos: int)
    requires
        t.len() == 64,
        0 <= pos < 64,
        claimed(t, data, pos),
        !heads(t, pos),
    ensures
        claimed(t, data, pos + 1),
{
    assert forall|q: int| 0 <= q < 64 implies (#[trigger] data[q]) == if owner(t, q) < pos + 1 {
        mark_at(t, q)
    } else {
        FLOOR
    } by {
        lemma_owner(t, q);
    }
}

/// Leaving the mark of the block that begins at `pos` on the cells it covers
/// extends the claims by that block. The cells held floor before.
proof fn lemma_scan_claims(t: Seq<u8>, before: Seq<u8>, after: Seq<u8>, pos: int)
    requires
        t.len() == 64,
        0 <= pos < 64,
        heads(t, pos),
        claimed(t, before, pos),
        after.len() == 64,
        forall|q: int|
            0 <= q < 64 ==> after[q] == if block_at(t, pos).contains(q % 8, q / 8) {
                mark_at(t, pos)
            } else {
                before[q]
            },
    ensures
        claimed(t, after, pos + 1),
        forall|q: int|
            0 <= q < 64 && block_at(t, pos).contains(q % 8, q / 8) ==> #[trigger] before[q]
                == FLOOR,
{
    let b = block_at(t, pos);
    lemma_block_at(t, pos);
    lemma_owner(t, pos);
    assert forall|q: int| 0 <= q < 64 implies (#[trigger] after[q]) == if owner(t, q) < pos + 1 {
        mark_at(t, q)
    } else {
        FLOOR
    } by {
        lemma_owner(t, q);
        assert(b.contains(q % 8, q / 8) <==> (is_block_glyph(t[q]) && owner(t, q) == pos));
        assert(before[q] == if owner(t, q) < pos {
            mark_at(t, q)
        } else {
            FLOOR
        });
    }
    assert forall|q: int| 0 <= q < 64 && b.contains(q % 8, q / 8) implies #[trigger] before[q]
        == FLOOR by {
        assert(b.contains(q % 8, q / 8) <==> (is_block_glyph(t[q]) && owner(t, q) == pos));
    }
}

/// What a new block leaves on the cells it covers: its number if it can
/// move, the wall mark if it is solid and cannot, the exit mark otherwise.
pub open spec fn mark_of_new(earlier: Seq<Block>, b: Block) -> u8 {
    if b.movable() {
        run_mark(runs(earlier) + 1)
    } else if b.solid() {
        WALL
    } else {
        EXIT
    }
}

/// Leaving the mark of a new block on cells that held floor extends an
/// occupancy by that block.
proof fn lemma_scan_occupies(before: Seq<u8>, after: Seq<u8>, earlier: Seq<Block>, b: Block)
    requires
        occupancy(before, earlier),
        earlier.len() < 64,
        after.len() == 64,
        b.movable() ==> b.solid(),
        forall|q: int|
            0 <= q < 64 ==> after[q] == if b.contains(q % 8, q / 8) {
                mark_of_new(earlier, b)
            } else {
                before[q]
            },
        forall|q: int| 0 <= q < 64 && b.contains(q % 8, q / 8) ==> #[trigger] before[q] == FLOOR,
    ensures
        occupancy(after, earlier.push(b)),
{
    let later = earlier.push(b);
    let n = earlier.len() as int;
    lemma_runs_bound(earlier);
    assert(later.take(n) =~= earlier);
    assert forall|i: int| 0 <= i < n implies stamp(later, i) == stamp(earlier, i) by {
        assert(later.take(i) =~= earlier.take(i));
    }
    assert forall|i: int, x: int, y: int|
        0 <= i < later.len() && on_board(x, y) && later[i].solid() && #[trigger] later[i].contains(
            x,
            y,
        ) implies cell(after, x, y) == stamp(later, i) by {
        let q = x + 8 * y;
        assert(q % 8 == x && q / 8 == y);
        assert(cell(after, x, y) == after[q]);
        assert(cell(before, x, y) == before[q]);
        if i < n {
            assert(later[i] == earlier[i]);
            assert(earlier[i].contains(x, y));
            assert(cell(before, x, y) == stamp(earlier, i));
            lemma_run_id(earlier, i, i);
            assert(!b.contains(q % 8, q / 8));
        }
    }
    assert forall|x: int, y: int| on_board(x, y) && !covered(later, x, y) implies open_mark(
        later,
        x,
        y,
        #[trigger] cell(after, x, y),
    ) by {
        let q = x + 8 * y;
        assert(q % 8 == x && q / 8 == y);
        assert(cell(after, x, y) == after[q]);
        assert(cell(before, x, y) == before[q]);
        if covered(earlier, x, y) {
            let k = choose|k: int|
                0 <= k < earlier.len() && earlier[k].solid() && #[trigger] earlier[k].contains(
                    x,
                    y,
                );
            assert(later[k].contains(x, y));
        }
        if exit_at(earlier, x, y) {
            let k = choose|k: int|
                0 <= k < earlier.len() && earlier[k].kind == BlockType::Exit
                    && #[trigger] earlier[k].contains(x, y);
            assert(later[k].contains(x, y));
        }
        if exit_at(later, x, y) {
            let k = choose|k: int|
                0 <= k < later.len() && later[k].kind == BlockType::Exit
                    && #[trigger] later[k].contains(x, y);
            if k < n {
                assert(earlier[k].contains(x, y));
            }
        }
        if b.contains(x, y) {
            assert(later[n].contains(x, y));
        }
    }
}

/// A record without block glyphs holds no block.
pub proof fn lemma_decoded_none(t: Seq<u8>, n: int)
    requires
        0 <= n <= t.len(),
        forall|p: int| 0 <= p < n ==> !is_block_glyph(#[trigger] t[p]),
    ensures
        decoded(t, n) == Seq::<Block>::empty(),
    decreases n,
{
    if n > 0 {
        lemma_decoded_none(t, n - 1);
    }
}

/// The grid that the blocks take up which begin before position `n`.
pub open spec fn grid_upto(t: Seq<u8>, n: int) -> Seq<u8> {
    Seq::new(
        64,
        |c: int|
            if owner(t, c) < n {
                mark_at(t, c)
            } else {
                FLOOR
            },
    )
}

/// The blocks that begin before position `n` are well formed and at rest, and
/// the grid they take up is their occupancy.
pub proof fn lemma_decoded_wf(t: Seq<u8>, n: int)
    requires
        t.len() == 64,
        0 <= n <= 64,
    ensures
        shapes_ok(decoded(t, n)),
        at_rest(decoded(t, n)),
        occupancy(grid_upto(t, n), decoded(t, n)),
    decreases n,
{
    let after = grid_upto(t, n);
    lemma_decoded_len(t, n);
    if n == 0 {
        assert forall|q: int| 0 <= q < 64 implies after[q] == FLOOR by {
            lemma_owner(t, q);
        }
        assert forall|x: int, y: int| on_board(x, y) implies #[trigger] cell(after, x, y)
            == FLOOR by {
            assert(cell(after, x, y) == after[x + 8 * y]);
        }
    } else {
        let pos = n - 1;
        let before = grid_upto(t, pos);
        lemma_decoded_wf(t, pos);
        lemma_decoded_len(t, pos);
        if heads(t, pos) {
            let b = block_at(t, pos);
            lemma_block_at(t, pos);
            lemma_owner(t, pos);
            assert(mark_at(t, pos) == mark_of_new(decoded(t, pos), b));
            assert forall|q: int| 0 <= q < 64 implies after[q] == if b.contains(q % 8, q / 8) {
                mark_at(t, pos)
            } else {
                before[q]
            } by {
                lemma_owner(t, q);
                assert(b.contains(q % 8, q / 8) <==> (is_block_glyph(t[q]) && owner(t, q) == pos));
            }
            lemma_scan_claims(t, before, after, pos);
            lemma_scan_occupies(before, after, decoded(t, pos), b);
        } else {
            assert forall|q: int| 0 <= q < 64 implies after[q] == before[q] by {
                lemma_owner(t, q);
            }
            assert(after =~= before);
        }
    }
}

/// The blocks of a record are well formed and at rest, and the grid of the
/// record is their occupancy.
pub proof fn lemma_decode_wf(t: Seq<u8>)
    requires
        t.len() == 64,
    ensures
        shapes_ok(decode_blocks(t)),
        at_rest(decode_blocks(t)),
        occupancy(decode_grid(t), decode_blocks(t)),
{
    lemma_decoded_wf(t, 64);
    assert forall|q: int| 0 <= q < 64 implies decode_grid(t)[q] == grid_upto(t, 64)[q] by {
        lemma_owner(t, q);
    }
    assert(decode_grid(t) =~= grid_upto(t, 64));
}

/// Encodes blocks as a record: every block stamps its glyph on the cells it
/// covers, a later block over an earlier one, on a ground of floor.
pub fn encode(blocks: &Vec<Block>) -> (level: [u8; 64])
    requires
        shapes_ok(blocks@),
    ensures
        level@ == encode_blocks(blocks@),
{
    let mut level: [u8; 64] = [FLOOR; 64];
    let mut i: usize = 0;
    proof {
        assert(blocks@.take(0) =~= Seq::empty());
    }
    while i < blocks.len()
        invariant
            i <= blocks.len(),
            shapes_ok(blocks@),
            forall|x: int, y: int|
                on_board(x, y) ==> #[trigger] cell(level@, x, y) == glyph_at(
                    blocks@.take(i as int),
                    x,
                    y,
                ),
        decreases blocks.len() - i,
    {
        let block = blocks[i];
        let glyph = block.glyph_of();
        let ghost ground = level@;
        assert(block.shape_ok());
        let mut x = block.x1;
        while x < block.x2 + 1
            invariant
                block.shape_ok(),
                block.x1 <= x <= block.x2 + 1,
                forall|u: int, v: int|
                    on_board(u, v) ==> #[trigger] cell(level@, u, v) == if block.x1 <= u < x
                        && block.y1 <= v <= block.y2 {
                        glyph
                    } else {
                        cell(ground, u, v)
                    },
            decreases block.x2 + 1 - x,
        {
            let mut y = block.y1;
            while y < block.y2 + 1
                invariant
                    block.shape_ok(),
                    block.x1 <= x <= block.x2,
                    block.y1 <= y <= block.y2 + 1,
                    forall|u: int, v: int|
                        on_board(u, v) ==> #[trigger] cell(level@, u, v) == if (block.x1 <= u < x
                            && block.y1 <= v <= block.y2) || (u == x && block.y1 <= v < y) {
                            glyph
                        } else {
                            cell(ground, u, v)
                        },
                decreases block.y2 + 1 - y,
            {
                let ghost prior = level@;
                level[xy_to_pos(x, y)] = glyph;
                assert forall|u: int, v: int| on_board(u, v) implies #[trigger] cell(level@, u, v)
                    == if (block.x1 <= u < x && block.y1 <= v <= block.y2) || (u == x && block.y1
                    <= v < y + 1) {
                    glyph
                } else {
                    cell(ground, u, v)
                } by {
                    assert(cell(prior, u, v) == prior[u + 8 * v]);
                }
                y += 1;
            }
            x += 1;
        }
        proof {
            assert(blocks@.take(i + 1).drop_last() =~= blocks@.take(i as int));
            assert(blocks@.take(i + 1).last() == block);
        }
        i += 1;
    }
    proof {
        assert(blocks@.take(blocks@.len() as int) =~= blocks@);
        assert forall|c: int| 0 <= c < 64 implies level@[c] == encode_blocks(blocks@)[c] by {
            let x = c % 8;
            let y = c / 8;
            assert(cell(level@, x, y) == level@[c]);
        }
    }
    level
}


/// Byte `b` is a space, a carriage return or a line feed.
pub fn blank(b: u8) -> (r: bool)
    ensures
        r == is_blank(b),
{
    b == 32 || b == 13 || b == 10
}

/// Reads one record off the stream: the next 64 bytes that are not blank.
/// The stream is left right behind the last of them. Where it runs out
/// first, there is no record and the stream is used up.
pub fn read_record(data: &mut ByteStream) -> (r: Option<[u8; 64]>)
    ensures
        !final(data).holds_back(),
        match take_glyphs(old(data)@, 64) {
            Some((glyphs, rest)) => r matches Some(record) && record@ == glyphs && final(data)@
                == rest,
            None => r is None && final(data)@.len() == 0,
        },
{
    let mut record: [u8; 64] = [FLOOR; 64];
    let mut pos: usize = 0;
    proof {
        let whole = take_glyphs(data@, 64);
        if let Some((glyphs, rest)) = whole {
            assert(record@.take(0) + glyphs =~= glyphs);
        }
    }
    while pos < 64
        invariant
            pos <= 64,
            pos > 0 ==> !data.holds_back(),
            take_glyphs(old(data)@, 64) == joined(
                record@.take(pos as int),
                take_glyphs(data@, (64 - pos) as nat),
            ),
        decreases data@.len(),
    {
        let ghost before = data@;
        let ghost read = record@.take(pos as int);
        match data.next() {
            Some(b) => {
                if !blank(b) {
                    record[pos] = b;
                    pos += 1;
                    proof {
                        let more = take_glyphs(data@, (64 - pos) as nat);
                        assert(record@.take(pos as int) =~= read.push(b));
                        if let Some((glyphs, rest)) = more {
                            assert(read + (seq![b] + glyphs) =~= read.push(b) + glyphs);
                        }
                    }
                }
            },
            None => {
                return None;
            },
        }
    }
    proof {
        assert(record@.take(64) =~= record@);
        assert(record@ + Seq::<u8>::empty() =~= record@);
    }
    Some(record)
}

} // verus!
