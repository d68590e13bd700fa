//! The state of a level as a mathematical value, and the moves of the game
//! as functions on it: pressing on a block, dragging it, releasing it, taking
//! a move back, starting over.

use vstd::prelude::*;
use crate::block::{Block, BlockDir, BlockType, Move};
use crate::board::{cell, clamp_cell, margin, on_board, over_board, FLOOR, GRAB_MARGIN};
use crate::codec::{decode_blocks, decode_grid};
use crate::engine::{extent, lemma_extent_clear, shifted_x, shifted_y};
use crate::grid::{
    can_place, covered, exit_at, lemma_runs_same, moved_grid, occupancy, occupancy_disjoint,
    open_mark, overlap, place, run_id, shapes_ok, stamp,
};

verus! {

/// A level seen as a value.
#[verifier::ext_equal]
pub struct LevelView {
    /// The record the level was read from.
    pub template: Seq<u8>,
    /// What stands on each cell now: the number of a piece, or the mark of
    /// a wall, of the exit or of floor.
    pub grid: Seq<u8>,
    /// The blocks, in row-major order of where they first stood.
    pub blocks: Seq<Block>,
    /// The last pointer position taken note of, in pixels.
    pub mouse_pos: (usize, usize),
    /// The cell that the pointer was on when the drag began.
    pub drag_origin: Option<(usize, usize)>,
    /// The block that is being dragged.
    pub drag_target: Option<usize>,
    /// Whether a block has reached the exit.
    pub solved: bool,
    /// Width of the window, in pixels.
    pub width: usize,
    /// Height of the window, in pixels.
    pub height: usize,
    /// The moves made, the latest last.
    pub moves: Seq<Move>,
}

/// What one round of input did, for the caller to tell.
#[derive(Clone, Copy, Debug, PartialEq, Eq, Structural)]
pub struct Round {
    /// The pointer position that was on record when the round began.
    pub mouse_x: usize,
    pub mouse_y: usize,
    /// Whether the button was down with no drag under way, so that a block
    /// was looked for.
    pub began: bool,
    /// Whether the button was up with a drag under way, so that the block
    /// was released.
    pub released: bool,
}

/// The blocks, all at rest.
pub open spec fn settle(blocks: Seq<Block>) -> Seq<Block> {
    Seq::new(blocks.len(), |i: int| blocks[i].settled())
}

/// The block as it is when a drag takes hold of it: its target is where it
/// stands.
pub open spec fn grabbed(b: Block) -> Block {
    Block { drag: true, target_x: b.x1, target_y: b.y1, ..b }
}

/// Whether the moves can be taken back one after the other, the latest
/// first: each block finds the place it came from free again.
pub open spec fn history_ok(blocks: Seq<Block>, moves: Seq<Move>) -> bool
    decreases moves.len(),
{
    moves.len() > 0 ==> {
        let m = moves.last();
        &&& can_place(blocks, m.block as int, m.x as int, m.y as int)
        &&& history_ok(place(blocks, m.block as int, m.x as int, m.y as int), moves.drop_last())
    }
}

/// Whether `blocks` are the blocks `first` but for where they stand and what
/// a drag adds: as many, each of the kind, axis and size it had.
pub open spec fn same_cast(blocks: Seq<Block>, first: Seq<Block>) -> bool {
    &&& blocks.len() == first.len()
    &&& forall|i: int|
        0 <= i < blocks.len() ==> {
            &&& (#[trigger] blocks[i]).kind == first[i].kind
            &&& blocks[i].dir == first[i].dir
            &&& blocks[i].x2 - blocks[i].x1 == first[i].x2 - first[i].x1
            &&& blocks[i].y2 - blocks[i].y1 == first[i].y2 - first[i].y1
        }
}

/// Whether footprint `b` covers the cell of an exit.
pub open spec fn covers_exit(blocks: Seq<Block>, b: Block) -> bool {
    exists|j: int|
        0 <= j < blocks.len() && (#[trigger] blocks[j]).kind == BlockType::Exit && b.contains(
            blocks[j].x1 as int,
            blocks[j].y1 as int,
        )
}

impl LevelView {
    /// An empty board in a window of 500 by 500 pixels.
    pub open spec fn blank() -> LevelView {
        LevelView {
            template: Seq::new(64, |i: int| FLOOR),
            grid: Seq::new(64, |i: int| FLOOR),
            blocks: Seq::empty(),
            mouse_pos: (0, 0),
            drag_origin: None,
            drag_target: None,
            solved: false,
            width: 500,
            height: 500,
            moves: Seq::empty(),
        }
    }

    /// The level with record `t` set up on it: the blocks where the record
    /// puts them, nothing dragged, nothing solved, no move made.
    pub open spec fn loaded(self, t: Seq<u8>) -> LevelView {
        LevelView {
            template: t,
            grid: decode_grid(t),
            blocks: decode_blocks(t),
            drag_origin: None,
            drag_target: None,
            solved: false,
            moves: Seq::empty(),
            ..self
        }
    }

    /// A new level with record `t` set up on it.
    pub open spec fn fresh(t: Seq<u8>) -> LevelView {
        LevelView::blank().loaded(t)
    }

    /// What always holds of a level: the blocks are those of the record, each
    /// of the kind, axis and size it was read with; every block keeps to its
    /// axis and to the board; the grid is an occupancy of the blocks; a
    /// dragged block has a target where it could stand, and no other block is
    /// in motion; every move on record can be taken back.
    pub open spec fn wf(self) -> bool {
        &&& self.template.len() == 64
        &&& same_cast(self.blocks, decode_blocks(self.template))
        &&& shapes_ok(self.blocks)
        &&& occupancy(self.grid, self.blocks)
        &&& history_ok(settle(self.blocks), self.moves)
        &&& match self.drag_target {
            Some(i) => {
                &&& i < self.blocks.len()
                &&& self.blocks[i as int].drag
                &&& can_place(
                    self.blocks,
                    i as int,
                    self.blocks[i as int].target_x as int,
                    self.blocks[i as int].target_y as int,
                )
                &&& self.drag_origin matches Some(o) && o.0 < 8 && o.1 < 8
                &&& forall|j: int|
                    0 <= j < self.blocks.len() && j != i ==> (#[trigger] self.blocks[j])
                        == self.blocks[j].settled()
            },
            None => {
                &&& self.drag_origin is None
                &&& forall|j: int|
                    0 <= j < self.blocks.len() ==> (#[trigger] self.blocks[j])
                        == self.blocks[j].settled()
            },
        }
    }

    /// Whether a press at pixel `(mx, my)` lands on block `b`: the pointer is
    /// over the board, on a cell that the block covers, and the block can move.
    pub open spec fn hit_exact(self, b: Block, mx: int, my: int) -> bool {
        &&& b.movable()
        &&& over_board(self.width as int, mx)
        &&& over_board(self.height as int, my)
        &&& b.contains(clamp_cell(self.width as int, mx), clamp_cell(self.height as int, my))
    }

    /// Whether a press at pixel `(mx, my)` lands within 10 pixels of the
    /// screen rectangle of block `b`, and the block can move.
    pub open spec fn hit_near(self, b: Block, mx: int, my: int) -> bool {
        &&& b.movable()
        &&& b.x1 * 50 + margin(self.width as int, 400) - GRAB_MARGIN <= mx <= (b.x2 + 1) * 50
            + margin(self.width as int, 400) + GRAB_MARGIN
        &&& b.y1 * 50 + margin(self.height as int, 400) - GRAB_MARGIN <= my <= (b.y2 + 1) * 50
            + margin(self.height as int, 400) + GRAB_MARGIN
    }

    /// Index of the first block from `from` on that the press lands on; the
    /// number of blocks if there is none.
    pub open spec fn first_exact(self, mx: int, my: int, from: int) -> int
        decreases self.blocks.len() - from,
    {
        if from < 0 || from >= self.blocks.len() {
            self.blocks.len() as int
        } else if self.hit_exact(self.blocks[from], mx, my) {
            from
        } else {
            self.first_exact(mx, my, from + 1)
        }
    }

    /// Index of the first block from `from` on that the press lands near; the
    /// number of blocks if there is none.
    pub open spec fn first_near(self, mx: int, my: int, from: int) -> int
        decreases self.blocks.len() - from,
    {
        if from < 0 || from >= self.blocks.len() {
            self.blocks.len() as int
        } else if self.hit_near(self.blocks[from], mx, my) {
            from
        } else {
            self.first_near(mx, my, from + 1)
        }
    }

    /// The block that a press at pixel `(mx, my)` takes hold of: the first
    /// that it lands on, else the first that it lands near.
    pub open spec fn pick(self, mx: int, my: int) -> Option<int> {
        if self.first_exact(mx, my, 0) < self.blocks.len() {
            Some(self.first_exact(mx, my, 0))
        } else if self.first_near(mx, my, 0) < self.blocks.len() {
            Some(self.first_near(mx, my, 0))
        } else {
            None
        }
    }

    /// The level after a press at pixel `(mx, my)`. While a block is dragged,
    /// and where the press finds no block, nothing changes.
    pub open spec fn begun(self, mx: int, my: int) -> LevelView {
        if self.drag_target is Some {
            self
        } else {
            match self.pick(mx, my) {
                Some(i) => LevelView {
                    blocks: self.blocks.update(i, grabbed(self.blocks[i])),
                    drag_origin: Some(
                        (
                            clamp_cell(self.width as int, mx) as usize,
                            clamp_cell(self.height as int, my) as usize,
                        ),
                    ),
                    drag_target: Some(i as usize),
                    ..self
                },
                None => self,
            }
        }
    }

    /// How many cells the pointer at pixel `(mx, my)` is from where the drag
    /// began, along the axis of block `b`.
    pub open spec fn drag_delta(self, b: Block, mx: int, my: int) -> int {
        let origin = self.drag_origin.unwrap();
        if b.dir == BlockDir::LeftRight {
            clamp_cell(self.width as int, mx) - origin.0
        } else {
            clamp_cell(self.height as int, my) - origin.1
        }
    }

    /// The level after the pointer has moved to pixel `(mx, my)`: the dragged
    /// block's target follows as far as the engine grants. Nothing but the
    /// target changes.
    pub open spec fn dragged(self, mx: int, my: int) -> LevelView {
        match self.drag_target {
            Some(i) => {
                let b = self.blocks[i as int];
                let r = extent(
                    self.grid,
                    b,
                    run_id(self.blocks, i as int),
                    self.drag_delta(b, mx, my),
                );
                LevelView {
                    blocks: self.blocks.update(
                        i as int,
                        Block {
                            target_x: shifted_x(b, r) as usize,
                            target_y: shifted_y(b, r) as usize,
                            ..b
                        },
                    ),
                    ..self
                }
            },
            None => self,
        }
    }

    /// The level after block `i` has moved to `(x, y)`: its number goes with
    /// it on the grid, the cells it has left hold floor, and the level is
    /// solved once the block covers the exit.
    pub open spec fn shifted(self, i: int, x: int, y: int) -> LevelView {
        let b = self.blocks[i];
        let landed = b.moved_to(x, y);
        LevelView {
            grid: moved_grid(self.grid, b, landed, run_id(self.blocks, i)),
            blocks: self.blocks.update(i, landed),
            solved: self.solved || covers_exit(self.blocks, landed),
            ..self
        }
    }

    /// The level after the dragged block has been released: it moves to its
    /// target, where it stood goes on record, and the drag is over. With no
    /// drag under way nothing changes.
    pub open spec fn committed(self) -> LevelView {
        match self.drag_target {
            Some(i) => {
                let b = self.blocks[i as int];
                LevelView {
                    moves: self.moves.push(Move { block: i, x: b.x1, y: b.y1 }),
                    drag_origin: None,
                    drag_target: None,
                    ..self.shifted(i as int, b.target_x as int, b.target_y as int)
                }
            },
            None => self,
        }
    }

    /// The level after the latest move has been taken back: the block returns
    /// to where it stood and the record of the move is gone. While a block is
    /// dragged, and with no move on record, nothing changes.
    pub open spec fn undone(self) -> LevelView {
        if self.drag_target is Some || self.moves.len() == 0 {
            self
        } else {
            let m = self.moves.last();
            LevelView {
                moves: self.moves.drop_last(),
                ..self.shifted(m.block as int, m.x as int, m.y as int)
            }
        }
    }

    /// The level started over from its record.
    pub open spec fn restarted(self) -> LevelView {
        self.loaded(self.template)
    }

    /// The level after a tick in a window of `width` by `height` pixels: the
    /// dragged block follows the pointer position last taken note of.
    pub open spec fn updated(self, width: usize, height: usize) -> LevelView {
        (LevelView { width, height, ..self }).dragged(
            self.mouse_pos.0 as int,
            self.mouse_pos.1 as int,
        )
    }

    /// What a round of input does, as told to the caller.
    pub open spec fn round(self, pressed: bool) -> Round {
        Round {
            mouse_x: self.mouse_pos.0,
            mouse_y: self.mouse_pos.1,
            began: pressed && self.drag_target is None,
            released: !pressed && self.drag_target is Some,
        }
    }

    /// The level after one round of input. A pressed button takes hold of the
    /// block under the pointer position last taken note of; then the new
    /// pointer position, if there is one, is taken note of; then the latest
    /// move is taken back if that was asked for; then, with the button up,
    /// the dragged block is released.
    pub open spec fn interacted(
        self,
        pressed: bool,
        cursor: Option<(usize, usize)>,
        undo: bool,
    ) -> LevelView {
        let held = if pressed {
            self.begun(self.mouse_pos.0 as int, self.mouse_pos.1 as int)
        } else {
            self
        };
        let seen = match cursor {
            Some(p) => LevelView { mouse_pos: p, ..held },
            None => held,
        };
        let back = if undo {
            seen.undone()
        } else {
            seen
        };
        if pressed {
            back
        } else {
            back.committed()
        }
    }
}


/// Whether two lists hold the same blocks but for what a drag adds: the flag
/// and the target.
pub open spec fn same_pieces(a: Seq<Block>, b: Seq<Block>) -> bool {
    &&& a.len() == b.len()
    &&& forall|j: int| 0 <= j < a.len() ==> (#[trigger] a[j]).settled() == b[j].settled()
}

/// Where a block could stand does not depend on what is being dragged.
pub proof fn lemma_can_place_same(a: Seq<Block>, b: Seq<Block>, i: int, x: int, y: int)
    requires
        same_pieces(a, b),
        can_place(a, i, x, y),
    ensures
        can_place(b, i, x, y),
{
    assert(a[i].settled() == b[i].settled());
    assert forall|j: int| 0 <= j < b.len() && j != i && (#[trigger] b[j]).solid() implies !overlap(
        b[i].moved_to(x, y),
        b[j],
    ) by {
        assert(a[j].settled() == b[j].settled());
        assert(a[j].solid());
    }
}

/// Which cells are covered, and where exits lie, does not depend on what is
/// being dragged.
pub proof fn lemma_cover_same(a: Seq<Block>, b: Seq<Block>, x: int, y: int)
    requires
        same_pieces(a, b),
    ensures
        covered(a, x, y) == covered(b, x, y),
        exit_at(a, x, y) == exit_at(b, x, y),
{
    if covered(a, x, y) {
        let k = choose|k: int| 0 <= k < a.len() && a[k].solid() && #[trigger] a[k].contains(x, y);
        assert(a[k].settled() == b[k].settled());
        assert(b[k].contains(x, y));
    }
    if covered(b, x, y) {
        let k = choose|k: int| 0 <= k < b.len() && b[k].solid() && #[trigger] b[k].contains(x, y);
        assert(a[k].settled() == b[k].settled());
        assert(a[k].contains(x, y));
    }
    if exit_at(a, x, y) {
        let k = choose|k: int|
            0 <= k < a.len() && a[k].kind == BlockType::Exit && #[trigger] a[k].contains(x, y);
        assert(a[k].settled() == b[k].settled());
        assert(b[k].contains(x, y));
    }
    if exit_at(b, x, y) {
        let k = choose|k: int|
            0 <= k < b.len() && b[k].kind == BlockType::Exit && #[trigger] b[k].contains(x, y);
        assert(a[k].settled() == b[k].settled());
        assert(a[k].contains(x, y));
    }
}

/// The stamp of a block does not depend on what is being dragged.
pub proof fn lemma_stamp_same(a: Seq<Block>, b: Seq<Block>, i: int)
    requires
        same_pieces(a, b),
        0 <= i < a.len(),
    ensures
        stamp(a, i) == stamp(b, i),
        run_id(a, i) == run_id(b, i),
{
    assert forall|k: int| 0 <= k < a.len() implies (#[trigger] a[k]).movable()
        == b[k].movable() by {
        assert(a[k].settled() == b[k].settled());
    }
    lemma_runs_same(a, b, i);
}

/// An occupancy does not depend on what is being dragged.
pub proof fn lemma_occupancy_same(grid: Seq<u8>, a: Seq<Block>, b: Seq<Block>)
    requires
        same_pieces(a, b),
        occupancy(grid, a),
        shapes_ok(a),
    ensures
        occupancy(grid, b),
        shapes_ok(b),
{
    assert forall|i: int, x: int, y: int|
        0 <= i < b.len() && on_board(x, y) && b[i].solid() && #[trigger] b[i].contains(
            x,
            y,
        ) implies cell(grid, x, y) == stamp(b, i) by {
        assert(a[i].settled() == b[i].settled());
        assert(a[i].contains(x, y));
        lemma_stamp_same(a, b, i);
    }
    assert forall|x: int, y: int| on_board(x, y) && !covered(b, x, y) implies open_mark(
        b,
        x,
        y,
        #[trigger] cell(grid, x, y),
    ) by {
        lemma_cover_same(a, b, x, y);
    }
    assert forall|i: int| 0 <= i < b.len() implies (#[trigger] b[i]).shape_ok() by {
        assert(a[i].settled() == b[i].settled());
        assert(a[i].shape_ok());
    }
}

/// A block that moves to a place where it can stand leaves the grid an
/// occupancy of the blocks, and every block on its axis and on the board.
pub proof fn lemma_shifted(l: LevelView, i: int, x: int, y: int)
    requires
        shapes_ok(l.blocks),
        occupancy(l.grid, l.blocks),
        can_place(l.blocks, i, x, y),
    ensures
        shapes_ok(l.shifted(i, x, y).blocks),
        occupancy(l.shifted(i, x, y).grid, l.shifted(i, x, y).blocks),
        l.shifted(i, x, y).blocks == place(l.blocks, i, x, y),
{
    let b = l.blocks[i];
    let landed = b.moved_to(x, y);
    let id = run_id(l.blocks, i);
    let grid = l.shifted(i, x, y).grid;
    let blocks = l.shifted(i, x, y).blocks;
    assert(b.shape_ok());
    assert(landed.shape_ok());
    assert(b.solid() && landed.solid());
    assert forall|k: int| 0 <= k < blocks.len() implies (#[trigger] blocks[k]).shape_ok() by {
        if k != i {
            assert(l.blocks[k].shape_ok());
        }
    }
    assert forall|k: int| 0 <= k < blocks.len() implies (#[trigger] l.blocks[k]).movable()
        == blocks[k].movable() by {}
    assert forall|u: int, v: int| on_board(u, v) implies #[trigger] cell(grid, u, v) == if landed.contains(
        u,
        v,
    ) {
        id
    } else if b.contains(u, v) {
        FLOOR
    } else {
        cell(l.grid, u, v)
    } by {
        let c = u + 8 * v;
        assert(c % 8 == u && c / 8 == v);
    }
    assert forall|k: int, u: int, v: int|
        0 <= k < blocks.len() && on_board(u, v) && blocks[k].solid() && #[trigger] blocks[k].contains(
            u,
            v,
        ) implies cell(grid, u, v) == stamp(blocks, k) by {
        lemma_runs_same(l.blocks, blocks, k);
        if k != i {
            assert(l.blocks[k].contains(u, v));
            assert(l.blocks[k].solid());
            assert(!overlap(landed, l.blocks[k]));
            occupancy_disjoint(l.grid, l.blocks, i, k);
            assert(!b.contains(u, v));
        }
    }
    assert forall|u: int, v: int| on_board(u, v) && !covered(blocks, u, v) implies open_mark(
        blocks,
        u,
        v,
        #[trigger] cell(grid, u, v),
    ) by {
        lemma_exit_shifted(l.blocks, i, landed, u, v);
        if landed.contains(u, v) {
            assert(blocks[i].contains(u, v));
        } else if !b.contains(u, v) {
            if covered(l.blocks, u, v) {
                let k = choose|k: int|
                    0 <= k < l.blocks.len() && l.blocks[k].solid() && #[trigger] l.blocks[k].contains(
                        u,
                        v,
                    );
                assert(k != i);
                assert(blocks[k].contains(u, v));
            }
        }
    }
}

/// Where exits lie does not change when a block that is no exit moves.
pub proof fn lemma_exit_shifted(blocks: Seq<Block>, i: int, landed: Block, u: int, v: int)
    requires
        0 <= i < blocks.len(),
        blocks[i].kind != BlockType::Exit,
        landed.kind != BlockType::Exit,
    ensures
        exit_at(blocks.update(i, landed), u, v) == exit_at(blocks, u, v),
{
    let after = blocks.update(i, landed);
    if exit_at(blocks, u, v) {
        let k = choose|k: int|
            0 <= k < blocks.len() && blocks[k].kind == BlockType::Exit
                && #[trigger] blocks[k].contains(u, v);
        assert(after[k].contains(u, v));
    }
    if exit_at(after, u, v) {
        let k = choose|k: int|
            0 <= k < after.len() && after[k].kind == BlockType::Exit && #[trigger] after[k].contains(
                u,
                v,
            );
        assert(blocks[k].contains(u, v));
    }
}

impl LevelView {
    /// The first block that a press lands on lies at or after `from`, and
    /// the press does land on it.
    pub proof fn lemma_first_exact(self, mx: int, my: int, from: int)
        requires
            0 <= from <= self.blocks.len(),
        ensures
            from <= self.first_exact(mx, my, from) <= self.blocks.len(),
            self.first_exact(mx, my, from) < self.blocks.len() ==> self.hit_exact(
                self.blocks[self.first_exact(mx, my, from)],
                mx,
                my,
            ),
            forall|j: int|
                from <= j < self.first_exact(mx, my, from) ==> !self.hit_exact(
                    #[trigger] self.blocks[j],
                    mx,
                    my,
                ),
        decreases self.blocks.len() - from,
    {
        if from < self.blocks.len() && !self.hit_exact(self.blocks[from], mx, my) {
            self.lemma_first_exact(mx, my, from + 1);
        }
    }

    /// The first block that a press lands near lies at or after `from`, and
    /// the press does land near it.
    pub proof fn lemma_first_near(self, mx: int, my: int, from: int)
        requires
            0 <= from <= self.blocks.len(),
        ensures
            from <= self.first_near(mx, my, from) <= self.blocks.len(),
            self.first_near(mx, my, from) < self.blocks.len() ==> self.hit_near(
                self.blocks[self.first_near(mx, my, from)],
                mx,
                my,
            ),
            forall|j: int|
                from <= j < self.first_near(mx, my, from) ==> !self.hit_near(
                    #[trigger] self.blocks[j],
                    mx,
                    my,
                ),
        decreases self.blocks.len() - from,
    {
        if from < self.blocks.len() && !self.hit_near(self.blocks[from], mx, my) {
            self.lemma_first_near(mx, my, from + 1);
        }
    }

    /// A press keeps a level well formed.
    pub proof fn lemma_begun_wf(self, mx: int, my: int)
        requires
            self.wf(),
        ensures
            self.begun(mx, my).wf(),
    {
        let after = self.begun(mx, my);
        if self.drag_target is None && self.pick(mx, my) is Some {
            let i = self.pick(mx, my).unwrap();
            self.lemma_first_exact(mx, my, 0);
            self.lemma_first_near(mx, my, 0);
            let b = self.blocks[i];
            assert(b.shape_ok());
            assert(same_pieces(self.blocks, after.blocks)) by {
                assert forall|j: int| 0 <= j < self.blocks.len() implies (
                #[trigger] self.blocks[j]).settled() == after.blocks[j].settled() by {}
            }
            lemma_occupancy_same(self.grid, self.blocks, after.blocks);
            assert(settle(after.blocks) =~= settle(self.blocks));
            assert forall|j: int|
                0 <= j < after.blocks.len() && j != i && (#[trigger] after.blocks[j]).solid() implies !overlap(
                after.blocks[i].moved_to(b.x1 as int, b.y1 as int),
                after.blocks[j],
            ) by {
                assert(self.blocks[j] == after.blocks[j]);
                occupancy_disjoint(self.grid, self.blocks, i, j);
            }
        }
    }

    /// A move of the pointer keeps a level well formed.
    pub proof fn lemma_dragged_wf(self, mx: int, my: int)
        requires
            self.wf(),
        ensures
            self.dragged(mx, my).wf(),
    {
        let after = self.dragged(mx, my);
        if let Some(i) = self.drag_target {
            let b = self.blocks[i as int];
            let r = extent(
                self.grid,
                b,
                run_id(self.blocks, i as int),
                self.drag_delta(b, mx, my),
            );
            assert(b.shape_ok());
            lemma_extent_clear(self.grid, self.blocks, i as int, self.drag_delta(b, mx, my));
            assert(same_pieces(self.blocks, after.blocks)) by {
                assert forall|j: int| 0 <= j < self.blocks.len() implies (
                #[trigger] self.blocks[j]).settled() == after.blocks[j].settled() by {}
            }
            lemma_occupancy_same(self.grid, self.blocks, after.blocks);
            lemma_can_place_same(
                self.blocks,
                after.blocks,
                i as int,
                shifted_x(b, r),
                shifted_y(b, r),
            );
            assert(settle(after.blocks) =~= settle(self.blocks));
        }
    }

    /// A release keeps a level well formed.
    pub proof fn lemma_committed_wf(self)
        requires
            self.wf(),
        ensures
            self.committed().wf(),
    {
        let after = self.committed();
        if let Some(i) = self.drag_target {
            let b = self.blocks[i as int];
            let x = b.target_x as int;
            let y = b.target_y as int;
            assert(b.shape_ok());
            lemma_shifted(self, i as int, x, y);
            let m = Move { block: i, x: b.x1, y: b.y1 };
            assert(after.moves.last() == m);
            assert(after.moves.drop_last() =~= self.moves);
            let rest = settle(after.blocks);
            assert forall|j: int|
                0 <= j < rest.len() && j != i && (#[trigger] rest[j]).solid() implies !overlap(
                rest[i as int].moved_to(b.x1 as int, b.y1 as int),
                rest[j],
            ) by {
                assert(self.blocks[j].solid());
                occupancy_disjoint(self.grid, self.blocks, i as int, j);
            }
            assert(place(rest, i as int, b.x1 as int, b.y1 as int) =~= settle(self.blocks));
        }
    }

    /// Taking a move back keeps a level well formed.
    pub proof fn lemma_undone_wf(self)
        requires
            self.wf(),
        ensures
            self.undone().wf(),
    {
        let after = self.undone();
        if self.drag_target is None && self.moves.len() > 0 {
            let m = self.moves.last();
            assert(settle(self.blocks) =~= self.blocks);
            lemma_shifted(self, m.block as int, m.x as int, m.y as int);
            assert(settle(after.blocks) =~= after.blocks);
        }
    }
}

} // verus!
