//! A level in play: its record, its live grid, its blocks, the drag under
//! way and the moves made.

use vstd::prelude::*;
use crate::block::{color, Block, BlockDir, BlockType, Move, Tint};
use crate::board::{
    cell, margin, on_board, pointer_on_board, screen_to_cell, xy_to_pos, xy_to_sxy, FLOOR,
    GRAB_MARGIN, TILE_HEIGHT, TILE_WIDTH,
};
use crate::codec::{
    decode, encode, encode_blocks, lemma_decoded_none, read_record, take_glyphs,
};
use crate::engine::compute_extent;
use crate::grid::{can_place, occupancy, run_id, shapes_ok};
use crate::play::{covers_exit, settle, LevelView, Round};
use crate::stream::ByteStream;
use crate::text::{as_rows, as_text, rows_of, text_of};

verus! {

/// What is drawn for one block: a rectangle on screen, in pixels, and its
/// colour.
#[derive(Clone, Copy, Debug, PartialEq, Eq, Structural)]
pub struct Sprite {
    pub x: usize,
    pub y: usize,
    pub width: usize,
    pub height: usize,
    pub tint: Tint,
}

/// What is drawn for block `b` in a window of `width` by `height` pixels: the
/// block at its target while it is dragged, else where it stands.
pub open spec fn sprite_of(b: Block, width: usize, height: usize) -> Sprite {
    let x = if b.drag { b.target_x } else { b.x1 };
    let y = if b.drag { b.target_y } else { b.y1 };
    Sprite {
        x: (x * 50 + margin(width as int, 400)) as usize,
        y: (y * 50 + margin(height as int, 400)) as usize,
        width: ((1 + b.x2 - b.x1) * 50) as usize,
        height: ((1 + b.y2 - b.y1) * 50) as usize,
        tint: b.tint(),
    }
}

/// A level in play.
#[derive(Debug)]
pub struct Level {
    template: [u8; 64],
    data: [u8; 64],
    blocks: Vec<Block>,
    mouse_pos: (usize, usize),
    drag_origin: Option<(usize, usize)>,
    drag_target: Option<usize>,
    solved: bool,
    width: usize,
    height: usize,
    moves: Vec<Move>,
}

impl View for Level {
    type V = LevelView;

    closed spec fn view(&self) -> LevelView {
        LevelView {
            template: self.template@,
            grid: self.data@,
            blocks: self.blocks@,
            mouse_pos: self.mouse_pos,
            drag_origin: self.drag_origin,
            drag_target: self.drag_target,
            solved: self.solved,
            width: self.width,
            height: self.height,
            moves: self.moves@,
        }
    }
}

/// Sets every cell from `(x1, y1)` to `(x2, y2)` to `value`.
fn fill(data: &mut [u8; 64], x1: usize, y1: usize, x2: usize, y2: usize, value: u8)
    requires
        x1 <= x2 < 8,
        y1 <= y2 < 8,
    ensures
        forall|u: int, v: int|
            on_board(u, v) ==> #[trigger] cell(final(data)@, u, v) == if x1 <= u <= x2 && y1 <= v
                <= y2 {
                value
            } else {
                cell(old(data)@, u, v)
            },
{
    let mut x = x1;
    while x < x2 + 1
        invariant
            x1 <= x <= x2 + 1,
            x2 < 8,
            y1 <= y2 < 8,
            forall|u: int, v: int|
                on_board(u, v) ==> #[trigger] cell(data@, u, v) == if x1 <= u < x && y1 <= v
                    <= y2 {
                    value
                } else {
                    cell(old(data)@, u, v)
                },
        decreases x2 + 1 - x,
    {
        let mut y = y1;
        while y < y2 + 1
            invariant
                x1 <= x <= x2,
                x2 < 8,
                y1 <= y <= y2 + 1,
                y2 < 8,
                forall|u: int, v: int|
                    on_board(u, v) ==> #[trigger] cell(data@, u, v) == if (x1 <= u < x && y1 <= v
                        <= y2) || (u == x && y1 <= v < y) {
                        value
                    } else {
                        cell(old(data)@, u, v)
                    },
            decreases y2 + 1 - y,
        {
            let ghost prior = data@;
            data[xy_to_pos(x, y)] = value;
            assert forall|u: int, v: int| on_board(u, v) implies #[trigger] cell(data@, u, v)
                == if (x1 <= u < x && y1 <= v <= y2) || (u == x && y1 <= v < y + 1) {
                value
            } else {
                cell(old(data)@, u, v)
            } by {
                assert(cell(prior, u, v) == prior[u + 8 * v]);
            }
            y += 1;
        }
        x += 1;
    }
}

/// Whether footprint `b` covers the cell of an exit among `blocks`.
fn reaches_exit(blocks: &Vec<Block>, b: &Block) -> (r: bool)
    ensures
        r == covers_exit(blocks@, *b),
{
    let mut j: usize = 0;
    while j < blocks.len()
        invariant
            j <= blocks.len(),
            forall|k: int|
                0 <= k < j ==> !((#[trigger] blocks@[k]).kind == BlockType::Exit && b.contains(
                    blocks@[k].x1 as int,
                    blocks@[k].y1 as int,
                )),
        decreases blocks.len() - j,
    {
        let other = blocks[j];
        if other.kind == BlockType::Exit && b.x1 <= other.x1 && other.x1 <= b.x2 && b.y1
            <= other.y1 && other.y1 <= b.y2 {
            return true;
        }
        j += 1;
    }
    false
}

impl Level {
    /// An empty board in a window of 500 by 500 pixels.
    pub fn new() -> (level: Level)
        ensures
            level@ == LevelView::blank(),
            level@.wf(),
    {
        let level = Level {
            template: [FLOOR; 64],
            data: [FLOOR; 64],
            blocks: Vec::new(),
            mouse_pos: (0, 0),
            drag_origin: None,
            drag_target: None,
            solved: false,
            width: 500,
            height: 500,
            moves: Vec::new(),
        };
        proof {
            assert(level@ =~= LevelView::blank());
            lemma_decoded_none(level@.template, 64);
        }
        level
    }

    /// Reads the next record off the stream into a new level. The stream
    /// must hold the 64 glyphs of a record.
    pub fn from(data: &mut ByteStream) -> (level: Level)
        requires
            take_glyphs(old(data)@, 64) is Some,
        ensures
            level@ == LevelView::fresh(take_glyphs(old(data)@, 64).unwrap().0),
            level@.wf(),
            final(data)@ == take_glyphs(old(data)@, 64).unwrap().1,
            !final(data).holds_back(),
    {
        let mut level = Level::new();
        level.parse(data);
        level
    }

    /// A new level with `record` set up on it.
    pub fn from_record(record: [u8; 64]) -> (level: Level)
        ensures
            level@ == LevelView::fresh(record@),
            level@.wf(),
    {
        let mut level = Level::new();
        level.install(record);
        level
    }

    /// Reads the next record off the stream and sets it up on this level:
    /// the blocks stand where the record puts them, nothing is dragged,
    /// nothing is solved and no move is on record. The stream must hold the
    /// 64 glyphs of a record.
    pub fn parse(&mut self, data: &mut ByteStream)
        requires
            take_glyphs(old(data)@, 64) is Some,
        ensures
            final(self)@ == old(self)@.loaded(take_glyphs(old(data)@, 64).unwrap().0),
            final(self)@.wf(),
            final(data)@ == take_glyphs(old(data)@, 64).unwrap().1,
            !final(data).holds_back(),
    {
        match read_record(data) {
            Some(record) => {
                self.install(record);
            },
            None => {},
        }
    }

    /// Sets `record` up on this level.
    fn install(&mut self, record: [u8; 64])
        ensures
            final(self)@ == old(self)@.loaded(record@),
            final(self)@.wf(),
    {
        let (blocks, data) = decode(&record);
        self.template = record;
        self.data = data;
        self.blocks = blocks;
        self.drag_origin = None;
        self.drag_target = None;
        self.solved = false;
        self.moves = Vec::new();
        assert(self@ =~= old(self)@.loaded(record@));
    }

    /// Starts the level over from its record.
    pub fn reset(&mut self)
        ensures
            final(self)@ == old(self)@.restarted(),
            final(self)@.wf(),
    {
        let record = self.template;
        self.install(record);
    }

    /// The cell under the pixel `(sx, sy)`, each coordinate clamped to the
    /// board.
    pub fn sxy_to_xy(&self, sx: usize, sy: usize) -> (r: (usize, usize))
        ensures
            r.0 == crate::board::clamp_cell(self@.width as int, sx as int),
            r.1 == crate::board::clamp_cell(self@.height as int, sy as int),
            on_board(r.0 as int, r.1 as int),
    {
        screen_to_cell(self.width, self.height, sx, sy)
    }

    /// The level as a record: every block shows its glyph on the cells it
    /// covers, the rest is floor.
    pub fn serialize(&self) -> (level: [u8; 64])
        requires
            self@.wf(),
        ensures
            level@ == encode_blocks(self@.blocks),
    {
        encode(&self.blocks)
    }

    /// The level's record as a string of 64 characters.
    pub fn to_string(&self) -> (s: String)
        requires
            self@.wf(),
        ensures
            s@ == as_text(encode_blocks(self@.blocks)),
    {
        let bytes = self.serialize();
        text_of(&bytes)
    }

    /// The level's record as eight lines of eight characters.
    pub fn to_string_pretty(&self) -> (s: String)
        requires
            self@.wf(),
        ensures
            s@ == as_rows(encode_blocks(self@.blocks)),
    {
        let bytes = self.serialize();
        rows_of(&bytes)
    }

    /// Whether a press at pixel `(mx, my)` lands on `block`.
    fn hits_exact(&self, block: &Block, mx: usize, my: usize) -> (r: bool)
        ensures
            r == self@.hit_exact(*block, mx as int, my as int),
    {
        let (x, y) = self.sxy_to_xy(mx, my);
        block.dir != BlockDir::Static && pointer_on_board(self.width, self.height, mx, my)
            && (block.x1 <= x) && (x <= block.x2) && (block.y1 <= y) && (y <= block.y2)
    }

    /// Whether a press at pixel `(mx, my)` lands within 10 pixels of `block`.
    fn hits_near(&self, block: &Block, mx: usize, my: usize) -> (r: bool)
        requires
            block.shape_ok(),
        ensures
            r == self@.hit_near(*block, mx as int, my as int),
    {
        let (sx1, sy1) = xy_to_sxy(self.width, self.height, block.x1, block.y1);
        let (sx2, sy2) = xy_to_sxy(self.width, self.height, block.x2 + 1, block.y2 + 1);
        block.dir != BlockDir::Static && (sx1 <= GRAB_MARGIN || sx1 - GRAB_MARGIN <= mx) && (mx
            <= sx2 + GRAB_MARGIN) && (sy1 <= GRAB_MARGIN || sy1 - GRAB_MARGIN <= my) && (my <= sy2
            + GRAB_MARGIN)
    }

    /// Index of the first block that a press at `(mx, my)` lands on.
    fn find_exact(&self, mx: usize, my: usize) -> (i: usize)
        ensures
            i == self@.first_exact(mx as int, my as int, 0),
            i <= self@.blocks.len(),
    {
        let mut i: usize = 0;
        while i < self.blocks.len()
            invariant
                i <= self.blocks.len(),
                self@.first_exact(mx as int, my as int, 0) == self@.first_exact(
                    mx as int,
                    my as int,
                    i as int,
                ),
            decreases self.blocks.len() - i,
        {
            let block = self.blocks[i];
            if self.hits_exact(&block, mx, my) {
                return i;
            }
            i += 1;
        }
        i
    }

    /// Index of the first block that a press at `(mx, my)` lands near.
    fn find_near(&self, mx: usize, my: usize) -> (i: usize)
        requires
            shapes_ok(self@.blocks),
        ensures
            i == self@.first_near(mx as int, my as int, 0),
            i <= self@.blocks.len(),
    {
        let mut i: usize = 0;
        while i < self.blocks.len()
            invariant
                i <= self.blocks.len(),
                shapes_ok(self@.blocks),
                self@.first_near(mx as int, my as int, 0) == self@.first_near(
                    mx as int,
                    my as int,
                    i as int,
                ),
            decreases self.blocks.len() - i,
        {
            let block = self.blocks[i];
            assert(self@.blocks[i as int].shape_ok());
            if self.hits_near(&block, mx, my) {
                return i;
            }
            i += 1;
        }
        i
    }

    /// A press at pixel `(mx, my)`. With no drag under way it takes hold of
    /// the first movable block under the pointer, else of the first one
    /// within 10 pixels of it; the block's target is where it stands. It
    /// changes nothing where it finds no block, and nothing during a drag.
    pub fn begin_drag(&mut self, mx: usize, my: usize)
        requires
            old(self)@.wf(),
        ensures
            final(self)@ == old(self)@.begun(mx as int, my as int),
            final(self)@.wf(),
    {
        proof {
            self@.lemma_begun_wf(mx as int, my as int);
            self@.lemma_first_exact(mx as int, my as int, 0);
            self@.lemma_first_near(mx as int, my as int, 0);
        }
        if self.drag_target.is_some() {
            return ;
        }
        let (x, y) = self.sxy_to_xy(mx, my);
        let mut i = self.find_exact(mx, my);
        if i >= self.blocks.len() {
            i = self.find_near(mx, my);
        }
        if i < self.blocks.len() {
            let block = self.blocks[i];
            self.blocks[i].drag = true;
            self.blocks[i].target_x = block.x1;
            self.blocks[i].target_y = block.y1;
            self.drag_origin = Some((x, y));
            self.drag_target = Some(i);
        }
        assert(self@ =~= old(self)@.begun(mx as int, my as int));
    }

    /// The pointer has moved to pixel `(mx, my)`: the dragged block's target
    /// follows it along the block's axis, as far as the engine grants. The
    /// grid does not change.
    pub fn drag_to(&mut self, mx: usize, my: usize)
        requires
            old(self)@.wf(),
        ensures
            final(self)@ == old(self)@.dragged(mx as int, my as int),
            final(self)@.wf(),
    {
        proof {
            self@.lemma_dragged_wf(mx as int, my as int);
        }
        let drag_target = match self.drag_target {
            Some(dt) => dt,
            None => {
                return ;
            },
        };
        let (bx, by) = self.sxy_to_xy(mx, my);
        let (ox, oy) = match self.drag_origin {
            Some(origin) => origin,
            None => {
                return ;
            },
        };
        let block = self.blocks[drag_target];
        assert(block.shape_ok());
        // The piece's own number is what its first cell holds.
        let id: u8 = self.data[xy_to_pos(block.x1, block.y1)];
        proof {
            assert(self@.blocks[drag_target as int].contains(block.x1 as int, block.y1 as int));
            assert(cell(self@.grid, block.x1 as int, block.y1 as int) == id);
            assert(id == run_id(self@.blocks, drag_target as int));
        }
        match block.dir {
            BlockDir::LeftRight => {
                let dx: isize = bx as isize - ox as isize;
                let reach = compute_extent(&self.data, &block, id, dx);
                self.blocks[drag_target].target_x = (block.x1 as isize + reach) as usize;
                self.blocks[drag_target].target_y = block.y1;
            },
            _ => {
                let dy: isize = by as isize - oy as isize;
                let reach = compute_extent(&self.data, &block, id, dy);
                self.blocks[drag_target].target_x = block.x1;
                self.blocks[drag_target].target_y = (block.y1 as isize + reach) as usize;
            },
        }
        assert(self@ =~= old(self)@.dragged(mx as int, my as int));
    }

    /// Moves block `i` to `(x, y)`: its old cells become floor, its new
    /// cells take its number, and the level is solved once it covers the
    /// exit.
    fn shift(&mut self, i: usize, x: usize, y: usize)
        requires
            shapes_ok(old(self)@.blocks),
            occupancy(old(self)@.grid, old(self)@.blocks),
            can_place(old(self)@.blocks, i as int, x as int, y as int),
        ensures
            final(self)@ == old(self)@.shifted(i as int, x as int, y as int),
    {
        let block = self.blocks[i];
        assert(block.shape_ok());
        let id: u8 = self.data[xy_to_pos(block.x1, block.y1)];
        proof {
            assert(self@.blocks[i as int].contains(block.x1 as int, block.y1 as int));
            assert(cell(self@.grid, block.x1 as int, block.y1 as int) == id);
            assert(id == run_id(self@.blocks, i as int));
        }
        let width = block.x2 - block.x1;
        let height = block.y2 - block.y1;
        let landed = Block::new(block.kind, block.dir, x, y, x + width, y + height);
        if reaches_exit(&self.blocks, &landed) {
            self.solved = true;
        }
        fill(&mut self.data, block.x1, block.y1, block.x2, block.y2, FLOOR);
        fill(&mut self.data, landed.x1, landed.y1, landed.x2, landed.y2, id);
        self.blocks[i] = landed;
        proof {
            let want = old(self)@.shifted(i as int, x as int, y as int);
            assert(landed == block.moved_to(x as int, y as int));
            assert forall|c: int| 0 <= c < 64 implies self.data@[c] == want.grid[c] by {
                let u = c % 8;
                let v = c / 8;
                assert(cell(self.data@, u, v) == self.data@[c]);
                assert(cell(old(self).data@, u, v) == old(self).data@[c]);
            }
            assert(self@ =~= want);
        }
    }

    /// The pointer is released: the dragged block moves to its target, where
    /// it stood goes on record, even if it has not moved, and the drag is
    /// over. The level is solved once the block covers the exit. With no
    /// drag under way nothing changes.
    pub fn end_drag(&mut self)
        requires
            old(self)@.wf(),
        ensures
            final(self)@ == old(self)@.committed(),
            final(self)@.wf(),
            old(self)@.drag_target matches Some(i) ==> (final(self)@.solved <==> old(self)@.solved
                || covers_exit(
                old(self)@.blocks,
                old(self)@.blocks[i as int].moved_to(
                    old(self)@.blocks[i as int].target_x as int,
                    old(self)@.blocks[i as int].target_y as int,
                ),
            )),
    {
        proof {
            self@.lemma_committed_wf();
        }
        match self.drag_target {
            Some(i) => {
                let block = self.blocks[i];
                self.moves.push(Move { block: i, x: block.x1, y: block.y1 });
                self.shift(i, block.target_x, block.target_y);
                self.drag_target = None;
                self.drag_origin = None;
            },
            None => {},
        }
        assert(self@ =~= old(self)@.committed());
    }

    /// Takes the latest move back: the block returns to where it stood, by
    /// the way of `end_drag`, and the record of the move is gone. It changes
    /// nothing where no move is on record, and nothing during a drag.
    pub fn undo(&mut self)
        requires
            old(self)@.wf(),
        ensures
            final(self)@ == old(self)@.undone(),
            final(self)@.wf(),
    {
        proof {
            self@.lemma_undone_wf();
        }
        if self.drag_target.is_some() {
            return ;
        }
        // With no drag under way every block is at rest.
        assert(settle(self@.blocks) =~= self@.blocks);
        match self.moves.pop() {
            Some(m) => {
                self.shift(m.block, m.x, m.y);
            },
            None => {},
        }
        assert(self@ =~= old(self)@.undone());
    }

    /// A tick in a window of `width` by `height` pixels: the dragged block
    /// follows the pointer position last taken note of.
    pub fn update(&mut self, width: usize, height: usize)
        requires
            old(self)@.wf(),
        ensures
            final(self)@ == old(self)@.updated(width, height),
            final(self)@.wf(),
    {
        self.width = width;
        self.height = height;
        assert(self@ =~= (LevelView { width, height, ..old(self)@ }));
        assert(self@.wf());
        if self.drag_origin.is_some() {
            let (mx, my) = self.mouse_pos;
            self.drag_to(mx, my);
        }
    }

    /// One round of input. `pressed` tells whether the button is down,
    /// `cursor` where the pointer is if that is to be taken note of, `undo`
    /// whether the latest move is to be taken back. The result tells the
    /// caller what the round did.
    pub fn interact(&mut self, pressed: bool, cursor: Option<(usize, usize)>, undo: bool) -> (round:
        Round)
        requires
            old(self)@.wf(),
        ensures
            final(self)@ == old(self)@.interacted(pressed, cursor, undo),
            final(self)@.wf(),
            round == old(self)@.round(pressed),
    {
        let round = Round {
            mouse_x: self.mouse_pos.0,
            mouse_y: self.mouse_pos.1,
            began: pressed && self.drag_target.is_none(),
            released: !pressed && self.drag_target.is_some(),
        };
        if pressed {
            if self.drag_target.is_none() {
                let (mx, my) = self.mouse_pos;
                self.begin_drag(mx, my);
            }
        }
        let ghost held = self@;
        match cursor {
            Some(p) => {
                self.mouse_pos = p;
                assert(self@ =~= (LevelView { mouse_pos: p, ..held }));
            },
            None => {},
        }
        assert(self@.wf());
        if undo {
            self.undo();
        }
        if !pressed && self.drag_target.is_some() {
            self.end_drag();
        }
        round
    }

    /// What is to be drawn, the last block first.
    pub fn draw(&self) -> (sprites: Vec<Sprite>)
        requires
            self@.wf(),
        ensures
            sprites@.len() == self@.blocks.len(),
            forall|k: int|
                0 <= k < sprites@.len() ==> sprites@[k] == sprite_of(
                    self@.blocks[self@.blocks.len() - 1 - k],
                    self@.width,
                    self@.height,
                ),
    {
        let mut sprites: Vec<Sprite> = Vec::new();
        let mut left = self.blocks.len();
        while left > 0
            invariant
                self@.wf(),
                left <= self.blocks.len(),
                sprites@.len() == self.blocks.len() - left,
                forall|k: int|
                    0 <= k < sprites@.len() ==> sprites@[k] == sprite_of(
                        self@.blocks[self@.blocks.len() - 1 - k],
                        self@.width,
                        self@.height,
                    ),
            decreases left,
        {
            left -= 1;
            let block = self.blocks[left];
            assert(self@.blocks[left as int].shape_ok());
            proof {
                if block.drag {
                    assert(self@.drag_target == Some(left));
                }
            }
            let (mut x, mut y) = (block.x1, block.y1);
            if block.drag {
                x = block.target_x;
                y = block.target_y;
            }
            let (sx, sy) = xy_to_sxy(self.width, self.height, x, y);
            let width = (1 + block.x2 - block.x1) * TILE_WIDTH;
            let height = (1 + block.y2 - block.y1) * TILE_HEIGHT;
            sprites.push(Sprite { x: sx, y: sy, width, height, tint: color(&block) });
        }
        sprites
    }

    /// The blocks, in row-major order of where they first stood.
    pub fn blocks(&self) -> (blocks: &Vec<Block>)
        ensures
            blocks@ == self@.blocks,
    {
        &self.blocks
    }

    /// The live grid: for each cell, in row-major order, the number of the
    /// piece that stands on it, or the mark of a wall, of the exit or of
    /// floor.
    pub fn data(&self) -> (data: [u8; 64])
        ensures
            data@ == self@.grid,
    {
        self.data
    }

    /// The record the level was read from.
    pub fn template(&self) -> (template: [u8; 64])
        ensures
            template@ == self@.template,
    {
        self.template
    }

    /// Whether a block has reached the exit.
    pub fn solved(&self) -> (solved: bool)
        ensures
            solved == self@.solved,
    {
        self.solved
    }

    /// The block that is being dragged.
    pub fn drag_target(&self) -> (target: Option<usize>)
        ensures
            target == self@.drag_target,
    {
        self.drag_target
    }

    /// The cell that the pointer was on when the drag began.
    pub fn drag_origin(&self) -> (origin: Option<(usize, usize)>)
        ensures
            origin == self@.drag_origin,
    {
        self.drag_origin
    }

    /// The moves made, the latest last.
    pub fn moves(&self) -> (moves: &Vec<Move>)
        ensures
            moves@ == self@.moves,
    {
        &self.moves
    }

    /// The pointer position last taken note of, in pixels.
    pub fn mouse_pos(&self) -> (pos: (usize, usize))
        ensures
            pos == self@.mouse_pos,
    {
        self.mouse_pos
    }

    /// Takes note of the pointer position, in pixels.
    pub fn set_mouse_pos(&mut self, mx: usize, my: usize)
        ensures
            final(self)@ == (LevelView { mouse_pos: (mx, my), ..old(self)@ }),
    {
        self.mouse_pos = (mx, my);
        assert(self@ =~= (LevelView { mouse_pos: (mx, my), ..old(self)@ }));
    }

    /// Size of the window, in pixels.
    pub fn size(&self) -> (size: (usize, usize))
        ensures
            size == (self@.width, self@.height),
    {
        (self.width, self.height)
    }
}

} // verus!
