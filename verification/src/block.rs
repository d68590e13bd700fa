//! Pieces of the board: what they are, along which axis they slide and which
//! cells they cover.

use vstd::prelude::*;
use crate::board::{EXIT, LEFTRIGHT1, LEFTRIGHT2, PLAYER, UPDOWN1, UPDOWN2, WALL};

verus! {

/// The axis along which a block may slide.
#[derive(Clone, Copy, Debug, PartialEq, Eq, Structural)]
pub enum BlockDir {
    LeftRight,
    UpDown,
    Static,
}

/// What a block is. A piece remembers the glyph it was read from.
#[derive(Clone, Copy, Debug, PartialEq, Eq, Structural)]
pub enum BlockType {
    Player,
    Other(u8),
    Wall,
    Exit,
}

/// Colour in which a block is drawn.
#[derive(Clone, Copy, Debug, PartialEq, Eq, Structural)]
pub enum Tint {
    Red,
    White,
    Yellow,
    Blue,
    Green,
}

/// A rectangular occupant of the board, covering the cells from `(x1, y1)` to
/// `(x2, y2)`, both included. While it is dragged, `(target_x, target_y)` is
/// where its top left cell would land.
#[derive(Clone, Copy, Debug, PartialEq, Eq, Structural)]
pub struct Block {
    pub dir: BlockDir,
    pub kind: BlockType,
    pub x1: usize,
    pub y1: usize,
    pub x2: usize,
    pub y2: usize,
    pub drag: bool,
    pub target_x: usize,
    pub target_y: usize,
}

/// One entry of the undo history: block `block` stood at `(x, y)` before it moved.
#[derive(Clone, Copy, Debug, PartialEq, Eq, Structural)]
pub struct Move {
    pub block: usize,
    pub x: usize,
    pub y: usize,
}

impl Block {
    /// Whether the block covers cell `(x, y)`.
    pub open spec fn contains(self, x: int, y: int) -> bool {
        self.x1 <= x <= self.x2 && self.y1 <= y <= self.y2
    }

    /// Whether the block takes up room: everything but the exit, which any
    /// piece may enter.
    pub open spec fn solid(self) -> bool {
        self.kind != BlockType::Exit
    }

    /// Whether the block can be dragged.
    pub open spec fn movable(self) -> bool {
        self.dir != BlockDir::Static
    }

    /// Whether kind and axis belong together: the player and `-`, `_` pieces
    /// slide left and right, `|`, `(` pieces up and down, walls and exits stay.
    pub open spec fn kind_ok(self) -> bool {
        match self.kind {
            BlockType::Player => self.dir == BlockDir::LeftRight,
            BlockType::Other(ch) => (self.dir == BlockDir::LeftRight && (ch == LEFTRIGHT1 || ch
                == LEFTRIGHT2)) || (self.dir == BlockDir::UpDown && (ch == UPDOWN1 || ch
                == UPDOWN2)),
            BlockType::Wall => self.dir == BlockDir::Static,
            BlockType::Exit => self.dir == BlockDir::Static,
        }
    }

    /// Whether the footprint lies on the board and fits the axis: one row for
    /// a block that slides left and right, one column for one that slides up
    /// and down, one cell for one that stays.
    pub open spec fn shape_ok(self) -> bool {
        &&& self.x1 <= self.x2 < 8
        &&& self.y1 <= self.y2 < 8
        &&& self.dir == BlockDir::LeftRight ==> self.y1 == self.y2
        &&& self.dir == BlockDir::UpDown ==> self.x1 == self.x2
        &&& self.dir == BlockDir::Static ==> self.x1 == self.x2 && self.y1 == self.y2
        &&& self.kind_ok()
    }

    /// The glyph that stands for the block in a record.
    pub open spec fn glyph(self) -> u8 {
        match self.kind {
            BlockType::Other(ch) => ch,
            BlockType::Exit => EXIT,
            BlockType::Player => PLAYER,
            BlockType::Wall => WALL,
        }
    }

    /// The colour of the block: red for the player, white for walls, yellow
    /// for the exit, blue for pieces that slide left and right, green for
    /// those that slide up and down.
    pub open spec fn tint(self) -> Tint {
        match self.kind {
            BlockType::Player => Tint::Red,
            BlockType::Wall => Tint::White,
            BlockType::Exit => Tint::Yellow,
            BlockType::Other(_) => if self.dir == BlockDir::LeftRight {
                Tint::Blue
            } else {
                Tint::Green
            },
        }
    }

    /// The block with its top left cell at `(x, y)`, its size kept, at rest.
    pub open spec fn moved_to(self, x: int, y: int) -> Block {
        Block {
            x1: x as usize,
            y1: y as usize,
            x2: (x + self.x2 - self.x1) as usize,
            y2: (y + self.y2 - self.y1) as usize,
            drag: false,
            target_x: 0,
            target_y: 0,
            ..self
        }
    }

    /// The block at rest: not dragged, no target.
    pub open spec fn settled(self) -> Block {
        Block { drag: false, target_x: 0, target_y: 0, ..self }
    }

    /// A block at rest with the given kind, axis and footprint.
    pub fn new(kind: BlockType, dir: BlockDir, x1: usize, y1: usize, x2: usize, y2: usize) -> (b:
        Block)
        ensures
            b == (Block { dir, kind, x1, y1, x2, y2, drag: false, target_x: 0, target_y: 0 }),
    {
        Block { kind, dir, x1, y1, x2, y2, drag: false, target_x: 0, target_y: 0 }
    }

    /// The glyph that stands for the block in a record.
    pub fn glyph_of(&self) -> (g: u8)
        ensures
            g == self.glyph(),
    {
        match self.kind {
            BlockType::Other(ch) => ch,
            BlockType::Exit => EXIT,
            BlockType::Player => PLAYER,
            BlockType::Wall => WALL,
        }
    }
}

impl Default for Block {
    /// A wall at the top left cell.
    fn default() -> (b: Block)
        ensures
            b == (Block {
                dir: BlockDir::Static,
                kind: BlockType::Wall,
                x1: 0,
                y1: 0,
                x2: 0,
                y2: 0,
                drag: false,
                target_x: 0,
                target_y: 0,
            }),
    {
        Block {
            kind: BlockType::Wall,
            dir: BlockDir::Static,
            x1: 0,
            y1: 0,
            x2: 0,
            y2: 0,
            drag: false,
            target_x: 0,
            target_y: 0,
        }
    }
}

/// The colour of a block: red for the player, white for walls, yellow for the
/// exit, blue for pieces that slide left and right, green for those that slide
/// up and down. No piece stays in place, so such a block has no colour.
pub fn color(block: &Block) -> (t: Tint)
    requires
        !(block.kind is Other && block.dir == BlockDir::Static),
    ensures
        t == block.tint(),
{
    match block.kind {
        BlockType::Player => Tint::Red,
        BlockType::Wall => Tint::White,
        BlockType::Exit => Tint::Yellow,
        BlockType::Other(_) => match block.dir {
            BlockDir::LeftRight => Tint::Blue,
            _ => Tint::Green,
        },
    }
}

} // verus!
