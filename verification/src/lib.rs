//! Simulation core of a sliding-block puzzle on a fixed 8x8 board.
//!
//! A level is decoded from a 64-glyph record into walls, an exit, a player and
//! pieces that each slide along one axis. Dragging a piece proposes a target
//! that never passes through another piece; releasing it commits the move,
//! records it for undo and detects the win.

pub mod board;
pub mod block;
pub mod grid;
pub mod codec;
pub mod stream;
pub mod engine;
pub mod play;
pub mod text;
pub mod level;
pub mod level_set;
pub mod input;
pub mod laws;

pub use block::{color, Block, BlockDir, BlockType, Move, Tint};
pub use board::{
    pos_to_xy, xy_to_pos, xy_to_sxy, EXIT, FLOOR, LEFTRIGHT1, LEFTRIGHT2, PLAYER, TILES_HIGH,
    TILES_WIDE, TILE_HEIGHT, TILE_WIDTH, UPDOWN1, UPDOWN2, WALL,
};
pub use input::{PointerEvent, PointerState};
pub use level::{Level, Sprite};
pub use level_set::{LevelSet, LoadError};
pub use play::Round;
pub use stream::ByteStream;
