//! Core engine of a 4x4 sliding-tile merging puzzle.
//!
//! The board is a fixed 4x4 grid of tiles.  Each tile stores a rank (the
//! exponent of its power-of-two value; rank 0 means the cell is empty)
//! together with its own coordinates.  A move slides and merges the tiles of
//! every line toward one edge; all four directions are reduced to one
//! canonical pass by two self-inverse geometric transforms.  After a move
//! that changed the board, a new tile of rank 1 or 2 appears on a random
//! empty cell.

pub mod board;
pub mod clock;
pub mod game;
pub mod piece;
pub mod rng;
pub mod rowpass;
pub mod text;

pub use clock::Time;
pub use game::Game;
pub use game::Message;
pub use game::Mode;
pub use game::UpgradeError;
pub use piece::Piece;
