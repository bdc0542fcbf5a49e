//! Rules engine for a two-player stacking variant of tic-tac-toe.
//!
//! Pieces come in three sizes; a larger piece may be placed over a smaller
//! one, hiding it until the larger piece is moved away. The crate validates
//! moves, applies them to the board and detects victories.

pub mod board;
pub mod game;
pub mod game_move;
pub mod line;
pub mod piece;
pub mod player;
pub mod terminal;
pub mod text;

pub use board::{Board, Cell, CellError, CellState};
pub use game::{look_for_victory, Game, GameState, SubmitMoveError, Victory, STARTING_INVENTORY};
pub use game_move::{Move, ParseCellError, ParseMoveError};
pub use line::Line;
pub use piece::Size;
pub use player::Player;
pub use terminal::{closing, enter, frame, prompt, reset_sequence, EntryError};
