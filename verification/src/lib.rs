//! Rules engine for a three-suit, three-dragon patience game: the board
//! model, the legality checks, the automatic collapse onto the foundations
//! and the move generator.

pub mod board;
pub mod board_slot;
pub mod card;
pub mod deal;
pub mod deck;
pub mod fixpoint;
pub mod index;
pub mod move_action;
pub mod moves;
pub mod neighbors;
pub mod simplify;
pub mod snapshot;
pub mod text;
pub mod theorems;

pub use crate::board::Board;
pub use crate::move_action::MoveAction;
