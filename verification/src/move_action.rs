//! What a player can ask of a board.

use vstd::prelude::*;
use crate::card::DragonCard;
use crate::index::Slot;

verus! {

/// A request of the player. It records the intent, not the outcome.
#[derive(Debug, Copy, Clone, PartialEq, Eq, Hash, Structural)]
pub enum MoveAction {
    /// Retire the four dragons of one colour into a holding cell.
    CollectDragon(DragonCard),
    /// Move the given number of cards from the top of the first slot onto
    /// the second slot, keeping their order.
    Move(Slot, usize, Slot),
}

impl MoveAction {
    /// Whether the slots that the action names exist.
    pub open spec fn valid(self) -> bool {
        match self {
            MoveAction::CollectDragon(_) => true,
            MoveAction::Move(source, _, target) => source.valid() && target.valid(),
        }
    }
}

} // verus!
