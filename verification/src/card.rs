//! Cards: the flower, the three dragon colours and the numbered suits.

use vstd::prelude::*;

verus! {

/// Colour of a dragon card. Four cards of each colour are in a deck.
#[derive(Debug, Copy, Clone, PartialEq, Eq, Hash, Structural)]
pub enum DragonCard {
    Green,
    White,
    Red,
}

/// Suit of a number card.
#[derive(Debug, Copy, Clone, PartialEq, Eq, Hash, Structural)]
pub enum NumberCard {
    Bamboo,
    Characters,
    Coin,
}

/// A single card. A number card carries its suit and its rank, 1 to 9.
#[derive(Debug, Copy, Clone, PartialEq, Eq, Hash, Structural)]
pub enum Card {
    Flower,
    Dragon(DragonCard),
    Number(NumberCard, u8),
}

/// Lowest rank of a number card.
pub const MIN_RANK: u8 = 1;

/// Highest rank of a number card.
pub const MAX_RANK: u8 = 9;

impl Card {
    /// The stacking rule: `self` may be placed on `below` when both are number
    /// cards of different suits and `below` is exactly one rank higher.
    pub open spec fn stacks_onto(self, below: Card) -> bool {
        match (self, below) {
            (Card::Number(suit, rank), Card::Number(below_suit, below_rank)) => {
                suit != below_suit && rank + 1 == below_rank
            },
            _ => false,
        }
    }

    /// Whether this card is a dragon of the given colour.
    pub open spec fn is_dragon_of(self, color: DragonCard) -> bool {
        self == Card::Dragon(color)
    }

    /// Decides the stacking rule for `self` placed on `below`.
    pub fn can_stack_onto(&self, below: &Card) -> (ok: bool)
        ensures
            ok == self.stacks_onto(*below),
            ok <==> (self is Number && below is Number && self->Number_0 != below->Number_0
                && self->Number_1 + 1 == below->Number_1),
            !(self is Number) || !(below is Number) ==> !ok,
    {
        match (*self, *below) {
            (Card::Number(suit, rank), Card::Number(below_suit, below_rank)) => {
                suit != below_suit && rank < u8::MAX && rank + 1 == below_rank
            },
            _ => false,
        }
    }

    /// Whether this card is a dragon of the given colour.
    pub fn is_dragon(&self, color: DragonCard) -> (yes: bool)
        ensures
            yes == self.is_dragon_of(color),
    {
        match *self {
            Card::Dragon(d) => d == color,
            _ => false,
        }
    }
}

} // verus!
