//! The parts of a board besides its columns: the foundation counters and the
//! state of a holding cell.

use vstd::prelude::*;
use crate::card::{Card, NumberCard};

verus! {

/// Foundation counters: for each suit, the rank up to which its cards have
/// left play.
#[derive(Debug, Copy, Clone, PartialEq, Eq, Hash, Structural)]
pub struct BoardOut {
    pub bamboo: u8,
    pub characters: u8,
    pub coin: u8,
}

/// State of a holding cell.
#[derive(Debug, Copy, Clone, PartialEq, Eq, Hash, Structural)]
pub enum BoardSpare {
    /// A completed set of dragons is parked here; the cell is out of use.
    Collected,
    /// The cell holds one card.
    Card(Card),
    /// The cell is free.
    Empty,
}

impl BoardOut {
    /// The counter of one suit.
    pub open spec fn of(self, suit: NumberCard) -> u8 {
        match suit {
            NumberCard::Bamboo => self.bamboo,
            NumberCard::Characters => self.characters,
            NumberCard::Coin => self.coin,
        }
    }

    /// These counters with the one of `suit` replaced by `rank`.
    pub open spec fn with(self, suit: NumberCard, rank: u8) -> BoardOut {
        match suit {
            NumberCard::Bamboo => BoardOut { bamboo: rank, ..self },
            NumberCard::Characters => BoardOut { characters: rank, ..self },
            NumberCard::Coin => BoardOut { coin: rank, ..self },
        }
    }

    /// Whether every counter is at least `rank`.
    pub open spec fn all_at_least(self, rank: int) -> bool {
        self.bamboo >= rank && self.characters >= rank && self.coin >= rank
    }

    /// Reads the counter of one suit.
    pub fn get(&self, suit: NumberCard) -> (rank: u8)
        ensures
            rank == self.of(suit),
    {
        match suit {
            NumberCard::Bamboo => self.bamboo,
            NumberCard::Characters => self.characters,
            NumberCard::Coin => self.coin,
        }
    }

    /// Replaces the counter of one suit.
    pub fn set(&mut self, suit: NumberCard, rank: u8)
        ensures
            *final(self) == old(self).with(suit, rank),
    {
        match suit {
            NumberCard::Bamboo => {
                self.bamboo = rank;
            },
            NumberCard::Characters => {
                self.characters = rank;
            },
            NumberCard::Coin => {
                self.coin = rank;
            },
        }
    }
}

impl BoardSpare {
    /// Number of cards in the cell: one or none.
    pub open spec fn occupied(self) -> nat {
        if self is Card {
            1
        } else {
            0
        }
    }

    /// The card in the cell, if it holds one.
    pub open spec fn card(self) -> Option<Card> {
        match self {
            BoardSpare::Card(c) => Some(c),
            _ => None,
        }
    }
}

} // verus!
