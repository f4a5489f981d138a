//! The board and the operations that read or change one slot of it.

use vstd::prelude::*;
use crate::board_slot::{BoardOut, BoardSpare};
use crate::card::Card;
use crate::index::{Location, Slot, SPARE_COUNT, TRAY_COUNT};

verus! {

/// The whole state of a game.
#[derive(Debug, PartialEq, Eq, Hash)]
pub struct Board {
    /// Whether the flower has left play.
    pub flower: bool,
    /// The three holding cells.
    pub spare: [BoardSpare; 3],
    /// The foundation counters.
    pub out: BoardOut,
    /// The eight tableau columns, each from its bottom card to its top card.
    pub tray: [Vec<Card>; 8],
}

/// Mathematical model of a board.
pub struct BoardView {
    pub flower: bool,
    pub spare: Seq<BoardSpare>,
    pub out: BoardOut,
    pub tray: Seq<Seq<Card>>,
}

impl View for Board {
    type V = BoardView;

    open spec fn view(&self) -> BoardView {
        BoardView {
            flower: self.flower,
            spare: self.spare@,
            out: self.out,
            tray: Seq::new(TRAY_COUNT as nat, |i: int| self.tray@[i]@),
        }
    }
}

impl BoardView {
    /// A model has three cells and eight columns.
    pub open spec fn shaped(self) -> bool {
        self.spare.len() == SPARE_COUNT && self.tray.len() == TRAY_COUNT
    }

    /// The exposed card of a slot: the card in a cell, or the last card of a
    /// column.
    pub open spec fn top(self, slot: Slot) -> Option<Card> {
        match slot {
            Slot::Spare(i) => self.spare[i as int].card(),
            Slot::Tray(i) => if self.tray[i as int].len() > 0 {
                Some(self.tray[i as int].last())
            } else {
                None
            },
        }
    }

    /// The card at a location, if there is one.
    pub open spec fn card_at(self, location: Location) -> Option<Card> {
        match location {
            Location::Spare(i) => self.spare[i as int].card(),
            Location::Tray(x, y) => if y < self.tray[x as int].len() {
                Some(self.tray[x as int][y as int])
            } else {
                None
            },
        }
    }

    /// The board without the exposed card of `slot`; the same board when the
    /// slot has none.
    pub open spec fn popped(self, slot: Slot) -> BoardView {
        match slot {
            Slot::Spare(i) => if self.spare[i as int] is Card {
                BoardView { spare: self.spare.update(i as int, BoardSpare::Empty), ..self }
            } else {
                self
            },
            Slot::Tray(i) => if self.tray[i as int].len() > 0 {
                BoardView {
                    tray: self.tray.update(i as int, self.tray[i as int].drop_last()),
                    ..self
                }
            } else {
                self
            },
        }
    }

    /// The board with `card` put on `slot`.
    pub open spec fn pushed(self, slot: Slot, card: Card) -> BoardView {
        match slot {
            Slot::Spare(i) => BoardView {
                spare: self.spare.update(i as int, BoardSpare::Card(card)),
                ..self
            },
            Slot::Tray(i) => BoardView {
                tray: self.tray.update(i as int, self.tray[i as int].push(card)),
                ..self
            },
        }
    }

    /// The board after a card is taken out at `location`. A cell keeps its
    /// card: taking from a cell only reads it.
    pub open spec fn removed(self, location: Location) -> BoardView {
        match location {
            Location::Spare(_) => self,
            Location::Tray(x, y) => BoardView {
                tray: self.tray.update(x as int, self.tray[x as int].remove(y as int)),
                ..self
            },
        }
    }

    /// Whether `card` may be put on `slot`: a cell must be free, a column
    /// must be empty or end in a card that `card` stacks onto.
    pub open spec fn accepts(self, slot: Slot, card: Card) -> bool {
        match slot {
            Slot::Spare(i) => self.spare[i as int] is Empty,
            Slot::Tray(i) => self.tray[i as int].len() == 0 || card.stacks_onto(
                self.tray[i as int].last(),
            ),
        }
    }
}

impl Board {
    /// Number of cards in a column.
    pub fn len(&self, slot: Slot) -> (n: usize)
        requires
            slot matches Slot::Tray(i) && i < TRAY_COUNT,
        ensures
            n == self@.tray[slot->Tray_0 as int].len(),
    {
        match slot {
            Slot::Tray(index) => self.tray[index as usize].len(),
            Slot::Spare(_) => 0,
        }
    }

    /// The card at a location, or `None` where the cell holds no card or the
    /// column is not that deep.
    pub fn get(&self, location: Location) -> (card: Option<Card>)
        requires
            location.valid(),
        ensures
            card == self@.card_at(location),
    {
        match location {
            Location::Spare(index) => match self.spare[index as usize] {
                BoardSpare::Card(c) => Some(c),
                _ => None,
            },
            Location::Tray(x, y) => {
                let column = &self.tray[x as usize];
                if (y as usize) < column.len() {
                    Some(column[y as usize])
                } else {
                    None
                }
            },
        }
    }

    /// The exposed card of a slot, or `None` where there is none.
    pub fn last(&self, slot: Slot) -> (card: Option<Card>)
        requires
            slot.valid(),
        ensures
            card == self@.top(slot),
    {
        match slot {
            Slot::Spare(index) => self.get(Location::Spare(index)),
            Slot::Tray(index) => {
                let column = &self.tray[index as usize];
                if column.len() > 0 {
                    Some(column[column.len() - 1])
                } else {
                    None
                }
            },
        }
    }

    /// Takes the card at a position of a column out of the column and returns
    /// it; the cards above it move down by one. For a cell, returns the card
    /// it holds and leaves the cell as it is.
    pub fn remove(&mut self, location: Location) -> (card: Card)
        requires
            location.valid(),
            old(self)@.card_at(location) is Some,
        ensures
            Some(card) == old(self)@.card_at(location),
            final(self)@ == old(self)@.removed(location),
    {
        let card = match location {
            Location::Spare(index) => match self.spare[index as usize] {
                BoardSpare::Card(c) => c,
                _ => Card::Flower,
            },
            Location::Tray(x, y) => self.tray[x as usize].remove(y as usize),
        };
        assert(self@.tray =~~= old(self)@.removed(location).tray);
        card
    }

    /// Takes the exposed card off a slot and returns it; a cell is left
    /// free. Where the slot has no card, nothing changes.
    pub fn pop(&mut self, slot: Slot) -> (card: Option<Card>)
        requires
            slot.valid(),
        ensures
            card == old(self)@.top(slot),
            final(self)@ == old(self)@.popped(slot),
            card matches Some(c) ==> final(self)@.in_play() == old(self)@.in_play().remove(c),
    {
        proof {
            if self@.top(slot) is Some {
                self@.lemma_popped_in_play(slot);
            }
        }
        let card = match slot {
            Slot::Spare(index) => match self.spare[index as usize] {
                BoardSpare::Card(c) => {
                    self.spare[index as usize] = BoardSpare::Empty;
                    Some(c)
                },
                _ => None,
            },
            Slot::Tray(index) => self.tray[index as usize].pop(),
        };
        assert(self@.spare =~= old(self)@.popped(slot).spare);
        assert(self@.tray =~~= old(self)@.popped(slot).tray);
        card
    }

    /// Puts a card on a slot: on top of a column, or into a free cell.
    pub fn push(&mut self, slot: Slot, card: Card)
        requires
            slot.valid(),
            slot matches Slot::Spare(i) ==> old(self)@.spare[i as int] is Empty,
        ensures
            final(self)@ == old(self)@.pushed(slot, card),
            final(self)@.in_play() == old(self)@.in_play().insert(card),
    {
        proof {
            self@.lemma_pushed_in_play(slot, card);
        }
        match slot {
            Slot::Spare(index) => {
                self.spare[index as usize] = BoardSpare::Card(card);
            },
            Slot::Tray(index) => {
                self.tray[index as usize].push(card);
            },
        }
        assert(self@.spare =~= old(self)@.pushed(slot, card).spare);
        assert(self@.tray =~~= old(self)@.pushed(slot, card).tray);
    }

    /// Whether `card` may be put on `slot`.
    pub fn appendable(&self, slot: Slot, card: Card) -> (ok: bool)
        requires
            slot.valid(),
        ensures
            ok == self@.accepts(slot, card),
    {
        match slot {
            Slot::Spare(index) => matches!(self.spare[index as usize], BoardSpare::Empty),
            Slot::Tray(index) => match self.last(Slot::Tray(index)) {
                Some(c) => card.can_stack_onto(&c),
                None => true,
            },
        }
    }
}

/// An independent copy of a column.
fn copy_column(column: &Vec<Card>) -> (copy: Vec<Card>)
    ensures
        copy@ == column@,
{
    let mut copy: Vec<Card> = Vec::new();
    let mut i: usize = 0;
    while i < column.len()
        invariant
            i <= column.len(),
            copy@ == column@.take(i as int),
        decreases column.len() - i,
    {
        copy.push(column[i]);
        assert(column@.take(i + 1) =~= column@.take(i as int).push(column@[i as int]));
        i += 1;
    }
    assert(column@.take(column@.len() as int) =~= column@);
    copy
}

impl Clone for Board {
    /// An independent copy of the board.
    fn clone(&self) -> (copy: Board)
        ensures
            copy@ == self@,
    {
        let copy = Board {
            flower: self.flower,
            spare: self.spare,
            out: self.out,
            tray: [
                copy_column(&self.tray[0]),
                copy_column(&self.tray[1]),
                copy_column(&self.tray[2]),
                copy_column(&self.tray[3]),
                copy_column(&self.tray[4]),
                copy_column(&self.tray[5]),
                copy_column(&self.tray[6]),
                copy_column(&self.tray[7]),
            ],
        };
        assert(copy@.tray =~~= self@.tray);
        copy
    }
}

impl vstd::std_specs::core::IndexSpecImpl<Location> for Board {
    /// Indexing needs a location that holds a card.
    open spec fn index_req(&self, location: &Location) -> bool {
        location.valid() && self@.card_at(*location) is Some
    }
}

impl std::ops::Index<Location> for Board {
    type Output = Card;

    /// The card at a location that holds one.
    fn index(&self, location: Location) -> (card: &Card)
        ensures
            Some(*card) == self@.card_at(location),
    {
        match location {
            Location::Spare(index) => match &self.spare[index as usize] {
                BoardSpare::Card(c) => c,
                _ => &Card::Flower,
            },
            Location::Tray(x, y) => &self.tray[x as usize][y as usize],
        }
    }
}

} // verus!
