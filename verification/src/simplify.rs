//! The automatic collapse: exposed cards that are safe to retire go to the
//! foundations without a move of the player, until none is left.

use vstd::prelude::*;
use crate::board::{Board, BoardView};
use crate::card::Card;
use crate::index::{Slot, SLOT_COUNT};

verus! {

impl BoardView {
    /// Whether an exposed `card` retires by itself, given the foundations of
    /// this board: the flower always, a 1 always, a 2 when its suit stands at
    /// 1, a higher rank when every suit stands at the rank below or higher.
    /// Dragons never do.
    pub open spec fn collapsible(self, card: Card) -> bool {
        match card {
            Card::Flower => true,
            Card::Dragon(_) => false,
            Card::Number(suit, rank) => {
                ||| rank == 1
                ||| rank == 2 && self.out.of(suit) == 1
                ||| rank >= 3 && self.out.all_at_least(rank - 1)
            },
        }
    }

    /// The board after `card` has been recorded as out of play: the flower
    /// sets the flag, a number card sets the foundation of its suit to its
    /// rank.
    pub open spec fn retired(self, card: Card) -> BoardView {
        match card {
            Card::Flower => BoardView { flower: true, ..self },
            Card::Dragon(_) => self,
            Card::Number(suit, rank) => BoardView { out: self.out.with(suit, rank), ..self },
        }
    }

    /// Whether the exposed card of `slot` retires by itself.
    pub open spec fn fires(self, slot: Slot) -> bool {
        self.top(slot) matches Some(card) && self.collapsible(card)
    }

    /// One look at one slot: its exposed card retires if the rules allow it.
    pub open spec fn collapse(self, slot: Slot) -> BoardView {
        if self.fires(slot) {
            self.popped(slot).retired(self.top(slot).unwrap())
        } else {
            self
        }
    }

    /// One scan over the slots from position `from` on, in scanning order,
    /// each slot looked at once.
    pub open spec fn sweep(self, from: int) -> BoardView
        decreases SLOT_COUNT - from,
    {
        if 0 <= from < SLOT_COUNT {
            self.collapse(Slot::at(from)).sweep(from + 1)
        } else {
            self
        }
    }

    /// Number of cards in the cells and columns.
    pub open spec fn size(self) -> nat {
        self.spare[0].occupied() + self.spare[1].occupied() + self.spare[2].occupied()
            + self.tray[0].len() + self.tray[1].len() + self.tray[2].len() + self.tray[3].len()
            + self.tray[4].len() + self.tray[5].len() + self.tray[6].len() + self.tray[7].len()
    }

    /// The board that the automatic collapse ends in: full scans are repeated
    /// until one retires no card.
    pub open spec fn simplified(self) -> BoardView
        decreases self.size(),
    {
        let next = self.sweep(0);
        if next.size() < self.size() {
            next.simplified()
        } else {
            next
        }
    }

    /// Taking the exposed card off a slot that has one leaves one card less.
    pub proof fn lemma_popped_size(self, slot: Slot)
        requires
            self.shaped(),
            slot.valid(),
        ensures
            self.popped(slot).shaped(),
            self.top(slot) is Some ==> self.popped(slot).size() + 1 == self.size(),
            self.top(slot) is None ==> self.popped(slot) == self,
    {
    }

    /// One look at one slot either retires its exposed card, which leaves one
    /// card less in play, or changes nothing. The flag is never cleared.
    pub proof fn lemma_collapse_step(self, slot: Slot)
        requires
            self.shaped(),
            slot.valid(),
        ensures
            self.collapse(slot).shaped(),
            self.fires(slot) ==> self.collapse(slot).size() + 1 == self.size(),
            !self.fires(slot) ==> self.collapse(slot) == self,
            self.flower ==> self.collapse(slot).flower,
    {
        self.lemma_popped_size(slot);
    }

    /// A scan never adds a card, and one that leaves the number of cards as
    /// it was has changed nothing and has found no card to retire.
    pub proof fn lemma_sweep_shrinks(self, from: int)
        requires
            self.shaped(),
            0 <= from <= SLOT_COUNT,
        ensures
            self.sweep(from).shaped(),
            self.sweep(from).size() <= self.size(),
            self.flower ==> self.sweep(from).flower,
            self.sweep(from).size() == self.size() ==> self.sweep(from) == self,
            self.sweep(from).size() == self.size() ==> forall|j: int|
                from <= j < SLOT_COUNT ==> !#[trigger] self.fires(Slot::at(j)),
        decreases SLOT_COUNT - from,
    {
        if from < SLOT_COUNT {
            let slot = Slot::at(from);
            self.lemma_collapse_step(slot);
            self.collapse(slot).lemma_sweep_shrinks(from + 1);
        }
    }

    /// The automatic collapse ends in a board that a further scan leaves as
    /// it is, on which no exposed card retires by itself.
    pub proof fn lemma_simplified_rests(self)
        requires
            self.shaped(),
        ensures
            self.simplified().shaped(),
            self.simplified().size() <= self.size(),
            self.flower ==> self.simplified().flower,
            self.simplified().sweep(0) == self.simplified(),
            self.simplified().settled(),
        decreases self.size(),
    {
        let next = self.sweep(0);
        self.lemma_sweep_shrinks(0);
        if next.size() < self.size() {
            next.lemma_simplified_rests();
        } else {
            assert forall|slot: Slot| slot.valid() implies !#[trigger] next.fires(slot) by {
                assert(slot == Slot::at(slot.position()));
            }
        }
    }

    /// On a board where no exposed card retires by itself, a scan changes
    /// nothing.
    pub proof fn lemma_settled_sweep(self, from: int)
        requires
            self.settled(),
            0 <= from <= SLOT_COUNT,
        ensures
            self.sweep(from) == self,
        decreases SLOT_COUNT - from,
    {
        if from < SLOT_COUNT {
            assert(Slot::at(from).valid());
            assert(!self.fires(Slot::at(from)));
            self.lemma_settled_sweep(from + 1);
        }
    }

    /// Whether no exposed card retires by itself.
    pub open spec fn settled(self) -> bool {
        forall|slot: Slot| slot.valid() ==> !#[trigger] self.fires(slot)
    }
}

impl Board {
    /// Decides whether an exposed `card` retires by itself on this board.
    pub fn collapses(&self, card: Card) -> (yes: bool)
        ensures
            yes == self@.collapsible(card),
    {
        match card {
            Card::Flower => true,
            Card::Dragon(_) => false,
            Card::Number(suit, rank) => {
                if rank == 1 {
                    true
                } else if rank == 2 {
                    self.out.get(suit) == 1
                } else {
                    rank >= 3 && self.out.bamboo >= rank - 1 && self.out.characters >= rank - 1
                        && self.out.coin >= rank - 1
                }
            },
        }
    }

    /// Brings the board to rest: as long as a scan over all slots finds an
    /// exposed card that retires by itself, the card leaves play and the scan
    /// is repeated.
    pub fn simplify(&mut self)
        ensures
            final(self)@ == old(self)@.simplified(),
            final(self)@.settled(),
            final(self)@.is_left_of(old(self)@),
            final(self)@.flags_flower_since(old(self)@),
            old(self)@.conserves_deck() ==> final(self)@.conserves_deck()
                && final(self)@.no_less_retired_than(old(self)@),
    {
        proof {
            self@.lemma_simplified_rests();
            self@.lemma_simplified_leaves();
            if self@.conserves_deck() {
                self@.lemma_simplified_keeps_deck();
            }
        }
        let mut moved = true;
        while moved
            invariant
                moved ==> self@.simplified() == old(self)@.simplified(),
                !moved ==> self@ == old(self)@.simplified(),
            decreases self@.size(), moved as int,
        {
            moved = false;
            let ghost start = self@;
            for i in 0..SLOT_COUNT
                invariant
                    self@.sweep(i as int) == start.sweep(0),
                    self@.size() <= start.size(),
                    moved <==> self@.size() < start.size(),
            {
                let slot = Slot::nth(i);
                let ghost before = self@;
                match self.last(slot) {
                    Some(card) => {
                        if self.collapses(card) {
                            match card {
                                Card::Flower => {
                                    self.flower = true;
                                },
                                Card::Number(suit, rank) => {
                                    self.out.set(suit, rank);
                                },
                                Card::Dragon(_) => {},
                            }
                            assert(self@ =~~= before.retired(card));
                            self.pop(slot);
                            moved = true;
                            proof {
                                assert(self@ =~~= before.popped(slot).retired(card));
                                before.lemma_popped_size(slot);
                            }
                        }
                    },
                    None => {},
                }
                assert(self@ == before.collapse(slot));
            }
        }
    }
}

} // verus!
