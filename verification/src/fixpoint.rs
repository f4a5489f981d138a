//! The automatic collapse does not depend on the order in which the slots
//! are looked at: on a board that holds one deck, retiring exposed cards in
//! any order until none can retire ends in the same board.

use vstd::prelude::*;
use crate::board::BoardView;
use crate::card::Card;
use crate::index::{Slot, SLOT_COUNT};

verus! {

impl BoardView {
    /// Whether the exposed cards of `slots` can retire one after the other,
    /// each on the board that the ones before it left.
    pub open spec fn can_retire_in_turn(self, slots: Seq<Slot>) -> bool
        decreases slots.len(),
    {
        if slots.len() == 0 {
            true
        } else {
            &&& slots.first().valid()
            &&& self.fires(slots.first())
            &&& self.collapse(slots.first()).can_retire_in_turn(slots.drop_first())
        }
    }

    /// The board after the exposed cards of `slots` retired one after the
    /// other.
    pub open spec fn retired_in_turn(self, slots: Seq<Slot>) -> BoardView
        decreases slots.len(),
    {
        if slots.len() == 0 {
            self
        } else {
            self.collapse(slots.first()).retired_in_turn(slots.drop_first())
        }
    }

    /// Some slot whose exposed card can retire, if there is one.
    spec fn some_firing_slot(self) -> Slot {
        choose|slot: Slot| slot.valid() && self.fires(slot)
    }

    /// The board that is left when exposed cards retire, one at a time and
    /// in some fixed order, until none can.
    spec fn rest(self) -> BoardView
        decreases self.size(),
        when self.shaped()
    {
        if self.settled() {
            self
        } else {
            proof {
                self.lemma_collapse_step(self.some_firing_slot());
            }
            self.collapse(self.some_firing_slot()).rest()
        }
    }

    /// On a board that holds one deck, an exposed number card that can retire
    /// stands one rank above the foundation of its suit, and an exposed
    /// flower means that the flag is not set.
    proof fn lemma_firing_card(self, slot: Slot)
        requires
            self.conserves_deck(),
            slot.valid(),
            self.fires(slot),
        ensures
            self.top(slot) matches Some(Card::Number(suit, rank)) ==> rank == self.out.of(suit) + 1,
            self.top(slot) == Some(Card::Flower) ==> !self.flower,
            self.in_play().count(self.top(slot).unwrap()) == 1,
    {
        self.lemma_popped_in_play(slot);
        assert(self.accounts_for(self.top(slot).unwrap()));
    }

    /// On a board that holds one deck, two slots whose exposed cards can both
    /// retire can take their turns in either order: the second card can still
    /// retire after the first, and both orders leave the same board.
    proof fn lemma_turns_commute(self, first: Slot, second: Slot)
        requires
            self.conserves_deck(),
            first.valid(),
            second.valid(),
            first != second,
            self.fires(first),
            self.fires(second),
        ensures
            self.collapse(first).fires(second),
            self.collapse(second).fires(first),
            self.collapse(first).collapse(second) == self.collapse(second).collapse(first),
    {
        let a = self.top(first).unwrap();
        let b = self.top(second).unwrap();
        self.lemma_firing_card(first);
        self.lemma_firing_card(second);
        self.lemma_popped_in_play(first);
        assert(self.popped(first).top(second) == Some(b));
        self.popped(first).lemma_popped_in_play(second);
        assert(a != b);
        assert(self.collapse(first).top(second) == Some(b));
        assert(self.collapse(second).top(first) == Some(a));
        let one = self.collapse(first).collapse(second);
        let other = self.collapse(second).collapse(first);
        assert(one.spare =~= other.spare);
        assert(one.tray =~~= other.tray);
    }

    /// Letting one exposed card retire that can does not change where the
    /// board comes to rest.
    proof fn lemma_rest_after_turn(self, slot: Slot)
        requires
            self.conserves_deck(),
            slot.valid(),
            self.fires(slot),
        ensures
            self.collapse(slot).rest() == self.rest(),
        decreases self.size(),
    {
        let chosen = self.some_firing_slot();
        assert(chosen.valid() && self.fires(chosen));
        if slot != chosen {
            self.lemma_turns_commute(chosen, slot);
            self.lemma_collapse_keeps_deck(chosen);
            self.lemma_collapse_keeps_deck(slot);
            self.lemma_collapse_step(chosen);
            self.lemma_collapse_step(slot);
            self.collapse(chosen).lemma_rest_after_turn(slot);
            self.collapse(slot).lemma_rest_after_turn(chosen);
        }
    }

    /// A scan does not change where the board comes to rest.
    proof fn lemma_rest_after_sweep(self, from: int)
        requires
            self.conserves_deck(),
            0 <= from <= SLOT_COUNT,
        ensures
            self.sweep(from).rest() == self.rest(),
        decreases SLOT_COUNT - from,
    {
        if from < SLOT_COUNT {
            let slot = Slot::at(from);
            if self.fires(slot) {
                self.lemma_rest_after_turn(slot);
            }
            self.lemma_collapse_keeps_deck(slot);
            self.collapse(slot).lemma_rest_after_sweep(from + 1);
        }
    }

    /// The automatic collapse ends where the board comes to rest.
    proof fn lemma_simplified_is_rest(self)
        requires
            self.conserves_deck(),
        ensures
            self.simplified() == self.rest(),
        decreases self.size(),
    {
        let next = self.sweep(0);
        self.lemma_rest_after_sweep(0);
        self.lemma_sweep_keeps_deck(0);
        self.lemma_sweep_shrinks(0);
        if next.size() < self.size() {
            next.lemma_simplified_is_rest();
        } else {
            self.lemma_simplified_rests();
        }
    }

    /// On a board that holds one deck, whatever the order in which exposed
    /// cards retire: once none can retire any more, the board is the one that
    /// the automatic collapse ends in.
    pub proof fn lemma_any_order_ends_alike(self, slots: Seq<Slot>)
        requires
            self.conserves_deck(),
            self.can_retire_in_turn(slots),
            self.retired_in_turn(slots).settled(),
        ensures
            self.retired_in_turn(slots) == self.simplified(),
        decreases slots.len(),
    {
        self.lemma_simplified_is_rest();
        if slots.len() > 0 {
            let slot = slots.first();
            self.lemma_collapse_keeps_deck(slot);
            self.lemma_rest_after_turn(slot);
            self.collapse(slot).lemma_any_order_ends_alike(slots.drop_first());
            self.collapse(slot).lemma_simplified_is_rest();
        }
    }
}

} // verus!
