//! Accounting for the forty cards of a deck: which are in play, which have
//! left play, and what it means that none was lost or made up.

use vstd::prelude::*;
use vstd::multiset::Multiset;
use crate::board::BoardView;
use crate::board_slot::BoardSpare;
use crate::card::{Card, DragonCard, MAX_RANK, MIN_RANK};
use crate::index::{Slot, SLOT_COUNT};

verus! {

/// Number of copies of `card` in a deck: one flower, four dragons of each
/// colour, one card of each suit and rank from 1 to 9.
pub open spec fn deck_copies(card: Card) -> nat {
    match card {
        Card::Flower => 1,
        Card::Dragon(_) => 4,
        Card::Number(_, rank) => if MIN_RANK <= rank <= MAX_RANK {
            1
        } else {
            0
        },
    }
}

/// Whether `cards` are exactly the forty cards of a deck, in any order.
pub open spec fn is_full_deck(cards: Seq<Card>) -> bool {
    forall|card: Card| #[trigger] cards.to_multiset().count(card) == deck_copies(card)
}

impl BoardSpare {
    /// The cards in the cell, as a multiset of one card or none.
    pub open spec fn cards(self) -> Multiset<Card> {
        match self {
            BoardSpare::Card(c) => Multiset::singleton(c),
            _ => Multiset::empty(),
        }
    }

    /// Number of dragon sets parked in the cell: one or none.
    pub open spec fn parked(self) -> nat {
        if self is Collected {
            1
        } else {
            0
        }
    }
}

impl BoardView {
    /// The cards in the cells and columns.
    pub open spec fn in_play(self) -> Multiset<Card> {
        self.spare[0].cards().add(self.spare[1].cards()).add(self.spare[2].cards()).add(
            self.tray[0].to_multiset(),
        ).add(self.tray[1].to_multiset()).add(self.tray[2].to_multiset()).add(
            self.tray[3].to_multiset(),
        ).add(self.tray[4].to_multiset()).add(self.tray[5].to_multiset()).add(
            self.tray[6].to_multiset(),
        ).add(self.tray[7].to_multiset())
    }

    /// Number of dragons of `color` in the cells and columns.
    pub open spec fn dragons_in_play(self, color: DragonCard) -> nat {
        self.in_play().count(Card::Dragon(color))
    }

    /// Number of cells that hold a parked set of dragons.
    pub open spec fn parked_sets(self) -> nat {
        self.spare[0].parked() + self.spare[1].parked() + self.spare[2].parked()
    }

    /// Number of copies of a flower or number card that the flag and the
    /// foundations record as out of play. Dragons are accounted for by the
    /// parked sets.
    pub open spec fn retired_copies(self, card: Card) -> nat {
        match card {
            Card::Flower => if self.flower {
                1
            } else {
                0
            },
            Card::Dragon(_) => 0,
            Card::Number(suit, rank) => if MIN_RANK <= rank <= self.out.of(suit) {
                1
            } else {
                0
            },
        }
    }

    /// Whether the copies of `card` in play and out of play add up to those
    /// of a deck.
    pub open spec fn accounts_for(self, card: Card) -> bool {
        self.in_play().count(card) + self.retired_copies(card) == deck_copies(card)
    }

    /// Whether the board holds one deck exactly: every flower and number card
    /// is either in play or recorded as retired, each colour of dragons is
    /// in play with all four cards or not at all, and every colour that is
    /// not in play has a parked set in a cell.
    pub open spec fn conserves_deck(self) -> bool {
        &&& self.shaped()
        &&& forall|card: Card| !(card is Dragon) ==> #[trigger] self.accounts_for(card)
        &&& forall|color: DragonCard|
            {
                ||| #[trigger] self.dragons_in_play(color) == 0
                ||| self.dragons_in_play(color) == 4
            }
        &&& self.dragons_in_play(DragonCard::Green) + self.dragons_in_play(DragonCard::White)
            + self.dragons_in_play(DragonCard::Red) + 4 * self.parked_sets() == 12
    }

    /// Whether nothing has come back into play since `before`: the flag is
    /// still set if it was, and no foundation stands lower.
    pub open spec fn no_less_retired_than(self, before: BoardView) -> bool {
        &&& before.flower ==> self.flower
        &&& self.out.bamboo >= before.out.bamboo
        &&& self.out.characters >= before.out.characters
        &&& self.out.coin >= before.out.coin
    }

    /// Whether the board is what is left of `before` after cards went from
    /// the tops of columns and out of cells: every column is a start of the
    /// column it was, and every cell is as it was or has been emptied of its
    /// card.
    pub open spec fn is_left_of(self, before: BoardView) -> bool {
        &&& forall|j: int|
            0 <= j < before.tray.len() ==> (#[trigger] self.tray[j]).is_prefix_of(before.tray[j])
        &&& forall|i: int|
            0 <= i < before.spare.len() ==> {
                ||| #[trigger] self.spare[i] == before.spare[i]
                ||| before.spare[i] is Card && self.spare[i] is Empty
            }
    }

    /// Whether the flag stands as it must after flowers left play since
    /// `before`: it is set exactly if it was set or a flower has left.
    pub open spec fn flags_flower_since(self, before: BoardView) -> bool {
        self.flower <==> before.flower || self.in_play().count(Card::Flower)
            < before.in_play().count(Card::Flower)
    }

    /// Taking the exposed card off a slot takes that one card out of play.
    pub proof fn lemma_popped_in_play(self, slot: Slot)
        requires
            self.shaped(),
            slot.valid(),
            self.top(slot) is Some,
        ensures
            self.in_play().count(self.top(slot).unwrap()) >= 1,
            self.popped(slot).in_play() == self.in_play().remove(self.top(slot).unwrap()),
            self.popped(slot).parked_sets() == self.parked_sets(),
    {
        broadcast use vstd::seq_lib::group_to_multiset_ensures;

        let card = self.top(slot).unwrap();
        match slot {
            Slot::Spare(i) => {},
            Slot::Tray(i) => {
                let column = self.tray[i as int];
                assert(column.drop_last().push(card) =~= column);
            },
        }
        assert(self.popped(slot).in_play() =~= self.in_play().remove(card));
    }

    /// Putting a card on a column or into a free cell brings that one card
    /// into play.
    pub proof fn lemma_pushed_in_play(self, slot: Slot, card: Card)
        requires
            self.shaped(),
            slot.valid(),
            slot matches Slot::Spare(i) ==> self.spare[i as int] is Empty,
        ensures
            self.pushed(slot, card).in_play() == self.in_play().insert(card),
            self.pushed(slot, card).parked_sets() == self.parked_sets(),
    {
        broadcast use vstd::seq_lib::group_to_multiset_ensures;

        assert(self.pushed(slot, card).in_play() =~= self.in_play().insert(card));
    }
}

impl BoardView {
    /// A look at one slot brings no card into play and takes no dragon out.
    pub proof fn lemma_collapse_in_play(self, slot: Slot)
        requires
            self.shaped(),
            slot.valid(),
        ensures
            self.collapse(slot).in_play().subset_of(self.in_play()),
            forall|color: DragonCard| #[trigger]
                self.collapse(slot).dragons_in_play(color) == self.dragons_in_play(color),
            self.collapse(slot).parked_sets() == self.parked_sets(),
    {
        if self.fires(slot) {
            self.lemma_popped_in_play(slot);
        }
    }

    /// A scan brings no card into play and takes no dragon out.
    pub proof fn lemma_sweep_in_play(self, from: int)
        requires
            self.shaped(),
            0 <= from <= SLOT_COUNT,
        ensures
            self.sweep(from).in_play().subset_of(self.in_play()),
            forall|color: DragonCard| #[trigger]
                self.sweep(from).dragons_in_play(color) == self.dragons_in_play(color),
            self.sweep(from).parked_sets() == self.parked_sets(),
        decreases SLOT_COUNT - from,
    {
        if from < SLOT_COUNT {
            let slot = Slot::at(from);
            self.lemma_collapse_in_play(slot);
            self.lemma_collapse_step(slot);
            self.collapse(slot).lemma_sweep_in_play(from + 1);
        }
    }

    /// The automatic collapse brings no card into play and takes no dragon
    /// out.
    pub proof fn lemma_simplified_in_play(self)
        requires
            self.shaped(),
        ensures
            self.simplified().in_play().subset_of(self.in_play()),
            forall|color: DragonCard| #[trigger]
                self.simplified().dragons_in_play(color) == self.dragons_in_play(color),
            self.simplified().parked_sets() == self.parked_sets(),
        decreases self.size(),
    {
        let next = self.sweep(0);
        self.lemma_sweep_in_play(0);
        self.lemma_sweep_shrinks(0);
        if next.size() < self.size() {
            next.lemma_simplified_in_play();
        }
    }

    /// A look at one slot takes a card, if any, from the top of a column or
    /// out of a cell, and sets the flag exactly if that card is a flower.
    pub proof fn lemma_collapse_leaves(self, slot: Slot)
        requires
            self.shaped(),
            slot.valid(),
        ensures
            self.collapse(slot).is_left_of(self),
            self.collapse(slot).flags_flower_since(self),
    {
        if self.fires(slot) {
            self.lemma_popped_in_play(slot);
        }
    }

    /// A scan takes cards only from the tops of columns and out of cells, and
    /// sets the flag exactly if a flower was among them.
    pub proof fn lemma_sweep_leaves(self, from: int)
        requires
            self.shaped(),
            0 <= from <= SLOT_COUNT,
        ensures
            self.sweep(from).is_left_of(self),
            self.sweep(from).flags_flower_since(self),
        decreases SLOT_COUNT - from,
    {
        if from < SLOT_COUNT {
            let slot = Slot::at(from);
            let next = self.collapse(slot);
            self.lemma_collapse_leaves(slot);
            self.lemma_collapse_in_play(slot);
            self.lemma_collapse_step(slot);
            next.lemma_sweep_leaves(from + 1);
            next.lemma_sweep_in_play(from + 1);
            next.sweep(from + 1).lemma_left_of_left(next, self);
        }
    }

    /// What is left of what is left of a board is left of that board.
    pub proof fn lemma_left_of_left(self, middle: BoardView, before: BoardView)
        requires
            before.shaped(),
            middle.shaped(),
            self.is_left_of(middle),
            middle.is_left_of(before),
        ensures
            self.is_left_of(before),
    {
        assert forall|j: int| 0 <= j < before.tray.len() implies (
        #[trigger] self.tray[j]).is_prefix_of(before.tray[j]) by {
            assert(self.tray[j].is_prefix_of(middle.tray[j]));
            assert(middle.tray[j].is_prefix_of(before.tray[j]));
        }
        assert forall|i: int| 0 <= i < before.spare.len() implies {
            ||| #[trigger] self.spare[i] == before.spare[i]
            ||| before.spare[i] is Card && self.spare[i] is Empty
        } by {
            assert(self.spare[i] == middle.spare[i] || (middle.spare[i] is Card && self.spare[i]
                is Empty));
            assert(middle.spare[i] == before.spare[i] || (before.spare[i] is Card
                && middle.spare[i] is Empty));
        }
    }

    /// The automatic collapse takes cards only from the tops of columns and
    /// out of cells, and sets the flag exactly if a flower was among them.
    pub proof fn lemma_simplified_leaves(self)
        requires
            self.shaped(),
        ensures
            self.simplified().is_left_of(self),
            self.simplified().flags_flower_since(self),
        decreases self.size(),
    {
        let next = self.sweep(0);
        self.lemma_sweep_leaves(0);
        self.lemma_sweep_in_play(0);
        self.lemma_sweep_shrinks(0);
        if next.size() < self.size() {
            next.lemma_simplified_leaves();
            next.lemma_simplified_in_play();
            next.simplified().lemma_left_of_left(next, self);
        }
    }

    /// On a board that holds one deck, a look at one slot keeps it so, and
    /// neither clears the flag nor lowers a foundation.
    pub proof fn lemma_collapse_keeps_deck(self, slot: Slot)
        requires
            self.conserves_deck(),
            slot.valid(),
        ensures
            self.collapse(slot).conserves_deck(),
            self.collapse(slot).no_less_retired_than(self),
    {
        if self.fires(slot) {
            let card = self.top(slot).unwrap();
            let after = self.collapse(slot);
            self.lemma_popped_in_play(slot);
            assert(after.in_play() == self.in_play().remove(card));
            assert(self.accounts_for(card));
            assert forall|other: Card| !(other is Dragon) implies #[trigger] after.accounts_for(
                other,
            ) by {
                assert(self.accounts_for(other));
            }
            assert forall|color: DragonCard|
                {
                    ||| #[trigger] after.dragons_in_play(color) == 0
                    ||| after.dragons_in_play(color) == 4
                } by {
                assert(after.dragons_in_play(color) == self.dragons_in_play(color));
            }
            assert(after.dragons_in_play(DragonCard::Green) == self.dragons_in_play(
                DragonCard::Green,
            ));
            assert(after.dragons_in_play(DragonCard::White) == self.dragons_in_play(
                DragonCard::White,
            ));
            assert(after.dragons_in_play(DragonCard::Red) == self.dragons_in_play(DragonCard::Red));
        }
    }

    /// On a board that holds one deck, a scan keeps it so, and neither clears
    /// the flag nor lowers a foundation.
    pub proof fn lemma_sweep_keeps_deck(self, from: int)
        requires
            self.conserves_deck(),
            0 <= from <= SLOT_COUNT,
        ensures
            self.sweep(from).conserves_deck(),
            self.sweep(from).no_less_retired_than(self),
        decreases SLOT_COUNT - from,
    {
        if from < SLOT_COUNT {
            let slot = Slot::at(from);
            self.lemma_collapse_keeps_deck(slot);
            self.collapse(slot).lemma_sweep_keeps_deck(from + 1);
        }
    }

    /// Lifting a run off a slot takes exactly the cards of the run out of
    /// play.
    pub proof fn lemma_lifted_in_play(self, source: Slot, count: int)
        requires
            self.shaped(),
            source.valid(),
            self.has_run(source, count),
        ensures
            self.lifted(source, count).shaped(),
            self.lifted(source, count).in_play().add(self.run(source, count).to_multiset())
                == self.in_play(),
            self.lifted(source, count).parked_sets() == self.parked_sets(),
            self.run(source, count).len() == count,
    {
        broadcast use vstd::seq_lib::group_to_multiset_ensures;

        let run = self.run(source, count);
        let lifted = self.lifted(source, count);
        match source {
            Slot::Spare(i) => {
                let card = self.spare[i as int]->Card_0;
                assert(run =~= Seq::<Card>::empty().push(card));
                assert(run.to_multiset() =~= Multiset::singleton(card));
            },
            Slot::Tray(i) => {
                let column = self.tray[i as int];
                let rest = column.take(column.len() - count);
                assert(rest + run =~= column);
                vstd::seq_lib::lemma_multiset_commutative(rest, run);
            },
        }
        assert(lifted.in_play().add(run.to_multiset()) =~= self.in_play());
    }

    /// Landing a run on a column or a single card in a free cell brings
    /// exactly the cards of the run into play.
    pub proof fn lemma_landed_in_play(self, target: Slot, run: Seq<Card>)
        requires
            self.shaped(),
            target.valid(),
            run.len() >= 1,
            target matches Slot::Spare(j) ==> run.len() == 1 && self.spare[j as int] is Empty,
        ensures
            self.landed(target, run).shaped(),
            self.landed(target, run).in_play() == self.in_play().add(run.to_multiset()),
            self.landed(target, run).parked_sets() == self.parked_sets(),
    {
        broadcast use vstd::seq_lib::group_to_multiset_ensures;

        match target {
            Slot::Spare(j) => {
                assert(run =~= Seq::<Card>::empty().push(run[0]));
                assert(run.to_multiset() =~= Multiset::singleton(run[0]));
            },
            Slot::Tray(j) => {
                vstd::seq_lib::lemma_multiset_commutative(self.tray[j as int], run);
            },
        }
        assert(self.landed(target, run).in_play() =~= self.in_play().add(run.to_multiset()));
    }

    /// A move that the rules allow leaves the same cards in play.
    pub proof fn lemma_moved_in_play(self, source: Slot, count: int, target: Slot)
        requires
            self.shaped(),
            source.valid(),
            target.valid(),
            self.movable(source, count, target),
        ensures
            self.moved(source, count, target).shaped(),
            self.moved(source, count, target).in_play() == self.in_play(),
            self.moved(source, count, target).parked_sets() == self.parked_sets(),
    {
        let run = self.run(source, count);
        let lifted = self.lifted(source, count);
        self.lemma_lifted_in_play(source, count);
        lifted.lemma_landed_in_play(target, run);
        assert(lifted.landed(target, run).in_play() =~= self.in_play());
    }

    /// The exposed dragons of a colour, slot by slot.
    pub proof fn lemma_exposed_by_slot(self, color: DragonCard)
        ensures
            self.exposed_dragons(color) == self.shown(Slot::Spare(0), color) + self.shown(
                Slot::Spare(1),
                color,
            ) + self.shown(Slot::Spare(2), color) + self.shown(Slot::Tray(0), color) + self.shown(
                Slot::Tray(1),
                color,
            ) + self.shown(Slot::Tray(2), color) + self.shown(Slot::Tray(3), color) + self.shown(
                Slot::Tray(4),
                color,
            ) + self.shown(Slot::Tray(5), color) + self.shown(Slot::Tray(6), color) + self.shown(
                Slot::Tray(7),
                color,
            ),
    {
        reveal_with_fuel(BoardView::exposed_below, 12);
        assert(Slot::at(0) == Slot::Spare(0));
        assert(Slot::at(1) == Slot::Spare(1));
        assert(Slot::at(2) == Slot::Spare(2));
        assert(Slot::at(3) == Slot::Tray(0));
        assert(Slot::at(4) == Slot::Tray(1));
        assert(Slot::at(5) == Slot::Tray(2));
        assert(Slot::at(6) == Slot::Tray(3));
        assert(Slot::at(7) == Slot::Tray(4));
        assert(Slot::at(8) == Slot::Tray(5));
        assert(Slot::at(9) == Slot::Tray(6));
        assert(Slot::at(10) == Slot::Tray(7));
    }

    /// What collecting the dragons of a colour does to the copies of one
    /// card in one cell.
    proof fn lemma_collected_cell(self, color: DragonCard, cell: int, i: u8, card: Card)
        requires
            self.shaped(),
            0 <= cell < 3,
            i < 3,
            self.takes_dragons(cell, color),
        ensures
            self.collected(color, cell).spare[i as int].cards().count(card) + (if card
                == Card::Dragon(color) {
                self.shown(Slot::Spare(i), color)
            } else {
                0
            }) == self.spare[i as int].cards().count(card),
    {
    }

    /// What collecting the dragons of a colour does to the copies of one
    /// card in one column.
    proof fn lemma_collected_column(self, color: DragonCard, cell: int, j: u8, card: Card)
        requires
            self.shaped(),
            j < 8,
        ensures
            self.collected(color, cell).tray[j as int].to_multiset().count(card) + (if card
                == Card::Dragon(color) {
                self.shown(Slot::Tray(j), color)
            } else {
                0
            }) == self.tray[j as int].to_multiset().count(card),
    {
        broadcast use vstd::seq_lib::group_to_multiset_ensures;

        let column = self.tray[j as int];
        if column.len() > 0 && column.last() == Card::Dragon(color) {
            assert(column.drop_last().push(Card::Dragon(color)) =~= column);
        }
    }

    /// Collecting the dragons of a colour takes each exposed dragon of that
    /// colour out of play and touches no other card.
    pub proof fn lemma_collected_copies(self, color: DragonCard, cell: int, card: Card)
        requires
            self.shaped(),
            0 <= cell < 3,
            self.takes_dragons(cell, color),
        ensures
            self.collected(color, cell).in_play().count(card) + (if card == Card::Dragon(color) {
                self.exposed_dragons(color)
            } else {
                0
            }) == self.in_play().count(card),
    {
        self.lemma_exposed_by_slot(color);
        self.lemma_collected_cell(color, cell, 0, card);
        self.lemma_collected_cell(color, cell, 1, card);
        self.lemma_collected_cell(color, cell, 2, card);
        self.lemma_collected_column(color, cell, 0, card);
        self.lemma_collected_column(color, cell, 1, card);
        self.lemma_collected_column(color, cell, 2, card);
        self.lemma_collected_column(color, cell, 3, card);
        self.lemma_collected_column(color, cell, 4, card);
        self.lemma_collected_column(color, cell, 5, card);
        self.lemma_collected_column(color, cell, 6, card);
        self.lemma_collected_column(color, cell, 7, card);
    }

    /// Collecting the dragons of a colour of which all four are exposed, on
    /// a board that holds one deck, leaves none of them in play and keeps
    /// the deck whole.
    pub proof fn lemma_collected_keeps_deck(self, color: DragonCard, cell: int)
        requires
            self.conserves_deck(),
            0 <= cell < 3,
            self.takes_dragons(cell, color),
            self.exposed_dragons(color) == 4,
        ensures
            self.collected(color, cell).conserves_deck(),
            self.collected(color, cell).dragons_in_play(color) == 0,
    {
        let after = self.collected(color, cell);
        assert forall|card: Card| !(card is Dragon) implies #[trigger] after.accounts_for(
            card,
        ) by {
            self.lemma_collected_copies(color, cell, card);
            assert(self.accounts_for(card));
        }
        self.lemma_collected_copies(color, cell, Card::Dragon(DragonCard::Green));
        self.lemma_collected_copies(color, cell, Card::Dragon(DragonCard::White));
        self.lemma_collected_copies(color, cell, Card::Dragon(DragonCard::Red));
        assert(self.dragons_in_play(color) == 0 || self.dragons_in_play(color) == 4);
        assert(self.dragons_in_play(DragonCard::Green) == 0 || self.dragons_in_play(
            DragonCard::Green,
        ) == 4);
        assert(self.dragons_in_play(DragonCard::White) == 0 || self.dragons_in_play(
            DragonCard::White,
        ) == 4);
        assert(self.dragons_in_play(DragonCard::Red) == 0 || self.dragons_in_play(DragonCard::Red)
            == 4);
        assert(after.parked_sets() == self.parked_sets() + 1);
    }

    /// On a board that holds one deck, the automatic collapse keeps it so,
    /// and neither clears the flag nor lowers a foundation.
    pub proof fn lemma_simplified_keeps_deck(self)
        requires
            self.conserves_deck(),
        ensures
            self.simplified().conserves_deck(),
            self.simplified().no_less_retired_than(self),
        decreases self.size(),
    {
        let next = self.sweep(0);
        self.lemma_sweep_keeps_deck(0);
        if next.size() < self.size() {
            next.lemma_simplified_keeps_deck();
        }
    }
}

} // verus!
