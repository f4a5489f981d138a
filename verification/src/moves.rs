//! The two actions of the player: collecting a set of dragons and moving
//! cards between slots.

use vstd::prelude::*;
use crate::board::{Board, BoardView};
use crate::board_slot::BoardSpare;
use crate::card::{Card, DragonCard};
use crate::index::{Slot, SLOT_COUNT, SPARE_COUNT, TRAY_COUNT};
use crate::move_action::MoveAction;

verus! {

/// Whether the card at position `k` of a column stacks onto the card under
/// it.
pub open spec fn stacked_at(column: Seq<Card>, k: int) -> bool {
    column[k].stacks_onto(column[k - 1])
}

/// Whether a sequence of cards, bottom first, is a run: every card but the
/// first stacks onto the one under it.
pub open spec fn is_run(cards: Seq<Card>) -> bool {
    forall|k: int| 0 < k < cards.len() ==> #[trigger] stacked_at(cards, k)
}

impl BoardView {
    /// Whether the exposed card of `slot` is a dragon of `color`.
    pub open spec fn shows_dragon(self, slot: Slot, color: DragonCard) -> bool {
        self.top(slot) == Some(Card::Dragon(color))
    }

    /// Number of exposed dragons of `color` in `slot`: one or none.
    pub open spec fn shown(self, slot: Slot, color: DragonCard) -> nat {
        if self.shows_dragon(slot, color) {
            1
        } else {
            0
        }
    }

    /// Number of slots among the first `n` of the scanning order whose
    /// exposed card is a dragon of `color`.
    pub open spec fn exposed_below(self, color: DragonCard, n: int) -> nat
        decreases n,
    {
        if n <= 0 {
            0
        } else {
            self.exposed_below(color, n - 1) + self.shown(Slot::at(n - 1), color)
        }
    }

    /// Number of exposed dragons of `color`: those in cells and those on top
    /// of columns.
    pub open spec fn exposed_dragons(self, color: DragonCard) -> nat {
        self.exposed_below(color, SLOT_COUNT as int)
    }

    /// Whether cell `i` can take a set of dragons of `color`: it is free or
    /// holds one of them.
    pub open spec fn takes_dragons(self, i: int, color: DragonCard) -> bool {
        self.spare[i] is Empty || self.spare[i] == BoardSpare::Card(Card::Dragon(color))
    }

    /// The first cell that can take a set of dragons of `color`.
    pub open spec fn dragon_cell(self, color: DragonCard) -> Option<u8> {
        if self.takes_dragons(0, color) {
            Some(0u8)
        } else if self.takes_dragons(1, color) {
            Some(1u8)
        } else if self.takes_dragons(2, color) {
            Some(2u8)
        } else {
            None
        }
    }

    /// The cell into which the dragons of `color` can be collected now: the
    /// first cell that can take them, provided all four are exposed.
    pub open spec fn dragon_target(self, color: DragonCard) -> Option<u8> {
        if self.exposed_dragons(color) == 4 {
            self.dragon_cell(color)
        } else {
            None
        }
    }

    /// The board after the dragons of `color` were collected into `cell`,
    /// before the automatic collapse: the cell is marked, every other cell
    /// that held such a dragon is free, and every column that ended in one
    /// has lost it.
    pub open spec fn collected(self, color: DragonCard, cell: int) -> BoardView {
        BoardView {
            spare: Seq::new(
                SPARE_COUNT as nat,
                |i: int|
                    if i == cell {
                        BoardSpare::Collected
                    } else if self.spare[i] == BoardSpare::Card(Card::Dragon(color)) {
                        BoardSpare::Empty
                    } else {
                        self.spare[i]
                    },
            ),
            tray: Seq::new(
                TRAY_COUNT as nat,
                |j: int|
                    if self.tray[j].len() > 0 && self.tray[j].last() == Card::Dragon(color) {
                        self.tray[j].drop_last()
                    } else {
                        self.tray[j]
                    },
            ),
            ..self
        }
    }

    /// The board on the way to `collected`: the cell is marked, and the
    /// dragons of `color` are gone from the first `n` slots of the scanning
    /// order only.
    pub open spec fn cleared_below(self, color: DragonCard, cell: int, n: int) -> BoardView {
        BoardView {
            spare: Seq::new(
                SPARE_COUNT as nat,
                |i: int|
                    if i == cell {
                        BoardSpare::Collected
                    } else if i < n && self.spare[i] == BoardSpare::Card(Card::Dragon(color)) {
                        BoardSpare::Empty
                    } else {
                        self.spare[i]
                    },
            ),
            tray: Seq::new(
                TRAY_COUNT as nat,
                |j: int|
                    if j + SPARE_COUNT < n && self.tray[j].len() > 0 && self.tray[j].last()
                        == Card::Dragon(color) {
                        self.tray[j].drop_last()
                    } else {
                        self.tray[j]
                    },
            ),
            ..self
        }
    }

    /// The top `count` cards of a slot, bottom first.
    pub open spec fn run(self, source: Slot, count: int) -> Seq<Card> {
        match source {
            Slot::Spare(i) => match self.spare[i as int] {
                BoardSpare::Card(c) => seq![c],
                _ => Seq::empty(),
            },
            Slot::Tray(i) => {
                let column = self.tray[i as int];
                column.subrange(column.len() - count, column.len() as int)
            },
        }
    }

    /// Whether the top `count` cards of `source` exist and form a run. A cell
    /// gives one card at most.
    pub open spec fn has_run(self, source: Slot, count: int) -> bool {
        match source {
            Slot::Spare(i) => count == 1 && self.spare[i as int] is Card,
            Slot::Tray(i) => 1 <= count <= self.tray[i as int].len() && is_run(
                self.run(source, count),
            ),
        }
    }

    /// Whether `count` cards may be moved from `source` onto `target`: the
    /// cards exist and form a run, a cell on either side means one card, and
    /// the target accepts the bottom card of the run.
    pub open spec fn movable(self, source: Slot, count: int, target: Slot) -> bool {
        &&& self.has_run(source, count)
        &&& target is Spare ==> count == 1
        &&& self.accepts(target, self.run(source, count)[0])
    }

    /// The board without the top `count` cards of `source`.
    pub open spec fn lifted(self, source: Slot, count: int) -> BoardView {
        match source {
            Slot::Spare(i) => if count > 0 {
                BoardView { spare: self.spare.update(i as int, BoardSpare::Empty), ..self }
            } else {
                self
            },
            Slot::Tray(i) => BoardView {
                tray: self.tray.update(
                    i as int,
                    self.tray[i as int].take(self.tray[i as int].len() - count),
                ),
                ..self
            },
        }
    }

    /// The board with the cards of `run` put on `target` in their order.
    pub open spec fn landed(self, target: Slot, run: Seq<Card>) -> BoardView {
        match target {
            Slot::Spare(j) => if run.len() > 0 {
                BoardView { spare: self.spare.update(j as int, BoardSpare::Card(run[0])), ..self }
            } else {
                self
            },
            Slot::Tray(j) => BoardView {
                tray: self.tray.update(j as int, self.tray[j as int] + run),
                ..self
            },
        }
    }

    /// The board after the top `count` cards of `source` went onto `target`,
    /// before the automatic collapse.
    pub open spec fn moved(self, source: Slot, count: int, target: Slot) -> BoardView {
        self.lifted(source, count).landed(target, self.run(source, count))
    }

    /// An action on a board of three cells and eight columns gives such a
    /// board again.
    pub proof fn lemma_applied_shaped(self, action: MoveAction)
        requires
            self.shaped(),
            action.valid(),
        ensures
            self.applied(action).shaped(),
    {
    }

    /// Whether the rules allow `action` on this board.
    pub open spec fn permits(self, action: MoveAction) -> bool {
        match action {
            MoveAction::CollectDragon(color) => self.dragon_target(color) is Some,
            MoveAction::Move(source, count, target) => self.movable(source, count as int, target),
        }
    }

    /// The board that `action` leads to before the automatic collapse.
    pub open spec fn applied(self, action: MoveAction) -> BoardView {
        match action {
            MoveAction::CollectDragon(color) => self.collected(
                color,
                self.dragon_target(color).unwrap() as int,
            ),
            MoveAction::Move(source, count, target) => self.moved(source, count as int, target),
        }
    }

    /// The board after a request of `action`: the settled result where the
    /// rules allow the action, the same board where they do not.
    pub open spec fn after(self, action: MoveAction) -> BoardView {
        if self.permits(action) {
            self.applied(action).simplified()
        } else {
            self
        }
    }
}

impl Board {
    /// Counts the slots whose exposed card is a dragon of `color`.
    fn count_exposed(&self, color: DragonCard) -> (n: usize)
        ensures
            n == self@.exposed_dragons(color),
    {
        let mut n: usize = 0;
        for i in 0..SLOT_COUNT
            invariant
                n == self@.exposed_below(color, i as int),
                n <= i,
        {
            let slot = Slot::nth(i);
            match self.last(slot) {
                Some(card) => {
                    if card.is_dragon(color) {
                        n += 1;
                    }
                },
                None => {},
            }
        }
        n
    }

    /// The cell into which the four dragons of `color` can be collected:
    /// the first cell that is free or holds one of them, if all four are in
    /// cells or on top of columns. `None` otherwise.
    pub fn dragon_collectable(&self, color: DragonCard) -> (cell: Option<u8>)
        ensures
            cell == self@.dragon_target(color),
            cell matches Some(i) ==> i < SPARE_COUNT && self@.takes_dragons(i as int, color),
            cell is Some <==> self@.exposed_dragons(color) == 4 && exists|i: int|
                0 <= i < SPARE_COUNT && self@.takes_dragons(i, color),
    {
        let mut found: Option<u8> = None;
        let mut i: u8 = 0;
        while i < 3 && found.is_none()
            invariant
                i <= 3,
                found is None ==> forall|k: int| 0 <= k < i ==> !self@.takes_dragons(k, color),
                found matches Some(f) ==> f < 3 && self@.takes_dragons(f as int, color) && forall|
                    k: int,
                | 0 <= k < f ==> !self@.takes_dragons(k, color),
            decreases 3 - i + if found is None { 1int } else { 0int },
        {
            let free = match self.spare[i as usize] {
                BoardSpare::Empty => true,
                BoardSpare::Card(c) => c.is_dragon(color),
                BoardSpare::Collected => false,
            };
            if free {
                found = Some(i);
            } else {
                i += 1;
            }
        }
        assert(found == self@.dragon_cell(color));
        match found {
            Some(cell) => {
                if self.count_exposed(color) == 4 {
                    Some(cell)
                } else {
                    None
                }
            },
            None => None,
        }
    }
}

impl Board {
    /// Decides whether the top `count` cards of `source` exist and form a
    /// run.
    fn run_ready(&self, source: Slot, count: usize) -> (ok: bool)
        requires
            source.valid(),
        ensures
            ok == self@.has_run(source, count as int),
    {
        match source {
            Slot::Spare(index) => count == 1 && matches!(
                self.spare[index as usize],
                BoardSpare::Card(_)
            ),
            Slot::Tray(index) => {
                let column = &self.tray[index as usize];
                let len = column.len();
                if count < 1 || count > len {
                    return false;
                }
                let first = len - count;
                let ghost run = self@.run(source, count as int);
                let mut k: usize = first + 1;
                while k < len
                    invariant
                        first < k <= len,
                        len == column@.len(),
                        first == len - count,
                        run == column@.subrange(first as int, len as int),
                        self@.has_run(source, count as int) <==> is_run(run),
                        forall|m: int| 0 < m < k - first ==> #[trigger] stacked_at(run, m),
                    decreases len - k,
                {
                    assert(run[k - first] == column@[k as int]);
                    assert(run[k - first - 1] == column@[k - 1]);
                    if !column[k].can_stack_onto(&column[k - 1]) {
                        assert(!stacked_at(run, k - first));
                        return false;
                    }
                    assert(stacked_at(run, k - first));
                    k += 1;
                }
                true
            },
        }
    }

    /// The bottom card of the top `count` cards of `source`.
    fn run_base(&self, source: Slot, count: usize) -> (card: Card)
        requires
            source.valid(),
            self@.has_run(source, count as int),
        ensures
            card == self@.run(source, count as int)[0],
    {
        match source {
            Slot::Spare(index) => match self.spare[index as usize] {
                BoardSpare::Card(c) => c,
                _ => Card::Flower,
            },
            Slot::Tray(index) => {
                let column = &self.tray[index as usize];
                column[column.len() - count]
            },
        }
    }

    /// Decides whether the rules allow `action` on this board, without
    /// changing it.
    pub fn allows(&self, action: MoveAction) -> (ok: bool)
        requires
            action.valid(),
        ensures
            ok == self@.permits(action),
    {
        match action {
            MoveAction::CollectDragon(color) => self.dragon_collectable(color).is_some(),
            MoveAction::Move(source, count, target) => {
                if !self.run_ready(source, count) {
                    return false;
                }
                if matches!(target, Slot::Spare(_)) && count != 1 {
                    return false;
                }
                let base = self.run_base(source, count);
                self.appendable(target, base)
            },
        }
    }

    /// Carries out a request of the player and reports whether the rules
    /// allowed it. An allowed action changes the board and lets the automatic
    /// collapse run; a refused one leaves the board as it was.
    pub fn move_cards(&mut self, action: MoveAction) -> (ok: bool)
        requires
            action.valid(),
        ensures
            ok == old(self)@.permits(action),
            final(self)@ == old(self)@.after(action),
            !ok ==> final(self)@ == old(self)@,
            ok ==> final(self)@.settled(),
            ok && action is Move && action->Move_1 > 1 ==> is_run(
                old(self)@.run(action->Move_0, action->Move_1 as int),
            ),
            old(self)@.conserves_deck() ==> final(self)@.conserves_deck(),
            old(self)@.conserves_deck() && ok ==> (action matches MoveAction::CollectDragon(color)
                ==> final(self)@.dragons_in_play(color) == 0),
    {
        let ghost start = self@;
        proof {
            if start.permits(action) {
                start.lemma_applied_shaped(action);
                start.applied(action).lemma_simplified_rests();
            }
            if start.conserves_deck() {
                crate::theorems::action_conserves_deck(start, action);
                if let MoveAction::CollectDragon(color) = action {
                    if start.permits(action) {
                        crate::theorems::collect_leaves_no_dragon(start, color);
                    }
                }
            }
        }
        match action {
            MoveAction::CollectDragon(color) => {
                match self.dragon_collectable(color) {
                    Some(cell) => {
                        self.spare[cell as usize] = BoardSpare::Collected;
                        assert(self@.spare =~= start.cleared_below(color, cell as int, 0).spare);
                        assert(self@.tray =~~= start.cleared_below(color, cell as int, 0).tray);
                        for i in 0..SLOT_COUNT
                            invariant
                                cell < SPARE_COUNT,
                                start.shaped(),
                                self@ == start.cleared_below(color, cell as int, i as int),
                        {
                            let slot = Slot::nth(i);
                            match self.last(slot) {
                                Some(card) => {
                                    if card.is_dragon(color) {
                                        self.pop(slot);
                                    }
                                },
                                None => {},
                            }
                            assert(self@.spare =~= start.cleared_below(
                                color,
                                cell as int,
                                i + 1,
                            ).spare);
                            assert(self@.tray =~~= start.cleared_below(
                                color,
                                cell as int,
                                i + 1,
                            ).tray);
                        }
                        assert(self@.spare =~= start.collected(color, cell as int).spare);
                        assert(self@.tray =~~= start.collected(color, cell as int).tray);
                        self.simplify();
                        true
                    },
                    None => false,
                }
            },
            MoveAction::Move(source, count, target) => {
                if !self.allows(action) {
                    return false;
                }
                let ghost run = start.run(source, count as int);
                let mut taken: Vec<Card> = Vec::new();
                let mut k: usize = 0;
                assert(self@.tray =~~= start.lifted(source, 0).tray);
                while k < count
                    invariant
                        source.valid(),
                        start.shaped(),
                        start.has_run(source, count as int),
                        k <= count,
                        self@ == start.lifted(source, k as int),
                        taken@.len() == k,
                        forall|m: int| 0 <= m < k ==> taken@[m] == run[count - 1 - m],
                        run == start.run(source, count as int),
                    decreases count - k,
                {
                    let card = self.pop(source);
                    assert(card == Some(run[count - 1 - k]));
                    assert(self@.spare =~= start.lifted(source, k + 1).spare);
                    assert(self@.tray =~~= start.lifted(source, k + 1).tray);
                    match card {
                        Some(c) => {
                            taken.push(c);
                        },
                        None => {},
                    }
                    k += 1;
                }
                let ghost lifted = self@;
                assert(self@.tray =~~= lifted.landed(target, run.take(0)).tray);
                while taken.len() > 0
                    invariant
                        target.valid(),
                        start.shaped(),
                        lifted.shaped(),
                        lifted == start.lifted(source, count as int),
                        start.movable(source, count as int, target),
                        run == start.run(source, count as int),
                        run.len() == count,
                        taken@.len() <= count,
                        target matches Slot::Spare(j) ==> count == 1 && lifted.spare[j as int]
                            is Empty,
                        forall|m: int| 0 <= m < taken@.len() ==> taken@[m] == run[count - 1 - m],
                        self@ == lifted.landed(target, run.take(count - taken@.len())),
                    decreases taken@.len(),
                {
                    let ghost done = count - taken@.len();
                    let card = taken.pop();
                    match card {
                        Some(c) => {
                            assert(c == run[done]);
                            self.push(target, c);
                            assert(run.take(done + 1) =~= run.take(done).push(c));
                            assert(self@.spare =~= lifted.landed(target, run.take(done + 1)).spare);
                            assert(self@.tray =~~= lifted.landed(target, run.take(done + 1)).tray);
                        },
                        None => {},
                    }
                }
                assert(run.take(count as int) =~= run);
                assert(self@ == start.moved(source, count as int, target));
                self.simplify();
                true
            },
        }
    }
}

} // verus!
