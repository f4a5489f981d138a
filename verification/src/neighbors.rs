//! The move generator: every action that the rules allow on a board, each
//! with the board it leads to.

use vstd::prelude::*;
use crate::board::{Board, BoardView};
use crate::board_slot::BoardSpare;
use crate::card::{Card, DragonCard};
use crate::index::{Slot, SPARE_COUNT, TRAY_COUNT};
use crate::move_action::MoveAction;
use crate::moves::{is_run, stacked_at};

verus! {

/// Place of an action in the order of generation: a group, then up to three
/// numbers that order the actions of the group.
pub type Place = (int, int, int, int);

/// Group of the dragon collections.
pub const GROUP_COLLECT: u8 = 0;

/// Group of the moves from a cell onto a column.
pub const GROUP_UNPARK: u8 = 1;

/// Group of the moves from a column onto a column.
pub const GROUP_RESTACK: u8 = 2;

/// Group of the moves from a column into a cell.
pub const GROUP_PARK: u8 = 3;

/// Group of the moves from a cell into a cell, which are never generated.
pub const GROUP_SHIFT: u8 = 4;

/// Whether place `a` comes strictly before place `b`.
pub open spec fn comes_before(a: Place, b: Place) -> bool {
    ||| a.0 < b.0
    ||| a.0 == b.0 && a.1 < b.1
    ||| a.0 == b.0 && a.1 == b.1 && a.2 < b.2
    ||| a.0 == b.0 && a.1 == b.1 && a.2 == b.2 && a.3 < b.3
}

impl DragonCard {
    /// Order in which the colours are tried: red, white, green.
    pub open spec fn turn(self) -> int {
        match self {
            DragonCard::Red => 0,
            DragonCard::White => 1,
            DragonCard::Green => 2,
        }
    }
}

impl MoveAction {
    /// Place of the action in the order of generation. Collections come
    /// first, by colour; then moves from a cell onto a column, moves from a
    /// column onto a column, and moves from a column into a cell, each
    /// group by source, then by number of cards, then by target.
    pub open spec fn place(self) -> Place {
        match self {
            MoveAction::CollectDragon(color) => (GROUP_COLLECT as int, color.turn(), 0, 0),
            MoveAction::Move(Slot::Spare(i), n, Slot::Tray(j)) => (
                GROUP_UNPARK as int,
                i as int,
                n as int,
                j as int,
            ),
            MoveAction::Move(Slot::Tray(i), n, Slot::Tray(j)) => (
                GROUP_RESTACK as int,
                i as int,
                n as int,
                j as int,
            ),
            MoveAction::Move(Slot::Tray(i), n, Slot::Spare(j)) => (
                GROUP_PARK as int,
                i as int,
                n as int,
                j as int,
            ),
            MoveAction::Move(Slot::Spare(i), n, Slot::Spare(j)) => (
                GROUP_SHIFT as int,
                i as int,
                n as int,
                j as int,
            ),
        }
    }

    /// Whether the action is generated before `other`.
    pub open spec fn precedes(self, other: MoveAction) -> bool {
        comes_before(self.place(), other.place())
    }
}

/// The actions of a list of neighbours, in order.
pub open spec fn actions_of(list: Seq<(MoveAction, Board)>) -> Seq<MoveAction> {
    Seq::new(list.len(), |k: int| list[k].0)
}

impl BoardView {
    /// The first free cell.
    pub open spec fn first_free_cell(self) -> Option<u8> {
        if self.spare[0] is Empty {
            Some(0u8)
        } else if self.spare[1] is Empty {
            Some(1u8)
        } else if self.spare[2] is Empty {
            Some(2u8)
        } else {
            None
        }
    }

    /// Whether the rules allow a collection, a move from a cell onto a
    /// column or a move from a column onto a column.
    pub open spec fn has_primary_move(self) -> bool {
        exists|action: MoveAction|
            action.valid() && action.place().0 <= GROUP_RESTACK && #[trigger] self.permits(action)
    }

    /// Whether the generator offers `action`: the rules allow it, and it is
    /// a collection, a move from a cell onto a column, a move from a column
    /// onto a column, or, only where none of these exists, a move from a
    /// column into the first free cell.
    pub open spec fn offers(self, action: MoveAction) -> bool {
        &&& action.valid()
        &&& self.permits(action)
        &&& {
            ||| action.place().0 <= GROUP_RESTACK
            ||| action.place().0 == GROUP_PARK && !self.has_primary_move() && Some(
                action.place().3 as u8,
            ) == self.first_free_cell()
        }
    }

    /// Whether `list` is the start of the generator's result: it holds, in
    /// the order of generation and each with the board it leads to, exactly
    /// the offered actions whose place comes before `bound`.
    pub open spec fn lists_up_to(self, list: Seq<(MoveAction, Board)>, bound: Place) -> bool {
        &&& forall|k: int|
            0 <= k < list.len() ==> {
                &&& self.offers((#[trigger] list[k]).0)
                &&& list[k].1@ == self.after(list[k].0)
                &&& comes_before(list[k].0.place(), bound)
            }
        &&& forall|k: int, m: int|
            0 <= k < m < list.len() ==> (#[trigger] list[k]).0.precedes((#[trigger] list[m]).0)
        &&& forall|action: MoveAction|
            #[trigger] self.offers(action) && comes_before(action.place(), bound) ==> actions_of(
                list,
            ).contains(action)
    }

    /// Whether `list` is the generator's result: it holds, in the order of
    /// generation and each with the board it leads to, exactly the offered
    /// actions.
    pub open spec fn lists(self, list: Seq<(MoveAction, Board)>) -> bool {
        &&& forall|k: int|
            0 <= k < list.len() ==> {
                &&& self.offers((#[trigger] list[k]).0)
                &&& list[k].1@ == self.after(list[k].0)
            }
        &&& forall|k: int, m: int|
            0 <= k < m < list.len() ==> (#[trigger] list[k]).0.precedes((#[trigger] list[m]).0)
        &&& forall|action: MoveAction| #[trigger]
            self.offers(action) ==> actions_of(list).contains(action)
    }

    /// The list stays the start of the result when the bound moves on over
    /// places at which nothing is offered.
    pub proof fn lemma_list_skip(self, list: Seq<(MoveAction, Board)>, from: Place, to: Place)
        requires
            self.lists_up_to(list, from),
            !comes_before(to, from),
            forall|action: MoveAction|
                #[trigger] self.offers(action) && comes_before(action.place(), to)
                    ==> comes_before(action.place(), from),
        ensures
            self.lists_up_to(list, to),
    {
    }

    /// The list stays the start of the result when the bound moves on over
    /// one candidate that is offered and was added, or is not offered and was
    /// left out.
    pub proof fn lemma_list_step(
        self,
        before: Seq<(MoveAction, Board)>,
        list: Seq<(MoveAction, Board)>,
        from: Place,
        to: Place,
        candidate: MoveAction,
    )
        requires
            self.lists_up_to(before, from),
            !comes_before(candidate.place(), from),
            comes_before(candidate.place(), to),
            !self.offers(candidate) ==> list == before,
            self.offers(candidate) ==> list.len() == before.len() + 1 && list.drop_last() == before
                && list.last().0 == candidate && list.last().1@ == self.after(candidate),
            forall|action: MoveAction|
                #[trigger] self.offers(action) && comes_before(action.place(), to)
                    && !comes_before(action.place(), from) ==> action == candidate,
        ensures
            self.lists_up_to(list, to),
    {
        if self.offers(candidate) {
            assert forall|k: int| 0 <= k < list.len() implies {
                &&& self.offers((#[trigger] list[k]).0)
                &&& list[k].1@ == self.after(list[k].0)
                &&& comes_before(list[k].0.place(), to)
            } by {
                if k < before.len() {
                    assert(list[k] == before[k]);
                }
            }
            assert forall|k: int, m: int| 0 <= k < m < list.len() implies (
            #[trigger] list[k]).0.precedes((#[trigger] list[m]).0) by {
                assert(list[k] == before[k]);
                if m < before.len() {
                    assert(list[m] == before[m]);
                }
            }
            assert forall|action: MoveAction| #[trigger]
                self.offers(action) && comes_before(action.place(), to) implies actions_of(
                list,
            ).contains(action) by {
                if comes_before(action.place(), from) {
                    assert(actions_of(before).contains(action));
                    let k = choose|k: int|
                        0 <= k < actions_of(before).len() && actions_of(before)[k] == action;
                    assert(list[k] == before[k]);
                    assert(actions_of(list)[k] == action);
                } else {
                    assert(actions_of(list)[list.len() - 1] == action);
                }
            }
        }
    }
}

/// The top `n` cards of a column form a run exactly when each of them but
/// the lowest stacks onto the card under it.
pub proof fn lemma_run_in_column(column: Seq<Card>, n: int)
    requires
        1 <= n <= column.len(),
    ensures
        is_run(column.subrange(column.len() - n, column.len() as int)) <==> forall|k: int|
            column.len() - n < k < column.len() ==> #[trigger] stacked_at(column, k),
{
    let first = column.len() - n;
    let run = column.subrange(first, column.len() as int);
    if is_run(run) {
        assert forall|k: int| first < k < column.len() implies #[trigger] stacked_at(
            column,
            k,
        ) by {
            assert(stacked_at(run, k - first));
        }
    }
    if forall|k: int| first < k < column.len() ==> #[trigger] stacked_at(column, k) {
        assert forall|k: int| 0 < k < run.len() implies #[trigger] stacked_at(run, k) by {
            assert(stacked_at(column, k + first));
        }
    }
}

impl Board {
    /// The greatest number of cards at the top of a column that form a run;
    /// zero for an empty column. Every smaller number of top cards forms a
    /// run too, and no greater one does.
    pub fn longest_run(&self, index: u8) -> (longest: usize)
        requires
            index < TRAY_COUNT,
        ensures
            longest <= self@.tray[index as int].len(),
            forall|n: int| #[trigger]
                self@.has_run(Slot::Tray(index), n) <==> 1 <= n <= longest,
    {
        let column = &self.tray[index as usize];
        let len = column.len();
        if len == 0 {
            return 0;
        }
        let mut longest: usize = 1;
        while longest < len && column[len - longest].can_stack_onto(&column[len - longest - 1])
            invariant
                1 <= longest <= len,
                len == column@.len(),
                forall|k: int| len - longest < k < len ==> #[trigger] stacked_at(column@, k),
            decreases len - longest,
        {
            longest += 1;
        }
        proof {
            assert forall|n: int| #[trigger]
                self@.has_run(Slot::Tray(index), n) <==> 1 <= n <= longest by {
                if 1 <= n <= len {
                    lemma_run_in_column(column@, n);
                    if n > longest {
                        assert(!stacked_at(column@, len - longest));
                    }
                }
            }
        }
        longest
    }

    /// The first free cell, if there is one.
    pub fn free_cell(&self) -> (cell: Option<u8>)
        ensures
            cell == self@.first_free_cell(),
    {
        if matches!(self.spare[0], BoardSpare::Empty) {
            Some(0)
        } else if matches!(self.spare[1], BoardSpare::Empty) {
            Some(1)
        } else if matches!(self.spare[2], BoardSpare::Empty) {
            Some(2)
        } else {
            None
        }
    }

    /// Adds `action` and the board it leads to at the end of `list`, if the
    /// rules allow the action.
    fn offer(&self, action: MoveAction, list: &mut Vec<(MoveAction, Board)>) -> (ok: bool)
        requires
            action.valid(),
        ensures
            ok == self@.permits(action),
            !ok ==> final(list)@ == old(list)@,
            ok ==> final(list)@.len() == old(list)@.len() + 1 && final(list)@.drop_last() == old(
                list,
            )@ && final(list)@.last().0 == action && final(list)@.last().1@ == self@.after(action),
    {
        if self.allows(action) {
            let mut next = self.clone();
            next.move_cards(action);
            list.push((action, next));
            assert(list@.drop_last() =~= old(list)@);
            true
        } else {
            false
        }
    }

    /// Every action that the generator offers on this board, each with the
    /// settled board it leads to, in the order of generation: collections of
    /// dragons, moves from a cell onto a column, moves of a run from a column
    /// onto a column, and, only if there is none of these, moves of a card
    /// from a column into the first free cell.
    pub fn neighbors(&self) -> (list: Vec<(MoveAction, Board)>)
        ensures
            self@.lists(list@),
    {
        let mut list: Vec<(MoveAction, Board)> = Vec::new();
        let ghost board = self@;
        assert(board.lists_up_to(list@, (0, 0, 0, 0)));
        let ghost before = list@;
        self.offer(MoveAction::CollectDragon(DragonCard::Red), &mut list);
        proof {
            board.lemma_list_step(
                before,
                list@,
                (0, 0, 0, 0),
                (0, 1, 0, 0),
                MoveAction::CollectDragon(DragonCard::Red),
            );
            before = list@;
        }
        self.offer(MoveAction::CollectDragon(DragonCard::White), &mut list);
        proof {
            board.lemma_list_step(
                before,
                list@,
                (0, 1, 0, 0),
                (0, 2, 0, 0),
                MoveAction::CollectDragon(DragonCard::White),
            );
            before = list@;
        }
        self.offer(MoveAction::CollectDragon(DragonCard::Green), &mut list);
        proof {
            board.lemma_list_step(
                before,
                list@,
                (0, 2, 0, 0),
                (1, 0, 0, 0),
                MoveAction::CollectDragon(DragonCard::Green),
            );
        }
        for i in 0..SPARE_COUNT
            invariant
                board == self@,
                board.lists_up_to(list@, (1, i as int, 0, 0)),
        {
            proof {
                board.lemma_list_skip(list@, (1, i as int, 0, 0), (1, i as int, 1, 0));
            }
            for j in 0..TRAY_COUNT
                invariant
                    i < SPARE_COUNT,
                    board == self@,
                    board.lists_up_to(list@, (1, i as int, 1, j as int)),
            {
                let candidate = MoveAction::Move(Slot::Spare(i as u8), 1, Slot::Tray(j as u8));
                let ghost before = list@;
                self.offer(candidate, &mut list);
                proof {
                    board.lemma_list_step(
                        before,
                        list@,
                        (1, i as int, 1, j as int),
                        (1, i as int, 1, j + 1),
                        candidate,
                    );
                }
            }
            proof {
                board.lemma_list_skip(list@, (1, i as int, 1, 8), (1, i + 1, 0, 0));
            }
        }
        proof {
            board.lemma_list_skip(list@, (1, 3, 0, 0), (2, 0, 0, 0));
        }
        for i in 0..TRAY_COUNT
            invariant
                board == self@,
                board.lists_up_to(list@, (2, i as int, 0, 0)),
        {
            let longest = self.longest_run(i as u8);
            proof {
                board.lemma_list_skip(list@, (2, i as int, 0, 0), (2, i as int, 1, 0));
            }
            for m in 0..longest
                invariant
                    i < TRAY_COUNT,
                    board == self@,
                    board.lists_up_to(list@, (2, i as int, m + 1, 0)),
            {
                for j in 0..TRAY_COUNT
                    invariant
                        i < TRAY_COUNT,
                        m < longest,
                        board == self@,
                        board.lists_up_to(list@, (2, i as int, m + 1, j as int)),
                {
                    let candidate = MoveAction::Move(
                        Slot::Tray(i as u8),
                        m + 1,
                        Slot::Tray(j as u8),
                    );
                    let ghost before = list@;
                    self.offer(candidate, &mut list);
                    proof {
                        board.lemma_list_step(
                            before,
                            list@,
                            (2, i as int, m + 1, j as int),
                            (2, i as int, m + 1, j + 1),
                            candidate,
                        );
                    }
                }
                proof {
                    board.lemma_list_skip(list@, (2, i as int, m + 1, 8), (2, i as int, m + 2, 0));
                }
            }
            proof {
                board.lemma_list_skip(list@, (2, i as int, longest + 1, 0), (2, i + 1, 0, 0));
            }
        }
        proof {
            board.lemma_list_skip(list@, (2, 8, 0, 0), (3, 0, 0, 0));
        }
        if list.len() > 0 {
            proof {
                assert(board.offers(list@[0].0));
                assert(board.has_primary_move());
            }
            return list;
        }
        assert(!board.has_primary_move()) by {
            if board.has_primary_move() {
                let action = choose|action: MoveAction|
                    action.valid() && action.place().0 <= GROUP_RESTACK && #[trigger] board.permits(
                        action,
                    );
                assert(board.offers(action));
                assert(actions_of(list@).contains(action));
            }
        }
        match self.free_cell() {
            Some(cell) => {
                for i in 0..TRAY_COUNT
                    invariant
                        board == self@,
                        cell < SPARE_COUNT,
                        board.first_free_cell() == Some(cell),
                        !board.has_primary_move(),
                        board.lists_up_to(list@, (3, i as int, 0, 0)),
                {
                    let candidate = MoveAction::Move(Slot::Tray(i as u8), 1, Slot::Spare(cell));
                    let ghost before = list@;
                    self.offer(candidate, &mut list);
                    proof {
                        board.lemma_list_step(
                            before,
                            list@,
                            (3, i as int, 0, 0),
                            (3, i + 1, 0, 0),
                            candidate,
                        );
                    }
                }
            },
            None => {},
        }
        list
    }
}

} // verus!
