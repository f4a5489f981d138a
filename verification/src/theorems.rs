//! What holds of every board and every action, stated over the models that
//! the contracts of the operations use.

use vstd::prelude::*;
use crate::board::{Board, BoardView};
use crate::card::{Card, DragonCard, NumberCard, MAX_RANK, MIN_RANK};
use crate::deal::{dealt, lemma_dealt_conserves_deck, DECK_SIZE};
use crate::deck::is_full_deck;
use crate::index::Slot;
use crate::move_action::MoveAction;
use crate::moves::{is_run, stacked_at};
use crate::neighbors::actions_of;

verus! {

/// The automatic collapse is idempotent: running it on its own result
/// changes nothing.
pub proof fn simplify_is_idempotent(board: BoardView)
    requires
        board.shaped(),
    ensures
        board.simplified().simplified() == board.simplified(),
{
    board.lemma_simplified_rests();
}

/// After the automatic collapse no exposed card can retire by itself.
pub proof fn simplify_settles(board: BoardView)
    requires
        board.shaped(),
    ensures
        board.simplified().settled(),
{
    board.lemma_simplified_rests();
}

/// The automatic collapse leaves a board alone on which no exposed card can
/// retire by itself.
pub proof fn settled_board_stays(board: BoardView)
    requires
        board.settled(),
    ensures
        board.simplified() == board,
{
    board.lemma_settled_sweep(0);
}

/// The automatic collapse never clears the flower flag.
pub proof fn simplify_keeps_flower_flag(board: BoardView)
    requires
        board.shaped(),
        board.flower,
    ensures
        board.simplified().flower,
{
    board.lemma_simplified_rests();
}

/// The automatic collapse sets the flower flag exactly if the flag was set
/// or a flower has left play.
pub proof fn simplify_flags_the_flower(board: BoardView)
    requires
        board.shaped(),
    ensures
        board.simplified().flags_flower_since(board),
{
    board.lemma_simplified_leaves();
}

/// The automatic collapse takes cards only from the tops of columns and out
/// of cells: afterwards every column is a start of the column it was, and
/// every cell is as it was or has been emptied of its card.
pub proof fn simplify_takes_only_exposed_cards(board: BoardView)
    requires
        board.shaped(),
    ensures
        board.simplified().is_left_of(board),
{
    board.lemma_simplified_leaves();
}

/// On a board that holds one deck, the automatic collapse neither clears the
/// flower flag nor lowers a foundation.
pub proof fn simplify_never_reverts(board: BoardView)
    requires
        board.conserves_deck(),
    ensures
        board.simplified().no_less_retired_than(board),
{
    board.lemma_simplified_keeps_deck();
}

/// A board that holds one deck still does after the automatic collapse.
pub proof fn simplify_conserves_deck(board: BoardView)
    requires
        board.conserves_deck(),
    ensures
        board.simplified().conserves_deck(),
{
    board.lemma_simplified_keeps_deck();
}

/// A board that holds one deck still does after any request of the player,
/// allowed or refused.
pub proof fn action_conserves_deck(board: BoardView, action: MoveAction)
    requires
        board.conserves_deck(),
        action.valid(),
    ensures
        board.after(action).conserves_deck(),
{
    if board.permits(action) {
        let next = board.applied(action);
        match action {
            MoveAction::CollectDragon(color) => {
                let cell = board.dragon_target(color).unwrap();
                board.lemma_collected_keeps_deck(color, cell as int);
            },
            MoveAction::Move(source, count, target) => {
                board.lemma_moved_in_play(source, count as int, target);
                assert forall|card: Card| !(card is Dragon) implies #[trigger] next.accounts_for(
                    card,
                ) by {
                    assert(board.accounts_for(card));
                }
                assert forall|color: DragonCard|
                    {
                        ||| #[trigger] next.dragons_in_play(color) == 0
                        ||| next.dragons_in_play(color) == 4
                    } by {
                    assert(next.dragons_in_play(color) == board.dragons_in_play(color));
                }
                assert(next.dragons_in_play(DragonCard::Green) == board.dragons_in_play(
                    DragonCard::Green,
                ));
                assert(next.dragons_in_play(DragonCard::White) == board.dragons_in_play(
                    DragonCard::White,
                ));
                assert(next.dragons_in_play(DragonCard::Red) == board.dragons_in_play(
                    DragonCard::Red,
                ));
            },
        }
        next.lemma_simplified_keeps_deck();
    }
}

impl BoardView {
    /// The board after a sequence of requests of the player, each carried
    /// out on the board that the one before it left.
    pub open spec fn played(self, actions: Seq<MoveAction>) -> BoardView
        decreases actions.len(),
    {
        if actions.len() == 0 {
            self
        } else {
            self.played(actions.drop_last()).after(actions.last())
        }
    }
}

/// Every board of a game holds one deck: the board that a deal of a full
/// deck settles into, and every board that any sequence of requests leads to
/// from there.
pub proof fn every_board_of_a_game_holds_one_deck(cards: Seq<Card>, actions: Seq<MoveAction>)
    requires
        cards.len() == DECK_SIZE,
        is_full_deck(cards),
        forall|k: int| 0 <= k < actions.len() ==> (#[trigger] actions[k]).valid(),
    ensures
        dealt(cards).simplified().played(actions).conserves_deck(),
    decreases actions.len(),
{
    if actions.len() == 0 {
        lemma_dealt_conserves_deck(cards);
        simplify_conserves_deck(dealt(cards));
    } else {
        let earlier = actions.drop_last();
        assert forall|k: int| 0 <= k < earlier.len() implies (#[trigger] earlier[k]).valid() by {
            assert(earlier[k] == actions[k]);
        }
        every_board_of_a_game_holds_one_deck(cards, earlier);
        action_conserves_deck(dealt(cards).simplified().played(earlier), actions.last());
    }
}

/// On a board that holds one deck, no foundation stands above 9, and every
/// number card in a cell or a column has a rank from 1 to 9 that lies above
/// the foundation of its suit.
pub proof fn one_deck_bounds_ranks(board: BoardView)
    requires
        board.conserves_deck(),
    ensures
        board.out.bamboo <= MAX_RANK,
        board.out.characters <= MAX_RANK,
        board.out.coin <= MAX_RANK,
        forall|suit: NumberCard, rank: u8|
            #[trigger] board.in_play().count(Card::Number(suit, rank)) > 0 ==> MIN_RANK <= rank
                <= MAX_RANK && board.out.of(suit) < rank,
{
    assert(board.accounts_for(Card::Number(NumberCard::Bamboo, board.out.bamboo)));
    assert(board.accounts_for(Card::Number(NumberCard::Characters, board.out.characters)));
    assert(board.accounts_for(Card::Number(NumberCard::Coin, board.out.coin)));
    assert forall|suit: NumberCard, rank: u8| #[trigger]
        board.in_play().count(Card::Number(suit, rank)) > 0 implies MIN_RANK <= rank <= MAX_RANK
        && board.out.of(suit) < rank by {
        assert(board.accounts_for(Card::Number(suit, rank)));
    }
}

/// On a board that holds one deck, the order in which exposed cards retire
/// does not matter: once none can retire any more, the board is the one that
/// the automatic collapse ends in.
pub proof fn collapse_order_does_not_matter(board: BoardView, slots: Seq<Slot>)
    requires
        board.conserves_deck(),
        board.can_retire_in_turn(slots),
        board.retired_in_turn(slots).settled(),
    ensures
        board.retired_in_turn(slots) == board.simplified(),
{
    board.lemma_any_order_ends_alike(slots);
}

/// A request that the rules refuse leaves the board as it was.
pub proof fn refused_action_changes_nothing(board: BoardView, action: MoveAction)
    requires
        !board.permits(action),
    ensures
        board.after(action) == board,
{
}

/// Where some cell is free or holds a dragon of the colour, collecting that
/// colour is allowed exactly when four dragons of it are exposed, in cells
/// or on top of columns.
pub proof fn collect_needs_four_exposed(board: BoardView, color: DragonCard)
    requires
        board.shaped(),
        exists|i: int| 0 <= i < 3 && board.takes_dragons(i, color),
    ensures
        board.permits(MoveAction::CollectDragon(color)) <==> board.exposed_dragons(color) == 4,
{
}

/// Without a cell that is free or holds a dragon of the colour, collecting
/// that colour is refused.
pub proof fn collect_needs_a_cell(board: BoardView, color: DragonCard)
    requires
        board.shaped(),
        forall|i: int| 0 <= i < 3 ==> !board.takes_dragons(i, color),
    ensures
        !board.permits(MoveAction::CollectDragon(color)),
{
}

/// On a board that holds one deck, a collection that the rules allow leaves
/// no dragon of that colour in a cell or a column, and one more cell holds a
/// parked set.
pub proof fn collect_leaves_no_dragon(board: BoardView, color: DragonCard)
    requires
        board.conserves_deck(),
        board.permits(MoveAction::CollectDragon(color)),
    ensures
        board.after(MoveAction::CollectDragon(color)).dragons_in_play(color) == 0,
        board.after(MoveAction::CollectDragon(color)).parked_sets() == board.parked_sets() + 1,
{
    let cell = board.dragon_target(color).unwrap();
    let next = board.collected(color, cell as int);
    board.lemma_collected_keeps_deck(color, cell as int);
    next.lemma_simplified_in_play();
    assert(next.simplified().dragons_in_play(color) == next.dragons_in_play(color));
}

/// The cards of a move that the rules allow are number cards that descend
/// by one rank from each card to the next and change suit at every step.
pub proof fn moved_run_descends(board: BoardView, source: Slot, count: int, target: Slot)
    requires
        board.shaped(),
        source.valid(),
        board.movable(source, count, target),
        count > 1,
    ensures
        source is Tray,
        target is Tray,
        forall|k: int|
            0 <= k < count ==> (#[trigger] board.run(source, count)[k]) is Number,
        forall|k: int|
            0 <= k < count ==> (#[trigger] board.run(source, count)[k])->Number_1 + k
                == board.run(source, count)[0]->Number_1,
        forall|k: int|
            0 < k < count ==> (#[trigger] board.run(source, count)[k])->Number_0 != board.run(
                source,
                count,
            )[k - 1]->Number_0,
{
    let run = board.run(source, count);
    assert forall|k: int| 0 <= k < count implies (#[trigger] run[k]) is Number && run[k]->Number_1
        + k == run[0]->Number_1 && (k > 0 ==> run[k]->Number_0 != run[k - 1]->Number_0) by {
        lemma_run_rank(run, k);
    }
}

/// In a run of two or more cards, the card at position `k` is a number card
/// that stands `k` ranks under the bottom card, in another suit than the
/// card under it.
proof fn lemma_run_rank(run: Seq<Card>, k: int)
    requires
        is_run(run),
        run.len() > 1,
        0 <= k < run.len(),
    ensures
        run[k] is Number,
        run[k]->Number_1 + k == run[0]->Number_1,
        k > 0 ==> run[k]->Number_0 != run[k - 1]->Number_0,
    decreases k,
{
    if k == 0 {
        assert(stacked_at(run, 1));
    } else {
        assert(stacked_at(run, k));
        lemma_run_rank(run, k - 1);
    }
}

/// A move of two or more cards whose top cards do not form a run is refused
/// and leaves the board as it was.
pub proof fn broken_run_is_refused(board: BoardView, source: Slot, count: usize, target: Slot)
    requires
        count > 1,
        !is_run(board.run(source, count as int)),
    ensures
        !board.permits(MoveAction::Move(source, count, target)),
        board.after(MoveAction::Move(source, count, target)) == board,
{
}

/// Two actions with the same place in the order of generation are the same
/// action.
pub proof fn place_tells_actions_apart(a: MoveAction, b: MoveAction)
    requires
        a.place() == b.place(),
    ensures
        a == b,
{
}

/// Every board that the generator lists for a board that holds one deck
/// holds one deck.
pub proof fn neighbours_conserve_deck(board: BoardView, list: Seq<(MoveAction, Board)>)
    requires
        board.conserves_deck(),
        board.lists(list),
    ensures
        forall|k: int| 0 <= k < list.len() ==> (#[trigger] list[k]).1@.conserves_deck(),
{
    assert forall|k: int| 0 <= k < list.len() implies (#[trigger] list[k]).1@.conserves_deck() by {
        assert(board.offers(list[k].0));
        action_conserves_deck(board, list[k].0);
    }
}

/// Two results of the generator for one board agree up to any position that
/// both reach.
proof fn lemma_lists_agree(
    board: BoardView,
    first: Seq<(MoveAction, Board)>,
    second: Seq<(MoveAction, Board)>,
    k: int,
)
    requires
        board.lists(first),
        board.lists(second),
        0 <= k < first.len(),
    ensures
        k < second.len(),
        first[k].0 == second[k].0,
    decreases k,
{
    assert forall|m: int| 0 <= m < k implies m < second.len() && first[m].0 == second[m].0 by {
        lemma_lists_agree(board, first, second, m);
    }
    let action = first[k].0;
    assert(board.offers(action));
    assert(actions_of(second).contains(action));
    let found = choose|m: int| 0 <= m < actions_of(second).len() && actions_of(second)[m] == action;
    assert(second[found].0 == action);
    if found < k {
        assert(first[found].0.precedes(first[k].0));
    } else if found > k {
        let other = second[k].0;
        assert(board.offers(other));
        assert(actions_of(first).contains(other));
        let back = choose|m: int| 0 <= m < actions_of(first).len() && actions_of(first)[m] == other;
        assert(first[back].0 == other);
        assert(second[k].0.precedes(second[found].0));
        if back < k {
            assert(second[back].0 == first[back].0);
            assert(second[back].0.precedes(second[k].0));
        } else if back > k {
            assert(first[k].0.precedes(first[back].0));
        }
    }
}

/// The generator's result is determined by the board: two lists that both
/// meet its contract hold the same actions in the same order, each with the
/// same board.
pub proof fn neighbours_are_determined(
    board: BoardView,
    first: Seq<(MoveAction, Board)>,
    second: Seq<(MoveAction, Board)>,
)
    requires
        board.lists(first),
        board.lists(second),
    ensures
        actions_of(first) == actions_of(second),
        forall|k: int| 0 <= k < first.len() ==> (#[trigger] first[k]).1@ == second[k].1@,
{
    if first.len() > 0 {
        lemma_lists_agree(board, first, second, first.len() - 1);
    }
    if second.len() > 0 {
        lemma_lists_agree(board, second, first, second.len() - 1);
    }
    assert forall|k: int| 0 <= k < first.len() implies first[k].0 == second[k].0 && (
    #[trigger] first[k]).1@ == second[k].1@ by {
        lemma_lists_agree(board, first, second, k);
    }
    assert(actions_of(first) =~= actions_of(second));
}

} // verus!
