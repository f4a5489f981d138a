//! Setting up a game: a fresh deck, a shuffle, and the deal into the eight
//! columns.

use vstd::prelude::*;
use crate::board::{Board, BoardView};
use crate::board_slot::{BoardOut, BoardSpare};
use crate::card::{Card, DragonCard, NumberCard, MAX_RANK, MIN_RANK};
use crate::deck::{deck_copies, is_full_deck};
use crate::index::{SPARE_COUNT, TRAY_COUNT};

verus! {

/// Number of cards in a deck.
pub const DECK_SIZE: usize = 40;

/// Number of cards that each column gets in a deal.
pub const COLUMN_HEIGHT: usize = 5;

/// The board right after `cards` were dealt, before the automatic collapse:
/// the cells free, nothing retired, and the cards laid out five to a column,
/// the first five in the first column.
pub open spec fn dealt(cards: Seq<Card>) -> BoardView {
    BoardView {
        flower: false,
        spare: Seq::new(SPARE_COUNT as nat, |i: int| BoardSpare::Empty),
        out: BoardOut { bamboo: 0, characters: 0, coin: 0 },
        tray: Seq::new(
            TRAY_COUNT as nat,
            |j: int| cards.subrange(COLUMN_HEIGHT * j, COLUMN_HEIGHT * j + COLUMN_HEIGHT),
        ),
    }
}

/// Number of copies of `card` in a deck under construction that holds the
/// flower, `sets` dragons of each colour and the number cards up to rank
/// `ranks`.
pub open spec fn copies_so_far(card: Card, sets: nat, ranks: nat) -> nat {
    match card {
        Card::Flower => 1,
        Card::Dragon(_) => sets,
        Card::Number(_, rank) => if MIN_RANK <= rank <= ranks {
            1
        } else {
            0
        },
    }
}

/// Dealing a full deck gives a board that holds one deck.
pub proof fn lemma_dealt_conserves_deck(cards: Seq<Card>)
    requires
        cards.len() == DECK_SIZE,
        is_full_deck(cards),
    ensures
        dealt(cards).conserves_deck(),
{
    let board = dealt(cards);
    let c0 = board.tray[0];
    let c1 = board.tray[1];
    let c2 = board.tray[2];
    let c3 = board.tray[3];
    let c4 = board.tray[4];
    let c5 = board.tray[5];
    let c6 = board.tray[6];
    let c7 = board.tray[7];
    assert(c0 + c1 + c2 + c3 + c4 + c5 + c6 + c7 =~= cards);
    vstd::seq_lib::lemma_multiset_commutative(c0, c1);
    vstd::seq_lib::lemma_multiset_commutative(c0 + c1, c2);
    vstd::seq_lib::lemma_multiset_commutative(c0 + c1 + c2, c3);
    vstd::seq_lib::lemma_multiset_commutative(c0 + c1 + c2 + c3, c4);
    vstd::seq_lib::lemma_multiset_commutative(c0 + c1 + c2 + c3 + c4, c5);
    vstd::seq_lib::lemma_multiset_commutative(c0 + c1 + c2 + c3 + c4 + c5, c6);
    vstd::seq_lib::lemma_multiset_commutative(c0 + c1 + c2 + c3 + c4 + c5 + c6, c7);
    assert(board.in_play() =~= cards.to_multiset());
    assert forall|card: Card| !(card is Dragon) implies #[trigger] board.accounts_for(card) by {
        assert(cards.to_multiset().count(card) == deck_copies(card));
    }
    assert forall|color: DragonCard| #[trigger] board.dragons_in_play(color) == 4 by {
        assert(cards.to_multiset().count(Card::Dragon(color)) == deck_copies(Card::Dragon(color)));
    }
    assert(board.dragons_in_play(DragonCard::Green) == 4);
    assert(board.dragons_in_play(DragonCard::White) == 4);
    assert(board.dragons_in_play(DragonCard::Red) == 4);
}

/// Adding a card to a sequence adds one copy of that card and of no other.
proof fn lemma_push_copies(cards: Seq<Card>, added: Card, card: Card)
    ensures
        cards.push(added).to_multiset().count(card) == cards.to_multiset().count(card) + if added
            == card {
            1nat
        } else {
            0nat
        },
{
    vstd::seq_lib::to_multiset_build(cards, added);
}

/// Shuffles the cards in place with `rand::seq::SliceRandom::shuffle`, driven
/// by the thread-local generator that `rand::thread_rng` hands out. The
/// shuffle only swaps elements, so the cards afterwards are the cards before
/// in some order; nothing is claimed about which order. The generator
/// panics where the system gives it no seed, whatever the cards are.
#[verifier::external_body]
fn shuffle(cards: &mut Vec<Card>)
    ensures
        final(cards)@.to_multiset() == old(cards)@.to_multiset(),
        final(cards)@.len() == old(cards)@.len(),
{
    rand::seq::SliceRandom::shuffle(cards.as_mut_slice(), &mut rand::thread_rng());
}

/// The forty cards of a deck: the flower, four dragons of each colour, and
/// the ranks 1 to 9 of each suit.
fn fresh_deck() -> (cards: Vec<Card>)
    ensures
        cards@.len() == DECK_SIZE,
        is_full_deck(cards@),
{
    let mut cards: Vec<Card> = Vec::new();
    cards.push(Card::Flower);
    proof {
        assert forall|card: Card| #[trigger]
            cards@.to_multiset().count(card) == copies_so_far(card, 0, 0) by {
            Seq::<Card>::empty().to_multiset_ensures();
            lemma_push_copies(Seq::<Card>::empty(), Card::Flower, card);
            assert(cards@ =~= Seq::<Card>::empty().push(Card::Flower));
        }
    }
    let mut sets: u8 = 0;
    while sets < 4
        invariant
            sets <= 4,
            cards@.len() == 1 + 3 * sets,
            forall|card: Card| #[trigger]
                cards@.to_multiset().count(card) == copies_so_far(card, sets as nat, 0),
        decreases 4 - sets,
    {
        let ghost s0 = cards@;
        cards.push(Card::Dragon(DragonCard::Green));
        let ghost s1 = cards@;
        cards.push(Card::Dragon(DragonCard::White));
        let ghost s2 = cards@;
        cards.push(Card::Dragon(DragonCard::Red));
        sets += 1;
        proof {
            assert forall|card: Card| #[trigger]
                cards@.to_multiset().count(card) == copies_so_far(card, sets as nat, 0) by {
                lemma_push_copies(s0, Card::Dragon(DragonCard::Green), card);
                lemma_push_copies(s1, Card::Dragon(DragonCard::White), card);
                lemma_push_copies(s2, Card::Dragon(DragonCard::Red), card);
                assert(s0.to_multiset().count(card) == copies_so_far(card, (sets - 1) as nat, 0));
            }
        }
    }
    let mut rank: u8 = MIN_RANK;
    while rank <= MAX_RANK
        invariant
            MIN_RANK <= rank <= MAX_RANK + 1,
            cards@.len() == 13 + 3 * (rank - 1),
            forall|card: Card| #[trigger]
                cards@.to_multiset().count(card) == copies_so_far(card, 4, (rank - 1) as nat),
        decreases MAX_RANK + 1 - rank,
    {
        let ghost s0 = cards@;
        cards.push(Card::Number(NumberCard::Bamboo, rank));
        let ghost s1 = cards@;
        cards.push(Card::Number(NumberCard::Characters, rank));
        let ghost s2 = cards@;
        cards.push(Card::Number(NumberCard::Coin, rank));
        proof {
            assert forall|card: Card| #[trigger]
                cards@.to_multiset().count(card) == copies_so_far(card, 4, rank as nat) by {
                lemma_push_copies(s0, Card::Number(NumberCard::Bamboo, rank), card);
                lemma_push_copies(s1, Card::Number(NumberCard::Characters, rank), card);
                lemma_push_copies(s2, Card::Number(NumberCard::Coin, rank), card);
                assert(s0.to_multiset().count(card) == copies_so_far(card, 4, (rank - 1) as nat));
            }
        }
        rank += 1;
    }
    cards
}

impl Board {
    /// Deals forty cards five to a column, the first five into the first
    /// column, and lets the automatic collapse run.
    pub fn deal(cards: &Vec<Card>) -> (board: Board)
        requires
            cards@.len() == DECK_SIZE,
        ensures
            board@ == dealt(cards@).simplified(),
            board@.settled(),
            is_full_deck(cards@) ==> board@.conserves_deck(),
    {
        let mut board = Board {
            flower: false,
            spare: [BoardSpare::Empty, BoardSpare::Empty, BoardSpare::Empty],
            out: BoardOut { bamboo: 0, characters: 0, coin: 0 },
            tray: [
                Vec::new(),
                Vec::new(),
                Vec::new(),
                Vec::new(),
                Vec::new(),
                Vec::new(),
                Vec::new(),
                Vec::new(),
            ],
        };
        for j in 0..TRAY_COUNT
            invariant
                cards@.len() == DECK_SIZE,
                board.flower == false,
                board.spare@ == dealt(cards@).spare,
                board.out == dealt(cards@).out,
                forall|m: int| 0 <= m < j ==> #[trigger] board.tray@[m]@ == dealt(cards@).tray[m],
                forall|m: int| j <= m < TRAY_COUNT ==> (#[trigger] board.tray@[m])@.len() == 0,
        {
            for k in 0..COLUMN_HEIGHT
                invariant
                    j < TRAY_COUNT,
                    cards@.len() == DECK_SIZE,
                    board.flower == false,
                    board.spare@ == dealt(cards@).spare,
                    board.out == dealt(cards@).out,
                    forall|m: int|
                        0 <= m < j ==> #[trigger] board.tray@[m]@ == dealt(cards@).tray[m],
                    forall|m: int| j < m < TRAY_COUNT ==> (#[trigger] board.tray@[m])@.len() == 0,
                    board.tray@[j as int]@ == cards@.subrange(
                        COLUMN_HEIGHT * j,
                        COLUMN_HEIGHT * j + k,
                    ),
            {
                board.tray[j].push(cards[COLUMN_HEIGHT * j + k]);
                assert(board.tray@[j as int]@ =~= cards@.subrange(
                    COLUMN_HEIGHT * j,
                    COLUMN_HEIGHT * j + k + 1,
                ));
            }
        }
        assert(board@.tray =~~= dealt(cards@).tray);
        assert(board@ == dealt(cards@));
        board.simplify();
        proof {
            dealt(cards@).lemma_simplified_rests();
            if is_full_deck(cards@) {
                lemma_dealt_conserves_deck(cards@);
                dealt(cards@).lemma_simplified_keeps_deck();
            }
        }
        board
    }

    /// A new game: a full deck, shuffled, dealt and brought to rest.
    pub fn new_random() -> (board: Board)
        ensures
            board@.conserves_deck(),
            board@.settled(),
            exists|cards: Seq<Card>|
                cards.len() == DECK_SIZE && is_full_deck(cards) && board@ == #[trigger] dealt(
                    cards,
                ).simplified(),
    {
        let mut cards = fresh_deck();
        shuffle(&mut cards);
        let board = Board::deal(&cards);
        assert(cards@.len() == DECK_SIZE && is_full_deck(cards@) && board@ == dealt(
            cards@,
        ).simplified());
        board
    }
}

} // verus!
