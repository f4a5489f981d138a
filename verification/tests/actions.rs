use shenzhen_solitaire::board_slot::{BoardOut, BoardSpare};
use shenzhen_solitaire::card::{Card, DragonCard, NumberCard};
use shenzhen_solitaire::index::Slot;
use shenzhen_solitaire::{Board, MoveAction};

const GREEN: Card = Card::Dragon(DragonCard::Green);
const RED: Card = Card::Dragon(DragonCard::Red);
const WHITE: Card = Card::Dragon(DragonCard::White);

fn number(suit: NumberCard, rank: u8) -> Card {
    Card::Number(suit, rank)
}

fn blank_board() -> Board {
    Board {
        flower: false,
        spare: [BoardSpare::Empty, BoardSpare::Empty, BoardSpare::Empty],
        out: BoardOut { bamboo: 0, characters: 0, coin: 0 },
        tray: [vec![], vec![], vec![], vec![], vec![], vec![], vec![], vec![]],
    }
}

fn four_greens_on_top() -> Board {
    let mut board = blank_board();
    board.tray[0] = vec![number(NumberCard::Coin, 5), GREEN];
    board.tray[1] = vec![GREEN];
    board.tray[2] = vec![RED, GREEN];
    board.tray[3] = vec![number(NumberCard::Bamboo, 9), GREEN];
    board
}

#[test]
fn four_exposed_dragons_are_collectable_into_the_first_free_cell() {
    let board = four_greens_on_top();
    assert_eq!(board.dragon_collectable(DragonCard::Green), Some(0));
    assert_eq!(board.dragon_collectable(DragonCard::Red), None);
    assert_eq!(board.dragon_collectable(DragonCard::White), None);
}

#[test]
fn collectable_skips_cells_that_are_taken() {
    let mut board = four_greens_on_top();
    board.spare[0] = BoardSpare::Card(RED);
    assert_eq!(board.dragon_collectable(DragonCard::Green), Some(1));
    board.spare[1] = BoardSpare::Collected;
    assert_eq!(board.dragon_collectable(DragonCard::Green), Some(2));
    board.spare[2] = BoardSpare::Card(number(NumberCard::Coin, 4));
    assert_eq!(board.dragon_collectable(DragonCard::Green), None);
}

#[test]
fn a_cell_holding_one_of_the_dragons_takes_the_set() {
    let mut board = four_greens_on_top();
    board.tray[1] = vec![];
    board.spare[0] = BoardSpare::Card(WHITE);
    board.spare[1] = BoardSpare::Card(GREEN);
    board.spare[2] = BoardSpare::Card(WHITE);
    assert_eq!(board.dragon_collectable(DragonCard::Green), Some(1));
    assert!(board.move_cards(MoveAction::CollectDragon(DragonCard::Green)));
    assert_eq!(
        board.spare,
        [BoardSpare::Card(WHITE), BoardSpare::Collected, BoardSpare::Card(WHITE)]
    );
    assert_eq!(board.tray[0], vec![number(NumberCard::Coin, 5)]);
    assert_eq!(board.tray[2], vec![RED]);
    assert_eq!(board.tray[3], vec![number(NumberCard::Bamboo, 9)]);
}

#[test]
fn a_buried_dragon_blocks_the_collection() {
    let mut board = four_greens_on_top();
    board.tray[1] = vec![GREEN, number(NumberCard::Coin, 2)];
    assert_eq!(board.dragon_collectable(DragonCard::Green), None);
    let before = board.clone();
    assert!(!board.move_cards(MoveAction::CollectDragon(DragonCard::Green)));
    assert_eq!(board, before);
}

#[test]
fn two_dragons_in_one_column_count_once() {
    let mut board = blank_board();
    board.tray[0] = vec![GREEN, GREEN];
    board.tray[1] = vec![GREEN];
    board.tray[2] = vec![GREEN];
    assert_eq!(board.dragon_collectable(DragonCard::Green), None);
}

#[test]
fn collecting_parks_the_set_and_removes_every_dragon() {
    let mut board = four_greens_on_top();
    assert!(board.move_cards(MoveAction::CollectDragon(DragonCard::Green)));
    assert_eq!(board.spare, [BoardSpare::Collected, BoardSpare::Empty, BoardSpare::Empty]);
    assert_eq!(board.tray[0], vec![number(NumberCard::Coin, 5)]);
    assert_eq!(board.tray[1], vec![]);
    assert_eq!(board.tray[2], vec![RED]);
    assert_eq!(board.tray[3], vec![number(NumberCard::Bamboo, 9)]);
    for column in board.tray.iter() {
        assert!(!column.contains(&GREEN));
    }
}

#[test]
fn collecting_lets_the_collapse_run() {
    let mut board = four_greens_on_top();
    board.tray[0] = vec![number(NumberCard::Coin, 1), GREEN];
    board.spare[2] = BoardSpare::Card(GREEN);
    board.tray[1] = vec![number(NumberCard::Coin, 2)];
    assert_eq!(board.dragon_collectable(DragonCard::Green), Some(0));
    assert!(board.move_cards(MoveAction::CollectDragon(DragonCard::Green)));
    assert_eq!(board.out, BoardOut { bamboo: 0, characters: 0, coin: 2 });
    assert_eq!(board.tray[0], vec![]);
    assert_eq!(board.tray[1], vec![]);
    assert_eq!(board.spare, [BoardSpare::Collected, BoardSpare::Empty, BoardSpare::Empty]);
}

#[test]
fn three_exposed_dragons_are_not_enough() {
    let mut board = four_greens_on_top();
    board.tray[1] = vec![];
    assert_eq!(board.dragon_collectable(DragonCard::Green), None);
    let before = board.clone();
    assert!(!board.move_cards(MoveAction::CollectDragon(DragonCard::Green)));
    assert_eq!(board, before);
}

#[test]
fn single_card_moves_between_columns() {
    let mut board = blank_board();
    board.tray[0] = vec![number(NumberCard::Bamboo, 9), number(NumberCard::Coin, 7)];
    board.tray[1] = vec![number(NumberCard::Characters, 8)];
    assert!(board.move_cards(MoveAction::Move(Slot::Tray(0), 1, Slot::Tray(1))));
    assert_eq!(board.tray[0], vec![number(NumberCard::Bamboo, 9)]);
    assert_eq!(board.tray[1], vec![number(NumberCard::Characters, 8), number(NumberCard::Coin, 7)]);
}

#[test]
fn a_run_moves_in_its_order() {
    let mut board = blank_board();
    board.tray[0] = vec![
        RED,
        number(NumberCard::Bamboo, 8),
        number(NumberCard::Coin, 7),
        number(NumberCard::Bamboo, 6),
    ];
    board.tray[1] = vec![number(NumberCard::Characters, 9)];
    assert!(board.move_cards(MoveAction::Move(Slot::Tray(0), 3, Slot::Tray(1))));
    assert_eq!(board.tray[0], vec![RED]);
    assert_eq!(
        board.tray[1],
        vec![
            number(NumberCard::Characters, 9),
            number(NumberCard::Bamboo, 8),
            number(NumberCard::Coin, 7),
            number(NumberCard::Bamboo, 6),
        ]
    );
}

#[test]
fn a_run_moves_onto_an_empty_column() {
    let mut board = blank_board();
    board.tray[0] = vec![WHITE, number(NumberCard::Coin, 7), number(NumberCard::Bamboo, 6)];
    assert!(board.move_cards(MoveAction::Move(Slot::Tray(0), 2, Slot::Tray(5))));
    assert_eq!(board.tray[0], vec![WHITE]);
    assert_eq!(board.tray[5], vec![number(NumberCard::Coin, 7), number(NumberCard::Bamboo, 6)]);
}

#[test]
fn a_gap_in_the_run_refuses_the_move() {
    let mut board = blank_board();
    board.tray[0] = vec![
        number(NumberCard::Bamboo, 8),
        number(NumberCard::Coin, 6),
        number(NumberCard::Bamboo, 5),
    ];
    board.tray[1] = vec![number(NumberCard::Characters, 9)];
    let before = board.clone();
    assert!(!board.move_cards(MoveAction::Move(Slot::Tray(0), 3, Slot::Tray(1))));
    assert_eq!(board, before);
    assert!(!board.move_cards(MoveAction::Move(Slot::Tray(0), 3, Slot::Tray(4))));
    assert_eq!(board, before);
}

#[test]
fn same_suit_in_the_run_refuses_the_move() {
    let mut board = blank_board();
    board.tray[0] = vec![number(NumberCard::Coin, 7), number(NumberCard::Coin, 6)];
    let before = board.clone();
    assert!(!board.move_cards(MoveAction::Move(Slot::Tray(0), 2, Slot::Tray(4))));
    assert_eq!(board, before);
}

#[test]
fn a_dragon_in_the_run_refuses_the_move() {
    let mut board = blank_board();
    board.tray[0] = vec![RED, number(NumberCard::Coin, 6)];
    let before = board.clone();
    assert!(!board.move_cards(MoveAction::Move(Slot::Tray(0), 2, Slot::Tray(4))));
    assert_eq!(board, before);
}

#[test]
fn the_target_must_accept_the_base_of_the_run() {
    let mut board = blank_board();
    board.tray[0] = vec![number(NumberCard::Coin, 7), number(NumberCard::Bamboo, 6)];
    board.tray[1] = vec![number(NumberCard::Coin, 8)];
    board.tray[2] = vec![number(NumberCard::Characters, 7)];
    let before = board.clone();
    // Same suit as the base.
    assert!(!board.move_cards(MoveAction::Move(Slot::Tray(0), 2, Slot::Tray(1))));
    // Accepts the top card of the run, not its base.
    assert!(!board.move_cards(MoveAction::Move(Slot::Tray(0), 2, Slot::Tray(2))));
    assert_eq!(board, before);
    assert!(board.move_cards(MoveAction::Move(Slot::Tray(0), 1, Slot::Tray(2))));
    assert_eq!(board.tray[2], vec![number(NumberCard::Characters, 7), number(NumberCard::Bamboo, 6)]);
}

#[test]
fn more_cards_than_the_column_has_refuses_the_move() {
    let mut board = blank_board();
    board.tray[0] = vec![number(NumberCard::Coin, 7), number(NumberCard::Bamboo, 6)];
    let before = board.clone();
    assert!(!board.move_cards(MoveAction::Move(Slot::Tray(0), 3, Slot::Tray(1))));
    assert!(!board.move_cards(MoveAction::Move(Slot::Tray(3), 1, Slot::Tray(1))));
    assert_eq!(board, before);
}

#[test]
fn moving_no_card_is_refused() {
    let mut board = blank_board();
    board.tray[0] = vec![number(NumberCard::Coin, 7)];
    let before = board.clone();
    assert!(!board.move_cards(MoveAction::Move(Slot::Tray(0), 0, Slot::Tray(1))));
    assert_eq!(board, before);
}

#[test]
fn a_cell_takes_and_gives_one_card() {
    let mut board = blank_board();
    board.tray[0] = vec![WHITE, number(NumberCard::Coin, 7), number(NumberCard::Bamboo, 6)];
    let before = board.clone();
    assert!(!board.move_cards(MoveAction::Move(Slot::Tray(0), 2, Slot::Spare(0))));
    assert_eq!(board, before);
    assert!(board.move_cards(MoveAction::Move(Slot::Tray(0), 1, Slot::Spare(0))));
    assert_eq!(board.spare[0], BoardSpare::Card(number(NumberCard::Bamboo, 6)));
    assert_eq!(board.tray[0], vec![WHITE, number(NumberCard::Coin, 7)]);
    let parked = board.clone();
    assert!(!board.move_cards(MoveAction::Move(Slot::Spare(0), 2, Slot::Tray(0))));
    assert!(!board.move_cards(MoveAction::Move(Slot::Spare(1), 1, Slot::Tray(0))));
    assert_eq!(board, parked);
    assert!(board.move_cards(MoveAction::Move(Slot::Spare(0), 1, Slot::Tray(0))));
    assert_eq!(board, before);
}

#[test]
fn an_occupied_or_used_cell_takes_nothing() {
    let mut board = blank_board();
    board.tray[0] = vec![WHITE];
    board.spare[0] = BoardSpare::Card(RED);
    board.spare[1] = BoardSpare::Collected;
    let before = board.clone();
    assert!(!board.move_cards(MoveAction::Move(Slot::Tray(0), 1, Slot::Spare(0))));
    assert!(!board.move_cards(MoveAction::Move(Slot::Tray(0), 1, Slot::Spare(1))));
    assert_eq!(board, before);
    assert!(board.move_cards(MoveAction::Move(Slot::Tray(0), 1, Slot::Spare(2))));
    assert_eq!(board.spare[2], BoardSpare::Card(WHITE));
}

#[test]
fn a_card_moves_from_cell_to_cell() {
    let mut board = blank_board();
    board.spare[0] = BoardSpare::Card(RED);
    assert!(board.move_cards(MoveAction::Move(Slot::Spare(0), 1, Slot::Spare(2))));
    assert_eq!(board.spare, [BoardSpare::Empty, BoardSpare::Empty, BoardSpare::Card(RED)]);
}

#[test]
fn moving_onto_the_own_slot_is_refused() {
    let mut board = blank_board();
    board.tray[0] = vec![number(NumberCard::Coin, 7), number(NumberCard::Bamboo, 6)];
    board.spare[0] = BoardSpare::Card(RED);
    let before = board.clone();
    assert!(!board.move_cards(MoveAction::Move(Slot::Tray(0), 1, Slot::Tray(0))));
    assert!(!board.move_cards(MoveAction::Move(Slot::Tray(0), 2, Slot::Tray(0))));
    assert!(!board.move_cards(MoveAction::Move(Slot::Spare(0), 1, Slot::Spare(0))));
    assert_eq!(board, before);
}

#[test]
fn a_move_lets_the_collapse_run() {
    let mut board = blank_board();
    board.tray[0] = vec![number(NumberCard::Bamboo, 1), RED];
    board.tray[1] = vec![number(NumberCard::Bamboo, 2)];
    assert!(board.move_cards(MoveAction::Move(Slot::Tray(0), 1, Slot::Tray(3))));
    assert_eq!(board.out, BoardOut { bamboo: 2, characters: 0, coin: 0 });
    assert_eq!(board.tray[0], vec![]);
    assert_eq!(board.tray[1], vec![]);
    assert_eq!(board.tray[3], vec![RED]);
}

#[test]
fn allows_agrees_with_move_cards() {
    let mut board = blank_board();
    board.tray[0] = vec![number(NumberCard::Coin, 7), number(NumberCard::Bamboo, 6)];
    board.tray[1] = vec![number(NumberCard::Characters, 8)];
    let actions = [
        MoveAction::Move(Slot::Tray(0), 1, Slot::Tray(1)),
        MoveAction::Move(Slot::Tray(0), 2, Slot::Tray(1)),
        MoveAction::Move(Slot::Tray(0), 3, Slot::Tray(1)),
        MoveAction::Move(Slot::Tray(1), 1, Slot::Tray(0)),
        MoveAction::Move(Slot::Tray(1), 1, Slot::Spare(1)),
        MoveAction::Move(Slot::Spare(1), 1, Slot::Tray(0)),
        MoveAction::CollectDragon(DragonCard::Red),
    ];
    let expected = [false, true, false, false, true, false, false];
    for (action, ok) in actions.iter().zip(expected.iter()) {
        assert_eq!(board.allows(*action), *ok);
        let mut copy = board.clone();
        assert_eq!(copy.move_cards(*action), *ok);
        if !*ok {
            assert_eq!(copy, board);
        }
    }
}

#[test]
fn longest_run_counts_from_the_top() {
    let mut board = blank_board();
    board.tray[0] = vec![
        number(NumberCard::Coin, 9),
        number(NumberCard::Coin, 8),
        number(NumberCard::Bamboo, 7),
        number(NumberCard::Characters, 6),
    ];
    board.tray[1] = vec![RED];
    board.tray[2] = vec![number(NumberCard::Coin, 3), number(NumberCard::Bamboo, 2)];
    assert_eq!(board.longest_run(0), 3);
    assert_eq!(board.longest_run(1), 1);
    assert_eq!(board.longest_run(2), 2);
    assert_eq!(board.longest_run(3), 0);
}
