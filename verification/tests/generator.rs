use shenzhen_solitaire::board_slot::{BoardOut, BoardSpare};
use shenzhen_solitaire::card::{Card, DragonCard, NumberCard};
use shenzhen_solitaire::index::Slot;
use shenzhen_solitaire::{Board, MoveAction};

const GREEN_DRAGON: Card = Card::Dragon(DragonCard::Green);
const RED_DRAGON: Card = Card::Dragon(DragonCard::Red);
const WHITE_DRAGON: Card = Card::Dragon(DragonCard::White);

fn open_board() -> Board {
    Board {
        flower: false,
        spare: [BoardSpare::Empty, BoardSpare::Empty, BoardSpare::Empty],
        out: BoardOut { bamboo: 0, characters: 0, coin: 0 },
        tray: [vec![], vec![], vec![], vec![], vec![], vec![], vec![], vec![]],
    }
}

fn dragons_everywhere() -> Board {
    let mut board = open_board();
    board.tray = [
        vec![RED_DRAGON],
        vec![RED_DRAGON],
        vec![RED_DRAGON],
        vec![WHITE_DRAGON],
        vec![WHITE_DRAGON],
        vec![WHITE_DRAGON],
        vec![GREEN_DRAGON],
        vec![GREEN_DRAGON],
    ];
    board
}

fn actions_in(list: &[(MoveAction, Board)]) -> Vec<MoveAction> {
    list.iter().map(|entry| entry.0).collect()
}

fn check_boards(board: &Board, list: &[(MoveAction, Board)]) {
    for (action, next) in list.iter() {
        let mut copy = board.clone();
        assert!(copy.move_cards(*action));
        assert_eq!(&copy, next);
    }
}

#[test]
fn runs_of_every_length_go_to_every_column_that_takes_them() {
    let mut board = open_board();
    board.tray[0] = vec![Card::Number(NumberCard::Coin, 7), Card::Number(NumberCard::Bamboo, 6)];
    board.tray[1] = vec![Card::Number(NumberCard::Characters, 8)];
    let list = board.neighbors();
    let mut expected = Vec::new();
    for target in 2..8 {
        expected.push(MoveAction::Move(Slot::Tray(0), 1, Slot::Tray(target)));
    }
    for target in 1..8 {
        expected.push(MoveAction::Move(Slot::Tray(0), 2, Slot::Tray(target)));
    }
    for target in 2..8 {
        expected.push(MoveAction::Move(Slot::Tray(1), 1, Slot::Tray(target)));
    }
    assert_eq!(actions_in(&list), expected);
    check_boards(&board, &list);
    let onto_eight = &list[6].1;
    assert_eq!(onto_eight.tray[0], vec![]);
    assert_eq!(
        onto_eight.tray[1],
        vec![
            Card::Number(NumberCard::Characters, 8),
            Card::Number(NumberCard::Coin, 7),
            Card::Number(NumberCard::Bamboo, 6),
        ]
    );
}

#[test]
fn longer_runs_stop_at_the_first_break() {
    let mut board = open_board();
    board.tray[0] = vec![
        Card::Number(NumberCard::Coin, 9),
        Card::Number(NumberCard::Coin, 8),
        Card::Number(NumberCard::Bamboo, 7),
    ];
    for column in 1..8 {
        board.tray[column] = vec![RED_DRAGON];
    }
    board.tray[7] = vec![WHITE_DRAGON];
    let list = board.neighbors();
    // No column takes a run, so cards are parked; only the top card of a
    // column can be.
    let mut expected = Vec::new();
    for source in 0..8 {
        expected.push(MoveAction::Move(Slot::Tray(source), 1, Slot::Spare(0)));
    }
    assert_eq!(actions_in(&list), expected);
    check_boards(&board, &list);
}

#[test]
fn cards_are_parked_only_when_nothing_else_moves() {
    let board = dragons_everywhere();
    let list = board.neighbors();
    let mut expected = Vec::new();
    for source in 0..8 {
        expected.push(MoveAction::Move(Slot::Tray(source), 1, Slot::Spare(0)));
    }
    assert_eq!(actions_in(&list), expected);
    check_boards(&board, &list);
    assert_eq!(list[3].1.spare[0], BoardSpare::Card(WHITE_DRAGON));
    assert_eq!(list[3].1.tray[3], vec![]);

    let mut with_gap = dragons_everywhere();
    with_gap.tray[7] = vec![];
    let moves = with_gap.neighbors();
    let mut unparked = Vec::new();
    for source in 0..7 {
        unparked.push(MoveAction::Move(Slot::Tray(source), 1, Slot::Tray(7)));
    }
    assert_eq!(actions_in(&moves), unparked);
    check_boards(&with_gap, &moves);
}

#[test]
fn parking_goes_to_the_first_free_cell() {
    let mut board = dragons_everywhere();
    board.spare[0] = BoardSpare::Collected;
    board.spare[1] = BoardSpare::Card(Card::Flower);
    let list = board.neighbors();
    // The flower in the cell cannot go onto a dragon, so nothing else moves.
    let mut expected = Vec::new();
    for source in 0..8 {
        expected.push(MoveAction::Move(Slot::Tray(source), 1, Slot::Spare(2)));
    }
    assert_eq!(actions_in(&list), expected);
    check_boards(&board, &list);
}

#[test]
fn a_stuck_board_has_no_neighbours() {
    let mut board = dragons_everywhere();
    board.spare = [
        BoardSpare::Collected,
        BoardSpare::Card(GREEN_DRAGON),
        BoardSpare::Card(GREEN_DRAGON),
    ];
    board.tray[7] = vec![Card::Number(NumberCard::Coin, 9)];
    board.tray[6] = vec![Card::Number(NumberCard::Coin, 8)];
    assert_eq!(board.neighbors().len(), 0);
}

#[test]
fn collections_come_first_in_the_order_red_white_green() {
    let mut board = open_board();
    board.tray = [
        vec![GREEN_DRAGON],
        vec![GREEN_DRAGON],
        vec![GREEN_DRAGON],
        vec![GREEN_DRAGON],
        vec![RED_DRAGON],
        vec![RED_DRAGON],
        vec![RED_DRAGON],
        vec![RED_DRAGON],
    ];
    let list = board.neighbors();
    assert_eq!(
        actions_in(&list),
        vec![
            MoveAction::CollectDragon(DragonCard::Red),
            MoveAction::CollectDragon(DragonCard::Green),
        ]
    );
    check_boards(&board, &list);
    assert_eq!(list[0].1.spare, [BoardSpare::Collected, BoardSpare::Empty, BoardSpare::Empty]);
    assert_eq!(list[0].1.tray[4], vec![]);
    assert_eq!(list[0].1.tray[0], vec![GREEN_DRAGON]);
    assert_eq!(list[1].1.tray[0], vec![]);
    assert_eq!(list[1].1.tray[4], vec![RED_DRAGON]);
}

#[test]
fn cell_moves_come_before_column_moves() {
    let mut board = open_board();
    board.spare[1] = BoardSpare::Card(Card::Number(NumberCard::Bamboo, 6));
    board.tray[0] = vec![Card::Number(NumberCard::Coin, 7)];
    let list = board.neighbors();
    let mut expected = Vec::new();
    for target in 0..8 {
        expected.push(MoveAction::Move(Slot::Spare(1), 1, Slot::Tray(target)));
    }
    for target in 1..8 {
        expected.push(MoveAction::Move(Slot::Tray(0), 1, Slot::Tray(target)));
    }
    assert_eq!(actions_in(&list), expected);
    check_boards(&board, &list);
    assert_eq!(
        list[0].1.tray[0],
        vec![Card::Number(NumberCard::Coin, 7), Card::Number(NumberCard::Bamboo, 6)]
    );
    assert_eq!(list[0].1.spare[1], BoardSpare::Empty);
}

#[test]
fn neighbours_are_settled_boards() {
    let mut board = open_board();
    board.tray[0] = vec![Card::Number(NumberCard::Bamboo, 1), RED_DRAGON];
    for column in 1..8 {
        board.tray[column] = vec![WHITE_DRAGON];
    }
    board.tray[7] = vec![GREEN_DRAGON];
    let list = board.neighbors();
    assert_eq!(list.len(), 8);
    assert_eq!(list[0].0, MoveAction::Move(Slot::Tray(0), 1, Slot::Spare(0)));
    assert_eq!(list[0].1.out, BoardOut { bamboo: 1, characters: 0, coin: 0 });
    assert_eq!(list[0].1.tray[0], vec![]);
    assert_eq!(list[0].1.spare[0], BoardSpare::Card(RED_DRAGON));
    assert_eq!(list[1].1.out, BoardOut { bamboo: 0, characters: 0, coin: 0 });
}

#[test]
fn free_cell_is_the_first_empty_one() {
    let mut board = open_board();
    assert_eq!(board.free_cell(), Some(0));
    board.spare[0] = BoardSpare::Collected;
    assert_eq!(board.free_cell(), Some(1));
    board.spare[1] = BoardSpare::Card(Card::Flower);
    assert_eq!(board.free_cell(), Some(2));
    board.spare[2] = BoardSpare::Card(RED_DRAGON);
    assert_eq!(board.free_cell(), None);
}
