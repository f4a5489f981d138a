use shenzhen_solitaire::board_slot::{BoardOut, BoardSpare};
use shenzhen_solitaire::card::{Card, DragonCard, NumberCard};
use shenzhen_solitaire::index::Slot;
use shenzhen_solitaire::text::decimal;
use shenzhen_solitaire::{Board, MoveAction};

#[test]
fn decimal_writes_digits_without_leading_zeros() {
    assert_eq!(decimal(0), "0");
    assert_eq!(decimal(7), "7");
    assert_eq!(decimal(10), "10");
    assert_eq!(decimal(255), "255");
    assert_eq!(decimal(1203), "1203");
    assert_eq!(decimal(usize::MAX), usize::MAX.to_string());
}

#[test]
fn cards_have_two_letter_forms() {
    assert_eq!(Card::Flower.render(), "FL");
    assert_eq!(Card::Dragon(DragonCard::Green).render(), "DG");
    assert_eq!(Card::Dragon(DragonCard::White).render(), "DW");
    assert_eq!(Card::Dragon(DragonCard::Red).render(), "DR");
    assert_eq!(Card::Number(NumberCard::Bamboo, 7).render(), "G7");
    assert_eq!(Card::Number(NumberCard::Characters, 3).render(), "B3");
    assert_eq!(Card::Number(NumberCard::Coin, 9).render(), "R9");
    assert_eq!(Card::Number(NumberCard::Coin, 12).render(), "R12");
}

#[test]
fn cells_have_two_letter_forms() {
    assert_eq!(BoardSpare::Collected.render(), "CO");
    assert_eq!(BoardSpare::Empty.render(), "  ");
    assert_eq!(BoardSpare::Card(Card::Number(NumberCard::Bamboo, 1)).render(), "G1");
}

#[test]
fn an_empty_board_is_drawn_as_its_head() {
    let board = Board {
        flower: false,
        spare: [BoardSpare::Empty, BoardSpare::Empty, BoardSpare::Empty],
        out: BoardOut { bamboo: 0, characters: 0, coin: 0 },
        tray: [vec![], vec![], vec![], vec![], vec![], vec![], vec![], vec![]],
    };
    assert_eq!(
        board.render(),
        "+--+--+--+-----+--+--+--+\n|  |  |  |     |G0|B0|R0|\n+--+--+--+-----+--+--+--+\n"
    );
    assert_eq!(board.height(), 0);
}

#[test]
fn a_board_is_drawn_row_by_row() {
    let board = Board {
        flower: true,
        spare: [
            BoardSpare::Card(Card::Dragon(DragonCard::Red)),
            BoardSpare::Collected,
            BoardSpare::Empty,
        ],
        out: BoardOut { bamboo: 3, characters: 2, coin: 9 },
        tray: [
            vec![Card::Number(NumberCard::Bamboo, 9), Card::Number(NumberCard::Coin, 8)],
            vec![],
            vec![Card::Dragon(DragonCard::White)],
            vec![],
            vec![],
            vec![],
            vec![],
            vec![
                Card::Number(NumberCard::Characters, 4),
                Card::Dragon(DragonCard::Green),
                Card::Number(NumberCard::Bamboo, 5),
            ],
        ],
    };
    let expected = "+--+--+--+-----+--+--+--+\n\
                    |DR|CO|  | F L |G3|B2|R9|\n\
                    +--+--+--+-----+--+--+--+\n \
                    G9    DW             B4 \n \
                    R8                   DG \n                      \
                    G5 \n";
    assert_eq!(board.render(), expected);
    assert_eq!(board.height(), 3);
}

#[test]
fn collections_are_described_by_colour() {
    assert_eq!(MoveAction::CollectDragon(DragonCard::Green).describe(), "Collect Green Dragon");
    assert_eq!(MoveAction::CollectDragon(DragonCard::White).describe(), "Collect White Dragon");
    assert_eq!(MoveAction::CollectDragon(DragonCard::Red).describe(), "Collect Red Dragon");
}

#[test]
fn moves_are_described_with_ordinals() {
    assert_eq!(
        MoveAction::Move(Slot::Spare(0), 1, Slot::Tray(3)).describe(),
        "Move first Spare's card to 4th Tray"
    );
    assert_eq!(
        MoveAction::Move(Slot::Tray(1), 1, Slot::Spare(2)).describe(),
        "Move second Tray's last card to third Spare"
    );
    assert_eq!(
        MoveAction::Move(Slot::Tray(7), 3, Slot::Tray(0)).describe(),
        "Move 8th Tray's last 3 cards to first Tray"
    );
    assert_eq!(
        MoveAction::Move(Slot::Tray(2), 1, Slot::Tray(4)).describe(),
        "Move third Tray's last 1 cards to 5th Tray"
    );
    assert_eq!(
        MoveAction::Move(Slot::Tray(20), 12, Slot::Tray(100)).describe(),
        "Move 21st Tray's last 12 cards to 101st Tray"
    );
}

#[test]
fn other_moves_have_no_description() {
    assert_eq!(MoveAction::Move(Slot::Spare(0), 1, Slot::Spare(1)).describe(), "Invalid Move");
    assert_eq!(MoveAction::Move(Slot::Spare(0), 2, Slot::Tray(1)).describe(), "Invalid Move");
    assert_eq!(MoveAction::Move(Slot::Tray(0), 2, Slot::Spare(1)).describe(), "Invalid Move");
    assert_eq!(MoveAction::Move(Slot::Tray(0), 0, Slot::Spare(1)).describe(), "Invalid Move");
}

#[test]
fn describe_with_takes_the_names_as_given() {
    let action = MoveAction::Move(Slot::Tray(0), 2, Slot::Tray(1));
    assert_eq!(action.describe_with("left", "right"), "Move left Tray's last 2 cards to right Tray");
    let parked = MoveAction::Move(Slot::Tray(0), 1, Slot::Spare(1));
    assert_eq!(parked.describe_with("a", "b"), "Move a Tray's last card to b Spare");
    assert_eq!(
        MoveAction::CollectDragon(DragonCard::Red).describe_with("a", "b"),
        "Collect Red Dragon"
    );
}

#[test]
fn ordinals_follow_the_last_two_digits() {
    let cases: [(u8, &str); 16] = [
        (0, "first"),
        (1, "second"),
        (2, "third"),
        (3, "4th"),
        (9, "10th"),
        (10, "11th"),
        (11, "12th"),
        (12, "13th"),
        (20, "21st"),
        (21, "22nd"),
        (22, "23rd"),
        (23, "24th"),
        (100, "101st"),
        (110, "111th"),
        (111, "112th"),
        (255, "256th"),
    ];
    for (index, name) in cases.iter() {
        let action = MoveAction::Move(Slot::Tray(*index), 2, Slot::Tray(*index));
        assert_eq!(
            action.describe(),
            format!("Move {} Tray's last 2 cards to {} Tray", name, name)
        );
    }
}
