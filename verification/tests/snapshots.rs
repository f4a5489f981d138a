use shenzhen_solitaire::board_slot::{BoardOut, BoardSpare};
use shenzhen_solitaire::card::{Card, DragonCard, NumberCard};
use shenzhen_solitaire::snapshot::{BoardRecord, CardRecord};
use shenzhen_solitaire::Board;

fn entry(kind: &str, color: Option<&str>, value: Option<u64>) -> CardRecord {
    CardRecord { kind: kind.to_string(), color: color.map(|c| c.to_string()), value }
}

fn played_board() -> Board {
    Board {
        flower: true,
        spare: [
            BoardSpare::Card(Card::Dragon(DragonCard::Red)),
            BoardSpare::Collected,
            BoardSpare::Empty,
        ],
        out: BoardOut { bamboo: 3, characters: 2, coin: 9 },
        tray: [
            vec![Card::Number(NumberCard::Bamboo, 9), Card::Number(NumberCard::Coin, 8)],
            vec![],
            vec![Card::Dragon(DragonCard::White), Card::Flower],
            vec![],
            vec![Card::Number(NumberCard::Characters, 4)],
            vec![],
            vec![],
            vec![Card::Dragon(DragonCard::Green)],
        ],
    }
}

#[test]
fn cards_are_written_with_their_words() {
    assert_eq!(CardRecord::of_card(Card::Flower), entry("flower", None, None));
    assert_eq!(
        CardRecord::of_card(Card::Dragon(DragonCard::Green)),
        entry("special", Some("dragon_green"), None)
    );
    assert_eq!(
        CardRecord::of_card(Card::Dragon(DragonCard::White)),
        entry("special", Some("dragon_white"), None)
    );
    assert_eq!(
        CardRecord::of_card(Card::Dragon(DragonCard::Red)),
        entry("special", Some("dragon_red"), None)
    );
    assert_eq!(
        CardRecord::of_card(Card::Number(NumberCard::Bamboo, 4)),
        entry("number", Some("bamboo"), Some(4))
    );
    assert_eq!(
        CardRecord::of_card(Card::Number(NumberCard::Characters, 9)),
        entry("number", Some("characters"), Some(9))
    );
    assert_eq!(
        CardRecord::of_card(Card::Number(NumberCard::Coin, 1)),
        entry("number", Some("coins"), Some(1))
    );
}

#[test]
fn cells_are_written_with_their_words() {
    assert_eq!(CardRecord::of_cell(BoardSpare::Empty), entry("empty", None, None));
    assert_eq!(CardRecord::of_cell(BoardSpare::Collected), entry("collected", None, None));
    assert_eq!(
        CardRecord::of_cell(BoardSpare::Card(Card::Number(NumberCard::Coin, 2))),
        entry("number", Some("coins"), Some(2))
    );
}

#[test]
fn column_entries_are_read_by_kind_and_colour() {
    assert_eq!(entry("flower", None, None).to_card(), Some(Card::Flower));
    assert_eq!(
        entry("special", Some("dragon_white"), None).to_card(),
        Some(Card::Dragon(DragonCard::White))
    );
    assert_eq!(
        entry("special", Some("dragon_green"), Some(3)).to_card(),
        Some(Card::Dragon(DragonCard::Green))
    );
    assert_eq!(
        entry("number", Some("coins"), Some(6)).to_card(),
        Some(Card::Number(NumberCard::Coin, 6))
    );
    assert_eq!(entry("special", Some("dragon_black"), None).to_card(), None);
    assert_eq!(entry("special", Some("flower"), None).to_card(), None);
    assert_eq!(entry("special", None, None).to_card(), None);
    assert_eq!(entry("number", Some("coins"), None).to_card(), None);
    assert_eq!(entry("number", None, Some(3)).to_card(), None);
    assert_eq!(entry("number", Some("coin"), Some(3)).to_card(), None);
    assert_eq!(entry("empty", None, None).to_card(), None);
    assert_eq!(entry("Number", Some("coins"), Some(3)).to_card(), None);
}

#[test]
fn cell_entries_are_read_by_kind_and_colour() {
    assert_eq!(entry("empty", None, None).to_cell(), Some(BoardSpare::Empty));
    assert_eq!(entry("collected", None, None).to_cell(), Some(BoardSpare::Collected));
    assert_eq!(
        entry("special", Some("dragon_black"), None).to_cell(),
        Some(BoardSpare::Card(Card::Dragon(DragonCard::White)))
    );
    assert_eq!(
        entry("special", Some("dragon_red"), None).to_cell(),
        Some(BoardSpare::Card(Card::Dragon(DragonCard::Red)))
    );
    assert_eq!(
        entry("special", Some("flower"), None).to_cell(),
        Some(BoardSpare::Card(Card::Flower))
    );
    assert_eq!(
        entry("number", Some("bamboo"), Some(5)).to_cell(),
        Some(BoardSpare::Card(Card::Number(NumberCard::Bamboo, 5)))
    );
    assert_eq!(
        entry("special", Some("dragon_white"), None).to_cell(),
        Some(BoardSpare::Card(Card::Dragon(DragonCard::White)))
    );
    assert_eq!(
        entry("special", Some("dragon_green"), None).to_cell(),
        Some(BoardSpare::Card(Card::Dragon(DragonCard::Green)))
    );
    assert_eq!(entry("flower", None, None).to_cell(), Some(BoardSpare::Card(Card::Flower)));
    assert_eq!(entry("number", Some("bamboo"), None).to_cell(), None);
    assert_eq!(entry("special", Some("dragon_blue"), None).to_cell(), None);
    assert_eq!(entry("special", None, None).to_cell(), None);
    assert_eq!(entry("empty", Some("flower"), None).to_cell(), Some(BoardSpare::Empty));
    assert_eq!(entry("number", Some("flower"), Some(1)).to_cell(), None);
    assert_eq!(entry("", None, None).to_cell(), None);
}

#[test]
fn only_the_low_byte_of_a_number_counts() {
    assert_eq!(
        entry("number", Some("bamboo"), Some(265)).to_card(),
        Some(Card::Number(NumberCard::Bamboo, 9))
    );
    assert_eq!(
        entry("number", Some("bamboo"), Some(256)).to_card(),
        Some(Card::Number(NumberCard::Bamboo, 0))
    );
    let mut record = played_board().to_record();
    record.coin = 256 + 7;
    let board = Board::from_record(&record).unwrap();
    assert_eq!(board.out.coin, 7);
}

#[test]
fn a_board_is_written_field_by_field() {
    let record = played_board().to_record();
    assert!(record.flower);
    assert_eq!((record.bamboo, record.characters, record.coin), (3, 2, 9));
    assert_eq!(
        record.spare,
        vec![
            entry("special", Some("dragon_red"), None),
            entry("collected", None, None),
            entry("empty", None, None),
        ]
    );
    assert_eq!(record.tray.len(), 8);
    assert_eq!(
        record.tray[0],
        vec![entry("number", Some("bamboo"), Some(9)), entry("number", Some("coins"), Some(8))]
    );
    assert_eq!(record.tray[1], vec![]);
    assert_eq!(
        record.tray[2],
        vec![entry("special", Some("dragon_white"), None), entry("flower", None, None)]
    );
    assert_eq!(record.tray[7], vec![entry("special", Some("dragon_green"), None)]);
}

#[test]
fn a_written_board_reads_back() {
    let board = played_board();
    assert_eq!(Board::from_record(&board.to_record()), Some(board));
}

#[test]
fn every_cell_reads_back_as_written() {
    let cells = [
        BoardSpare::Empty,
        BoardSpare::Collected,
        BoardSpare::Card(Card::Flower),
        BoardSpare::Card(Card::Dragon(DragonCard::Green)),
        BoardSpare::Card(Card::Dragon(DragonCard::White)),
        BoardSpare::Card(Card::Dragon(DragonCard::Red)),
        BoardSpare::Card(Card::Number(NumberCard::Bamboo, 1)),
        BoardSpare::Card(Card::Number(NumberCard::Characters, 5)),
        BoardSpare::Card(Card::Number(NumberCard::Coin, 9)),
    ];
    for cell in cells.iter() {
        assert_eq!(CardRecord::of_cell(*cell).to_cell(), Some(*cell));
    }
}

#[test]
fn every_card_reads_back_as_written() {
    let mut cards = vec![
        Card::Flower,
        Card::Dragon(DragonCard::Green),
        Card::Dragon(DragonCard::White),
        Card::Dragon(DragonCard::Red),
    ];
    for rank in 0..=255u8 {
        cards.push(Card::Number(NumberCard::Bamboo, rank));
        cards.push(Card::Number(NumberCard::Characters, rank));
        cards.push(Card::Number(NumberCard::Coin, rank));
    }
    for card in cards.iter() {
        assert_eq!(CardRecord::of_card(*card).to_card(), Some(*card));
    }
}

#[test]
fn a_white_dragon_or_flower_in_a_cell_reads_back() {
    let mut board = played_board();
    board.spare[2] = BoardSpare::Card(Card::Dragon(DragonCard::White));
    assert_eq!(
        board.to_record().spare[2],
        entry("special", Some("dragon_white"), None)
    );
    assert_eq!(Board::from_record(&board.to_record()), Some(board.clone()));
    board.spare[2] = BoardSpare::Card(Card::Flower);
    assert_eq!(board.to_record().spare[2], entry("flower", None, None));
    assert_eq!(Board::from_record(&board.to_record()), Some(board.clone()));
    board.spare = [
        BoardSpare::Card(Card::Flower),
        BoardSpare::Card(Card::Dragon(DragonCard::White)),
        BoardSpare::Card(Card::Dragon(DragonCard::White)),
    ];
    assert_eq!(Board::from_record(&board.to_record()), Some(board));
}

#[test]
fn cells_still_read_the_older_words() {
    let mut record = played_board().to_record();
    record.spare[0] = entry("special", Some("dragon_black"), None);
    record.spare[2] = entry("special", Some("flower"), None);
    let board = Board::from_record(&record).unwrap();
    assert_eq!(board.spare[0], BoardSpare::Card(Card::Dragon(DragonCard::White)));
    assert_eq!(board.spare[1], BoardSpare::Collected);
    assert_eq!(board.spare[2], BoardSpare::Card(Card::Flower));
    // Columns never knew these words.
    let mut other = played_board().to_record();
    other.tray[1].push(entry("special", Some("dragon_black"), None));
    assert_eq!(Board::from_record(&other), None);
}

#[test]
fn a_record_of_the_wrong_shape_is_refused() {
    let mut short = played_board().to_record();
    short.spare.pop();
    assert_eq!(Board::from_record(&short), None);
    let mut wide = played_board().to_record();
    wide.tray.push(vec![]);
    assert_eq!(Board::from_record(&wide), None);
    let record = BoardRecord {
        flower: false,
        bamboo: 0,
        characters: 0,
        coin: 0,
        spare: vec![],
        tray: vec![],
    };
    assert_eq!(Board::from_record(&record), None);
}

#[test]
fn an_unknown_entry_refuses_the_record() {
    let mut record = played_board().to_record();
    record.tray[4].push(entry("joker", None, None));
    assert_eq!(Board::from_record(&record), None);
    let mut other = played_board().to_record();
    other.spare[2] = entry("number", Some("bamboo"), None);
    assert_eq!(Board::from_record(&other), None);
}
