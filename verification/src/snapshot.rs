//! Snapshots: a board written down as a record of plain values, with cards
//! and cells named by words, and read back from such a record.

use vstd::prelude::*;
use vstd::string::*;
use crate::board::{Board, BoardView};
use crate::board_slot::{BoardOut, BoardSpare};
use crate::card::{Card, DragonCard, NumberCard};
use crate::index::{SPARE_COUNT, TRAY_COUNT};

verus! {

/// The record of one cell or of one card in a column: a kind, and for some
/// kinds a colour and a value.
#[derive(Debug, PartialEq, Eq)]
pub struct CardRecord {
    pub kind: String,
    pub color: Option<String>,
    pub value: Option<u64>,
}

/// The record of a board.
#[derive(Debug, PartialEq, Eq)]
pub struct BoardRecord {
    pub flower: bool,
    pub bamboo: u64,
    pub characters: u64,
    pub coin: u64,
    pub spare: Vec<CardRecord>,
    pub tray: Vec<Vec<CardRecord>>,
}

/// Mathematical model of a `CardRecord`.
pub struct CardRecordView {
    pub kind: Seq<char>,
    pub color: Option<Seq<char>>,
    pub value: Option<u64>,
}

/// Mathematical model of a `BoardRecord`.
pub struct BoardRecordView {
    pub flower: bool,
    pub bamboo: u64,
    pub characters: u64,
    pub coin: u64,
    pub spare: Seq<CardRecordView>,
    pub tray: Seq<Seq<CardRecordView>>,
}

impl View for CardRecord {
    type V = CardRecordView;

    open spec fn view(&self) -> CardRecordView {
        CardRecordView {
            kind: self.kind@,
            color: match self.color {
                Some(color) => Some(color@),
                None => None,
            },
            value: self.value,
        }
    }
}

/// The models of a list of records.
pub open spec fn record_views(records: Seq<CardRecord>) -> Seq<CardRecordView> {
    Seq::new(records.len(), |k: int| records[k]@)
}

impl View for BoardRecord {
    type V = BoardRecordView;

    open spec fn view(&self) -> BoardRecordView {
        BoardRecordView {
            flower: self.flower,
            bamboo: self.bamboo,
            characters: self.characters,
            coin: self.coin,
            spare: record_views(self.spare@),
            tray: Seq::new(self.tray@.len(), |j: int| record_views(self.tray@[j]@)),
        }
    }
}

/// The low eight bits of a recorded number, which is all that a rank or a
/// foundation keeps of it.
pub open spec fn low_byte(value: u64) -> u8 {
    (value % 256) as u8
}

/// The suit that a colour word names.
pub open spec fn suit_named(color: Seq<char>) -> Option<NumberCard> {
    if color == "bamboo"@ {
        Some(NumberCard::Bamboo)
    } else if color == "characters"@ {
        Some(NumberCard::Characters)
    } else if color == "coins"@ {
        Some(NumberCard::Coin)
    } else {
        None
    }
}

/// The dragon that a colour word names in the record of a column.
pub open spec fn dragon_named(color: Seq<char>) -> Option<DragonCard> {
    if color == "dragon_green"@ {
        Some(DragonCard::Green)
    } else if color == "dragon_white"@ {
        Some(DragonCard::White)
    } else if color == "dragon_red"@ {
        Some(DragonCard::Red)
    } else {
        None
    }
}

/// The card that a colour word names in the record of a cell of kind
/// `special`, besides the dragons that the record of a column knows: the
/// white dragon may also be called `dragon_black`, and the flower may be
/// given by its colour word.
pub open spec fn also_named(color: Seq<char>) -> Option<Card> {
    if color == "dragon_black"@ {
        Some(Card::Dragon(DragonCard::White))
    } else if color == "flower"@ {
        Some(Card::Flower)
    } else {
        None
    }
}

impl CardRecordView {
    /// The number card that a record of kind `number` stands for: it needs
    /// a colour word that names a suit, and a value.
    pub open spec fn number(self) -> Option<Card> {
        match (self.color, self.value) {
            (Some(color), Some(value)) => match suit_named(color) {
                Some(suit) => Some(Card::Number(suit, low_byte(value))),
                None => None,
            },
            _ => None,
        }
    }

    /// The card that the record of a card in a column stands for, if it
    /// stands for one.
    pub open spec fn card(self) -> Option<Card> {
        if self.kind == "special"@ {
            match self.color {
                Some(color) => match dragon_named(color) {
                    Some(dragon) => Some(Card::Dragon(dragon)),
                    None => None,
                },
                None => None,
            }
        } else if self.kind == "number"@ {
            self.number()
        } else if self.kind == "flower"@ {
            Some(Card::Flower)
        } else {
            None
        }
    }

    /// The card that a record of kind `special` stands for in a cell by one
    /// of the words that only cells know.
    pub open spec fn card_by_cell_word(self) -> Option<Card> {
        match self.color {
            Some(color) => if self.kind == "special"@ {
                also_named(color)
            } else {
                None
            },
            None => None,
        }
    }

    /// The state of a cell that the record of a cell stands for, if it
    /// stands for one: free, a parked set, or a card. A card is read as in
    /// the record of a column, or by one of the words that only cells know.
    pub open spec fn cell(self) -> Option<BoardSpare> {
        if self.kind == "empty"@ {
            Some(BoardSpare::Empty)
        } else if self.kind == "collected"@ {
            Some(BoardSpare::Collected)
        } else {
            match self.card() {
                Some(card) => Some(BoardSpare::Card(card)),
                None => match self.card_by_cell_word() {
                    Some(card) => Some(BoardSpare::Card(card)),
                    None => None,
                },
            }
        }
    }
}

impl Card {
    /// The record of a card.
    pub open spec fn record(self) -> CardRecordView {
        match self {
            Card::Flower => CardRecordView { kind: "flower"@, color: None, value: None },
            Card::Dragon(DragonCard::Green) => CardRecordView {
                kind: "special"@,
                color: Some("dragon_green"@),
                value: None,
            },
            Card::Dragon(DragonCard::White) => CardRecordView {
                kind: "special"@,
                color: Some("dragon_white"@),
                value: None,
            },
            Card::Dragon(DragonCard::Red) => CardRecordView {
                kind: "special"@,
                color: Some("dragon_red"@),
                value: None,
            },
            Card::Number(NumberCard::Bamboo, rank) => CardRecordView {
                kind: "number"@,
                color: Some("bamboo"@),
                value: Some(rank as u64),
            },
            Card::Number(NumberCard::Characters, rank) => CardRecordView {
                kind: "number"@,
                color: Some("characters"@),
                value: Some(rank as u64),
            },
            Card::Number(NumberCard::Coin, rank) => CardRecordView {
                kind: "number"@,
                color: Some("coins"@),
                value: Some(rank as u64),
            },
        }
    }
}

impl BoardSpare {
    /// The record of a cell.
    pub open spec fn record(self) -> CardRecordView {
        match self {
            BoardSpare::Empty => CardRecordView { kind: "empty"@, color: None, value: None },
            BoardSpare::Collected => CardRecordView {
                kind: "collected"@,
                color: None,
                value: None,
            },
            BoardSpare::Card(card) => card.record(),
        }
    }
}

impl BoardRecordView {
    /// Whether the record can be read as a board: it has three cells and
    /// eight columns, and every entry stands for a cell or a card.
    pub open spec fn readable(self) -> bool {
        &&& self.spare.len() == SPARE_COUNT
        &&& self.tray.len() == TRAY_COUNT
        &&& forall|i: int| 0 <= i < self.spare.len() ==> (#[trigger] self.spare[i]).cell() is Some
        &&& forall|j: int, k: int|
            0 <= j < self.tray.len() && 0 <= k < self.tray[j].len() ==> (
            #[trigger] self.tray[j][k]).card() is Some
    }

    /// The board that a readable record stands for.
    pub open spec fn board(self) -> BoardView {
        BoardView {
            flower: self.flower,
            spare: Seq::new(self.spare.len(), |i: int| self.spare[i].cell().unwrap()),
            out: BoardOut {
                bamboo: low_byte(self.bamboo),
                characters: low_byte(self.characters),
                coin: low_byte(self.coin),
            },
            tray: Seq::new(
                self.tray.len(),
                |j: int| Seq::new(self.tray[j].len(), |k: int| self.tray[j][k].card().unwrap()),
            ),
        }
    }
}

impl BoardView {
    /// The record of a board.
    pub open spec fn record(self) -> BoardRecordView {
        BoardRecordView {
            flower: self.flower,
            bamboo: self.out.bamboo as u64,
            characters: self.out.characters as u64,
            coin: self.out.coin as u64,
            spare: Seq::new(self.spare.len(), |i: int| self.spare[i].record()),
            tray: Seq::new(
                self.tray.len(),
                |j: int| Seq::new(self.tray[j].len(), |k: int| self.tray[j][k].record()),
            ),
        }
    }
}

/// What the words of the records are, letter by letter.
proof fn lemma_words()
    ensures
        "special"@.len() == 7,
        "number"@.len() == 6,
        "flower"@.len() == 6,
        "empty"@.len() == 5,
        "collected"@.len() == 9,
        "number"@[0] == 'n',
        "flower"@[0] == 'f',
        "dragon_green"@.len() == 12,
        "dragon_white"@.len() == 12,
        "dragon_black"@.len() == 12,
        "dragon_red"@.len() == 10,
        "dragon_green"@[7] == 'g',
        "dragon_white"@[7] == 'w',
        "dragon_black"@[7] == 'b',
        "bamboo"@.len() == 6,
        "characters"@.len() == 10,
        "coins"@.len() == 5,
{
    reveal_strlit("special");
    reveal_strlit("number");
    reveal_strlit("flower");
    reveal_strlit("empty");
    reveal_strlit("collected");
    reveal_strlit("dragon_green");
    reveal_strlit("dragon_white");
    reveal_strlit("dragon_black");
    reveal_strlit("dragon_red");
    reveal_strlit("bamboo");
    reveal_strlit("characters");
    reveal_strlit("coins");
}

/// The record of a card reads back, as the record of a card in a column,
/// as the same card.
pub proof fn lemma_card_reads_back(card: Card)
    ensures
        card.record().card() == Some(card),
{
    lemma_words();
}

/// The record of a cell reads back as the same cell.
pub proof fn lemma_cell_reads_back(cell: BoardSpare)
    ensures
        cell.record().cell() == Some(cell),
{
    lemma_words();
}

/// The record of a board can be read and reads back as the same board.
pub proof fn lemma_board_reads_back(board: BoardView)
    requires
        board.shaped(),
    ensures
        board.record().readable(),
        board.record().board() == board,
{
    let record = board.record();
    assert forall|i: int| 0 <= i < record.spare.len() implies (#[trigger] record.spare[i]).cell()
        == Some(board.spare[i]) by {
        lemma_cell_reads_back(board.spare[i]);
    }
    assert forall|j: int, k: int|
        0 <= j < record.tray.len() && 0 <= k < record.tray[j].len() implies (
    #[trigger] record.tray[j][k]).card() == Some(board.tray[j][k]) by {
        lemma_card_reads_back(board.tray[j][k]);
    }
    assert(record.board().spare =~= board.spare);
    assert(record.board().tray =~~= board.tray);
}

/// Whether a text is a given word.
fn is_word(text: &String, word: &str) -> (same: bool)
    ensures
        same == (text@ == word@),
{
    let other = String::from_str(word);
    *text == other
}

/// Reads the low eight bits of a recorded number.
fn low_byte_of(value: u64) -> (byte: u8)
    ensures
        byte == low_byte(value),
{
    (value % 256) as u8
}

impl CardRecord {
    /// A record with a kind and nothing else.
    fn of_kind(kind: &str) -> (record: CardRecord)
        ensures
            record@ == (CardRecordView { kind: kind@, color: None, value: None }),
    {
        CardRecord { kind: String::from_str(kind), color: None, value: None }
    }

    /// A record of kind `special` with a colour word.
    fn special(color: &str) -> (record: CardRecord)
        ensures
            record@ == (CardRecordView { kind: "special"@, color: Some(color@), value: None }),
    {
        CardRecord {
            kind: String::from_str("special"),
            color: Some(String::from_str(color)),
            value: None,
        }
    }

    /// A record of kind `number` with a colour word and a rank.
    fn numbered(color: &str, rank: u8) -> (record: CardRecord)
        ensures
            record@ == (CardRecordView {
                kind: "number"@,
                color: Some(color@),
                value: Some(rank as u64),
            }),
    {
        CardRecord {
            kind: String::from_str("number"),
            color: Some(String::from_str(color)),
            value: Some(rank as u64),
        }
    }

    /// Writes the record of a card.
    pub fn of_card(card: Card) -> (record: CardRecord)
        ensures
            record@ == card.record(),
    {
        match card {
            Card::Flower => CardRecord::of_kind("flower"),
            Card::Dragon(DragonCard::Green) => CardRecord::special("dragon_green"),
            Card::Dragon(DragonCard::White) => CardRecord::special("dragon_white"),
            Card::Dragon(DragonCard::Red) => CardRecord::special("dragon_red"),
            Card::Number(NumberCard::Bamboo, rank) => CardRecord::numbered("bamboo", rank),
            Card::Number(NumberCard::Characters, rank) => CardRecord::numbered("characters", rank),
            Card::Number(NumberCard::Coin, rank) => CardRecord::numbered("coins", rank),
        }
    }

    /// Writes the record of a cell.
    pub fn of_cell(cell: BoardSpare) -> (record: CardRecord)
        ensures
            record@ == cell.record(),
    {
        match cell {
            BoardSpare::Empty => CardRecord::of_kind("empty"),
            BoardSpare::Collected => CardRecord::of_kind("collected"),
            BoardSpare::Card(card) => CardRecord::of_card(card),
        }
    }

    /// Reads a record of kind `number`.
    fn to_number(&self) -> (card: Option<Card>)
        ensures
            card == self@.number(),
    {
        match (&self.color, self.value) {
            (Some(color), Some(value)) => {
                let rank = low_byte_of(value);
                if is_word(color, "bamboo") {
                    Some(Card::Number(NumberCard::Bamboo, rank))
                } else if is_word(color, "characters") {
                    Some(Card::Number(NumberCard::Characters, rank))
                } else if is_word(color, "coins") {
                    Some(Card::Number(NumberCard::Coin, rank))
                } else {
                    None
                }
            },
            _ => None,
        }
    }

    /// Reads the record of a card in a column. `None` where the record
    /// stands for no card.
    pub fn to_card(&self) -> (card: Option<Card>)
        ensures
            card == self@.card(),
    {
        if is_word(&self.kind, "special") {
            match &self.color {
                Some(color) => {
                    if is_word(color, "dragon_green") {
                        Some(Card::Dragon(DragonCard::Green))
                    } else if is_word(color, "dragon_white") {
                        Some(Card::Dragon(DragonCard::White))
                    } else if is_word(color, "dragon_red") {
                        Some(Card::Dragon(DragonCard::Red))
                    } else {
                        None
                    }
                },
                None => None,
            }
        } else if is_word(&self.kind, "number") {
            self.to_number()
        } else if is_word(&self.kind, "flower") {
            Some(Card::Flower)
        } else {
            None
        }
    }

    /// Reads the record of a cell. `None` where the record stands for no
    /// state of a cell.
    pub fn to_cell(&self) -> (cell: Option<BoardSpare>)
        ensures
            cell == self@.cell(),
    {
        if is_word(&self.kind, "empty") {
            Some(BoardSpare::Empty)
        } else if is_word(&self.kind, "collected") {
            Some(BoardSpare::Collected)
        } else {
            match self.to_card() {
                Some(card) => Some(BoardSpare::Card(card)),
                None => match self.to_card_by_cell_word() {
                    Some(card) => Some(BoardSpare::Card(card)),
                    None => None,
                },
            }
        }
    }

    /// Reads a record of kind `special` by one of the words that only cells
    /// know.
    fn to_card_by_cell_word(&self) -> (card: Option<Card>)
        ensures
            card == self@.card_by_cell_word(),
    {
        match &self.color {
            Some(color) => {
                if !is_word(&self.kind, "special") {
                    None
                } else if is_word(color, "dragon_black") {
                    Some(Card::Dragon(DragonCard::White))
                } else if is_word(color, "flower") {
                    Some(Card::Flower)
                } else {
                    None
                }
            },
            None => None,
        }
    }
}

/// Reads the records of the cards of one column. `None` where one of them
/// stands for no card.
fn read_column(records: &Vec<CardRecord>) -> (column: Option<Vec<Card>>)
    ensures
        column is Some <==> forall|k: int|
            0 <= k < records@.len() ==> (#[trigger] records@[k])@.card() is Some,
        column matches Some(cards) ==> cards@ == Seq::new(
            records@.len(),
            |k: int| records@[k]@.card().unwrap(),
        ),
{
    let mut cards: Vec<Card> = Vec::new();
    for k in 0..records.len()
        invariant
            cards@.len() == k,
            forall|m: int| 0 <= m < k ==> (#[trigger] records@[m])@.card() == Some(cards@[m]),
    {
        match records[k].to_card() {
            Some(card) => {
                cards.push(card);
            },
            None => {
                return None;
            },
        }
    }
    assert(cards@ =~= Seq::new(records@.len(), |k: int| records@[k]@.card().unwrap()));
    Some(cards)
}

/// Writes the records of the cards of one column.
fn write_column(cards: &Vec<Card>) -> (records: Vec<CardRecord>)
    ensures
        record_views(records@) == Seq::new(cards@.len(), |k: int| cards@[k].record()),
{
    let mut records: Vec<CardRecord> = Vec::new();
    for k in 0..cards.len()
        invariant
            records@.len() == k,
            forall|m: int| 0 <= m < k ==> (#[trigger] records@[m])@ == cards@[m].record(),
    {
        records.push(CardRecord::of_card(cards[k]));
    }
    assert(record_views(records@) =~= Seq::new(cards@.len(), |k: int| cards@[k].record()));
    records
}

impl Board {
    /// Writes the board down as a record.
    pub fn to_record(&self) -> (record: BoardRecord)
        ensures
            record@ == self@.record(),
            record@.readable(),
            record@.board() == self@,
    {
        proof {
            lemma_board_reads_back(self@);
        }
        let mut spare: Vec<CardRecord> = Vec::new();
        for i in 0..SPARE_COUNT
            invariant
                spare@.len() == i,
                forall|m: int| 0 <= m < i ==> (#[trigger] spare@[m])@ == self@.spare[m].record(),
        {
            spare.push(CardRecord::of_cell(self.spare[i]));
        }
        let mut tray: Vec<Vec<CardRecord>> = Vec::new();
        for j in 0..TRAY_COUNT
            invariant
                tray@.len() == j,
                forall|m: int|
                    0 <= m < j ==> record_views((#[trigger] tray@[m])@) == Seq::new(
                        self@.tray[m].len(),
                        |k: int| self@.tray[m][k].record(),
                    ),
        {
            tray.push(write_column(&self.tray[j]));
        }
        let record = BoardRecord {
            flower: self.flower,
            bamboo: self.out.bamboo as u64,
            characters: self.out.characters as u64,
            coin: self.out.coin as u64,
            spare,
            tray,
        };
        assert(record@.spare =~= self@.record().spare);
        assert(record@.tray =~= self@.record().tray);
        record
    }

    /// Reads a board from a record. `None` where the record does not have
    /// three cells and eight columns, or an entry stands for no cell or no
    /// card. Of each number only the low eight bits count.
    pub fn from_record(record: &BoardRecord) -> (board: Option<Board>)
        ensures
            board is Some <==> record@.readable(),
            board matches Some(b) ==> b@ == record@.board(),
    {
        if record.spare.len() != SPARE_COUNT || record.tray.len() != TRAY_COUNT {
            return None;
        }
        let mut board = Board {
            flower: record.flower,
            spare: [BoardSpare::Empty, BoardSpare::Empty, BoardSpare::Empty],
            out: BoardOut {
                bamboo: low_byte_of(record.bamboo),
                characters: low_byte_of(record.characters),
                coin: low_byte_of(record.coin),
            },
            tray: [
                Vec::new(),
                Vec::new(),
                Vec::new(),
                Vec::new(),
                Vec::new(),
                Vec::new(),
                Vec::new(),
                Vec::new(),
            ],
        };
        for i in 0..SPARE_COUNT
            invariant
                record@.spare.len() == SPARE_COUNT,
                record@.tray.len() == TRAY_COUNT,
                board.flower == record.flower,
                board.out == record@.board().out,
                forall|m: int|
                    0 <= m < i ==> (#[trigger] record@.spare[m]).cell() == Some(board.spare@[m]),
        {
            assert(record@.spare[i as int] == record.spare@[i as int]@);
            match record.spare[i].to_cell() {
                Some(cell) => {
                    board.spare[i] = cell;
                },
                None => {
                    return None;
                },
            }
        }
        for j in 0..TRAY_COUNT
            invariant
                record@.spare.len() == SPARE_COUNT,
                record@.tray.len() == TRAY_COUNT,
                board.flower == record.flower,
                board.out == record@.board().out,
                forall|m: int|
                    0 <= m < SPARE_COUNT ==> (#[trigger] record@.spare[m]).cell() == Some(
                        board.spare@[m],
                    ),
                forall|m: int, k: int|
                    0 <= m < j && 0 <= k < record@.tray[m].len() ==> (
                    #[trigger] record@.tray[m][k]).card() is Some,
                forall|m: int| 0 <= m < j ==> #[trigger] board.tray@[m]@ == record@.board().tray[m],
        {
            assert(record@.tray[j as int] == record_views(record.tray@[j as int]@));
            match read_column(&record.tray[j]) {
                Some(column) => {
                    board.tray[j] = column;
                    assert(board.tray@[j as int]@ =~= record@.board().tray[j as int]);
                    assert forall|k: int| 0 <= k < record@.tray[j as int].len() implies (
                    #[trigger] record@.tray[j as int][k]).card() is Some by {
                        assert(record.tray@[j as int]@[k]@.card() is Some);
                    }
                },
                None => {
                    let ghost k = choose|k: int|
                        0 <= k < record.tray@[j as int]@.len() && !((
                        #[trigger] record.tray@[j as int]@[k])@.card() is Some);
                    assert(record@.tray[j as int][k] == record.tray@[j as int]@[k]@);
                    return None;
                },
            }
        }
        assert(board@.spare =~= record@.board().spare);
        assert(board@.tray =~~= record@.board().tray);
        Some(board)
    }
}

} // verus!
