//! Plain-text forms of cards, cells, boards and actions.

use vstd::prelude::*;
use vstd::string::*;
use crate::board::{Board, BoardView};
use crate::board_slot::BoardSpare;
use crate::card::{Card, DragonCard, NumberCard};
use crate::index::{Slot, TRAY_COUNT};
use crate::move_action::MoveAction;

verus! {

/// The character of a decimal digit.
pub open spec fn digit_char(digit: int) -> char {
    if digit == 0 {
        '0'
    } else if digit == 1 {
        '1'
    } else if digit == 2 {
        '2'
    } else if digit == 3 {
        '3'
    } else if digit == 4 {
        '4'
    } else if digit == 5 {
        '5'
    } else if digit == 6 {
        '6'
    } else if digit == 7 {
        '7'
    } else if digit == 8 {
        '8'
    } else {
        '9'
    }
}

/// A number written in decimal digits, without leading zeros.
pub open spec fn decimal_text(n: nat) -> Seq<char>
    decreases n,
{
    if n < 10 {
        seq![digit_char(n as int)]
    } else {
        decimal_text(n / 10).push(digit_char((n % 10) as int))
    }
}

/// One decimal digit as a string.
fn digit_text(digit: usize) -> (text: &'static str)
    requires
        digit < 10,
    ensures
        text@ == seq![digit_char(digit as int)],
{
    let text = if digit == 0 {
        proof {
            reveal_strlit("0");
        }
        "0"
    } else if digit == 1 {
        proof {
            reveal_strlit("1");
        }
        "1"
    } else if digit == 2 {
        proof {
            reveal_strlit("2");
        }
        "2"
    } else if digit == 3 {
        proof {
            reveal_strlit("3");
        }
        "3"
    } else if digit == 4 {
        proof {
            reveal_strlit("4");
        }
        "4"
    } else if digit == 5 {
        proof {
            reveal_strlit("5");
        }
        "5"
    } else if digit == 6 {
        proof {
            reveal_strlit("6");
        }
        "6"
    } else if digit == 7 {
        proof {
            reveal_strlit("7");
        }
        "7"
    } else if digit == 8 {
        proof {
            reveal_strlit("8");
        }
        "8"
    } else {
        proof {
            reveal_strlit("9");
        }
        "9"
    };
    assert(text@ =~= seq![digit_char(digit as int)]);
    text
}

/// Writes a number in decimal digits.
pub fn decimal(n: usize) -> (text: String)
    ensures
        text@ == decimal_text(n as nat),
    decreases n,
{
    if n < 10 {
        String::from_str(digit_text(n))
    } else {
        let mut text = decimal(n / 10);
        let digit = digit_text(n % 10);
        text.append(digit);
        assert(text@ =~= decimal_text((n / 10) as nat).push(digit_char((n % 10) as int)));
        text
    }
}

impl DragonCard {
    /// The name of the colour.
    pub open spec fn name(self) -> Seq<char> {
        match self {
            DragonCard::Green => "Green"@,
            DragonCard::White => "White"@,
            DragonCard::Red => "Red"@,
        }
    }

    /// The name of the colour.
    pub fn render(&self) -> (text: String)
        ensures
            text@ == self.name(),
    {
        match self {
            DragonCard::Green => String::from_str("Green"),
            DragonCard::White => String::from_str("White"),
            DragonCard::Red => String::from_str("Red"),
        }
    }
}

impl NumberCard {
    /// The letter that stands for the suit.
    pub open spec fn letter(self) -> Seq<char> {
        match self {
            NumberCard::Bamboo => "G"@,
            NumberCard::Characters => "B"@,
            NumberCard::Coin => "R"@,
        }
    }
}

impl Card {
    /// The short form of a card: `FL` for the flower, `D` and the initial of
    /// the colour for a dragon, the letter of the suit and the rank for a
    /// number card.
    pub open spec fn text(self) -> Seq<char> {
        match self {
            Card::Flower => "FL"@,
            Card::Dragon(DragonCard::Green) => "DG"@,
            Card::Dragon(DragonCard::White) => "DW"@,
            Card::Dragon(DragonCard::Red) => "DR"@,
            Card::Number(suit, rank) => suit.letter() + decimal_text(rank as nat),
        }
    }

    /// Writes the short form of the card.
    pub fn render(&self) -> (text: String)
        ensures
            text@ == self.text(),
    {
        match *self {
            Card::Flower => String::from_str("FL"),
            Card::Dragon(DragonCard::Green) => String::from_str("DG"),
            Card::Dragon(DragonCard::White) => String::from_str("DW"),
            Card::Dragon(DragonCard::Red) => String::from_str("DR"),
            Card::Number(suit, rank) => {
                let mut text = match suit {
                    NumberCard::Bamboo => String::from_str("G"),
                    NumberCard::Characters => String::from_str("B"),
                    NumberCard::Coin => String::from_str("R"),
                };
                let digits = decimal(rank as usize);
                text.append(digits.as_str());
                text
            },
        }
    }
}

impl BoardSpare {
    /// The short form of a cell: `CO` for a parked set, the card's form for
    /// a card, two blanks for a free cell.
    pub open spec fn text(self) -> Seq<char> {
        match self {
            BoardSpare::Collected => "CO"@,
            BoardSpare::Card(card) => card.text(),
            BoardSpare::Empty => "  "@,
        }
    }

    /// Writes the short form of the cell.
    pub fn render(&self) -> (text: String)
        ensures
            text@ == self.text(),
    {
        match self {
            BoardSpare::Collected => String::from_str("CO"),
            BoardSpare::Card(card) => card.render(),
            BoardSpare::Empty => String::from_str("  "),
        }
    }
}

/// The greater of two lengths.
pub open spec fn longer(a: nat, b: nat) -> nat {
    if a >= b {
        a
    } else {
        b
    }
}

impl BoardView {
    /// Length of the longest of the first `columns` columns.
    pub open spec fn tallest(self, columns: int) -> nat
        decreases columns,
    {
        if columns <= 0 {
            0
        } else {
            longer(self.tallest(columns - 1), self.tray[columns - 1].len())
        }
    }

    /// Length of the longest column.
    pub open spec fn height(self) -> nat {
        self.tallest(TRAY_COUNT as int)
    }

    /// The head of the picture of a board: a rule, the line of the cells,
    /// the flower mark and the foundations, and a rule.
    pub open spec fn head_text(self) -> Seq<char> {
        "+--+--+--+-----+--+--+--+\n"@ + "|"@ + self.spare[0].text() + "|"@ + self.spare[1].text()
            + "|"@ + self.spare[2].text() + "| "@ + (if self.flower {
            "F L"@
        } else {
            "   "@
        }) + " |"@ + "G"@ + decimal_text(self.out.bamboo as nat) + "|B"@ + decimal_text(
            self.out.characters as nat,
        ) + "|R"@ + decimal_text(self.out.coin as nat) + "|\n"@
            + "+--+--+--+-----+--+--+--+\n"@
    }

    /// What the picture shows of column `column` in row `row`: a blank, then
    /// the card at that depth or two blanks.
    pub open spec fn place_text(self, row: int, column: int) -> Seq<char> {
        " "@ + if row < self.tray[column].len() {
            self.tray[column][row].text()
        } else {
            "  "@
        }
    }

    /// The first `columns` places of row `row` of the picture.
    pub open spec fn row_start_text(self, row: int, columns: int) -> Seq<char>
        decreases columns,
    {
        if columns <= 0 {
            Seq::empty()
        } else {
            self.row_start_text(row, columns - 1) + self.place_text(row, columns - 1)
        }
    }

    /// Row `row` of the picture: the eight places, a blank and a line end.
    pub open spec fn row_text(self, row: int) -> Seq<char> {
        self.row_start_text(row, TRAY_COUNT as int) + " \n"@
    }

    /// The first `rows` rows of the picture.
    pub open spec fn rows_text(self, rows: int) -> Seq<char>
        decreases rows,
    {
        if rows <= 0 {
            Seq::empty()
        } else {
            self.rows_text(rows - 1) + self.row_text(rows - 1)
        }
    }

    /// The picture of a board: the head, then one row for each depth up to
    /// the longest column.
    pub open spec fn text(self) -> Seq<char> {
        self.head_text() + self.rows_text(self.height() as int)
    }
}

impl Board {
    /// Length of the longest column.
    pub fn height(&self) -> (height: usize)
        ensures
            height == self@.height(),
    {
        let mut height: usize = 0;
        for j in 0..TRAY_COUNT
            invariant
                height == self@.tallest(j as int),
        {
            if self.tray[j].len() > height {
                height = self.tray[j].len();
            }
        }
        height
    }

    /// Draws the board as text.
    pub fn render(&self) -> (text: String)
        ensures
            text@ == self@.text(),
    {
        let mut text = String::from_str("+--+--+--+-----+--+--+--+\n");
        text.append("|");
        text.append(self.spare[0].render().as_str());
        text.append("|");
        text.append(self.spare[1].render().as_str());
        text.append("|");
        text.append(self.spare[2].render().as_str());
        text.append("| ");
        text.append(if self.flower { "F L" } else { "   " });
        text.append(" |");
        text.append("G");
        text.append(decimal(self.out.bamboo as usize).as_str());
        text.append("|B");
        text.append(decimal(self.out.characters as usize).as_str());
        text.append("|R");
        text.append(decimal(self.out.coin as usize).as_str());
        text.append("|\n");
        text.append("+--+--+--+-----+--+--+--+\n");
        assert(text@ == self@.head_text());
        let height = self.height();
        assert(text@ =~= self@.head_text() + self@.rows_text(0));
        for row in 0..height
            invariant
                height == self@.height(),
                text@ == self@.head_text() + self@.rows_text(row as int),
        {
            let ghost done = text@;
            assert(text@ =~= done + self@.row_start_text(row as int, 0));
            for column in 0..TRAY_COUNT
                invariant
                    text@ == done + self@.row_start_text(row as int, column as int),
            {
                let ghost so_far = text@;
                text.append(" ");
                if row < self.tray[column].len() {
                    text.append(self.tray[column][row].render().as_str());
                } else {
                    text.append("  ");
                }
                assert(text@ =~= so_far + self@.place_text(row as int, column as int));
                assert(text@ =~= done + self@.row_start_text(row as int, column + 1));
            }
            text.append(" \n");
            assert(text@ =~= self@.head_text() + self@.rows_text(row + 1));
        }
        text
    }
}

/// The ending of the ordinal of a position counted from one: `st`, `nd` or
/// `rd` after a last digit of 1, 2 or 3, except where the last two digits
/// are 11, 12 or 13; `th` otherwise.
pub open spec fn ordinal_ending(position: nat) -> Seq<char> {
    let two_digits = position % 100;
    let digit = two_digits % 10;
    if digit == 1 && two_digits != 11 {
        "st"@
    } else if digit == 2 && two_digits != 12 {
        "nd"@
    } else if digit == 3 && two_digits != 13 {
        "rd"@
    } else {
        "th"@
    }
}

/// The English ordinal of the item that comes after `index` others: the
/// words `first`, `second` and `third`, then the position in digits with
/// its ending, as in `4th`, `21st` or `112th`.
pub open spec fn ordinal_text(index: nat) -> Seq<char> {
    if index == 0 {
        "first"@
    } else if index == 1 {
        "second"@
    } else if index == 2 {
        "third"@
    } else {
        decimal_text(index + 1) + ordinal_ending(index + 1)
    }
}

/// Writes the ordinal of the item at a zero-based index with
/// `num_ordinal::Ordinal::from0` and the `Display` form of the `Osize` it
/// returns. That form is a word for the first three positions and, from the
/// fourth on, the position in decimal digits followed by an ending that the
/// last two digits decide. `from0` panics on the highest index of the type,
/// which the precondition leaves out.
#[verifier::external_body]
fn ordinal(index: usize) -> (name: String)
    requires
        index < usize::MAX,
    ensures
        name@ == ordinal_text(index as nat),
{
    <num_ordinal::Osize as num_ordinal::Ordinal>::from0(index).to_string()
}

impl MoveAction {
    /// The sentence for an action, given the ordinals of its source and its
    /// target. Only moves from a cell onto a column, from a column into a
    /// cell and from a column onto a column have a sentence of their own;
    /// the first two are moves of one card.
    pub open spec fn phrase(self, source_name: Seq<char>, target_name: Seq<char>) -> Seq<char> {
        match self {
            MoveAction::CollectDragon(color) => "Collect "@ + color.name() + " Dragon"@,
            MoveAction::Move(Slot::Spare(_), count, Slot::Tray(_)) => if count == 1 {
                "Move "@ + source_name + " Spare's card to "@ + target_name + " Tray"@
            } else {
                "Invalid Move"@
            },
            MoveAction::Move(Slot::Tray(_), count, Slot::Spare(_)) => if count == 1 {
                "Move "@ + source_name + " Tray's last card to "@ + target_name + " Spare"@
            } else {
                "Invalid Move"@
            },
            MoveAction::Move(Slot::Tray(_), count, Slot::Tray(_)) => "Move "@ + source_name
                + " Tray's last "@ + decimal_text(count as nat) + " cards to "@ + target_name
                + " Tray"@,
            MoveAction::Move(Slot::Spare(_), _, Slot::Spare(_)) => "Invalid Move"@,
        }
    }

    /// The sentence for an action, with its source and target named by
    /// their ordinals.
    pub open spec fn description(self) -> Seq<char> {
        match self {
            MoveAction::CollectDragon(_) => self.phrase(Seq::empty(), Seq::empty()),
            MoveAction::Move(source, _, target) => self.phrase(
                ordinal_text(source.number() as nat),
                ordinal_text(target.number() as nat),
            ),
        }
    }

    /// Writes the sentence for an action, given the ordinals of its source
    /// and its target.
    pub fn describe_with(&self, source_name: &str, target_name: &str) -> (text: String)
        ensures
            text@ == self.phrase(source_name@, target_name@),
    {
        match *self {
            MoveAction::CollectDragon(color) => {
                let mut text = String::from_str("Collect ");
                text.append(color.render().as_str());
                text.append(" Dragon");
                text
            },
            MoveAction::Move(Slot::Spare(_), count, Slot::Tray(_)) => {
                if count == 1 {
                    let mut text = String::from_str("Move ");
                    text.append(source_name);
                    text.append(" Spare's card to ");
                    text.append(target_name);
                    text.append(" Tray");
                    text
                } else {
                    String::from_str("Invalid Move")
                }
            },
            MoveAction::Move(Slot::Tray(_), count, Slot::Spare(_)) => {
                if count == 1 {
                    let mut text = String::from_str("Move ");
                    text.append(source_name);
                    text.append(" Tray's last card to ");
                    text.append(target_name);
                    text.append(" Spare");
                    text
                } else {
                    String::from_str("Invalid Move")
                }
            },
            MoveAction::Move(Slot::Tray(_), count, Slot::Tray(_)) => {
                let mut text = String::from_str("Move ");
                text.append(source_name);
                text.append(" Tray's last ");
                text.append(decimal(count).as_str());
                text.append(" cards to ");
                text.append(target_name);
                text.append(" Tray");
                text
            },
            MoveAction::Move(Slot::Spare(_), _, Slot::Spare(_)) => String::from_str(
                "Invalid Move",
            ),
        }
    }

    /// Writes the sentence for an action.
    pub fn describe(&self) -> (text: String)
        ensures
            text@ == self.description(),
    {
        match *self {
            MoveAction::Move(Slot::Spare(source), 1, Slot::Tray(target)) => {
                let source_name = ordinal(source as usize);
                let target_name = ordinal(target as usize);
                self.describe_with(source_name.as_str(), target_name.as_str())
            },
            MoveAction::Move(Slot::Tray(source), 1, Slot::Spare(target)) => {
                let source_name = ordinal(source as usize);
                let target_name = ordinal(target as usize);
                self.describe_with(source_name.as_str(), target_name.as_str())
            },
            MoveAction::Move(Slot::Tray(source), _, Slot::Tray(target)) => {
                let source_name = ordinal(source as usize);
                let target_name = ordinal(target as usize);
                self.describe_with(source_name.as_str(), target_name.as_str())
            },
            _ => self.describe_with("", ""),
        }
    }
}

} // verus!
