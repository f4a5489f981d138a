//! Addresses on the board: slots for work at the top of a cell or column,
//! locations for reading a card at a given depth.

use vstd::prelude::*;

verus! {

/// Number of holding cells.
pub const SPARE_COUNT: usize = 3;

/// Number of tableau columns.
pub const TRAY_COUNT: usize = 8;

/// Number of slots: the holding cells followed by the tableau columns.
pub const SLOT_COUNT: usize = 11;

/// A holding cell or a tableau column, addressed by its index.
#[derive(Debug, Copy, Clone, PartialEq, Eq, Hash, Structural)]
pub enum Slot {
    Spare(u8),
    Tray(u8),
}

/// A holding cell, or a position within a tableau column counted from the
/// bottom of the column.
#[derive(Debug, Copy, Clone, PartialEq, Eq, Hash, Structural)]
pub enum Location {
    Spare(u8),
    Tray(u8, u8),
}

/// Every slot in scanning order: the three holding cells, then the eight
/// columns.
pub fn all_slots() -> (slots: [Slot; 11])
    ensures
        forall|i: int| 0 <= i < SLOT_COUNT ==> slots@[i] == Slot::at(i),
{
    [
        Slot::Spare(0),
        Slot::Spare(1),
        Slot::Spare(2),
        Slot::Tray(0),
        Slot::Tray(1),
        Slot::Tray(2),
        Slot::Tray(3),
        Slot::Tray(4),
        Slot::Tray(5),
        Slot::Tray(6),
        Slot::Tray(7),
    ]
}

impl Slot {
    /// The slot at position `i` of the scanning order.
    pub open spec fn at(i: int) -> Slot {
        if i < SPARE_COUNT {
            Slot::Spare(i as u8)
        } else {
            Slot::Tray((i - SPARE_COUNT) as u8)
        }
    }

    /// Whether the slot names a cell or a column that exists.
    pub open spec fn valid(self) -> bool {
        match self {
            Slot::Spare(i) => i < SPARE_COUNT,
            Slot::Tray(i) => i < TRAY_COUNT,
        }
    }

    /// Index of the cell or column that the slot names.
    pub open spec fn number(self) -> u8 {
        match self {
            Slot::Spare(i) => i,
            Slot::Tray(i) => i,
        }
    }

    /// Position of a valid slot in the scanning order.
    pub open spec fn position(self) -> int {
        match self {
            Slot::Spare(i) => i as int,
            Slot::Tray(i) => SPARE_COUNT + i,
        }
    }

    /// The slot at position `i` of the scanning order.
    pub fn nth(i: usize) -> (slot: Slot)
        requires
            i < SLOT_COUNT,
        ensures
            slot == Slot::at(i as int),
            slot.valid(),
            slot.position() == i,
    {
        if i < SPARE_COUNT {
            Slot::Spare(i as u8)
        } else {
            Slot::Tray((i - SPARE_COUNT) as u8)
        }
    }
}

impl Location {
    /// Whether the location names a cell or a column that exists. The depth
    /// within a column is not constrained.
    pub open spec fn valid(self) -> bool {
        match self {
            Location::Spare(i) => i < SPARE_COUNT,
            Location::Tray(x, _) => x < TRAY_COUNT,
        }
    }
}

} // verus!
