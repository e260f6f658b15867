//! Text for the console: tiles, fields and the picture of the board.

use vstd::prelude::*;
use vstd::string::*;
use crate::board::Board;
use crate::field::Field;
use crate::lines::{at, cell};
use crate::tile::{Direction, Tile};

verus! {

pub const PIECE_00: &'static str = "\n                                _______\n                               /       \\     \n                       _______/    ";
pub const PIECE_01: &'static str = "    \\_______\n                      /       \\  ";
pub const PIECE_02: &'static str = "   ";
pub const PIECE_03: &'static str = "  /       \\     \n              _______/    ";
pub const PIECE_04: &'static str = "    \\_______/    ";
pub const PIECE_05: &'static str = "    \\_______\n             /       \\  ";
pub const PIECE_06: &'static str = "   ";
pub const PIECE_07: &'static str = "  /       \\  ";
pub const PIECE_08: &'static str = "   ";
pub const PIECE_09: &'static str = "  /       \\\n            /    ";
pub const PIECE_10: &'static str = "    \\_______/    ";
pub const PIECE_11: &'static str = "    \\_______/    ";
pub const PIECE_12: &'static str = "    \\\n            \\  ";
pub const PIECE_13: &'static str = "   ";
pub const PIECE_14: &'static str = "  /       \\  ";
pub const PIECE_15: &'static str = "   ";
pub const PIECE_16: &'static str = "  /       \\  ";
pub const PIECE_17: &'static str = "   ";
pub const PIECE_18: &'static str = "  /\n             \\_______/    ";
pub const PIECE_19: &'static str = "    \\_______/    ";
pub const PIECE_20: &'static str = "    \\_______/   \n             /       \\  ";
pub const PIECE_21: &'static str = "   ";
pub const PIECE_22: &'static str = "  /       \\  ";
pub const PIECE_23: &'static str = "   ";
pub const PIECE_24: &'static str = "  /       \\\n            /    ";
pub const PIECE_25: &'static str = "    \\_______/    ";
pub const PIECE_26: &'static str = "    \\_______/    ";
pub const PIECE_27: &'static str = "    \\\n            \\  ";
pub const PIECE_28: &'static str = "   ";
pub const PIECE_29: &'static str = "  /       \\  ";
pub const PIECE_30: &'static str = "   ";
pub const PIECE_31: &'static str = "  /       \\  ";
pub const PIECE_32: &'static str = "   ";
pub const PIECE_33: &'static str = "  /\n             \\_______/    ";
pub const PIECE_34: &'static str = "    \\_______/    ";
pub const PIECE_35: &'static str = "    \\_______/   \n             /       \\  ";
pub const PIECE_36: &'static str = "   ";
pub const PIECE_37: &'static str = "  /       \\  ";
pub const PIECE_38: &'static str = "   ";
pub const PIECE_39: &'static str = "  /       \\\n            /    ";
pub const PIECE_40: &'static str = "    \\_______/    ";
pub const PIECE_41: &'static str = "    \\_______/    ";
pub const PIECE_42: &'static str = "    \\\n            \\  ";
pub const PIECE_43: &'static str = "   ";
pub const PIECE_44: &'static str = "  /       \\  ";
pub const PIECE_45: &'static str = "   ";
pub const PIECE_46: &'static str = "  /       \\  ";
pub const PIECE_47: &'static str = "   ";
pub const PIECE_48: &'static str = "  /\n             \\_______/    ";
pub const PIECE_49: &'static str = "    \\_______/    ";
pub const PIECE_50: &'static str = "    \\_______/   \n                     \\  ";
pub const PIECE_51: &'static str = "   ";
pub const PIECE_52: &'static str = "  /       \\  ";
pub const PIECE_53: &'static str = "   ";
pub const PIECE_54: &'static str = "  /\n                      \\_______/    ";
pub const PIECE_55: &'static str = "    \\_______/   \n                              \\  ";
pub const PIECE_56: &'static str = "   ";
pub const PIECE_57: &'static str = "  /\n                               \\_______/";

/// The stretches of the picture around its numbers, from the top row down
/// and from left to right: the first stands before the first number, the last
/// behind the last number, each other one between two numbers.
pub open spec fn pieces() -> Seq<Seq<char>> {
    seq![
        PIECE_00@, PIECE_01@, PIECE_02@, PIECE_03@, PIECE_04@, PIECE_05@,
        PIECE_06@, PIECE_07@, PIECE_08@, PIECE_09@, PIECE_10@, PIECE_11@,
        PIECE_12@, PIECE_13@, PIECE_14@, PIECE_15@, PIECE_16@, PIECE_17@,
        PIECE_18@, PIECE_19@, PIECE_20@, PIECE_21@, PIECE_22@, PIECE_23@,
        PIECE_24@, PIECE_25@, PIECE_26@, PIECE_27@, PIECE_28@, PIECE_29@,
        PIECE_30@, PIECE_31@, PIECE_32@, PIECE_33@, PIECE_34@, PIECE_35@,
        PIECE_36@, PIECE_37@, PIECE_38@, PIECE_39@, PIECE_40@, PIECE_41@,
        PIECE_42@, PIECE_43@, PIECE_44@, PIECE_45@, PIECE_46@, PIECE_47@,
        PIECE_48@, PIECE_49@, PIECE_50@, PIECE_51@, PIECE_52@, PIECE_53@,
        PIECE_54@, PIECE_55@, PIECE_56@, PIECE_57@,
    ]
}

fn piece_table() -> (table: Vec<&'static str>)
    ensures
        table@.len() == 58,
        forall|index: int| 0 <= index < 58 ==> (#[trigger] table@[index])@ == pieces()[index],
{
    vec![
        PIECE_00, PIECE_01, PIECE_02, PIECE_03, PIECE_04, PIECE_05, PIECE_06, PIECE_07,
        PIECE_08, PIECE_09, PIECE_10, PIECE_11, PIECE_12, PIECE_13, PIECE_14, PIECE_15,
        PIECE_16, PIECE_17, PIECE_18, PIECE_19, PIECE_20, PIECE_21, PIECE_22, PIECE_23,
        PIECE_24, PIECE_25, PIECE_26, PIECE_27, PIECE_28, PIECE_29, PIECE_30, PIECE_31,
        PIECE_32, PIECE_33, PIECE_34, PIECE_35, PIECE_36, PIECE_37, PIECE_38, PIECE_39,
        PIECE_40, PIECE_41, PIECE_42, PIECE_43, PIECE_44, PIECE_45, PIECE_46, PIECE_47,
        PIECE_48, PIECE_49, PIECE_50, PIECE_51, PIECE_52, PIECE_53, PIECE_54, PIECE_55,
        PIECE_56, PIECE_57,
    ]
}

/// Which number stands at each of the 57 places of the picture, from the top
/// row down and from left to right: the field and the edge that is read.
pub open spec fn slots() -> Seq<(Field, Direction)> {
    seq![
        (cell(3, 1), Direction::Top), (cell(3, 1), Direction::Left), (cell(3, 1), Direction::Right),
        (cell(2, 1), Direction::Top), (cell(4, 1), Direction::Top), (cell(2, 1), Direction::Left),
        (cell(2, 1), Direction::Right), (cell(4, 1), Direction::Left), (cell(4, 1), Direction::Right),
        (cell(1, 1), Direction::Top), (cell(3, 2), Direction::Top), (cell(5, 1), Direction::Top),
        (cell(1, 1), Direction::Left), (cell(1, 1), Direction::Right), (cell(3, 2), Direction::Left),
        (cell(3, 2), Direction::Right), (cell(5, 1), Direction::Left), (cell(5, 1), Direction::Right),
        (cell(2, 2), Direction::Top), (cell(4, 2), Direction::Top), (cell(2, 2), Direction::Left),
        (cell(2, 2), Direction::Right), (cell(4, 2), Direction::Left), (cell(4, 2), Direction::Right),
        (cell(1, 2), Direction::Top), (cell(3, 3), Direction::Top), (cell(5, 2), Direction::Top),
        (cell(1, 2), Direction::Left), (cell(1, 2), Direction::Right), (cell(3, 3), Direction::Left),
        (cell(3, 3), Direction::Right), (cell(5, 2), Direction::Left), (cell(5, 2), Direction::Right),
        (cell(2, 3), Direction::Top), (cell(4, 3), Direction::Top), (cell(2, 3), Direction::Left),
        (cell(2, 3), Direction::Right), (cell(4, 3), Direction::Left), (cell(4, 3), Direction::Right),
        (cell(1, 3), Direction::Top), (cell(3, 4), Direction::Top), (cell(5, 3), Direction::Top),
        (cell(1, 3), Direction::Left), (cell(1, 3), Direction::Right), (cell(3, 4), Direction::Left),
        (cell(3, 4), Direction::Right), (cell(5, 3), Direction::Left), (cell(5, 3), Direction::Right),
        (cell(2, 4), Direction::Top), (cell(4, 4), Direction::Top), (cell(2, 4), Direction::Left),
        (cell(2, 4), Direction::Right), (cell(4, 4), Direction::Left), (cell(4, 4), Direction::Right),
        (cell(3, 5), Direction::Top), (cell(3, 5), Direction::Left), (cell(3, 5), Direction::Right),
    ]
}

fn slot_table() -> (table: Vec<(Field, Direction)>)
    ensures
        table@ == slots(),
{
    let table = vec![
        (at(3, 1), Direction::Top), (at(3, 1), Direction::Left), (at(3, 1), Direction::Right),
        (at(2, 1), Direction::Top), (at(4, 1), Direction::Top), (at(2, 1), Direction::Left),
        (at(2, 1), Direction::Right), (at(4, 1), Direction::Left), (at(4, 1), Direction::Right),
        (at(1, 1), Direction::Top), (at(3, 2), Direction::Top), (at(5, 1), Direction::Top),
        (at(1, 1), Direction::Left), (at(1, 1), Direction::Right), (at(3, 2), Direction::Left),
        (at(3, 2), Direction::Right), (at(5, 1), Direction::Left), (at(5, 1), Direction::Right),
        (at(2, 2), Direction::Top), (at(4, 2), Direction::Top), (at(2, 2), Direction::Left),
        (at(2, 2), Direction::Right), (at(4, 2), Direction::Left), (at(4, 2), Direction::Right),
        (at(1, 2), Direction::Top), (at(3, 3), Direction::Top), (at(5, 2), Direction::Top),
        (at(1, 2), Direction::Left), (at(1, 2), Direction::Right), (at(3, 3), Direction::Left),
        (at(3, 3), Direction::Right), (at(5, 2), Direction::Left), (at(5, 2), Direction::Right),
        (at(2, 3), Direction::Top), (at(4, 3), Direction::Top), (at(2, 3), Direction::Left),
        (at(2, 3), Direction::Right), (at(4, 3), Direction::Left), (at(4, 3), Direction::Right),
        (at(1, 3), Direction::Top), (at(3, 4), Direction::Top), (at(5, 3), Direction::Top),
        (at(1, 3), Direction::Left), (at(1, 3), Direction::Right), (at(3, 4), Direction::Left),
        (at(3, 4), Direction::Right), (at(5, 3), Direction::Left), (at(5, 3), Direction::Right),
        (at(2, 4), Direction::Top), (at(4, 4), Direction::Top), (at(2, 4), Direction::Left),
        (at(2, 4), Direction::Right), (at(4, 4), Direction::Left), (at(4, 4), Direction::Right),
        (at(3, 5), Direction::Top), (at(3, 5), Direction::Left), (at(3, 5), Direction::Right),
    ];
    assert(table@ =~= slots());
    table
}

/// The decimal digit of a number from 1 to 9.
pub open spec fn digit(number: nat) -> char {
    if number <= 1 {
        '1'
    } else if number == 2 {
        '2'
    } else if number == 3 {
        '3'
    } else if number == 4 {
        '4'
    } else if number == 5 {
        '5'
    } else if number == 6 {
        '6'
    } else if number == 7 {
        '7'
    } else if number == 8 {
        '8'
    } else {
        '9'
    }
}

fn digit_str(number: u32) -> (text: &'static str)
    requires
        1 <= number <= 9,
    ensures
        text@ == seq![digit(number as nat)],
{
    proof {
        reveal_strlit("1");
        reveal_strlit("2");
        reveal_strlit("3");
        reveal_strlit("4");
        reveal_strlit("5");
        reveal_strlit("6");
        reveal_strlit("7");
        reveal_strlit("8");
        reveal_strlit("9");
    }
    let text = if number == 1 {
        "1"
    } else if number == 2 {
        "2"
    } else if number == 3 {
        "3"
    } else if number == 4 {
        "4"
    } else if number == 5 {
        "5"
    } else if number == 6 {
        "6"
    } else if number == 7 {
        "7"
    } else if number == 8 {
        "8"
    } else {
        "9"
    };
    assert(text@ =~= seq![digit(number as nat)]);
    text
}

/// What the picture shows at a place: the number on that edge of the tile on
/// the field, or a blank while the field is empty.
pub open spec fn glyph(placement: Map<Field, Tile>, field: Field, direction: Direction) -> Seq<char> {
    if placement.contains_key(field) {
        seq![digit(placement[field].edge(direction))]
    } else {
        seq![' ']
    }
}

/// The picture up to and with the piece behind the first `places` numbers.
pub open spec fn picture(placement: Map<Field, Tile>, places: nat) -> Seq<char>
    decreases places,
{
    if places == 0 {
        pieces()[0]
    } else {
        picture(placement, (places - 1) as nat) + glyph(
            placement,
            slots()[places - 1].0,
            slots()[places - 1].1,
        ) + pieces()[places as int]
    }
}

impl Tile {
    /// The tile as text: its three numbers, top, left, right.
    pub open spec fn text(self) -> Seq<char> {
        "Tile("@ + seq![digit(self.top.value())] + " "@ + seq![digit(self.left.value())] + " "@ + seq![
            digit(self.right.value()),
        ] + ")"@
    }

    /// The tile as text.
    pub fn to_string(&self) -> (text: String)
        ensures
            text@ == self.text(),
    {
        String::from_str("Tile(").concat(digit_str(self.top.number())).concat(" ").concat(
            digit_str(self.left.number()),
        ).concat(" ").concat(digit_str(self.right.number())).concat(")")
    }
}

impl Field {
    /// The field as text: its column and its row.
    pub open spec fn text(self) -> Seq<char> {
        "Field("@ + seq![digit(self.column.value())] + " "@ + seq![digit(self.row.value())] + ")"@
    }

    /// The field as text.
    pub fn to_string(&self) -> (text: String)
        ensures
            text@ == self.text(),
    {
        String::from_str("Field(").concat(digit_str(self.column.number())).concat(" ").concat(
            digit_str(self.row.number()),
        ).concat(")")
    }
}

impl Board {
    /// The picture of the board: the hexagon with the three numbers of every
    /// tile in its cell.
    pub fn to_string(&self) -> (text: String)
        ensures
            text@ == picture(self@, 57),
    {
        let piece_table = piece_table();
        let slot_table = slot_table();
        let mut text = String::from_str(piece_table[0]);
        let mut index: usize = 0;
        while index < 57
            invariant
                index <= 57,
                piece_table@.len() == 58,
                forall|k: int| 0 <= k < 58 ==> (#[trigger] piece_table@[k])@ == pieces()[k],
                slot_table@ == slots(),
                slot_table@.len() == 57,
                text@ == picture(self@, index as nat),
            decreases 57 - index,
        {
            let (field, direction) = slot_table[index];
            let number = match self.get(field) {
                Some(tile) => digit_str(tile.number(&direction)),
                None => {
                    proof {
                        reveal_strlit(" ");
                    }
                    assert(" "@ =~= seq![' ']);
                    " "
                },
            };
            text = text.concat(number).concat(piece_table[index + 1]);
            index += 1;
        }
        text
    }
}

} // verus!
