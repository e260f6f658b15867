//! Coordinates and the nineteen cells of the hexagon.

use vstd::prelude::*;
use vstd::string::*;

verus! {

/// A column or row number, 1 to 5.
#[derive(PartialEq, Eq, Structural, Copy, Clone, Hash, Debug)]
pub enum Coordinate {
    C1,
    C2,
    C3,
    C4,
    C5,
}

impl Coordinate {
    /// The number of this coordinate.
    pub open spec fn value(self) -> nat {
        match self {
            Coordinate::C1 => 1,
            Coordinate::C2 => 2,
            Coordinate::C3 => 3,
            Coordinate::C4 => 4,
            Coordinate::C5 => 5,
        }
    }

    /// The coordinate with number `num`, if `num` is between 1 and 5.
    pub fn from_int(num: i32) -> (r: Result<Coordinate, ()>)
        ensures
            r is Ok <==> 1 <= num <= 5,
            r is Ok ==> r->Ok_0.value() == num,
    {
        match num {
            1 => Ok(Coordinate::C1),
            2 => Ok(Coordinate::C2),
            3 => Ok(Coordinate::C3),
            4 => Ok(Coordinate::C4),
            5 => Ok(Coordinate::C5),
            _ => Err(()),
        }
    }

    /// The number of this coordinate.
    pub fn number(self) -> (r: u32)
        ensures
            r == self.value(),
    {
        match self {
            Coordinate::C1 => 1,
            Coordinate::C2 => 2,
            Coordinate::C3 => 3,
            Coordinate::C4 => 4,
            Coordinate::C5 => 5,
        }
    }

    /// The decimal digit of this coordinate.
    pub open spec fn digit(self) -> char {
        match self {
            Coordinate::C1 => '1',
            Coordinate::C2 => '2',
            Coordinate::C3 => '3',
            Coordinate::C4 => '4',
            Coordinate::C5 => '5',
        }
    }

    fn digit_str(self) -> (r: &'static str)
        ensures
            r@ == seq![self.digit()],
    {
        proof {
            reveal_strlit("1");
            reveal_strlit("2");
            reveal_strlit("3");
            reveal_strlit("4");
            reveal_strlit("5");
        }
        let r = match self {
            Coordinate::C1 => "1",
            Coordinate::C2 => "2",
            Coordinate::C3 => "3",
            Coordinate::C4 => "4",
            Coordinate::C5 => "5",
        };
        assert(r@ =~= seq![self.digit()]);
        r
    }
}

/// How many cells a column holds: 3, 4, 5, 4, 3 from the first column to the fifth.
pub open spec fn column_height(column: Coordinate) -> nat {
    match column {
        Coordinate::C1 => 3,
        Coordinate::C2 => 4,
        Coordinate::C3 => 5,
        Coordinate::C4 => 4,
        Coordinate::C5 => 3,
    }
}

/// How many cells lie in the columns before `column`.
pub open spec fn column_offset(column: Coordinate) -> nat {
    match column {
        Coordinate::C1 => 0,
        Coordinate::C2 => 3,
        Coordinate::C3 => 7,
        Coordinate::C4 => 12,
        Coordinate::C5 => 16,
    }
}

/// The number of cells of the hexagon.
pub const FIELD_COUNT: usize = 19;

/// A cell position: a column and a row within it.
#[derive(PartialEq, Eq, Structural, Hash, Clone, Copy, Debug)]
pub struct Field {
    pub column: Coordinate,
    pub row: Coordinate,
}

impl Field {
    /// Whether the pair names one of the nineteen cells: the row must lie
    /// within the height of the column.
    pub open spec fn is_valid(self) -> bool {
        self.row.value() <= column_height(self.column)
    }

    /// The place of a valid field in the column-by-column order of all cells.
    pub open spec fn index(self) -> int {
        column_offset(self.column) + self.row.value() - 1
    }

    /// The text that reports `column` and `row` as an invalid pair.
    pub open spec fn invalid_message(self) -> Seq<char> {
        "invalid coordinates: "@ + seq![self.column.digit()] + ", "@ + seq![self.row.digit()]
    }

    /// Builds the field, or reports the pair as invalid.
    pub fn new(column: Coordinate, row: Coordinate) -> (r: Result<Field, String>)
        ensures
            r is Ok <==> (Field { column, row }).is_valid(),
            r is Ok ==> r->Ok_0 == (Field { column, row }),
            r is Err ==> r->Err_0@ == (Field { column, row }).invalid_message(),
    {
        let field = Field { column, row };
        match field.check() {
            Ok(_) => Ok(field),
            Err(e) => Err(e),
        }
    }

    /// Tests the pair against the column heights.
    pub fn check(&self) -> (r: Result<(), String>)
        ensures
            r is Ok <==> self.is_valid(),
            r is Err ==> r->Err_0@ == self.invalid_message(),
    {
        if self.row.number() > self.column_height() {
            let message = String::from_str("invalid coordinates: ")
                .concat(self.column.digit_str())
                .concat(", ")
                .concat(self.row.digit_str());
            return Err(message);
        }
        Ok(())
    }

    fn column_height(&self) -> (r: u32)
        ensures
            r == column_height(self.column),
    {
        match self.column {
            Coordinate::C1 => 3,
            Coordinate::C2 => 4,
            Coordinate::C3 => 5,
            Coordinate::C4 => 4,
            Coordinate::C5 => 3,
        }
    }

    /// The place of a valid field in the column-by-column order of all cells.
    pub fn position(&self) -> (r: usize)
        ensures
            r == self.index(),
            self.is_valid() ==> r < FIELD_COUNT,
    {
        let offset: usize = match self.column {
            Coordinate::C1 => 0,
            Coordinate::C2 => 3,
            Coordinate::C3 => 7,
            Coordinate::C4 => 12,
            Coordinate::C5 => 16,
        };
        let row: usize = match self.row {
            Coordinate::C1 => 0,
            Coordinate::C2 => 1,
            Coordinate::C3 => 2,
            Coordinate::C4 => 3,
            Coordinate::C5 => 4,
        };
        offset + row
    }
}

} // verus!
