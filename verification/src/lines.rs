//! The fixed topology: the nineteen cells and the fifteen scoring lines.

use vstd::prelude::*;
use crate::field::{Coordinate, Field};
use crate::tile::Direction;

verus! {

/// The coordinate with the given number (1 to 5).
pub open spec fn coordinate(number: int) -> Coordinate {
    if number <= 1 {
        Coordinate::C1
    } else if number == 2 {
        Coordinate::C2
    } else if number == 3 {
        Coordinate::C3
    } else if number == 4 {
        Coordinate::C4
    } else {
        Coordinate::C5
    }
}

/// The field in the given column and row.
pub open spec fn cell(column: int, row: int) -> Field {
    Field { column: coordinate(column), row: coordinate(row) }
}

/// The field in the given column and row.
pub(crate) fn at(column: i32, row: i32) -> (field: Field)
    requires
        1 <= column <= 5,
        1 <= row <= 5,
    ensures
        field == cell(column as int, row as int),
{
    match (Coordinate::from_int(column), Coordinate::from_int(row)) {
        (Ok(column), Ok(row)) => Field { column, row },
        _ => unreached(),
    }
}

/// The nineteen cells, column by column.
pub open spec fn all_fields() -> Seq<Field> {
    seq![
        cell(1, 1), cell(1, 2), cell(1, 3),
        cell(2, 1), cell(2, 2), cell(2, 3), cell(2, 4),
        cell(3, 1), cell(3, 2), cell(3, 3), cell(3, 4), cell(3, 5),
        cell(4, 1), cell(4, 2), cell(4, 3), cell(4, 4),
        cell(5, 1), cell(5, 2), cell(5, 3),
    ]
}

/// The five lines that run from top to bottom: the columns.
pub open spec fn top_lines() -> Seq<Seq<Field>> {
    seq![
        seq![cell(1, 1), cell(1, 2), cell(1, 3)],
        seq![cell(2, 1), cell(2, 2), cell(2, 3), cell(2, 4)],
        seq![cell(3, 1), cell(3, 2), cell(3, 3), cell(3, 4), cell(3, 5)],
        seq![cell(4, 1), cell(4, 2), cell(4, 3), cell(4, 4)],
        seq![cell(5, 1), cell(5, 2), cell(5, 3)],
    ]
}

/// The five lines that run from down left to up right.
pub open spec fn left_lines() -> Seq<Seq<Field>> {
    seq![
        seq![cell(1, 1), cell(2, 1), cell(3, 1)],
        seq![cell(1, 2), cell(2, 2), cell(3, 2), cell(4, 1)],
        seq![cell(1, 3), cell(2, 3), cell(3, 3), cell(4, 2), cell(5, 1)],
        seq![cell(2, 4), cell(3, 4), cell(4, 3), cell(5, 2)],
        seq![cell(3, 5), cell(4, 4), cell(5, 3)],
    ]
}

/// The five lines that run from down right to up left.
pub open spec fn right_lines() -> Seq<Seq<Field>> {
    seq![
        seq![cell(3, 1), cell(4, 1), cell(5, 1)],
        seq![cell(2, 1), cell(3, 2), cell(4, 2), cell(5, 2)],
        seq![cell(1, 1), cell(2, 2), cell(3, 3), cell(4, 3), cell(5, 3)],
        seq![cell(1, 2), cell(2, 3), cell(3, 4), cell(4, 4)],
        seq![cell(1, 3), cell(2, 4), cell(3, 5)],
    ]
}

/// The five lines of one orientation.
pub open spec fn lines(direction: Direction) -> Seq<Seq<Field>> {
    match direction {
        Direction::Top => top_lines(),
        Direction::Left => left_lines(),
        Direction::Right => right_lines(),
    }
}

/// What a table of lines holds, line by line.
pub open spec fn line_views(sections: Seq<Vec<Field>>) -> Seq<Seq<Field>> {
    Seq::new(sections.len(), |k: int| sections[k]@)
}

/// The listed cells are exactly the valid fields, each at the place that its
/// index names.
pub proof fn lemma_all_fields_are_the_valid_fields()
    ensures
        all_fields().len() == 19,
        forall|i: int| 0 <= i < 19 ==> (#[trigger] all_fields()[i]).is_valid() && all_fields()[i].index() == i,
        forall|f: Field| f.is_valid() ==> 0 <= #[trigger] f.index() < 19 && all_fields()[f.index()] == f,
        forall|f: Field| #[trigger] all_fields().contains(f) <==> f.is_valid(),
        all_fields().no_duplicates(),
{
    let s = all_fields();
    assert(s.len() == 19);
    assert forall|i: int| 0 <= i < 19 implies (#[trigger] s[i]).is_valid() && s[i].index() == i by {
        if i < 3 {
        } else if i < 7 {
        } else if i < 12 {
        } else if i < 16 {
        } else {
        }
    }
    assert forall|f: Field| f.is_valid() implies 0 <= #[trigger] f.index() < 19 && s[f.index()] == f by {
        match f.column {
            Coordinate::C1 => {},
            Coordinate::C2 => {},
            Coordinate::C3 => {},
            Coordinate::C4 => {},
            Coordinate::C5 => {},
        }
    }
    assert forall|f: Field| #[trigger] s.contains(f) <==> f.is_valid() by {
        if f.is_valid() {
            assert(s[f.index()] == f);
        }
        if s.contains(f) {
            let i = choose|i: int| 0 <= i < s.len() && s[i] == f;
            assert(s[i].is_valid());
        }
    }
    assert forall|i: int, j: int| 0 <= i < s.len() && 0 <= j < s.len() && i != j implies s[i] != s[j] by {
        assert(s[i].index() == i);
        assert(s[j].index() == j);
    }
}

/// Every orientation has five lines, of 3, 4, 5, 4 and 3 cells, and every
/// cell of a line is a valid field.
pub proof fn lemma_line_shapes(direction: Direction)
    ensures
        lines(direction).len() == 5,
        lines(direction)[0].len() == 3,
        lines(direction)[1].len() == 4,
        lines(direction)[2].len() == 5,
        lines(direction)[3].len() == 4,
        lines(direction)[4].len() == 3,
        forall|k: int, i: int|
            0 <= k < 5 && 0 <= i < lines(direction)[k].len() ==> (#[trigger] lines(direction)[k][i]).is_valid(),
{
    let ls = lines(direction);
    assert(ls.len() == 5);
    assert forall|k: int, i: int| 0 <= k < 5 && 0 <= i < ls[k].len() implies (#[trigger] ls[k][i]).is_valid() by {
        if k == 0 {
        } else if k == 1 {
        } else if k == 2 {
        } else if k == 3 {
        } else {
        }
    }
}

/// Every valid field lies on exactly one line of each orientation.
pub proof fn lemma_lines_partition_the_cells(direction: Direction, field: Field)
    requires
        field.is_valid(),
    ensures
        exists|k: int| 0 <= k < 5 && #[trigger] lines(direction)[k].contains(field),
        forall|k: int, l: int|
            0 <= k < 5 && 0 <= l < 5 && #[trigger] lines(direction)[k].contains(field)
                && #[trigger] lines(direction)[l].contains(field) ==> k == l,
{
    let ls = lines(direction);
    lemma_line_shapes(direction);
    let home = line_of(direction, field);
    let place = place_in_line(direction, field);
    assert(0 <= home < 5 && 0 <= place < ls[home].len() && ls[home][place] == field) by {
        lemma_home_line(direction, field);
    }
    assert(ls[home].contains(field));
    assert forall|k: int, l: int|
        0 <= k < 5 && 0 <= l < 5 && #[trigger] ls[k].contains(field) && #[trigger] ls[l].contains(field) implies k
        == l by {
        lemma_only_home_line(direction, field, k);
        lemma_only_home_line(direction, field, l);
    }
}

/// Which line of the given orientation runs through `field`.
pub open spec fn line_of(direction: Direction, field: Field) -> int {
    let c = field.column.value() as int;
    let r = field.row.value() as int;
    match direction {
        Direction::Top => c - 1,
        Direction::Left => if c <= 3 {
            r - 1
        } else {
            r + c - 4
        },
        Direction::Right => if c >= 3 {
            r - 1
        } else {
            r + 2 - c
        },
    }
}

/// The place of `field` within its line of the given orientation.
pub open spec fn place_in_line(direction: Direction, field: Field) -> int {
    let c = field.column.value() as int;
    let r = field.row.value() as int;
    match direction {
        Direction::Top => r - 1,
        Direction::Left => c - 1 - if line_of(direction, field) == 3 {
            1int
        } else if line_of(direction, field) == 4 {
            2int
        } else {
            0int
        },
        Direction::Right => c - 1 - if line_of(direction, field) == 0 {
            2int
        } else if line_of(direction, field) == 1 {
            1int
        } else {
            0int
        },
    }
}

proof fn lemma_home_line(direction: Direction, field: Field)
    requires
        field.is_valid(),
    ensures
        0 <= line_of(direction, field) < 5,
        0 <= place_in_line(direction, field) < lines(direction)[line_of(direction, field)].len(),
        lines(direction)[line_of(direction, field)][place_in_line(direction, field)] == field,
{
    let ls = lines(direction);
    assert(ls.len() == 5);
    match field.column {
        Coordinate::C1 => {},
        Coordinate::C2 => {},
        Coordinate::C3 => {},
        Coordinate::C4 => {},
        Coordinate::C5 => {},
    }
}

proof fn lemma_only_home_line(direction: Direction, field: Field, k: int)
    requires
        0 <= k < 5,
        lines(direction)[k].contains(field),
    ensures
        k == line_of(direction, field),
{
    let ls = lines(direction);
    let i = choose|i: int| 0 <= i < ls[k].len() && ls[k][i] == field;
    assert(ls[k][i] == field);
    if k == 0 {
    } else if k == 1 {
    } else if k == 2 {
    } else if k == 3 {
    } else {
    }
}

} // verus!
