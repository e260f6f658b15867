//! What a placement scores, and the most it can still come to score.
//!
//! Everything here is stated over the placement as a map from fields to tiles,
//! which is the view of a board.

use vstd::prelude::*;
use crate::field::Field;
use crate::lines::{lemma_line_shapes, lines};
use crate::placement::{is_full, lemma_empty_fields_are_the_free_cells};
use crate::tile::{max_number_spec, Direction, Tile};

verus! {

/// The number that `field` contributes to a line read along `direction`:
/// that edge of its tile, or 0 while the field is empty.
pub open spec fn cell_value(placement: Map<Field, Tile>, field: Field, direction: Direction) -> nat {
    if placement.contains_key(field) {
        placement[field].edge(direction)
    } else {
        0
    }
}

/// The numbers of all cells of a line, empty cells counting as 0.
pub open spec fn line_values(placement: Map<Field, Tile>, line: Seq<Field>, direction: Direction) -> Seq<nat> {
    Seq::new(line.len(), |i: int| cell_value(placement, line[i], direction))
}

/// The numbers of those cells of a line that hold a tile.
pub open spec fn placed_values(placement: Map<Field, Tile>, line: Seq<Field>, direction: Direction) -> Seq<nat> {
    line.filter_map(
        |f: Field|
            if placement.contains_key(f) {
                Some(placement[f].edge(direction))
            } else {
                None
            },
    )
}

/// Whether all elements are the same. An empty sequence counts as equal.
pub open spec fn all_equal<T>(values: Seq<T>) -> bool {
    forall|i: int| 0 <= i < values.len() ==> #[trigger] values[i] == values[0]
}

/// What a line scores: its shared number times its length if all of its cells
/// show the same number, else nothing. An empty cell shows 0, so only a
/// completed line scores.
pub open spec fn line_score(placement: Map<Field, Tile>, line: Seq<Field>, direction: Direction) -> nat {
    let values = line_values(placement, line, direction);
    if values.len() > 0 && all_equal(values) {
        values[0] * values.len()
    } else {
        0
    }
}

/// The most that a line can still score: nothing once two of its tiles
/// disagree; the number that its tiles share times its length; and while no
/// tile lies on it, the largest number of the orientation times its length.
pub open spec fn line_max_score(placement: Map<Field, Tile>, line: Seq<Field>, direction: Direction) -> nat {
    let placed = placed_values(placement, line, direction);
    if !all_equal(placed) {
        0
    } else if placed.len() == 0 {
        max_number_spec(direction) * line.len()
    } else {
        placed[0] * line.len()
    }
}

/// The sum of the scores of the given lines.
pub open spec fn lines_score(placement: Map<Field, Tile>, table: Seq<Seq<Field>>, direction: Direction) -> nat
    decreases table.len(),
{
    if table.len() == 0 {
        0
    } else {
        lines_score(placement, table.drop_last(), direction) + line_score(placement, table.last(), direction)
    }
}

/// The sum of the bounds of the given lines.
pub open spec fn lines_max_score(placement: Map<Field, Tile>, table: Seq<Seq<Field>>, direction: Direction) -> nat
    decreases table.len(),
{
    if table.len() == 0 {
        0
    } else {
        lines_max_score(placement, table.drop_last(), direction) + line_max_score(
            placement,
            table.last(),
            direction,
        )
    }
}

/// What the five lines of one orientation score.
pub open spec fn section_score(placement: Map<Field, Tile>, direction: Direction) -> nat {
    lines_score(placement, lines(direction), direction)
}

/// The most that the five lines of one orientation can still score.
pub open spec fn section_max_score(placement: Map<Field, Tile>, direction: Direction) -> nat {
    lines_max_score(placement, lines(direction), direction)
}

/// The score of a placement: the sum over all fifteen lines.
pub open spec fn score(placement: Map<Field, Tile>) -> nat {
    section_score(placement, Direction::Top) + section_score(placement, Direction::Left) + section_score(
        placement,
        Direction::Right,
    )
}

/// The optimistic bound: the sum over all fifteen lines of what each can still score.
pub open spec fn max_score(placement: Map<Field, Tile>) -> nat {
    section_max_score(placement, Direction::Top) + section_max_score(placement, Direction::Left)
        + section_max_score(placement, Direction::Right)
}

/// A line is open while one of its cells is empty and its tiles agree.
pub open spec fn line_open(placement: Map<Field, Tile>, line: Seq<Field>, direction: Direction) -> bool {
    &&& exists|i: int| 0 <= i < line.len() && !placement.contains_key(#[trigger] line[i])
    &&& all_equal(placed_values(placement, line, direction))
}

/// Whether some line of some orientation is open.
pub open spec fn has_open_line(placement: Map<Field, Tile>) -> bool {
    exists|direction: Direction, k: int|
        0 <= k < 5 && #[trigger] line_open(placement, lines(direction)[k], direction)
}

/// The largest bound there is: that of the empty board.
pub open spec fn highest_score() -> nat {
    456
}

/// How many cells the lines of a table have together.
pub open spec fn cells_of(table: Seq<Seq<Field>>) -> nat
    decreases table.len(),
{
    if table.len() == 0 {
        0
    } else {
        cells_of(table.drop_last()) + table.last().len()
    }
}

/// Every edge of a tile shows a number between 1 and the largest of its orientation.
pub proof fn lemma_edge_range(tile: Tile, direction: Direction)
    ensures
        1 <= tile.edge(direction) <= max_number_spec(direction),
        max_number_spec(direction) <= 9,
{
}

/// On a line whose cells all hold a tile, the placed numbers are all the numbers.
pub proof fn lemma_placed_values_of_filled_line(
    placement: Map<Field, Tile>,
    line: Seq<Field>,
    direction: Direction,
)
    requires
        forall|i: int| 0 <= i < line.len() ==> placement.contains_key(#[trigger] line[i]),
    ensures
        placed_values(placement, line, direction) == line_values(placement, line, direction),
    decreases line.len(),
{
    if line.len() > 0 {
        let rest = line.drop_last();
        assert forall|i: int| 0 <= i < rest.len() implies placement.contains_key(#[trigger] rest[i]) by {
            assert(rest[i] == line[i]);
        }
        lemma_placed_values_of_filled_line(placement, rest, direction);
        assert(placement.contains_key(line[line.len() - 1]));
        assert(placed_values(placement, line, direction) =~= line_values(placement, line, direction));
    } else {
        assert(placed_values(placement, line, direction) =~= line_values(placement, line, direction));
    }
}

/// The placed numbers of a line are edges of tiles: each lies between 1 and
/// the largest number of the orientation.
pub proof fn lemma_placed_values_range(placement: Map<Field, Tile>, line: Seq<Field>, direction: Direction)
    ensures
        placed_values(placement, line, direction).len() <= line.len(),
        forall|j: int|
            0 <= j < placed_values(placement, line, direction).len() ==> 1 <= #[trigger] placed_values(
                placement,
                line,
                direction,
            )[j] <= max_number_spec(direction),
    decreases line.len(),
{
    if line.len() > 0 {
        let rest = line.drop_last();
        lemma_placed_values_range(placement, rest, direction);
        let placed = placed_values(placement, line, direction);
        let before = placed_values(placement, rest, direction);
        if placement.contains_key(line.last()) {
            lemma_edge_range(placement[line.last()], direction);
            assert(placed =~= before + seq![placement[line.last()].edge(direction)]);
        } else {
            assert(placed =~= before);
        }
        assert forall|j: int| 0 <= j < placed.len() implies 1 <= #[trigger] placed[j] <= max_number_spec(
            direction,
        ) by {
            if j < before.len() {
                assert(placed[j] == before[j]);
            }
        }
    }
}

/// A line never scores more than it can still score, and that is never more
/// than the largest number of its orientation on every cell. What it scores
/// falls short of what it can still score exactly while the line is open.
pub proof fn lemma_line_bounds(placement: Map<Field, Tile>, line: Seq<Field>, direction: Direction)
    ensures
        line_score(placement, line, direction) <= line_max_score(placement, line, direction),
        line_max_score(placement, line, direction) <= max_number_spec(direction) * line.len(),
        line_score(placement, line, direction) == line_max_score(placement, line, direction) <==> !line_open(
            placement,
            line,
            direction,
        ),
{
    let values = line_values(placement, line, direction);
    let placed = placed_values(placement, line, direction);
    let top = max_number_spec(direction);
    let len = line.len();
    lemma_placed_values_range(placement, line, direction);
    if all_equal(placed) && placed.len() > 0 {
        assert(1 <= placed[0] <= top);
        assert(placed[0] * len <= top * len) by (nonlinear_arith)
            requires
                placed[0] <= top,
        ;
        assert(len > 0 ==> placed[0] * len > 0) by (nonlinear_arith)
            requires
                placed[0] >= 1,
        ;
    }
    assert(len > 0 ==> top * len > 0) by (nonlinear_arith)
        requires
            top >= 7,
    ;
    if forall|i: int| 0 <= i < line.len() ==> placement.contains_key(#[trigger] line[i]) {
        lemma_placed_values_of_filled_line(placement, line, direction);
        assert(placed == values);
        if len == 0 {
            assert(top * len == 0) by (nonlinear_arith)
                requires
                    len == 0,
            ;
        }
    } else {
        let i = choose|i: int| 0 <= i < line.len() && !placement.contains_key(#[trigger] line[i]);
        assert(values[i] == 0);
        if all_equal(values) {
            assert(values[0] == values[i]);
            assert(values[0] * values.len() == 0) by (nonlinear_arith)
                requires
                    values[0] == 0,
            ;
        }
        assert(line_score(placement, line, direction) == 0);
    }
}

/// What holds of every line holds of their sums.
pub proof fn lemma_lines_bounds(placement: Map<Field, Tile>, table: Seq<Seq<Field>>, direction: Direction)
    ensures
        lines_score(placement, table, direction) <= lines_max_score(placement, table, direction),
        lines_max_score(placement, table, direction) <= max_number_spec(direction) * cells_of(table),
        lines_score(placement, table, direction) == lines_max_score(placement, table, direction) <==> forall|
            k: int,
        |
            0 <= k < table.len() ==> !#[trigger] line_open(placement, table[k], direction),
    decreases table.len(),
{
    let top = max_number_spec(direction);
    if table.len() > 0 {
        let rest = table.drop_last();
        lemma_lines_bounds(placement, rest, direction);
        lemma_line_bounds(placement, table.last(), direction);
        assert(top * cells_of(table) == top * cells_of(rest) + top * table.last().len()) by (nonlinear_arith)
            requires
                cells_of(table) == cells_of(rest) + table.last().len(),
        ;
        if forall|k: int| 0 <= k < table.len() ==> !#[trigger] line_open(placement, table[k], direction) {
            assert forall|k: int| 0 <= k < rest.len() implies !#[trigger] line_open(
                placement,
                rest[k],
                direction,
            ) by {
                assert(rest[k] == table[k]);
            }
            assert(!line_open(placement, table[table.len() - 1], direction));
        }
        if lines_score(placement, table, direction) == lines_max_score(placement, table, direction) {
            assert forall|k: int| 0 <= k < table.len() implies !#[trigger] line_open(
                placement,
                table[k],
                direction,
            ) by {
                if k < rest.len() {
                    assert(rest[k] == table[k]);
                }
            }
        }
    } else {
        assert(top * cells_of(table) == 0) by (nonlinear_arith)
            requires
                cells_of(table) == 0,
        ;
    }
}

/// The lines of one orientation cover nineteen cells.
pub proof fn lemma_section_cells(direction: Direction)
    ensures
        cells_of(lines(direction)) == 19,
{
    let table = lines(direction);
    lemma_line_shapes(direction);
    let t4 = table.drop_last();
    let t3 = t4.drop_last();
    let t2 = t3.drop_last();
    let t1 = t2.drop_last();
    let t0 = t1.drop_last();
    assert(t4.last() == table[3]);
    assert(t3.last() == table[2]);
    assert(t2.last() == table[1]);
    assert(t1.last() == table[0]);
    assert(t0.len() == 0);
    assert(cells_of(t0) == 0);
    assert(cells_of(t1) == 3);
    assert(cells_of(t2) == 7);
    assert(cells_of(t3) == 12);
    assert(cells_of(t4) == 16);
}

/// The score never exceeds the optimistic bound, and the bound never exceeds
/// that of the empty board.
pub proof fn lemma_score_at_most_max_score(placement: Map<Field, Tile>)
    ensures
        score(placement) <= max_score(placement),
        max_score(placement) <= highest_score(),
{
    lemma_lines_bounds(placement, lines(Direction::Top), Direction::Top);
    lemma_lines_bounds(placement, lines(Direction::Left), Direction::Left);
    lemma_lines_bounds(placement, lines(Direction::Right), Direction::Right);
    lemma_section_cells(Direction::Top);
    lemma_section_cells(Direction::Left);
    lemma_section_cells(Direction::Right);
}

/// The score meets the optimistic bound exactly when no line is open.
pub proof fn lemma_score_meets_bound_iff_no_line_is_open(placement: Map<Field, Tile>)
    ensures
        score(placement) == max_score(placement) <==> !has_open_line(placement),
{
    lemma_lines_bounds(placement, lines(Direction::Top), Direction::Top);
    lemma_lines_bounds(placement, lines(Direction::Left), Direction::Left);
    lemma_lines_bounds(placement, lines(Direction::Right), Direction::Right);
    lemma_line_shapes(Direction::Top);
    lemma_line_shapes(Direction::Left);
    lemma_line_shapes(Direction::Right);
    if has_open_line(placement) {
        let (direction, k) = choose|direction: Direction, k: int|
            0 <= k < 5 && #[trigger] line_open(placement, lines(direction)[k], direction);
        lemma_lines_bounds(placement, lines(direction), direction);
        assert(section_score(placement, direction) < section_max_score(placement, direction));
    } else {
        assert forall|direction: Direction| #[trigger]
            section_score(placement, direction) == section_max_score(placement, direction) by {
            lemma_lines_bounds(placement, lines(direction), direction);
            lemma_line_shapes(direction);
            assert forall|k: int| 0 <= k < lines(direction).len() implies !#[trigger] line_open(
                placement,
                lines(direction)[k],
                direction,
            ) by {}
        }
    }
}

/// On a full board no line is open.
pub proof fn lemma_full_board_has_no_open_line(placement: Map<Field, Tile>)
    requires
        is_full(placement),
    ensures
        !has_open_line(placement),
{
    lemma_empty_fields_are_the_free_cells(placement);
    assert forall|direction: Direction, k: int| 0 <= k < 5 implies !#[trigger] line_open(
        placement,
        lines(direction)[k],
        direction,
    ) by {
        lemma_line_shapes(direction);
        let line = lines(direction)[k];
        assert forall|i: int| 0 <= i < line.len() implies placement.contains_key(#[trigger] line[i]) by {
            assert(lines(direction)[k][i].is_valid());
        }
    }
}

/// On a full board the score is the optimistic bound.
pub proof fn lemma_full_board_scores_its_bound(placement: Map<Field, Tile>)
    requires
        is_full(placement),
    ensures
        score(placement) == max_score(placement),
{
    lemma_full_board_has_no_open_line(placement);
    lemma_score_meets_bound_iff_no_line_is_open(placement);
}

/// Unless the board has empty cells left while every line with an empty cell
/// holds two tiles that disagree, the score meets the optimistic bound exactly
/// when the board is full.
pub proof fn lemma_score_meets_bound_iff_full(placement: Map<Field, Tile>)
    requires
        is_full(placement) || has_open_line(placement),
    ensures
        score(placement) <= max_score(placement),
        score(placement) == max_score(placement) <==> is_full(placement),
{
    lemma_score_at_most_max_score(placement);
    lemma_score_meets_bound_iff_no_line_is_open(placement);
    if is_full(placement) {
        lemma_full_board_has_no_open_line(placement);
    }
}

proof fn lemma_lines_of_the_empty_board(table: Seq<Seq<Field>>, direction: Direction)
    ensures
        lines_score(Map::<Field, Tile>::empty(), table, direction) == 0,
        lines_max_score(Map::<Field, Tile>::empty(), table, direction) == max_number_spec(direction) * cells_of(
            table,
        ),
    decreases table.len(),
{
    let empty = Map::<Field, Tile>::empty();
    let top = max_number_spec(direction);
    if table.len() > 0 {
        let rest = table.drop_last();
        let line = table.last();
        lemma_lines_of_the_empty_board(rest, direction);
        lemma_placed_values_range(empty, line, direction);
        let placed = placed_values(empty, line, direction);
        assert(placed.len() == 0) by {
            lemma_no_tile_no_placed_value(line, direction);
        }
        let values = line_values(empty, line, direction);
        if values.len() > 0 && all_equal(values) {
            assert(values[0] == 0);
            assert(values[0] * values.len() == 0) by (nonlinear_arith)
                requires
                    values[0] == 0,
            ;
        }
        assert(top * cells_of(table) == top * cells_of(rest) + top * line.len()) by (nonlinear_arith)
            requires
                cells_of(table) == cells_of(rest) + line.len(),
        ;
    } else {
        assert(top * cells_of(table) == 0) by (nonlinear_arith)
            requires
                cells_of(table) == 0,
        ;
    }
}

proof fn lemma_no_tile_no_placed_value(line: Seq<Field>, direction: Direction)
    ensures
        placed_values(Map::<Field, Tile>::empty(), line, direction).len() == 0,
    decreases line.len(),
{
    if line.len() > 0 {
        lemma_no_tile_no_placed_value(line.drop_last(), direction);
    }
}

/// The empty board scores nothing, and its optimistic bound is the largest
/// number of each orientation on all nineteen cells: 19 * (9 + 7 + 8).
pub proof fn lemma_empty_board_scores()
    ensures
        score(Map::<Field, Tile>::empty()) == 0,
        max_score(Map::<Field, Tile>::empty()) == highest_score(),
{
    lemma_lines_of_the_empty_board(lines(Direction::Top), Direction::Top);
    lemma_lines_of_the_empty_board(lines(Direction::Left), Direction::Left);
    lemma_lines_of_the_empty_board(lines(Direction::Right), Direction::Right);
    lemma_section_cells(Direction::Top);
    lemma_section_cells(Direction::Left);
    lemma_section_cells(Direction::Right);
}

/// Whether some tile on the line shows `number` along `direction`.
pub open spec fn line_shows(placement: Map<Field, Tile>, line: Seq<Field>, direction: Direction, number: nat) -> bool {
    exists|i: int|
        0 <= i < line.len() && placement.contains_key(#[trigger] line[i]) && placement[line[i]].edge(direction)
            == number
}

/// The placed numbers of a line are exactly the numbers that its tiles show.
pub proof fn lemma_placed_values_are_what_the_tiles_show(
    placement: Map<Field, Tile>,
    line: Seq<Field>,
    direction: Direction,
)
    ensures
        forall|number: nat| #[trigger]
            placed_values(placement, line, direction).contains(number) <==> line_shows(
                placement,
                line,
                direction,
                number,
            ),
    decreases line.len(),
{
    let placed = placed_values(placement, line, direction);
    if line.len() > 0 {
        let rest = line.drop_last();
        let before = placed_values(placement, rest, direction);
        let last = line.last();
        lemma_placed_values_are_what_the_tiles_show(placement, rest, direction);
        if placement.contains_key(last) {
            assert(placed =~= before + seq![placement[last].edge(direction)]);
        } else {
            assert(placed =~= before);
        }
        assert forall|number: nat| #[trigger] placed.contains(number) <==> line_shows(
            placement,
            line,
            direction,
            number,
        ) by {
            if placed.contains(number) {
                let j = choose|j: int| 0 <= j < placed.len() && placed[j] == number;
                if j < before.len() {
                    assert(before[j] == number);
                    assert(before.contains(number));
                    let i = choose|i: int|
                        0 <= i < rest.len() && placement.contains_key(#[trigger] rest[i])
                            && placement[rest[i]].edge(direction) == number;
                    assert(line[i] == rest[i]);
                } else {
                    assert(line[line.len() - 1] == last);
                }
            }
            if line_shows(placement, line, direction, number) {
                let i = choose|i: int|
                    0 <= i < line.len() && placement.contains_key(#[trigger] line[i])
                        && placement[line[i]].edge(direction) == number;
                if i < rest.len() {
                    assert(rest[i] == line[i]);
                    assert(before.contains(number));
                    let j = choose|j: int| 0 <= j < before.len() && before[j] == number;
                    assert(placed[j] == number);
                } else {
                    assert(placed[placed.len() - 1] == number);
                }
            }
        }
    } else {
        assert forall|number: nat| #[trigger] placed.contains(number) <==> line_shows(
            placement,
            line,
            direction,
            number,
        ) by {}
    }
}

/// With more tiles on the board a line scores no less and can still score no more.
pub proof fn lemma_line_with_more_tiles(
    placement: Map<Field, Tile>,
    later: Map<Field, Tile>,
    line: Seq<Field>,
    direction: Direction,
)
    requires
        placement.submap_of(later),
    ensures
        line_score(placement, line, direction) <= line_score(later, line, direction),
        line_max_score(later, line, direction) <= line_max_score(placement, line, direction),
{
    let placed = placed_values(placement, line, direction);
    let placed_later = placed_values(later, line, direction);
    let top = max_number_spec(direction);
    let len = line.len();
    lemma_placed_values_are_what_the_tiles_show(placement, line, direction);
    lemma_placed_values_are_what_the_tiles_show(later, line, direction);
    lemma_placed_values_range(later, line, direction);
    assert forall|number: nat| placed.contains(number) implies placed_later.contains(number) by {
        assert(line_shows(placement, line, direction, number));
        let i = choose|i: int|
            0 <= i < line.len() && placement.contains_key(#[trigger] line[i]) && placement[line[i]].edge(
                direction,
            ) == number;
        assert(placement.dom().contains(line[i]));
        assert(later.contains_key(line[i]) && later[line[i]] == placement[line[i]]);
        assert(line_shows(later, line, direction, number));
    }
    if !all_equal(placed) {
        let a = choose|a: int| 0 <= a < placed.len() && #[trigger] placed[a] != placed[0];
        assert(placed.contains(placed[a]));
        assert(placed.contains(placed[0]));
        let x = choose|x: int| 0 <= x < placed_later.len() && placed_later[x] == placed[a];
        let y = choose|y: int| 0 <= y < placed_later.len() && placed_later[y] == placed[0];
        assert(placed_later[x] != placed_later[y]);
        assert(!all_equal(placed_later));
    } else if all_equal(placed_later) {
        if placed.len() == 0 {
            if placed_later.len() > 0 {
                assert(placed_later[0] * len <= top * len) by (nonlinear_arith)
                    requires
                        placed_later[0] <= top,
                ;
            }
        } else {
            assert(placed.contains(placed[0]));
            let y = choose|y: int| 0 <= y < placed_later.len() && placed_later[y] == placed[0];
            assert(placed_later[y] == placed_later[0]);
        }
    }
    let values = line_values(placement, line, direction);
    let values_later = line_values(later, line, direction);
    if line_score(placement, line, direction) > 0 {
        assert(values[0] != 0) by (nonlinear_arith)
            requires
                values[0] * values.len() > 0,
        ;
        assert forall|i: int| 0 <= i < line.len() implies values_later[i] == values[i] by {
            assert(values[i] == values[0]);
            assert(placement.dom().contains(line[i]));
        }
        assert(values_later =~= values);
    }
}

proof fn lemma_lines_with_more_tiles(
    placement: Map<Field, Tile>,
    later: Map<Field, Tile>,
    table: Seq<Seq<Field>>,
    direction: Direction,
)
    requires
        placement.submap_of(later),
    ensures
        lines_score(placement, table, direction) <= lines_score(later, table, direction),
        lines_max_score(later, table, direction) <= lines_max_score(placement, table, direction),
    decreases table.len(),
{
    if table.len() > 0 {
        lemma_lines_with_more_tiles(placement, later, table.drop_last(), direction);
        lemma_line_with_more_tiles(placement, later, table.last(), direction);
    }
}

/// The optimistic bound is sound: on a board that holds the same tiles on the
/// same fields and more besides, the score is no smaller, the bound is no
/// larger, and so the score stays at or below the bound of the earlier board.
pub proof fn lemma_later_boards_stay_within_the_bound(placement: Map<Field, Tile>, later: Map<Field, Tile>)
    requires
        placement.submap_of(later),
    ensures
        score(placement) <= score(later),
        max_score(later) <= max_score(placement),
        score(later) <= max_score(placement),
{
    lemma_lines_with_more_tiles(placement, later, lines(Direction::Top), Direction::Top);
    lemma_lines_with_more_tiles(placement, later, lines(Direction::Left), Direction::Left);
    lemma_lines_with_more_tiles(placement, later, lines(Direction::Right), Direction::Right);
    lemma_score_at_most_max_score(later);
}

/// Putting a tile on an empty field never lowers the score and never raises
/// the optimistic bound.
pub proof fn lemma_placing_keeps_within_the_bound(placement: Map<Field, Tile>, field: Field, tile: Tile)
    requires
        !placement.contains_key(field),
    ensures
        score(placement) <= score(placement.insert(field, tile)),
        max_score(placement.insert(field, tile)) <= max_score(placement),
        score(placement.insert(field, tile)) <= max_score(placement),
{
    assert(placement.submap_of(placement.insert(field, tile)));
    lemma_later_boards_stay_within_the_bound(placement, placement.insert(field, tile));
}

} // verus!
