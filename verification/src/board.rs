//! The board: a partial, injective placement of tiles on the nineteen cells.

use vstd::prelude::*;
use crate::error::GameError;
use crate::field::Field;
use crate::lines::{
    all_fields, at, left_lines, lemma_all_fields_are_the_valid_fields, lemma_line_shapes, line_views, lines,
    right_lines, top_lines,
};
use crate::placement::{
    empty_fields, is_full, is_placement, lemma_filter_take_succ, lemma_place_keeps_placement,
    lemma_placement_counts, remaining_tiles,
};
use crate::reservoir::TileReservoir;
use crate::score::{
    all_equal, cell_value, highest_score, lemma_full_board_scores_its_bound, lemma_score_at_most_max_score,
    line_values, lines_max_score, lines_score, max_score, placed_values, score, section_max_score, section_score,
};
use crate::tile::{all_tiles, max_number, Direction, Tile};

verus! {

/// The tiles placed so far, one slot per cell in column-by-column order, so
/// that a field is looked up by its place and no hashing of fields is needed.
#[derive(Debug)]
pub struct Board {
    cells: [Option<Tile>; 19],
}

/// The placement that a row of slots stands for.
pub open spec fn placement_of(cells: Seq<Option<Tile>>) -> Map<Field, Tile> {
    Map::new(|f: Field| f.is_valid() && cells[f.index()] is Some, |f: Field| cells[f.index()]->0)
}

/// Why a tile cannot be put on a field, if it cannot: the field is no cell,
/// or holds a tile already, or the tile lies elsewhere on the board. The
/// first reason that applies is given.
pub open spec fn place_refusal(placement: Map<Field, Tile>, field: Field, tile: Tile) -> Option<GameError> {
    if !field.is_valid() {
        Some(GameError::InvalidField)
    } else if placement.contains_key(field) {
        Some(GameError::FieldOccupied)
    } else if placement.contains_value(tile) {
        Some(GameError::TileAlreadyUsed)
    } else {
        None
    }
}

/// Whether all elements are the same. An empty list counts as equal.
pub fn all_elements_equal(vec: &Vec<u32>) -> (r: bool)
    ensures
        r == all_equal(vec@),
{
    let mut i: usize = 0;
    while i < vec.len()
        invariant
            i <= vec.len(),
            forall|k: int| 0 <= k < i ==> #[trigger] vec@[k] == vec@[0],
        decreases vec.len() - i,
    {
        if vec[i] != vec[0] {
            return false;
        }
        i += 1;
    }
    true
}

spec fn as_nats(numbers: Seq<u32>) -> Seq<nat> {
    Seq::new(numbers.len(), |i: int| numbers[i] as nat)
}

proof fn lemma_all_equal_as_nats(numbers: Seq<u32>)
    ensures
        all_equal(numbers) == all_equal(as_nats(numbers)),
{
    if all_equal(numbers) {
        assert forall|k: int| 0 <= k < as_nats(numbers).len() implies #[trigger] as_nats(numbers)[k] == as_nats(
            numbers,
        )[0] by {
            assert(numbers[k] == numbers[0]);
        }
    }
    if all_equal(as_nats(numbers)) {
        assert forall|k: int| 0 <= k < numbers.len() implies #[trigger] numbers[k] == numbers[0] by {
            assert(as_nats(numbers)[k] == as_nats(numbers)[0]);
        }
    }
}

impl View for Board {
    type V = Map<Field, Tile>;

    /// The placement as a map from the occupied cells to their tiles.
    closed spec fn view(&self) -> Map<Field, Tile> {
        placement_of(self.cells@)
    }
}

impl Clone for Board {
    fn clone(&self) -> (copy: Self)
        ensures
            copy@ == self@,
    {
        proof {
            use_type_invariant(self);
        }
        Board { cells: self.cells }
    }
}

impl Board {
    /// What holds of every board: its tiles lie on valid fields, no tile on two.
    #[verifier::type_invariant]
    pub open spec fn wf(self) -> bool {
        is_placement(self@)
    }

    /// A board without tiles.
    pub fn new() -> (board: Board)
        ensures
            board@ == Map::<Field, Tile>::empty(),
    {
        let cells: [Option<Tile>; 19] = [None; 19];
        assert(placement_of(cells@) =~= Map::<Field, Tile>::empty());
        Board { cells }
    }

    /// The nineteen cells, column by column.
    pub fn all_fields() -> (fields: Vec<Field>)
        ensures
            fields@ == all_fields(),
    {
        let fields = vec![
            at(1, 1), at(1, 2), at(1, 3),
            at(2, 1), at(2, 2), at(2, 3), at(2, 4),
            at(3, 1), at(3, 2), at(3, 3), at(3, 4), at(3, 5),
            at(4, 1), at(4, 2), at(4, 3), at(4, 4),
            at(5, 1), at(5, 2), at(5, 3),
        ];
        assert(fields@ =~= all_fields());
        fields
    }

    /// The five lines that run from top to bottom.
    pub fn top_score_sections() -> (sections: Vec<Vec<Field>>)
        ensures
            line_views(sections@) == top_lines(),
    {
        let section_top_1 = vec![at(1, 1), at(1, 2), at(1, 3)];
        let section_top_2 = vec![at(2, 1), at(2, 2), at(2, 3), at(2, 4)];
        let section_top_3 = vec![at(3, 1), at(3, 2), at(3, 3), at(3, 4), at(3, 5)];
        let section_top_4 = vec![at(4, 1), at(4, 2), at(4, 3), at(4, 4)];
        let section_top_5 = vec![at(5, 1), at(5, 2), at(5, 3)];
        assert(section_top_1@ =~= top_lines()[0]);
        assert(section_top_2@ =~= top_lines()[1]);
        assert(section_top_3@ =~= top_lines()[2]);
        assert(section_top_4@ =~= top_lines()[3]);
        assert(section_top_5@ =~= top_lines()[4]);
        let sections = vec![section_top_1, section_top_2, section_top_3, section_top_4, section_top_5];
        assert(line_views(sections@) =~= top_lines());
        sections
    }

    /// The five lines that run from down left to up right.
    pub fn left_score_sections() -> (sections: Vec<Vec<Field>>)
        ensures
            line_views(sections@) == left_lines(),
    {
        let section_left_1 = vec![at(1, 1), at(2, 1), at(3, 1)];
        let section_left_2 = vec![at(1, 2), at(2, 2), at(3, 2), at(4, 1)];
        let section_left_3 = vec![at(1, 3), at(2, 3), at(3, 3), at(4, 2), at(5, 1)];
        let section_left_4 = vec![at(2, 4), at(3, 4), at(4, 3), at(5, 2)];
        let section_left_5 = vec![at(3, 5), at(4, 4), at(5, 3)];
        assert(section_left_1@ =~= left_lines()[0]);
        assert(section_left_2@ =~= left_lines()[1]);
        assert(section_left_3@ =~= left_lines()[2]);
        assert(section_left_4@ =~= left_lines()[3]);
        assert(section_left_5@ =~= left_lines()[4]);
        let sections = vec![section_left_1, section_left_2, section_left_3, section_left_4, section_left_5];
        assert(line_views(sections@) =~= left_lines());
        sections
    }

    /// The five lines that run from down right to up left.
    pub fn right_score_sections() -> (sections: Vec<Vec<Field>>)
        ensures
            line_views(sections@) == right_lines(),
    {
        let section1 = vec![at(3, 1), at(4, 1), at(5, 1)];
        let section2 = vec![at(2, 1), at(3, 2), at(4, 2), at(5, 2)];
        let section3 = vec![at(1, 1), at(2, 2), at(3, 3), at(4, 3), at(5, 3)];
        let section4 = vec![at(1, 2), at(2, 3), at(3, 4), at(4, 4)];
        let section5 = vec![at(1, 3), at(2, 4), at(3, 5)];
        assert(section1@ =~= right_lines()[0]);
        assert(section2@ =~= right_lines()[1]);
        assert(section3@ =~= right_lines()[2]);
        assert(section4@ =~= right_lines()[3]);
        assert(section5@ =~= right_lines()[4]);
        let sections = vec![section1, section2, section3, section4, section5];
        assert(line_views(sections@) =~= right_lines());
        sections
    }

    /// The five lines of one orientation.
    pub fn score_sections(direction: &Direction) -> (sections: Vec<Vec<Field>>)
        ensures
            line_views(sections@) == lines(*direction),
    {
        match direction {
            Direction::Top => Board::top_score_sections(),
            Direction::Left => Board::left_score_sections(),
            Direction::Right => Board::right_score_sections(),
        }
    }

    /// The tile on `field`, if the field is a cell that holds one.
    pub fn get(&self, field: Field) -> (tile: Option<Tile>)
        ensures
            tile == (if self@.contains_key(field) {
                Some(self@[field])
            } else {
                None
            }),
    {
        if field.check().is_ok() {
            self.cells[field.position()]
        } else {
            None
        }
    }

    /// How many tiles lie on the board.
    pub fn len(&self) -> (count: usize)
        ensures
            count == self@.len(),
            count <= 19,
    {
        let empty = self.empty_fields();
        19 - empty.len()
    }

    /// Whether no tile lies on the board.
    pub fn is_empty(&self) -> (r: bool)
        ensures
            r == (self@.len() == 0),
    {
        self.len() == 0
    }

    /// Whether `tile` lies on some field.
    pub fn holds(&self, tile: &Tile) -> (r: bool)
        ensures
            r == self@.contains_value(*tile),
    {
        let mut i: usize = 0;
        while i < 19
            invariant
                i <= 19,
                forall|k: int| 0 <= k < i ==> #[trigger] self.cells@[k] != Some(*tile),
            decreases 19 - i,
        {
            if self.cells[i] == Some(*tile) {
                proof {
                    lemma_all_fields_are_the_valid_fields();
                    let f = all_fields()[i as int];
                    assert(self@.contains_key(f) && self@[f] == *tile);
                }
                return true;
            }
            i += 1;
        }
        proof {
            lemma_all_fields_are_the_valid_fields();
            if self@.contains_value(*tile) {
                let f = choose|f: Field| self@.contains_key(f) && self@[f] == *tile;
                assert(self.cells@[f.index()] == Some(*tile));
            }
        }
        false
    }

    /// The tiles of the universe that lie on no field, in the order of the universe.
    pub fn remaining_tiles(&self) -> (tiles: Vec<Tile>)
        ensures
            tiles@ == remaining_tiles(self@),
            tiles@.len() + self@.len() == 27,
            tiles@.len() >= 8,
    {
        let universe = TileReservoir::all_tiles();
        let mut tiles: Vec<Tile> = Vec::new();
        let mut i: usize = 0;
        while i < universe.len()
            invariant
                i <= universe.len(),
                universe@ == all_tiles(),
                tiles@ == all_tiles().take(i as int).filter(|t: Tile| !self@.contains_value(t)),
            decreases universe.len() - i,
        {
            let tile = universe[i];
            proof {
                lemma_filter_take_succ(all_tiles(), |t: Tile| !self@.contains_value(t), i as int);
            }
            if !self.holds(&tile) {
                tiles.push(tile);
            }
            i += 1;
        }
        proof {
            use_type_invariant(self);
            assert(all_tiles().take(universe.len() as int) =~= all_tiles());
            lemma_placement_counts(self@);
        }
        tiles
    }

    /// The valid fields that hold no tile, column by column.
    pub fn empty_fields(&self) -> (fields: Vec<Field>)
        ensures
            fields@ == empty_fields(self@),
            fields@.len() + self@.len() == 19,
    {
        let all = Board::all_fields();
        let mut fields: Vec<Field> = Vec::new();
        let mut i: usize = 0;
        while i < all.len()
            invariant
                i <= all.len(),
                all@ == all_fields(),
                fields@ == all_fields().take(i as int).filter(|f: Field| !self@.contains_key(f)),
            decreases all.len() - i,
        {
            let field = all[i];
            proof {
                lemma_filter_take_succ(all_fields(), |f: Field| !self@.contains_key(f), i as int);
            }
            if self.get(field).is_none() {
                fields.push(field);
            }
            i += 1;
        }
        proof {
            use_type_invariant(self);
            assert(all_fields().take(all.len() as int) =~= all_fields());
            lemma_placement_counts(self@);
        }
        fields
    }

    /// Whether every cell holds a tile.
    pub fn is_full(&self) -> (r: bool)
        ensures
            r == is_full(self@),
            r == (self@.len() == 19),
    {
        self.empty_fields().len() == 0
    }

    /// Puts `tile` on `field`, unless the field is no cell, the field holds a
    /// tile already or the tile lies elsewhere on the board. A refused request
    /// leaves the board as it was.
    pub fn place_tile(&mut self, field: Field, tile: Tile) -> (r: Result<(), GameError>)
        ensures
            r == (match place_refusal(old(self)@, field, tile) {
                Some(e) => Err::<(), GameError>(e),
                None => Ok::<(), GameError>(()),
            }),
            final(self)@ == (if r is Ok {
                old(self)@.insert(field, tile)
            } else {
                old(self)@
            }),
    {
        proof {
            use_type_invariant(&*self);
        }
        if field.check().is_err() {
            return Err(GameError::InvalidField);
        }
        let slot = field.position();
        if self.cells[slot].is_some() {
            return Err(GameError::FieldOccupied);
        }
        if self.holds(&tile) {
            return Err(GameError::TileAlreadyUsed);
        }
        let mut cells = self.cells;
        cells[slot] = Some(tile);
        proof {
            lemma_all_fields_are_the_valid_fields();
            assert(placement_of(cells@) =~= self@.insert(field, tile)) by {
                assert forall|f: Field| f.is_valid() && f != field implies f.index() != field.index() by {
                    assert(all_fields()[f.index()] == f);
                    assert(all_fields()[field.index()] == field);
                }
            }
            lemma_place_keeps_placement(self@, field, tile);
        }
        self.cells = cells;
        Ok(())
    }

    /// A copy of the board with `tile` put on `field`, under the conditions
    /// of `place_tile`. The board itself stays as it is.
    pub fn place_tile_on_new_board(&self, field: Field, tile: Tile) -> (r: Result<Board, GameError>)
        ensures
            match place_refusal(self@, field, tile) {
                Some(e) => r == Err::<Board, GameError>(e),
                None => r is Ok && r->Ok_0@ == self@.insert(field, tile),
            },
    {
        let mut new_board: Board = self.clone();
        match new_board.place_tile(field, tile) {
            Ok(()) => Ok(new_board),
            Err(e) => Err(e),
        }
    }

    /// The numbers that the cells of a line show along `direction`, 0 for an empty cell.
    fn line_numbers(&self, section: &Vec<Field>, direction: &Direction) -> (numbers: Vec<u32>)
        ensures
            as_nats(numbers@) == line_values(self@, section@, *direction),
            forall|i: int| 0 <= i < numbers@.len() ==> #[trigger] numbers@[i] <= 9,
    {
        let mut numbers: Vec<u32> = Vec::new();
        let mut i: usize = 0;
        while i < section.len()
            invariant
                i <= section.len(),
                numbers@.len() == i,
                forall|k: int| 0 <= k < i ==> #[trigger] numbers@[k] == cell_value(self@, section@[k], *direction),
                forall|k: int| 0 <= k < i ==> #[trigger] numbers@[k] <= 9,
            decreases section.len() - i,
        {
            let number = match self.get(section[i]) {
                Some(tile) => tile.number(direction),
                None => 0,
            };
            numbers.push(number);
            i += 1;
        }
        assert(as_nats(numbers@) =~= line_values(self@, section@, *direction));
        numbers
    }

    /// The numbers that the tiles on a line show along `direction`.
    fn placed_numbers(&self, section: &Vec<Field>, direction: &Direction) -> (numbers: Vec<u32>)
        ensures
            as_nats(numbers@) == placed_values(self@, section@, *direction),
            forall|i: int| 0 <= i < numbers@.len() ==> #[trigger] numbers@[i] <= 9,
    {
        let ghost pick = |f: Field|
            if self@.contains_key(f) {
                Some(self@[f].edge(*direction))
            } else {
                None
            };
        let mut numbers: Vec<u32> = Vec::new();
        let mut i: usize = 0;
        assert(section@.take(0).filter_map(pick) =~= Seq::<nat>::empty());
        while i < section.len()
            invariant
                i <= section.len(),
                pick == |f: Field|
                    if self@.contains_key(f) {
                        Some(self@[f].edge(*direction))
                    } else {
                        None
                    },
                as_nats(numbers@) =~= section@.take(i as int).filter_map(pick),
                forall|k: int| 0 <= k < numbers@.len() ==> #[trigger] numbers@[k] <= 9,
            decreases section.len() - i,
        {
            proof {
                section@.lemma_filter_map_take_succ(pick, i as int);
            }
            let ghost before = numbers@;
            match self.get(section[i]) {
                Some(tile) => {
                    let number = tile.number(direction);
                    numbers.push(number);
                    assert(as_nats(numbers@) =~= as_nats(before) + seq![number as nat]);
                },
                None => {},
            }
            i += 1;
        }
        assert(section@.take(section.len() as int) =~= section@);
        numbers
    }

    /// What the five lines of one orientation score.
    pub fn section_score(&self, direction: &Direction) -> (total: u32)
        ensures
            total == section_score(self@, *direction),
            total <= 225,
    {
        let sections = Board::score_sections(direction);
        let mut total: u32 = 0;
        let mut k: usize = 0;
        proof {
            lemma_line_shapes(*direction);
            assert(sections@.len() == line_views(sections@).len());
        }
        while k < sections.len()
            invariant
                k <= sections.len(),
                sections@.len() == 5,
                line_views(sections@) == lines(*direction),
                total == lines_score(self@, lines(*direction).take(k as int), *direction),
                total <= 45 * k,
            decreases sections.len() - k,
        {
            let section = &sections[k];
            let numbers = self.line_numbers(section, direction);
            proof {
                lemma_line_shapes(*direction);
                let table = lines(*direction);
                assert(section@ == line_views(sections@)[k as int]);
                assert(table.take(k + 1).drop_last() =~= table.take(k as int));
                assert(table.take(k + 1).last() == table[k as int]);
                assert(numbers@.len() == as_nats(numbers@).len());
                assert(numbers@.len() <= 5);
                lemma_all_equal_as_nats(numbers@);
            }
            if numbers.len() > 0 && all_elements_equal(&numbers) {
                assert(numbers@[0] <= 9);
                assert(as_nats(numbers@)[0] == numbers@[0]);
                assert(numbers@[0] * numbers@.len() <= 45) by (nonlinear_arith)
                    requires
                        numbers@[0] <= 9,
                        numbers@.len() <= 5,
                ;
                total += numbers[0] * (numbers.len() as u32);
            }
            k += 1;
        }
        assert(lines(*direction).take(5) =~= lines(*direction));
        total
    }

    /// The score: the sum over all fifteen lines of what each line scores.
    pub fn score(&self) -> (total: u32)
        ensures
            total == score(self@),
            total <= max_score(self@),
    {
        proof {
            lemma_score_at_most_max_score(self@);
        }
        self.section_score(&Direction::Top) + self.section_score(&Direction::Left) + self.section_score(
            &Direction::Right,
        )
    }

    /// The most that the five lines of one orientation can still score.
    pub fn section_max_score(&self, direction: &Direction) -> (total: u32)
        ensures
            total == section_max_score(self@, *direction),
            total <= 225,
    {
        let sections = Board::score_sections(direction);
        let mut total: u32 = 0;
        let mut k: usize = 0;
        proof {
            lemma_line_shapes(*direction);
            assert(sections@.len() == line_views(sections@).len());
        }
        while k < sections.len()
            invariant
                k <= sections.len(),
                sections@.len() == 5,
                line_views(sections@) == lines(*direction),
                total == lines_max_score(self@, lines(*direction).take(k as int), *direction),
                total <= 45 * k,
            decreases sections.len() - k,
        {
            let section = &sections[k];
            let placed = self.placed_numbers(section, direction);
            proof {
                lemma_line_shapes(*direction);
                let table = lines(*direction);
                assert(section@ == line_views(sections@)[k as int]);
                assert(table.take(k + 1).drop_last() =~= table.take(k as int));
                assert(table.take(k + 1).last() == table[k as int]);
                assert(placed@.len() == as_nats(placed@).len());
                assert(section@.len() <= 5);
                lemma_all_equal_as_nats(placed@);
            }
            if all_elements_equal(&placed) {
                let number = if placed.len() == 0 {
                    max_number(direction)
                } else {
                    assert(as_nats(placed@)[0] == placed@[0]);
                    placed[0]
                };
                assert(number * section@.len() <= 45) by (nonlinear_arith)
                    requires
                        number <= 9,
                        section@.len() <= 5,
                ;
                total += number * (section.len() as u32);
            }
            k += 1;
        }
        assert(lines(*direction).take(5) =~= lines(*direction));
        total
    }

    /// The optimistic bound: the sum over all fifteen lines of what each can still score.
    pub fn max_score(&self) -> (total: u32)
        ensures
            total == max_score(self@),
            score(self@) <= total <= highest_score(),
            is_full(self@) ==> total == score(self@),
    {
        proof {
            lemma_score_at_most_max_score(self@);
            if is_full(self@) {
                lemma_full_board_scores_its_bound(self@);
            }
        }
        self.section_max_score(&Direction::Top) + self.section_max_score(&Direction::Left)
            + self.section_max_score(&Direction::Right)
    }
}

} // verus!
