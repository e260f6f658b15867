//! The search: a depth-limited expectimax over the tiles that may still be
//! drawn and the fields on which they may be put.
//!
//! The expected score of a position is a fraction. It is computed exactly, as
//! a numerator over a denominator that depends only on how many fields are
//! empty, how many tiles remain and how deep the search goes.

use vstd::prelude::*;
use crate::board::Board;
use crate::error::GameError;
use crate::field::Field;
use crate::game::{is_game_state, Game};
use crate::placement::{
    empty_fields, is_full, is_placement, lemma_empty_fields_are_the_free_cells, lemma_place_keeps_placement,
    lemma_placement_counts, lemma_remaining_tiles_complement_the_board, remaining_tiles,
};
use crate::score::{
    highest_score, lemma_full_board_scores_its_bound, lemma_placing_keeps_within_the_bound,
    lemma_score_at_most_max_score, max_score, score,
};
use crate::tile::Tile;

verus! {

/// The search engine. It holds no state.
pub struct AI {}

/// An expected score as an exact fraction. The fraction is kept as the search
/// builds it, not in lowest terms: two estimates are equal when their
/// numerators are and their denominators are.
#[derive(Clone, Copy, PartialEq, Eq, Structural, Debug)]
pub struct Estimate {
    pub numerator: u128,
    pub denominator: u128,
}

/// How deep a search goes that is asked for `iterations` levels. A negative
/// number asks for a search to the end of the game, which nineteen levels reach.
pub open spec fn search_depth(iterations: int) -> nat {
    if iterations < 0 {
        19
    } else {
        iterations as nat
    }
}

/// The value of a position that is searched no further: its score once the
/// board is full, and the optimistic bound in place of the true expectation
/// before that.
pub open spec fn eval_position(placement: Map<Field, Tile>) -> nat {
    if is_full(placement) {
        score(placement)
    } else {
        max_score(placement)
    }
}

/// The denominator of the expected score: 1 where the search stops, and
/// else the number of tiles that may be drawn times the denominator one level
/// down, where a field and a tile less are left.
pub open spec fn estimate_denominator(empty: nat, unused: nat, depth: nat) -> nat
    decreases depth,
{
    if depth == 0 || empty == 0 {
        1
    } else {
        unused * estimate_denominator((empty - 1) as nat, (unused - 1) as nat, (depth - 1) as nat)
    }
}

/// The denominator of the expected score of a position searched `depth` levels deep.
pub open spec fn denominator_of(placement: Map<Field, Tile>, depth: nat) -> nat {
    estimate_denominator(empty_fields(placement).len(), remaining_tiles(placement).len(), depth)
}

/// The numerator of the expected score of a position searched `depth` levels
/// deep, over `denominator_of`. Where the search stops, at depth 0 or on a
/// full board, it is the value of the position. Else every remaining tile is
/// taken as the next one, each as likely as the other, and put on the field
/// that is best for it: the numerator is the sum over the tiles of the best
/// numerator one level down, and the denominator grows by the number of tiles,
/// which makes the fraction the mean.
pub open spec fn estimate_numerator(placement: Map<Field, Tile>, depth: nat) -> nat
    decreases depth, 2nat, 0nat,
{
    if depth == 0 || is_full(placement) {
        eval_position(placement)
    } else {
        sum_of_best(placement, remaining_tiles(placement), depth)
    }
}

/// The sum, over the given tiles, of what each is worth on its best field.
pub open spec fn sum_of_best(placement: Map<Field, Tile>, tiles: Seq<Tile>, depth: nat) -> nat
    decreases depth, 1nat, tiles.len(),
{
    if tiles.len() == 0 {
        0
    } else {
        sum_of_best(placement, tiles.drop_last(), depth) + best_of(
            placement,
            empty_fields(placement),
            tiles.last(),
            depth,
        )
    }
}

/// The largest numerator, one level down, that putting `tile` on one of the
/// given fields leads to.
pub open spec fn best_of(placement: Map<Field, Tile>, fields: Seq<Field>, tile: Tile, depth: nat) -> nat
    decreases depth, 0nat, fields.len(),
{
    if fields.len() == 0 || depth == 0 {
        0
    } else {
        let before = best_of(placement, fields.drop_last(), tile, depth);
        let here = estimate_numerator(placement.insert(fields.last(), tile), (depth - 1) as nat);
        if here > before {
            here
        } else {
            before
        }
    }
}

/// Whether `index` is the first place that holds the largest score.
pub open spec fn is_first_best(scores: Seq<(Field, u128)>, index: int) -> bool {
    &&& 0 <= index < scores.len()
    &&& forall|j: int| 0 <= j < scores.len() ==> (#[trigger] scores[j]).1 <= scores[index].1
    &&& forall|j: int| 0 <= j < index ==> (#[trigger] scores[j]).1 < scores[index].1
}

/// The expected score, searched `depth` levels deep, of the position that
/// putting `tile` on `field` leads to.
pub open spec fn rating(placement: Map<Field, Tile>, field: Field, tile: Tile, depth: nat) -> Estimate {
    Estimate {
        numerator: estimate_numerator(placement.insert(field, tile), depth) as u128,
        denominator: denominator_of(placement.insert(field, tile), depth) as u128,
    }
}

/// The rating of every empty field for `tile`, in the order of the empty fields.
pub open spec fn ratings(placement: Map<Field, Tile>, tile: Tile, depth: nat) -> Seq<(Field, Estimate)> {
    Seq::new(
        empty_fields(placement).len(),
        |k: int| (empty_fields(placement)[k], rating(placement, empty_fields(placement)[k], tile, depth)),
    )
}

/// The fields of a list of ratings with the numerators of their estimates.
pub open spec fn numerators(rated: Seq<(Field, Estimate)>) -> Seq<(Field, u128)> {
    Seq::new(rated.len(), |k: int| (rated[k].0, rated[k].1.numerator))
}

/// The field on which the engine puts `tile`: the first of the empty fields
/// with the largest rating for it.
pub open spec fn engine_choice(placement: Map<Field, Tile>, tile: Tile, depth: nat) -> Field {
    let rated = ratings(placement, tile, depth);
    rated[choose|index: int| is_first_best(numerators(rated), index)].0
}

/// The board that the engine makes of the tiles drawn, from the empty board
/// on: each tile in turn goes on the field of the engine's choice.
pub open spec fn played(draws: Seq<Tile>, depth: nat) -> Map<Field, Tile>
    decreases draws.len(),
{
    if draws.len() == 0 {
        Map::empty()
    } else {
        let before = played(draws.drop_last(), depth);
        before.insert(engine_choice(before, draws.last(), depth), draws.last())
    }
}

/// Nineteen factors of twenty-seven: no denominator is larger.
pub open spec fn denominator_limit() -> nat {
    1570042899082081611640534563
}

spec fn power_of_27(exponent: nat) -> nat
    decreases exponent,
{
    if exponent == 0 {
        1
    } else {
        27 * power_of_27((exponent - 1) as nat)
    }
}

proof fn lemma_power_of_27_limit(exponent: nat)
    requires
        exponent <= 19,
    ensures
        1 <= power_of_27(exponent) <= denominator_limit(),
{
    reveal_with_fuel(power_of_27, 20);
}

/// A denominator is at least 1 and at most `denominator_limit`.
pub proof fn lemma_denominator_limit(empty: nat, unused: nat, depth: nat)
    requires
        empty <= 19,
        empty <= unused <= 27,
    ensures
        1 <= estimate_denominator(empty, unused, depth) <= denominator_limit(),
{
    lemma_denominator_power(empty, unused, depth);
}

proof fn lemma_denominator_power(empty: nat, unused: nat, depth: nat)
    requires
        empty <= 19,
        empty <= unused <= 27,
    ensures
        1 <= estimate_denominator(empty, unused, depth) <= power_of_27(empty) <= denominator_limit(),
    decreases depth,
{
    lemma_power_of_27_limit(empty);
    if depth != 0 && empty != 0 {
        let below = estimate_denominator((empty - 1) as nat, (unused - 1) as nat, (depth - 1) as nat);
        lemma_denominator_power((empty - 1) as nat, (unused - 1) as nat, (depth - 1) as nat);
        let cap = power_of_27((empty - 1) as nat);
        assert(1 <= unused * below <= 27 * cap) by (nonlinear_arith)
            requires
                1 <= unused <= 27,
                1 <= below <= cap,
        ;
    }
}

/// Only one place is the first that holds the largest score.
pub proof fn lemma_first_best_is_unique(scores: Seq<(Field, u128)>, one: int, other: int)
    requires
        is_first_best(scores, one),
        is_first_best(scores, other),
    ensures
        one == other,
{
    if one < other {
        assert(scores[one].1 < scores[other].1);
        assert(scores[other].1 <= scores[one].1);
    } else if other < one {
        assert(scores[other].1 < scores[one].1);
        assert(scores[one].1 <= scores[other].1);
    }
}

/// A search of no depth returns the value of the position as it stands.
pub proof fn lemma_depth_zero_is_the_leaf_value(placement: Map<Field, Tile>)
    ensures
        estimate_numerator(placement, 0) == eval_position(placement),
        denominator_of(placement, 0) == 1,
{
}

/// On a full board a search of any depth returns the score.
pub proof fn lemma_full_board_is_worth_its_score(placement: Map<Field, Tile>, depth: nat)
    requires
        is_full(placement),
    ensures
        estimate_numerator(placement, depth) == score(placement),
        denominator_of(placement, depth) == 1,
{
}

/// The fields after which the search goes on from a position all lead to the
/// same denominator, so that the larger numerator is the larger expectation
/// and the sum of the best numerators over the number of tiles is the mean.
pub proof fn lemma_next_positions_share_the_denominator(
    placement: Map<Field, Tile>,
    field: Field,
    tile: Tile,
    depth: nat,
)
    requires
        is_placement(placement),
        empty_fields(placement).contains(field),
        remaining_tiles(placement).contains(tile),
        depth > 0,
    ensures
        is_placement(placement.insert(field, tile)),
        denominator_of(placement, depth) == remaining_tiles(placement).len() * denominator_of(
            placement.insert(field, tile),
            (depth - 1) as nat,
        ),
{
    lemma_empty_fields_are_the_free_cells(placement);
    lemma_remaining_tiles_complement_the_board(placement);
    lemma_place_keeps_placement(placement, field, tile);
}

/// An expected score lies between the score of the position and its
/// optimistic bound: whatever is drawn and wherever it is put, the score does
/// not fall and does not pass the bound.
pub proof fn lemma_estimate_between_score_and_bound(placement: Map<Field, Tile>, depth: nat)
    requires
        is_placement(placement),
    ensures
        score(placement) * denominator_of(placement, depth) <= estimate_numerator(placement, depth),
        estimate_numerator(placement, depth) <= max_score(placement) * denominator_of(placement, depth),
    decreases depth, 2nat, 0nat,
{
    lemma_score_at_most_max_score(placement);
    if depth == 0 || is_full(placement) {
        if is_full(placement) {
            lemma_full_board_scores_its_bound(placement);
        }
        assert(denominator_of(placement, depth) == 1);
        assert(score(placement) * 1 == score(placement) && max_score(placement) * 1 == max_score(placement));
    } else {
        let tiles = remaining_tiles(placement);
        lemma_remaining_tiles_complement_the_board(placement);
        assert forall|i: int| 0 <= i < tiles.len() implies !placement.contains_value(#[trigger] tiles[i]) by {
            assert(tiles.contains(tiles[i]));
        }
        lemma_sum_of_best_limits(placement, tiles, depth);
        lemma_placement_counts(placement);
        let below = estimate_denominator(
            (empty_fields(placement).len() - 1) as nat,
            (tiles.len() - 1) as nat,
            (depth - 1) as nat,
        );
        let count = tiles.len();
        assert(score(placement) * below * count == score(placement) * (count * below)) by (nonlinear_arith);
        assert(max_score(placement) * below * count == max_score(placement) * (count * below))
            by (nonlinear_arith);
    }
}

/// An expected score never exceeds the largest bound there is.
pub proof fn lemma_estimate_at_most_highest_score(placement: Map<Field, Tile>, depth: nat)
    requires
        is_placement(placement),
    ensures
        estimate_numerator(placement, depth) <= highest_score() * denominator_of(placement, depth),
{
    lemma_estimate_between_score_and_bound(placement, depth);
    lemma_score_at_most_max_score(placement);
    assert(max_score(placement) * denominator_of(placement, depth) <= highest_score() * denominator_of(
        placement,
        depth,
    )) by (nonlinear_arith)
        requires
            max_score(placement) <= highest_score(),
    ;
}

proof fn lemma_sum_of_best_limits(placement: Map<Field, Tile>, tiles: Seq<Tile>, depth: nat)
    requires
        is_placement(placement),
        depth > 0,
        !is_full(placement),
        forall|i: int| 0 <= i < tiles.len() ==> !placement.contains_value(#[trigger] tiles[i]),
    ensures
        score(placement) * estimate_denominator(
            (empty_fields(placement).len() - 1) as nat,
            (remaining_tiles(placement).len() - 1) as nat,
            (depth - 1) as nat,
        ) * tiles.len() <= sum_of_best(placement, tiles, depth),
        sum_of_best(placement, tiles, depth) <= max_score(placement) * estimate_denominator(
            (empty_fields(placement).len() - 1) as nat,
            (remaining_tiles(placement).len() - 1) as nat,
            (depth - 1) as nat,
        ) * tiles.len(),
    decreases depth, 1nat, tiles.len(),
{
    let below = estimate_denominator(
        (empty_fields(placement).len() - 1) as nat,
        (remaining_tiles(placement).len() - 1) as nat,
        (depth - 1) as nat,
    );
    let low = score(placement) * below;
    let high = max_score(placement) * below;
    if tiles.len() > 0 {
        let rest = tiles.drop_last();
        assert forall|i: int| 0 <= i < rest.len() implies !placement.contains_value(#[trigger] rest[i]) by {
            assert(rest[i] == tiles[i]);
        }
        lemma_sum_of_best_limits(placement, rest, depth);
        assert(!placement.contains_value(tiles[tiles.len() - 1]));
        lemma_empty_fields_are_the_free_cells(placement);
        let free = empty_fields(placement);
        assert forall|i: int| 0 <= i < free.len() implies (#[trigger] free[i]).is_valid()
            && !placement.contains_key(free[i]) by {
            assert(free.contains(free[i]));
        }
        lemma_best_of_limits(placement, free, tiles.last(), depth);
        assert(low * rest.len() + low == low * tiles.len() && high * rest.len() + high == high * tiles.len())
            by (nonlinear_arith)
            requires
                rest.len() + 1 == tiles.len(),
        ;
    } else {
        assert(low * tiles.len() == 0 && high * tiles.len() == 0) by (nonlinear_arith)
            requires
                tiles.len() == 0,
        ;
    }
}

proof fn lemma_best_of_limits(placement: Map<Field, Tile>, fields: Seq<Field>, tile: Tile, depth: nat)
    requires
        is_placement(placement),
        depth > 0,
        !placement.contains_value(tile),
        forall|i: int|
            0 <= i < fields.len() ==> (#[trigger] fields[i]).is_valid() && !placement.contains_key(fields[i]),
    ensures
        fields.len() > 0 ==> score(placement) * estimate_denominator(
            (empty_fields(placement).len() - 1) as nat,
            (remaining_tiles(placement).len() - 1) as nat,
            (depth - 1) as nat,
        ) <= best_of(placement, fields, tile, depth),
        best_of(placement, fields, tile, depth) <= max_score(placement) * estimate_denominator(
            (empty_fields(placement).len() - 1) as nat,
            (remaining_tiles(placement).len() - 1) as nat,
            (depth - 1) as nat,
        ),
    decreases depth, 0nat, fields.len(),
{
    let below = estimate_denominator(
        (empty_fields(placement).len() - 1) as nat,
        (remaining_tiles(placement).len() - 1) as nat,
        (depth - 1) as nat,
    );
    if fields.len() > 0 {
        let rest = fields.drop_last();
        assert forall|i: int| 0 <= i < rest.len() implies (#[trigger] rest[i]).is_valid()
            && !placement.contains_key(rest[i]) by {
            assert(rest[i] == fields[i]);
        }
        lemma_best_of_limits(placement, rest, tile, depth);
        let field = fields[fields.len() - 1];
        assert(field.is_valid() && !placement.contains_key(field));
        let next = placement.insert(field, tile);
        lemma_place_keeps_placement(placement, field, tile);
        lemma_placing_keeps_within_the_bound(placement, field, tile);
        lemma_estimate_between_score_and_bound(next, (depth - 1) as nat);
        assert(denominator_of(next, (depth - 1) as nat) == below);
        assert(score(placement) * below <= score(next) * below && max_score(next) * below <= max_score(
            placement,
        ) * below) by (nonlinear_arith)
            requires
                score(placement) <= score(next),
                max_score(next) <= max_score(placement),
        ;
    }
}

/// The field with the largest score; among several with the largest score,
/// the one listed first. Without candidates there is no best field.
pub fn best_field(scores: &Vec<(Field, u128)>) -> (r: Result<Field, GameError>)
    ensures
        scores@.len() == 0 ==> r == Err::<Field, GameError>(GameError::EmptyScoreMapping),
        scores@.len() > 0 ==> r is Ok && exists|index: int|
            is_first_best(scores@, index) && r->Ok_0 == (#[trigger] scores@[index]).0,
{
    if scores.len() == 0 {
        return Err(GameError::EmptyScoreMapping);
    }
    let mut best: usize = 0;
    let mut i: usize = 1;
    while i < scores.len()
        invariant
            1 <= i <= scores.len(),
            best < i,
            forall|j: int| 0 <= j < i ==> (#[trigger] scores@[j]).1 <= scores@[best as int].1,
            forall|j: int| 0 <= j < best ==> (#[trigger] scores@[j]).1 < scores@[best as int].1,
        decreases scores.len() - i,
    {
        if scores[i].1 > scores[best].1 {
            best = i;
        }
        i += 1;
    }
    assert(is_first_best(scores@, best as int));
    Ok(scores[best].0)
}

impl AI {
    /// The search engine.
    pub fn new() -> (r: Result<AI, ()>)
        ensures
            r is Ok,
    {
        Ok(AI {  })
    }

    /// The value of a position that is searched no further.
    pub fn eval_position(board: &Board) -> (r: Result<Estimate, GameError>)
        ensures
            r == Ok::<Estimate, GameError>(
                Estimate { numerator: eval_position(board@) as u128, denominator: 1 },
            ),
            eval_position(board@) <= highest_score(),
    {
        proof {
            lemma_score_at_most_max_score(board@);
        }
        if board.is_full() {
            return Ok(Estimate { numerator: board.score() as u128, denominator: 1 });
        }
        Ok(Estimate { numerator: board.max_score() as u128, denominator: 1 })
    }

    /// The expected final score of a position, searched `iterations` levels
    /// deep, as an exact fraction.
    pub fn estimated_score(board: &Board, iterations: i32) -> (r: Result<Estimate, GameError>)
        ensures
            r is Ok,
            r->Ok_0.numerator == estimate_numerator(board@, search_depth(iterations as int)),
            r->Ok_0.denominator == denominator_of(board@, search_depth(iterations as int)),
            r->Ok_0.denominator >= 1,
            score(board@) * r->Ok_0.denominator <= r->Ok_0.numerator <= max_score(board@) * r->Ok_0.denominator,
            r->Ok_0.numerator <= highest_score() * r->Ok_0.denominator,
    {
        let depth: u32 = if iterations < 0 {
            19
        } else {
            iterations as u32
        };
        let numerator = AI::numerator(board, depth);
        let empty = board.empty_fields();
        let unused = board.remaining_tiles();
        proof {
            use_type_invariant(board);
            lemma_denominator_limit(empty@.len(), unused@.len(), depth as nat);
            lemma_estimate_between_score_and_bound(board@, depth as nat);
        }
        let denominator = AI::denominator(empty.len(), unused.len(), depth);
        Ok(Estimate { numerator, denominator })
    }

    /// The denominator of an expected score.
    fn denominator(empty: usize, unused: usize, depth: u32) -> (d: u128)
        requires
            empty <= 19,
            empty <= unused <= 27,
        ensures
            d == estimate_denominator(empty as nat, unused as nat, depth as nat),
        decreases depth,
    {
        if depth == 0 || empty == 0 {
            1
        } else {
            let below = AI::denominator(empty - 1, unused - 1, depth - 1);
            proof {
                lemma_denominator_limit(empty as nat, unused as nat, depth as nat);
            }
            (unused as u128) * below
        }
    }

    /// The numerator of an expected score.
    fn numerator(board: &Board, depth: u32) -> (n: u128)
        ensures
            n == estimate_numerator(board@, depth as nat),
            n <= highest_score() * denominator_of(board@, depth as nat),
        decreases depth,
    {
        proof {
            use_type_invariant(board);
            lemma_placement_counts(board@);
            lemma_score_at_most_max_score(board@);
            lemma_estimate_at_most_highest_score(board@, depth as nat);
        }
        if depth == 0 || board.is_full() {
            return match AI::eval_position(board) {
                Ok(value) => value.numerator,
                Err(_) => unreached(),
            };
        }
        let tiles = board.remaining_tiles();
        let fields = board.empty_fields();
        let ghost below = estimate_denominator(
            (fields@.len() - 1) as nat,
            (tiles@.len() - 1) as nat,
            (depth - 1) as nat,
        );
        let ghost cap = highest_score() * below;
        proof {
            lemma_denominator_limit(fields@.len(), tiles@.len(), depth as nat);
            lemma_denominator_limit((fields@.len() - 1) as nat, (tiles@.len() - 1) as nat, (depth - 1) as nat);
            lemma_empty_fields_are_the_free_cells(board@);
            lemma_remaining_tiles_complement_the_board(board@);
            assert(cap * tiles@.len() == highest_score() * (tiles@.len() * below)) by (nonlinear_arith)
                requires
                    cap == highest_score() * below,
            ;
        }
        let mut total: u128 = 0;
        let mut i: usize = 0;
        while i < tiles.len()
            invariant
                i <= tiles.len(),
                depth > 0,
                is_placement(board@),
                !is_full(board@),
                tiles@ == remaining_tiles(board@),
                fields@ == empty_fields(board@),
                below == estimate_denominator(
                    (fields@.len() - 1) as nat,
                    (tiles@.len() - 1) as nat,
                    (depth - 1) as nat,
                ),
                cap == highest_score() * below,
                cap * tiles@.len() <= highest_score() * denominator_limit(),
                total == sum_of_best(board@, tiles@.take(i as int), depth as nat),
                total <= cap * i,
            decreases tiles.len() - i,
        {
            let tile = tiles[i];
            let mut best: u128 = 0;
            let mut j: usize = 0;
            proof {
                assert(tiles@.contains(tiles@[i as int]));
                lemma_remaining_tiles_complement_the_board(board@);
            }
            while j < fields.len()
                invariant
                    j <= fields.len(),
                    depth > 0,
                    is_placement(board@),
                    !board@.contains_value(tile),
                    tiles@ == remaining_tiles(board@),
                    fields@ == empty_fields(board@),
                    below == estimate_denominator(
                        (fields@.len() - 1) as nat,
                        (tiles@.len() - 1) as nat,
                        (depth - 1) as nat,
                    ),
                    cap == highest_score() * below,
                    best == best_of(board@, fields@.take(j as int), tile, depth as nat),
                    best <= cap,
                decreases fields.len() - j,
            {
                let field = fields[j];
                proof {
                    assert(fields@.contains(fields@[j as int]));
                    lemma_empty_fields_are_the_free_cells(board@);
                    lemma_place_keeps_placement(board@, field, tile);
                    assert(fields@.take(j + 1).drop_last() =~= fields@.take(j as int));
                    assert(fields@.take(j + 1).last() == field);
                }
                match board.place_tile_on_new_board(field, tile) {
                    Ok(next) => {
                        let here = AI::numerator(&next, depth - 1);
                        if here > best {
                            best = here;
                        }
                    },
                    Err(_) => unreached(),
                }
                j += 1;
            }
            proof {
                assert(fields@.take(fields.len() as int) =~= fields@);
                assert(tiles@.take(i + 1).drop_last() =~= tiles@.take(i as int));
                assert(tiles@.take(i + 1).last() == tile);
                assert(cap * i + cap == cap * (i + 1)) by (nonlinear_arith);
                assert(cap * (i + 1) <= cap * tiles@.len()) by (nonlinear_arith)
                    requires
                        i + 1 <= tiles@.len(),
                        cap >= 0,
                ;
            }
            total += best;
            i += 1;
        }
        assert(tiles@.take(tiles.len() as int) =~= tiles@);
        total
    }

    /// The expected score of every empty field for `tile`, each searched
    /// `iterations` levels deep from the position that the tile leads to
    /// there. All of them have the same denominator. A tile that lies on the
    /// board already is refused.
    pub fn rate_fields(board: &Board, tile: Tile, iterations: i32) -> (r: Result<Vec<(Field, Estimate)>, GameError>)
        ensures
            board@.contains_value(tile) ==> r == Err::<Vec<(Field, Estimate)>, GameError>(
                GameError::TileAlreadyUsed,
            ),
            !board@.contains_value(tile) ==> r is Ok && r->Ok_0@ == ratings(
                board@,
                tile,
                search_depth(iterations as int),
            ),
    {
        if board.holds(&tile) {
            return Err(GameError::TileAlreadyUsed);
        }
        let fields = board.empty_fields();
        let mut rated: Vec<(Field, Estimate)> = Vec::new();
        let mut j: usize = 0;
        let ghost depth = search_depth(iterations as int);
        while j < fields.len()
            invariant
                j <= fields.len(),
                !board@.contains_value(tile),
                fields@ == empty_fields(board@),
                depth == search_depth(iterations as int),
                rated@.len() == j,
                forall|k: int|
                    0 <= k < j ==> #[trigger] rated@[k] == (fields@[k], rating(board@, fields@[k], tile, depth)),
            decreases fields.len() - j,
        {
            let field = fields[j];
            proof {
                assert(fields@.contains(fields@[j as int]));
                lemma_empty_fields_are_the_free_cells(board@);
            }
            match board.place_tile_on_new_board(field, tile) {
                Ok(next) => {
                    match AI::estimated_score(&next, iterations) {
                        Ok(estimate) => {
                            rated.push((field, estimate));
                        },
                        Err(_) => unreached(),
                    }
                },
                Err(_) => unreached(),
            }
            j += 1;
        }
        assert(rated@ =~= ratings(board@, tile, depth));
        Ok(rated)
    }

    /// One move of the engine: rates every empty field for the tile in hand,
    /// puts the tile on the best field and draws the next tile. Hands back the
    /// ratings. Once the board is full there is no field to rate, and the game
    /// stays as it is.
    pub fn play_turn(game: &mut Game, iterations: i32) -> (r: Result<Vec<(Field, Estimate)>, GameError>)
        ensures
            is_game_state(final(game).board_view(), final(game).reservoir_view(), final(game).current_tile_view()),
            is_full(old(game).board_view()) ==> {
                &&& r == Err::<Vec<(Field, Estimate)>, GameError>(GameError::EmptyScoreMapping)
                &&& final(game).board_view() == old(game).board_view()
                &&& final(game).reservoir_view() == old(game).reservoir_view()
                &&& final(game).current_tile_view() == old(game).current_tile_view()
            },
            !is_full(old(game).board_view()) ==> {
                &&& r is Ok
                &&& r->Ok_0@ == ratings(
                    old(game).board_view(),
                    old(game).current_tile_view()->0,
                    search_depth(iterations as int),
                )
                &&& exists|index: int|
                    is_first_best(numerators(r->Ok_0@), index) && final(game).board_view() == old(
                        game,
                    ).board_view().insert(
                        (#[trigger] r->Ok_0@[index]).0,
                        old(game).current_tile_view()->0,
                    )
                &&& empty_fields(old(game).board_view()).contains(
                    engine_choice(
                        old(game).board_view(),
                        old(game).current_tile_view()->0,
                        search_depth(iterations as int),
                    ),
                )
                &&& final(game).board_view() == old(game).board_view().insert(
                    engine_choice(
                        old(game).board_view(),
                        old(game).current_tile_view()->0,
                        search_depth(iterations as int),
                    ),
                    old(game).current_tile_view()->0,
                )
                &&& final(game).board_view().len() == old(game).board_view().len() + 1
                &&& old(game).reservoir_view().contains(final(game).current_tile_view()->0)
            },
    {
        let tile = match game.current_tile() {
            Some(tile) => tile,
            None => unreached(),
        };
        let rated = match AI::rate_fields(game.board(), tile, iterations) {
            Ok(rated) => rated,
            Err(_) => unreached(),
        };
        let mut scores: Vec<(Field, u128)> = Vec::new();
        let mut k: usize = 0;
        while k < rated.len()
            invariant
                k <= rated.len(),
                scores@.len() == k,
                forall|j: int| 0 <= j < k ==> #[trigger] scores@[j] == (rated@[j].0, rated@[j].1.numerator),
            decreases rated.len() - k,
        {
            scores.push((rated[k].0, rated[k].1.numerator));
            k += 1;
        }
        assert(scores@ =~= numerators(rated@));
        let field = match best_field(&scores) {
            Ok(field) => field,
            Err(e) => {
                return Err(e);
            },
        };
        proof {
            let board = game.board_view();
            let index = choose|index: int|
                is_first_best(scores@, index) && field == (#[trigger] scores@[index]).0;
            assert(field == rated@[index].0);
            let chosen = choose|chosen: int| is_first_best(numerators(rated@), chosen);
            lemma_first_best_is_unique(numerators(rated@), index, chosen);
            assert(field == engine_choice(board, tile, search_depth(iterations as int)));
            assert(empty_fields(board).contains(empty_fields(board)[index]));
            lemma_empty_fields_are_the_free_cells(board);
            lemma_place_keeps_placement(board, field, tile);
        }
        match game.place_tile(field) {
            Ok(()) => Ok(rated),
            Err(_) => unreached(),
        }
    }

    /// Plays one game from the empty board to the full one and returns the
    /// final score. The tiles are drawn at random, each one once; the board
    /// at the end is the one that the engine's choices make of the nineteen
    /// tiles that were drawn, and it is full.
    pub fn play_game(iterations: i32) -> (final_score: u32)
        ensures
            exists|draws: Seq<Tile>|
                {
                    &&& draws.len() == 19
                    &&& draws.no_duplicates()
                    &&& is_placement(played(draws, search_depth(iterations as int)))
                    &&& is_full(played(draws, search_depth(iterations as int)))
                    &&& final_score == score(#[trigger] played(draws, search_depth(iterations as int)))
                },
    {
        let mut game = Game::new();
        let ghost depth = search_depth(iterations as int);
        let ghost mut draws: Seq<Tile> = Seq::empty();
        while !game.finished()
            invariant
                depth == search_depth(iterations as int),
                is_game_state(game.board_view(), game.reservoir_view(), game.current_tile_view()),
                game.board_view() == played(draws, depth),
                draws.len() == game.board_view().len(),
                draws.no_duplicates(),
                forall|i: int| 0 <= i < draws.len() ==> game.board_view().contains_value(#[trigger] draws[i]),
            decreases 19 - game.board_view().len(),
        {
            let ghost before = game.board_view();
            let ghost tile = game.current_tile_view()->0;
            let ghost earlier = draws;
            proof {
                lemma_placement_counts(before);
            }
            match AI::play_turn(&mut game, iterations) {
                Ok(_) => {},
                Err(_) => unreached(),
            }
            proof {
                let field = engine_choice(before, tile, depth);
                lemma_empty_fields_are_the_free_cells(before);
                draws = earlier.push(tile);
                assert(draws.drop_last() =~= earlier);
                assert(draws.last() == tile);
                assert forall|i: int| 0 <= i < draws.len() implies game.board_view().contains_value(
                    #[trigger] draws[i],
                ) by {
                    if i < earlier.len() {
                        assert(before.contains_value(earlier[i]));
                        let key = choose|key: Field| before.contains_key(key) && before[key] == earlier[i];
                        assert(game.board_view().contains_key(key) && game.board_view()[key] == draws[i]);
                    } else {
                        assert(game.board_view().contains_key(field) && game.board_view()[field] == draws[i]);
                    }
                }
                lemma_placement_counts(game.board_view());
            }
        }
        proof {
            lemma_placement_counts(game.board_view());
            assert(draws.len() == 19);
        }
        game.board().score()
    }
}

} // verus!
