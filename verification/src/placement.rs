//! Placements: which tiles lie where, which fields are still empty and which
//! tiles are still to come.

use vstd::prelude::*;
use vstd::set_lib::*;
use crate::field::Field;
use crate::lines::{all_fields, lemma_all_fields_are_the_valid_fields};
use crate::tile::{all_tiles, lemma_all_tiles_lists_every_tile_once, Tile};

verus! {

/// A placement puts tiles on valid fields only and no tile on two fields.
/// That a field holds at most one tile lies in its being a map.
pub open spec fn is_placement(placement: Map<Field, Tile>) -> bool {
    &&& placement.dom().finite()
    &&& forall|f: Field| placement.contains_key(f) ==> f.is_valid()
    &&& placement.is_injective()
}

/// The valid fields that hold no tile, in the order of `all_fields`.
pub open spec fn empty_fields(placement: Map<Field, Tile>) -> Seq<Field> {
    all_fields().filter(|f: Field| !placement.contains_key(f))
}

/// The tiles of the universe that lie on no field, in the order of `all_tiles`.
pub open spec fn remaining_tiles(placement: Map<Field, Tile>) -> Seq<Tile> {
    all_tiles().filter(|t: Tile| !placement.contains_value(t))
}

/// The tiles of a list that differ from `tile`, in their order.
pub open spec fn without(tiles: Seq<Tile>, tile: Tile) -> Seq<Tile> {
    tiles.filter(differs_from(tile))
}

/// The test that a tile is another one than `tile`.
pub open spec fn differs_from(tile: Tile) -> spec_fn(Tile) -> bool {
    |t: Tile| t != tile
}

/// A placement is full when no valid field is empty.
pub open spec fn is_full(placement: Map<Field, Tile>) -> bool {
    empty_fields(placement).len() == 0
}

/// A filter keeps exactly the elements that pass, and keeps them distinct.
pub proof fn lemma_filter_keeps<A>(s: Seq<A>, pred: spec_fn(A) -> bool)
    ensures
        forall|x: A| #[trigger] s.filter(pred).contains(x) <==> s.contains(x) && pred(x),
        s.no_duplicates() ==> s.filter(pred).no_duplicates(),
        s.filter(pred).len() <= s.len(),
    decreases s.len(),
{
    reveal(Seq::filter);
    let out = s.filter(pred);
    if s.len() > 0 {
        let rest = s.drop_last();
        let kept = rest.filter(pred);
        lemma_filter_keeps(rest, pred);
        assert forall|x: A| #[trigger] out.contains(x) <==> s.contains(x) && pred(x) by {
            if out.contains(x) {
                let i = choose|i: int| 0 <= i < out.len() && out[i] == x;
                if i < kept.len() {
                    assert(kept[i] == x);
                    assert(kept.contains(x));
                    let j = choose|j: int| 0 <= j < rest.len() && rest[j] == x;
                    assert(s[j] == x);
                } else {
                    assert(x == s.last());
                    assert(s[s.len() - 1] == x);
                }
            }
            if s.contains(x) && pred(x) {
                let j = choose|j: int| 0 <= j < s.len() && s[j] == x;
                if j < rest.len() {
                    assert(rest[j] == x);
                    assert(kept.contains(x));
                    let i = choose|i: int| 0 <= i < kept.len() && kept[i] == x;
                    assert(out[i] == x);
                } else {
                    assert(out[out.len() - 1] == x);
                }
            }
        }
        if s.no_duplicates() {
            assert(rest.no_duplicates());
            if pred(s.last()) {
                assert(!kept.contains(s.last())) by {
                    if rest.contains(s.last()) {
                        let j = choose|j: int| 0 <= j < rest.len() && rest[j] == s.last();
                        assert(s[j] == s[s.len() - 1]);
                    }
                }
                assert forall|i: int, j: int| 0 <= i < out.len() && 0 <= j < out.len() && i != j implies out[i]
                    != out[j] by {
                    if i < kept.len() && j < kept.len() {
                        assert(kept[i] != kept[j]);
                    } else if i < kept.len() {
                        assert(kept.contains(kept[i]));
                    } else {
                        assert(kept.contains(kept[j]));
                    }
                }
            }
        }
    }
}

/// Filtering one element more either appends that element or changes nothing.
pub proof fn lemma_filter_take_succ<A>(s: Seq<A>, pred: spec_fn(A) -> bool, i: int)
    requires
        0 <= i < s.len(),
    ensures
        s.take(i + 1).filter(pred) == if pred(s[i]) {
            s.take(i).filter(pred).push(s[i])
        } else {
            s.take(i).filter(pred)
        },
{
    reveal(Seq::filter);
    assert(s.take(i + 1).drop_last() =~= s.take(i));
}

/// A filter that every element passes changes nothing.
pub proof fn lemma_filter_all<A>(s: Seq<A>, pred: spec_fn(A) -> bool)
    requires
        forall|i: int| 0 <= i < s.len() ==> pred(#[trigger] s[i]),
    ensures
        s.filter(pred) == s,
    decreases s.len(),
{
    reveal(Seq::filter);
    if s.len() > 0 {
        let rest = s.drop_last();
        assert forall|i: int| 0 <= i < rest.len() implies pred(#[trigger] rest[i]) by {
            assert(rest[i] == s[i]);
        }
        lemma_filter_all(rest, pred);
        assert(pred(s[s.len() - 1]));
        assert(s.filter(pred) =~= s);
    }
}

/// Two filters in a row are one filter by both tests.
pub proof fn lemma_filter_twice<A>(
    s: Seq<A>,
    first: spec_fn(A) -> bool,
    second: spec_fn(A) -> bool,
    both: spec_fn(A) -> bool,
)
    requires
        forall|x: A| #[trigger] both(x) <==> first(x) && second(x),
    ensures
        s.filter(first).filter(second) == s.filter(both),
    decreases s.len(),
{
    reveal(Seq::filter);
    if s.len() > 0 {
        let rest = s.drop_last();
        lemma_filter_twice(rest, first, second, both);
        if first(s.last()) {
            let kept = rest.filter(first);
            assert(kept.push(s.last()).drop_last() =~= kept);
        }
    }
}

/// Filtering out the members of a set that the sequence covers shortens a
/// sequence without repetitions by the size of the set.
pub proof fn lemma_filter_complement_len<A>(s: Seq<A>, pred: spec_fn(A) -> bool, excluded: Set<A>)
    requires
        s.no_duplicates(),
        excluded.finite(),
        forall|x: A| excluded.contains(x) ==> s.contains(x),
        forall|x: A| pred(x) <==> !excluded.contains(x),
    ensures
        s.filter(pred).len() + excluded.len() == s.len(),
{
    let kept = s.filter(pred);
    lemma_filter_keeps(s, pred);
    s.unique_seq_to_set();
    kept.unique_seq_to_set();
    assert(kept.to_set() =~= s.to_set().difference(excluded));
    assert(s.to_set().intersect(excluded) =~= excluded);
    lemma_set_difference_len(s.to_set(), excluded);
}

/// The empty fields are the valid fields without a tile, each listed once.
pub proof fn lemma_empty_fields_are_the_free_cells(placement: Map<Field, Tile>)
    ensures
        forall|f: Field| #[trigger]
            empty_fields(placement).contains(f) <==> f.is_valid() && !placement.contains_key(f),
        empty_fields(placement).no_duplicates(),
        empty_fields(placement).len() <= 19,
        is_full(placement) <==> forall|f: Field| f.is_valid() ==> placement.contains_key(f),
{
    lemma_all_fields_are_the_valid_fields();
    lemma_filter_keeps(all_fields(), |f: Field| !placement.contains_key(f));
    let empty = empty_fields(placement);
    if is_full(placement) {
        assert forall|f: Field| f.is_valid() implies placement.contains_key(f) by {
            if !placement.contains_key(f) {
                assert(empty.contains(f));
            }
        }
    }
    if forall|f: Field| f.is_valid() ==> placement.contains_key(f) {
        if empty.len() > 0 {
            assert(empty.contains(empty[0]));
        }
    }
}

/// The remaining tiles and the tiles on the board share nothing and together
/// are the universe: a tile remains exactly if it lies on no field, and every
/// tile is one or the other. No tile remains twice.
pub proof fn lemma_remaining_tiles_complement_the_board(placement: Map<Field, Tile>)
    ensures
        forall|t: Tile| #[trigger] remaining_tiles(placement).contains(t) <==> !placement.contains_value(t),
        remaining_tiles(placement).to_set().disjoint(placement.values()),
        remaining_tiles(placement).to_set().union(placement.values()) == all_tiles().to_set(),
        remaining_tiles(placement).no_duplicates(),
        remaining_tiles(placement).len() <= 27,
{
    lemma_all_tiles_lists_every_tile_once();
    lemma_filter_keeps(all_tiles(), |t: Tile| !placement.contains_value(t));
    assert(remaining_tiles(placement).to_set().union(placement.values()) =~= all_tiles().to_set());
}

/// On a placement the empty fields and the tiles account for all nineteen
/// cells, and the remaining tiles and the tiles on the board for all
/// twenty-seven tiles.
pub proof fn lemma_placement_counts(placement: Map<Field, Tile>)
    requires
        is_placement(placement),
    ensures
        empty_fields(placement).len() + placement.len() == 19,
        remaining_tiles(placement).len() + placement.len() == 27,
        placement.len() <= 19,
        remaining_tiles(placement).len() == empty_fields(placement).len() + 8,
{
    lemma_all_fields_are_the_valid_fields();
    lemma_all_tiles_lists_every_tile_once();
    lemma_filter_complement_len(all_fields(), |f: Field| !placement.contains_key(f), placement.dom());
    placement.lemma_injective_values_len();
    lemma_filter_complement_len(all_tiles(), |t: Tile| !placement.contains_value(t), placement.values());
}

/// Putting an unused tile on an empty valid field gives a placement again,
/// with one tile more.
pub proof fn lemma_place_keeps_placement(placement: Map<Field, Tile>, field: Field, tile: Tile)
    requires
        is_placement(placement),
        field.is_valid(),
        !placement.contains_key(field),
        !placement.contains_value(tile),
    ensures
        is_placement(placement.insert(field, tile)),
        placement.insert(field, tile).len() == placement.len() + 1,
        empty_fields(placement.insert(field, tile)).len() + 1 == empty_fields(placement).len(),
        remaining_tiles(placement.insert(field, tile)).len() + 1 == remaining_tiles(placement).len(),
{
    let next = placement.insert(field, tile);
    assert forall|f: Field, g: Field|
        f != g && next.contains_key(f) && next.contains_key(g) implies #[trigger] next[f] != #[trigger] next[g] by {
        if f == field {
            assert(placement.contains_key(g));
            assert(placement.contains_value(placement[g]));
        } else if g == field {
            assert(placement.contains_key(f));
            assert(placement.contains_value(placement[f]));
        } else {
            assert(placement.contains_key(f) && placement.contains_key(g));
        }
    }
    lemma_placement_counts(placement);
    lemma_placement_counts(next);
}

/// While the board is empty the whole universe remains.
pub proof fn lemma_everything_remains_on_the_empty_board()
    ensures
        remaining_tiles(Map::<Field, Tile>::empty()) == all_tiles(),
        empty_fields(Map::<Field, Tile>::empty()) == all_fields(),
        is_placement(Map::<Field, Tile>::empty()),
{
    let empty = Map::<Field, Tile>::empty();
    lemma_filter_all(all_tiles(), |t: Tile| !empty.contains_value(t));
    lemma_filter_all(all_fields(), |f: Field| !empty.contains_key(f));
}

/// Putting a tile on an empty field takes that tile, and no other, from the
/// remaining tiles, and that field, and no other, from the empty fields.
pub proof fn lemma_place_takes_one_of_each(placement: Map<Field, Tile>, field: Field, tile: Tile)
    requires
        !placement.contains_key(field),
    ensures
        remaining_tiles(placement.insert(field, tile)) == without(remaining_tiles(placement), tile),
        empty_fields(placement.insert(field, tile)) == empty_fields(placement).filter(|f: Field| f != field),
{
    let next = placement.insert(field, tile);
    assert forall|t: Tile| next.contains_value(t) <==> placement.contains_value(t) || t == tile by {
        if placement.contains_value(t) {
            let f = choose|f: Field| placement.contains_key(f) && placement[f] == t;
            assert(next.contains_key(f) && next[f] == t);
        }
        if t == tile {
            assert(next.contains_key(field) && next[field] == t);
        }
        if next.contains_value(t) && t != tile {
            let f = choose|f: Field| next.contains_key(f) && next[f] == t;
            assert(placement.contains_key(f) && placement[f] == t);
        }
    }
    lemma_filter_twice(
        all_tiles(),
        |t: Tile| !placement.contains_value(t),
        differs_from(tile),
        |t: Tile| !next.contains_value(t),
    );
    lemma_filter_twice(
        all_fields(),
        |f: Field| !placement.contains_key(f),
        |f: Field| f != field,
        |f: Field| !next.contains_key(f),
    );
}

/// Taking a tile out of a list leaves the other tiles. Where the list holds
/// no tile twice, neither does what is left, and it is one shorter if the
/// tile was in the list.
pub proof fn lemma_without_takes_one(tiles: Seq<Tile>, tile: Tile)
    ensures
        forall|t: Tile| #[trigger] without(tiles, tile).contains(t) <==> tiles.contains(t) && t != tile,
        !tiles.contains(tile) ==> without(tiles, tile) == tiles,
        tiles.no_duplicates() ==> without(tiles, tile).no_duplicates(),
        tiles.no_duplicates() && tiles.contains(tile) ==> without(tiles, tile).len() + 1 == tiles.len(),
{
    lemma_filter_keeps(tiles, differs_from(tile));
    if tiles.contains(tile) {
        if tiles.no_duplicates() {
            lemma_filter_complement_len(tiles, differs_from(tile), set![tile]);
        }
    } else {
        assert forall|i: int| 0 <= i < tiles.len() implies differs_from(tile)(#[trigger] tiles[i]) by {
            assert(tiles.contains(tiles[i]));
        }
        lemma_filter_all(tiles, differs_from(tile));
    }
}

} // verus!
