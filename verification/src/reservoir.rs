//! The reservoir of tiles that are still to be drawn.

use rand::Rng;
use vstd::prelude::*;
use crate::error::GameError;
use crate::placement::{differs_from, lemma_filter_take_succ, lemma_without_takes_one, without};
use crate::tile::{all_tiles, lemma_all_tiles_lists_every_tile_once, tile_at, NumLeft, NumRight, NumTop, Tile};

verus! {

/// The tiles that have not been drawn yet. A new reservoir holds every tile
/// once, and taking tiles out keeps it so.
#[derive(Debug)]
pub struct TileReservoir {
    pub remaining_tiles: Vec<Tile>,
}

/// An index below `bound`, drawn by `rand::Rng::gen_range` from the generator
/// of the current thread (`rand::thread_rng`). The range `0..bound` must not
/// be empty, or the call panics; all that is claimed of the index is that it
/// lies in the range. The generator itself panics if the system cannot seed it.
#[verifier::external_body]
fn random_index(bound: usize) -> (index: usize)
    requires
        bound > 0,
    ensures
        index < bound,
{
    rand::thread_rng().gen_range(0..bound)
}

impl Clone for TileReservoir {
    fn clone(&self) -> (copy: Self)
        ensures
            copy.remaining_tiles@ == self.remaining_tiles@,
    {
        let mut tiles: Vec<Tile> = Vec::new();
        let mut i: usize = 0;
        while i < self.remaining_tiles.len()
            invariant
                i <= self.remaining_tiles.len(),
                tiles@ == self.remaining_tiles@.take(i as int),
            decreases self.remaining_tiles.len() - i,
        {
            tiles.push(self.remaining_tiles[i]);
            assert(tiles@ =~= self.remaining_tiles@.take(i + 1));
            i += 1;
        }
        assert(tiles@ =~= self.remaining_tiles@);
        TileReservoir { remaining_tiles: tiles }
    }
}

impl TileReservoir {
    /// A reservoir that holds the whole universe.
    pub fn new() -> (reservoir: TileReservoir)
        ensures
            reservoir.remaining_tiles@ == all_tiles(),
            reservoir.remaining_tiles@.no_duplicates(),
            reservoir.remaining_tiles@.len() == 27,
    {
        proof {
            lemma_all_tiles_lists_every_tile_once();
        }
        TileReservoir { remaining_tiles: TileReservoir::all_tiles() }
    }

    /// Whether `tile` is still in the reservoir.
    pub fn contains(&self, tile: &Tile) -> (r: bool)
        ensures
            r == self.remaining_tiles@.contains(*tile),
    {
        let mut i: usize = 0;
        while i < self.remaining_tiles.len()
            invariant
                i <= self.remaining_tiles.len(),
                forall|k: int| 0 <= k < i ==> #[trigger] self.remaining_tiles@[k] != *tile,
            decreases self.remaining_tiles.len() - i,
        {
            if self.remaining_tiles[i] == *tile {
                return true;
            }
            i += 1;
        }
        false
    }

    /// Takes `tile` out of the reservoir. A tile that is not in the reservoir
    /// is refused, and the reservoir stays as it was.
    pub fn pick_tile(&mut self, tile: &Tile) -> (r: Result<(), GameError>)
        ensures
            r == (if old(self).remaining_tiles@.contains(*tile) {
                Ok::<(), GameError>(())
            } else {
                Err::<(), GameError>(GameError::TileAlreadyUsed)
            }),
            final(self).remaining_tiles@ == (if r is Ok {
                without(old(self).remaining_tiles@, *tile)
            } else {
                old(self).remaining_tiles@
            }),
            forall|t: Tile| #[trigger]
                final(self).remaining_tiles@.contains(t) <==> old(self).remaining_tiles@.contains(t) && t
                    != *tile,
            old(self).remaining_tiles@.no_duplicates() ==> final(self).remaining_tiles@.no_duplicates(),
            old(self).remaining_tiles@.no_duplicates() && r is Ok ==> final(self).remaining_tiles@.len() + 1
                == old(self).remaining_tiles@.len(),
    {
        proof {
            lemma_without_takes_one(self.remaining_tiles@, *tile);
        }
        if !self.contains(tile) {
            return Err(GameError::TileAlreadyUsed);
        }
        let mut kept: Vec<Tile> = Vec::new();
        let mut i: usize = 0;
        while i < self.remaining_tiles.len()
            invariant
                i <= self.remaining_tiles.len(),
                kept@ == without(self.remaining_tiles@.take(i as int), *tile),
            decreases self.remaining_tiles.len() - i,
        {
            proof {
                lemma_filter_take_succ(self.remaining_tiles@, differs_from(*tile), i as int);
            }
            if self.remaining_tiles[i] != *tile {
                kept.push(self.remaining_tiles[i]);
            }
            i += 1;
        }
        assert(self.remaining_tiles@.take(self.remaining_tiles.len() as int) =~= self.remaining_tiles@);
        self.remaining_tiles = kept;
        Ok(())
    }

    /// Takes the tile at place `index` out of the reservoir and hands it
    /// over. Where the reservoir has no such place, nothing is taken.
    pub fn pick_tile_at(&mut self, index: usize) -> (r: Result<Tile, GameError>)
        ensures
            r == (if index < old(self).remaining_tiles@.len() {
                Ok::<Tile, GameError>(old(self).remaining_tiles@[index as int])
            } else {
                Err::<Tile, GameError>(GameError::ReservoirExhausted)
            }),
            final(self).remaining_tiles@ == (if r is Ok {
                without(old(self).remaining_tiles@, r->Ok_0)
            } else {
                old(self).remaining_tiles@
            }),
            r is Ok ==> forall|t: Tile| #[trigger]
                final(self).remaining_tiles@.contains(t) <==> old(self).remaining_tiles@.contains(t) && t
                    != r->Ok_0,
            old(self).remaining_tiles@.no_duplicates() ==> final(self).remaining_tiles@.no_duplicates(),
            old(self).remaining_tiles@.no_duplicates() && r is Ok ==> final(self).remaining_tiles@.len() + 1
                == old(self).remaining_tiles@.len(),
    {
        if index >= self.remaining_tiles.len() {
            return Err(GameError::ReservoirExhausted);
        }
        let tile = self.remaining_tiles[index];
        match self.pick_tile(&tile) {
            Ok(()) => Ok(tile),
            Err(e) => Err(e),
        }
    }

    /// Draws a tile at random from those that remain and takes it out of the
    /// reservoir. An empty reservoir is reported as exhausted.
    pub fn pick_random_tile(&mut self) -> (r: Result<Tile, GameError>)
        ensures
            old(self).remaining_tiles@.len() == 0 ==> r == Err::<Tile, GameError>(GameError::ReservoirExhausted),
            old(self).remaining_tiles@.len() > 0 ==> r is Ok && old(self).remaining_tiles@.contains(r->Ok_0),
            final(self).remaining_tiles@ == (if r is Ok {
                without(old(self).remaining_tiles@, r->Ok_0)
            } else {
                old(self).remaining_tiles@
            }),
            r is Ok ==> forall|t: Tile| #[trigger]
                final(self).remaining_tiles@.contains(t) <==> old(self).remaining_tiles@.contains(t) && t
                    != r->Ok_0,
            old(self).remaining_tiles@.no_duplicates() ==> final(self).remaining_tiles@.no_duplicates(),
            old(self).remaining_tiles@.no_duplicates() && r is Ok ==> final(self).remaining_tiles@.len() + 1
                == old(self).remaining_tiles@.len(),
    {
        if self.remaining_tiles.len() == 0 {
            return Err(GameError::ReservoirExhausted);
        }
        let random_index = random_index(self.remaining_tiles.len());
        self.pick_tile_at(random_index)
    }

    /// The universe of tiles: every combination of one number per edge, once.
    pub fn all_tiles() -> (tiles: Vec<Tile>)
        ensures
            tiles@ == all_tiles(),
    {
        let tops = NumTop::all();
        let lefts = NumLeft::all();
        let rights = NumRight::all();
        let mut tiles: Vec<Tile> = Vec::new();
        let mut a: usize = 0;
        while a < 3
            invariant
                a <= 3,
                tiles@.len() == 9 * a,
                forall|i: int| 0 <= i < tiles@.len() ==> #[trigger] tiles@[i] == tile_at(i),
                forall|rank: int| 0 <= rank < 3 ==> #[trigger] tops@[rank] == crate::tile::top_number(rank),
                forall|rank: int| 0 <= rank < 3 ==> #[trigger] lefts@[rank] == crate::tile::left_number(rank),
                forall|rank: int| 0 <= rank < 3 ==> #[trigger] rights@[rank] == crate::tile::right_number(rank),
            decreases 3 - a,
        {
            let mut b: usize = 0;
            while b < 3
                invariant
                    a < 3,
                    b <= 3,
                    tiles@.len() == 9 * a + 3 * b,
                    forall|i: int| 0 <= i < tiles@.len() ==> #[trigger] tiles@[i] == tile_at(i),
                    forall|rank: int| 0 <= rank < 3 ==> #[trigger] tops@[rank] == crate::tile::top_number(rank),
                    forall|rank: int|
                        0 <= rank < 3 ==> #[trigger] lefts@[rank] == crate::tile::left_number(rank),
                    forall|rank: int|
                        0 <= rank < 3 ==> #[trigger] rights@[rank] == crate::tile::right_number(rank),
                decreases 3 - b,
            {
                let mut c: usize = 0;
                while c < 3
                    invariant
                        a < 3,
                        b < 3,
                        c <= 3,
                        tiles@.len() == 9 * a + 3 * b + c,
                        forall|i: int| 0 <= i < tiles@.len() ==> #[trigger] tiles@[i] == tile_at(i),
                        forall|rank: int|
                            0 <= rank < 3 ==> #[trigger] tops@[rank] == crate::tile::top_number(rank),
                        forall|rank: int|
                            0 <= rank < 3 ==> #[trigger] lefts@[rank] == crate::tile::left_number(rank),
                        forall|rank: int|
                            0 <= rank < 3 ==> #[trigger] rights@[rank] == crate::tile::right_number(rank),
                    decreases 3 - c,
                {
                    let tile = Tile { top: tops[a], left: lefts[b], right: rights[c] };
                    assert(tile == tile_at(9 * a + 3 * b + c)) by {
                        let index = (9 * a + 3 * b + c) as int;
                        assert(index / 9 == a);
                        assert((index / 3) % 3 == b);
                        assert(index % 3 == c);
                    }
                    tiles.push(tile);
                    c += 1;
                }
                b += 1;
            }
            a += 1;
        }
        assert(tiles@ =~= all_tiles());
        tiles
    }
}

} // verus!
