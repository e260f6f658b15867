//! Tiles and the three disjoint sets of numbers printed on their edges.

use vstd::prelude::*;

verus! {

/// The orientation along which a scoring line reads the edges of its tiles.
#[derive(Clone, Copy, PartialEq, Eq, Structural, Debug)]
pub enum Direction {
    /// From top to bottom.
    Top,
    /// From down left to up right.
    Left,
    /// From down right to up left.
    Right,
}

/// The largest number that an edge of the given orientation can show.
pub open spec fn max_number_spec(direction: Direction) -> nat {
    match direction {
        Direction::Top => 9,
        Direction::Left => 7,
        Direction::Right => 8,
    }
}

/// The largest number that an edge of the given orientation can show.
pub fn max_number(direction: &Direction) -> (r: u32)
    ensures
        r == max_number_spec(*direction),
{
    match direction {
        Direction::Top => NumTop::N9.number(),
        Direction::Left => NumLeft::N7.number(),
        Direction::Right => NumRight::N8.number(),
    }
}

/// The number on the vertical edge of a tile.
#[derive(PartialEq, Eq, Structural, Debug, Copy, Hash, Clone)]
pub enum NumTop {
    N1,
    N5,
    N9,
}

impl NumTop {
    /// The three numbers of this edge, in rising order.
    pub fn all() -> (numbers: [NumTop; 3])
        ensures
            forall|rank: int| 0 <= rank < 3 ==> #[trigger] numbers@[rank] == top_number(rank),
    {
        [NumTop::N1, NumTop::N5, NumTop::N9]
    }

    /// The number that this edge shows.
    pub open spec fn value(self) -> nat {
        match self {
            NumTop::N1 => 1,
            NumTop::N5 => 5,
            NumTop::N9 => 9,
        }
    }

    /// The edge that shows `num`, if `num` is one of 1, 5 and 9.
    pub fn from_int(num: i32) -> (r: Result<NumTop, ()>)
        ensures
            r is Ok <==> (num == 1 || num == 5 || num == 9),
            r is Ok ==> r->Ok_0.value() == num,
    {
        match num {
            1 => Ok(NumTop::N1),
            5 => Ok(NumTop::N5),
            9 => Ok(NumTop::N9),
            _ => Err(()),
        }
    }

    /// The number that this edge shows.
    pub fn number(self) -> (r: u32)
        ensures
            r == self.value(),
    {
        match self {
            NumTop::N1 => 1,
            NumTop::N5 => 5,
            NumTop::N9 => 9,
        }
    }
}

/// The number on the edge of a tile that runs from down left to up right.
#[derive(PartialEq, Eq, Structural, Debug, Copy, Hash, Clone)]
pub enum NumLeft {
    N2,
    N6,
    N7,
}

impl NumLeft {
    /// The three numbers of this edge, in rising order.
    pub fn all() -> (numbers: [NumLeft; 3])
        ensures
            forall|rank: int| 0 <= rank < 3 ==> #[trigger] numbers@[rank] == left_number(rank),
    {
        [NumLeft::N2, NumLeft::N6, NumLeft::N7]
    }

    /// The number that this edge shows.
    pub open spec fn value(self) -> nat {
        match self {
            NumLeft::N2 => 2,
            NumLeft::N6 => 6,
            NumLeft::N7 => 7,
        }
    }

    /// The edge that shows `num`, if `num` is one of 2, 6 and 7.
    pub fn from_int(num: i32) -> (r: Result<NumLeft, ()>)
        ensures
            r is Ok <==> (num == 2 || num == 6 || num == 7),
            r is Ok ==> r->Ok_0.value() == num,
    {
        match num {
            2 => Ok(NumLeft::N2),
            6 => Ok(NumLeft::N6),
            7 => Ok(NumLeft::N7),
            _ => Err(()),
        }
    }

    /// The number that this edge shows.
    pub fn number(self) -> (r: u32)
        ensures
            r == self.value(),
    {
        match self {
            NumLeft::N2 => 2,
            NumLeft::N6 => 6,
            NumLeft::N7 => 7,
        }
    }
}

/// The number on the edge of a tile that runs from down right to up left.
#[derive(PartialEq, Eq, Structural, Debug, Copy, Hash, Clone)]
pub enum NumRight {
    N3,
    N4,
    N8,
}

impl NumRight {
    /// The three numbers of this edge, in rising order.
    pub fn all() -> (numbers: [NumRight; 3])
        ensures
            forall|rank: int| 0 <= rank < 3 ==> #[trigger] numbers@[rank] == right_number(rank),
    {
        [NumRight::N3, NumRight::N4, NumRight::N8]
    }

    /// The number that this edge shows.
    pub open spec fn value(self) -> nat {
        match self {
            NumRight::N3 => 3,
            NumRight::N4 => 4,
            NumRight::N8 => 8,
        }
    }

    /// The edge that shows `num`, if `num` is one of 3, 4 and 8.
    pub fn from_int(num: i32) -> (r: Result<NumRight, ()>)
        ensures
            r is Ok <==> (num == 3 || num == 4 || num == 8),
            r is Ok ==> r->Ok_0.value() == num,
    {
        match num {
            3 => Ok(NumRight::N3),
            4 => Ok(NumRight::N4),
            8 => Ok(NumRight::N8),
            _ => Err(()),
        }
    }

    /// The number that this edge shows.
    pub fn number(self) -> (r: u32)
        ensures
            r == self.value(),
    {
        match self {
            NumRight::N3 => 3,
            NumRight::N4 => 4,
            NumRight::N8 => 8,
        }
    }
}

/// A tile: one number from each of the three sets, one per orientation.
#[derive(PartialEq, Eq, Structural, Clone, Copy, Hash, Debug)]
pub struct Tile {
    pub top: NumTop,
    pub left: NumLeft,
    pub right: NumRight,
}

impl Tile {
    /// The number that the tile shows along `direction`.
    pub open spec fn edge(self, direction: Direction) -> nat {
        match direction {
            Direction::Top => self.top.value(),
            Direction::Left => self.left.value(),
            Direction::Right => self.right.value(),
        }
    }

    /// The number that the tile shows along `direction`.
    pub fn number(&self, direction: &Direction) -> (r: u32)
        ensures
            r == self.edge(*direction),
            1 <= r <= max_number_spec(*direction),
    {
        match direction {
            Direction::Top => self.top.number(),
            Direction::Left => self.left.number(),
            Direction::Right => self.right.number(),
        }
    }
}

/// The number of tiles of the game.
pub const TILE_COUNT: usize = 27;

/// The vertical numbers in rising order.
pub open spec fn top_number(rank: int) -> NumTop {
    if rank <= 0 {
        NumTop::N1
    } else if rank == 1 {
        NumTop::N5
    } else {
        NumTop::N9
    }
}

/// The numbers of the edge from down left to up right, in rising order.
pub open spec fn left_number(rank: int) -> NumLeft {
    if rank <= 0 {
        NumLeft::N2
    } else if rank == 1 {
        NumLeft::N6
    } else {
        NumLeft::N7
    }
}

/// The numbers of the edge from down right to up left, in rising order.
pub open spec fn right_number(rank: int) -> NumRight {
    if rank <= 0 {
        NumRight::N3
    } else if rank == 1 {
        NumRight::N4
    } else {
        NumRight::N8
    }
}

/// The tile at a place of the universe: the vertical number changes slowest,
/// the number from down right to up left fastest.
pub open spec fn tile_at(index: int) -> Tile {
    Tile { top: top_number(index / 9), left: left_number((index / 3) % 3), right: right_number(index % 3) }
}

/// The universe: every combination of one number per orientation, once.
pub open spec fn all_tiles() -> Seq<Tile> {
    Seq::new(27, |index: int| tile_at(index))
}

/// The place of a tile in the universe.
pub open spec fn tile_index(tile: Tile) -> int {
    9 * match tile.top {
        NumTop::N1 => 0int,
        NumTop::N5 => 1int,
        NumTop::N9 => 2int,
    } + 3 * match tile.left {
        NumLeft::N2 => 0int,
        NumLeft::N6 => 1int,
        NumLeft::N7 => 2int,
    } + match tile.right {
        NumRight::N3 => 0int,
        NumRight::N4 => 1int,
        NumRight::N8 => 2int,
    }
}

/// There are exactly twenty-seven tiles: the universe lists every tile, each once.
pub proof fn lemma_all_tiles_lists_every_tile_once()
    ensures
        all_tiles().len() == 27,
        forall|tile: Tile| 0 <= #[trigger] tile_index(tile) < 27 && all_tiles()[tile_index(tile)] == tile,
        forall|i: int| 0 <= i < 27 ==> tile_index(#[trigger] all_tiles()[i]) == i,
        forall|tile: Tile| #[trigger] all_tiles().contains(tile),
        all_tiles().no_duplicates(),
{
    let s = all_tiles();
    assert forall|tile: Tile| 0 <= #[trigger] tile_index(tile) < 27 && s[tile_index(tile)] == tile by {
        let i = tile_index(tile);
        assert(0 <= i < 27);
        assert(s[i] == tile_at(i));
    }
    assert forall|i: int| 0 <= i < 27 implies tile_index(#[trigger] s[i]) == i by {
        assert(s[i] == tile_at(i));
    }
    assert forall|tile: Tile| #[trigger] s.contains(tile) by {
        assert(s[tile_index(tile)] == tile);
    }
    assert forall|i: int, j: int| 0 <= i < s.len() && 0 <= j < s.len() && i != j implies s[i] != s[j] by {
        assert(tile_index(s[i]) == i);
        assert(tile_index(s[j]) == j);
    }
}

} // verus!
