//! A game in progress: the board, the tile in hand and the tiles to come.

use vstd::prelude::*;
use crate::board::{place_refusal, Board};
use crate::error::GameError;
use crate::field::Field;
use crate::placement::{
    is_full, is_placement, lemma_everything_remains_on_the_empty_board, lemma_place_keeps_placement,
    lemma_place_takes_one_of_each, lemma_placement_counts, lemma_remaining_tiles_complement_the_board,
    remaining_tiles, without,
};
use crate::reservoir::TileReservoir;
use crate::tile::Tile;

verus! {

/// A game: the board, the tile that is to be placed next, and the reservoir
/// from which the tile after it will be drawn.
#[derive(Debug)]
pub struct Game {
    board: Board,
    tile_reservoir: TileReservoir,
    current_tile: Option<Tile>,
}

/// What holds of every game: the board is a placement, a tile is in hand
/// that does not lie on the board, and the reservoir holds exactly the other
/// tiles that do not lie on the board.
pub open spec fn is_game_state(board: Map<Field, Tile>, reservoir: Seq<Tile>, current_tile: Option<Tile>) -> bool {
    &&& is_placement(board)
    &&& current_tile is Some
    &&& !board.contains_value(current_tile->0)
    &&& reservoir == without(remaining_tiles(board), current_tile->0)
}

impl Game {
    /// The placement on the board.
    pub closed spec fn board_view(self) -> Map<Field, Tile> {
        self.board@
    }

    /// The tiles in the reservoir.
    pub closed spec fn reservoir_view(self) -> Seq<Tile> {
        self.tile_reservoir.remaining_tiles@
    }

    /// The tile in hand.
    pub closed spec fn current_tile_view(self) -> Option<Tile> {
        self.current_tile
    }

    /// What holds of every game: its parts form a game state.
    #[verifier::type_invariant]
    pub closed spec fn wf(self) -> bool {
        is_game_state(self.board@, self.tile_reservoir.remaining_tiles@, self.current_tile)
    }

    /// A new game: an empty board and a first tile drawn at random.
    pub fn new() -> (game: Game)
        ensures
            game.board_view() == Map::<Field, Tile>::empty(),
            is_game_state(game.board_view(), game.reservoir_view(), game.current_tile_view()),
    {
        let board = Board::new();
        let mut tile_reservoir = TileReservoir::new();
        proof {
            lemma_everything_remains_on_the_empty_board();
        }
        match tile_reservoir.pick_random_tile() {
            Ok(current_tile) => Game { board, tile_reservoir, current_tile: Some(current_tile) },
            Err(_) => unreached(),
        }
    }

    /// The board.
    pub fn board(&self) -> (board: &Board)
        ensures
            board@ == self.board_view(),
            is_game_state(self.board_view(), self.reservoir_view(), self.current_tile_view()),
    {
        proof {
            use_type_invariant(self);
        }
        &self.board
    }

    /// The tile that is to be placed next. There always is one: the
    /// reservoir outlasts the cells.
    pub fn current_tile(&self) -> (tile: Option<Tile>)
        ensures
            tile == self.current_tile_view(),
            is_game_state(self.board_view(), self.reservoir_view(), self.current_tile_view()),
    {
        proof {
            use_type_invariant(self);
        }
        self.current_tile
    }

    /// Puts the tile in hand on `field` and draws the next one. Where the
    /// board refuses the field, nothing changes.
    pub fn place_tile(&mut self, field: Field) -> (r: Result<(), GameError>)
        ensures
            is_game_state(final(self).board_view(), final(self).reservoir_view(), final(self).current_tile_view()),
            match place_refusal(old(self).board_view(), field, old(self).current_tile_view()->0) {
                Some(e) => {
                    &&& r == Err::<(), GameError>(e)
                    &&& e != GameError::TileAlreadyUsed
                    &&& final(self).board_view() == old(self).board_view()
                    &&& final(self).reservoir_view() == old(self).reservoir_view()
                    &&& final(self).current_tile_view() == old(self).current_tile_view()
                },
                None => {
                    &&& r is Ok
                    &&& final(self).board_view() == old(self).board_view().insert(
                        field,
                        old(self).current_tile_view()->0,
                    )
                    &&& old(self).reservoir_view().contains(final(self).current_tile_view()->0)
                    &&& final(self).reservoir_view() == without(
                        old(self).reservoir_view(),
                        final(self).current_tile_view()->0,
                    )
                },
            },
    {
        proof {
            use_type_invariant(&*self);
        }
        let tile = match self.current_tile {
            Some(tile) => tile,
            None => unreached(),
        };
        let mut board = self.board.clone();
        match board.place_tile(field, tile) {
            Ok(()) => {},
            Err(e) => {
                return Err(e);
            },
        }
        let mut tile_reservoir = self.tile_reservoir.clone();
        proof {
            lemma_place_keeps_placement(self.board@, field, tile);
            lemma_place_takes_one_of_each(self.board@, field, tile);
            lemma_placement_counts(board@);
            lemma_remaining_tiles_complement_the_board(board@);
        }
        match tile_reservoir.pick_random_tile() {
            Ok(next) => {
                *self = Game { board, tile_reservoir, current_tile: Some(next) };
                Ok(())
            },
            Err(_) => unreached(),
        }
    }

    /// Whether every cell holds a tile.
    pub fn finished(&self) -> (r: bool)
        ensures
            r == is_full(self.board_view()),
            r == (self.board_view().len() == 19),
    {
        proof {
            use_type_invariant(self);
            lemma_placement_counts(self.board@);
        }
        self.board.len() == 3 + 4 + 5 + 4 + 3
    }
}

} // verus!
