//! The ways in which a request to the game can fail.

use vstd::prelude::*;

verus! {

/// Why a request was refused.
#[derive(PartialEq, Eq, Structural, Clone, Copy, Hash, Debug)]
pub enum GameError {
    /// The coordinate pair is not one of the nineteen cells.
    InvalidField,
    /// The cell already holds a tile.
    FieldOccupied,
    /// The tile is no longer available: it lies on the board or has left the reservoir.
    TileAlreadyUsed,
    /// A tile was to be drawn from an empty reservoir.
    ReservoirExhausted,
    /// The best field was asked for among no candidates.
    EmptyScoreMapping,
}

} // verus!
