use vstd::prelude::*;

verus! {

/// Why a board refused a boat.
#[derive(Clone, Copy, Debug, PartialEq, Eq, Structural)]
pub enum PlacementError {
    /// The boat's rectangle does not lie inside the board.
    OutOfBounds,
    /// A cell of the rectangle, or of the one-cell margin around it, already
    /// belongs to a boat.
    Overlap,
}

/// A coordinate outside the board.
#[derive(Clone, Copy, Debug, PartialEq, Eq, Structural)]
pub struct OutOfBounds;

/// A player name that is already registered.
#[derive(Clone, Copy, Debug, PartialEq, Eq, Structural)]
pub struct DuplicateName;

/// Why a request to a player or to the game failed.
#[derive(Clone, Copy, Debug, PartialEq, Eq, Structural)]
pub enum GameError {
    /// No player of that name is registered.
    UnknownPlayer,
    /// The player's fleet has no boat of that identifier.
    UnknownBoat,
    /// The coordinate, or the boat's rectangle, leaves the board.
    OutOfBounds,
    /// The boat would touch another one.
    Overlap,
}

impl GameError {
    /// The error that a board's refusal becomes at the level of the player.
    pub open spec fn of_placement(e: PlacementError) -> GameError {
        match e {
            PlacementError::OutOfBounds => GameError::OutOfBounds,
            PlacementError::Overlap => GameError::Overlap,
        }
    }

    /// The error that a board's refusal becomes at the level of the player.
    pub fn from_placement(e: PlacementError) -> (error: GameError)
        ensures
            error == GameError::of_placement(e),
    {
        match e {
            PlacementError::OutOfBounds => GameError::OutOfBounds,
            PlacementError::Overlap => GameError::Overlap,
        }
    }
}

} // verus!
