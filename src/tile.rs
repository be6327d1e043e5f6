use vstd::prelude::*;
use crate::position::Position;

verus! {

/// What happened to a tile during the latest move.
#[derive(Debug, Copy, Clone, PartialEq, Eq, Structural)]
pub enum TileState {
    /// Spawned by the latest move.
    New,
    /// Carried over without merging.
    Static,
    /// Produced by a merge during the latest move.
    Merged,
}

impl TileState {
    /// The lower-case name of the state.
    pub fn to_string(&self) -> (r: &'static str)
        ensures
            *self == TileState::New ==> r@ == "new"@,
            *self == TileState::Static ==> r@ == "static"@,
            *self == TileState::Merged ==> r@ == "merged"@,
    {
        match self {
            TileState::New => "new",
            TileState::Static => "static",
            TileState::Merged => "merged",
        }
    }
}

/// A numbered tile. Two tiles are equal when their numbers are.
#[derive(Debug, Copy, Clone, Eq)]
pub struct Tile {
    pub number: i32,
    pub state: TileState,
    /// Where the tile stood before the latest move, if it existed then.
    pub previous_position: Option<Position>,
}

/// A freshly spawned tile holding `number`.
pub open spec fn new_tile(number: i32) -> Tile {
    Tile { number, state: TileState::New, previous_position: None }
}

impl Tile {
    pub fn new(number: i32) -> (r: Tile)
        ensures
            r == new_tile(number),
    {
        Tile { number, state: TileState::New, previous_position: None }
    }
}

impl PartialEq for Tile {
    fn eq(&self, other: &Tile) -> (r: bool)
        ensures
            r == (self.number == other.number),
    {
        self.number == other.number
    }
}

impl vstd::std_specs::cmp::PartialEqSpecImpl for Tile {
    open spec fn obeys_eq_spec() -> bool {
        true
    }

    open spec fn eq_spec(&self, other: &Tile) -> bool {
        self.number == other.number
    }
}

} // verus!
