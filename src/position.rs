use vstd::prelude::*;
use crate::rules::traversal_at;

verus! {

/// Number of rows, and of columns, of the grid.
pub const SIDE: usize = 4;

/// Number of cells of the grid.
pub const CELLS: usize = 16;

/// One of the four directions in which tiles can slide.
#[derive(Debug, Copy, Clone, PartialEq, Eq, Structural)]
pub enum Direction {
    Left,
    Right,
    Up,
    Down,
}

/// The unit (row, column) step of a direction.
pub open spec fn delta(direction: Direction) -> (int, int) {
    match direction {
        Direction::Left => (0, -1),
        Direction::Right => (0, 1),
        Direction::Up => (-1, 0),
        Direction::Down => (1, 0),
    }
}

/// A value of `x` taken modulo the size of `usize`, for `x` at most one step outside its range.
pub open spec fn wrap_usize(x: int) -> int {
    if x < 0 {
        x + usize::MAX + 1
    } else if x > usize::MAX {
        x - usize::MAX - 1
    } else {
        x
    }
}

impl Direction {
    /// The (row, column) step of this direction.
    pub fn as_pair(self) -> (r: (i32, i32))
        ensures
            r.0 as int == delta(self).0,
            r.1 as int == delta(self).1,
    {
        match self {
            Direction::Left => (0, -1),
            Direction::Right => (0, 1),
            Direction::Up => (-1, 0),
            Direction::Down => (1, 0),
        }
    }

    /// The sixteen positions in the order a move in this direction visits them.
    pub fn build_traversal(self) -> (r: Vec<Position>)
        ensures
            r@.len() == CELLS,
            forall|k: int|
                0 <= k < CELLS ==> (#[trigger] r@[k]).i as int == traversal_at(self, k).0 && r@[k].j as int
                    == traversal_at(self, k).1,
    {
        let mut r: Vec<Position> = Vec::new();
        let mut k: usize = 0;
        while k < CELLS
            invariant
                k <= CELLS,
                r@.len() == k,
                forall|m: int|
                    0 <= m < k ==> (#[trigger] r@[m]).i as int == traversal_at(self, m).0 && r@[m].j as int
                        == traversal_at(self, m).1,
            decreases CELLS - k,
        {
            let i = if self == Direction::Down { SIDE - 1 - k / SIDE } else { k / SIDE };
            let j = if self == Direction::Right { SIDE - 1 - k % SIDE } else { k % SIDE };
            r.push(Position { i, j });
            k += 1;
        }
        r
    }
}

/// A (row, column) coordinate. It may lie outside the grid after a step.
#[derive(Debug, Copy, Clone, PartialEq, Eq, Structural)]
pub struct Position {
    pub i: usize,
    pub j: usize,
}

/// Whether (`i`, `j`) is a cell of the grid.
pub open spec fn in_bounds(i: int, j: int) -> bool {
    0 <= i < SIDE && 0 <= j < SIDE
}

/// The index in row-major order of the cell (`i`, `j`).
pub open spec fn cell_index(i: int, j: int) -> int {
    i * SIDE as int + j
}

/// The position of the cell with row-major index `k`.
pub open spec fn position_of(k: int) -> Position {
    Position { i: (k / SIDE as int) as usize, j: (k % SIDE as int) as usize }
}

impl Position {
    pub fn new(i: usize, j: usize) -> (r: Position)
        ensures
            r == (Position { i, j }),
    {
        Position { i, j }
    }

    /// The position of the cell with row-major index `index`.
    pub fn from_index(index: usize) -> (r: Position)
        ensures
            r == position_of(index as int),
            index < CELLS ==> in_bounds(r.i as int, r.j as int),
            index < CELLS ==> cell_index(r.i as int, r.j as int) == index,
    {
        Position { i: index / SIDE, j: index % SIDE }
    }

    /// The row-major index of this position.
    pub fn index(self) -> (r: usize)
        requires
            self.i * SIDE + self.j <= usize::MAX,
        ensures
            r as int == cell_index(self.i as int, self.j as int),
    {
        self.i * SIDE + self.j
    }

    pub fn is_out_of_bounds(self) -> (r: bool)
        ensures
            r == !in_bounds(self.i as int, self.j as int),
    {
        self.i >= SIDE || self.j >= SIDE
    }

    /// The position one step away in `direction`; a coordinate stepped below
    /// zero wraps to `usize::MAX`, which lies out of bounds.
    pub fn add_direction(self, direction: Direction) -> (r: Position)
        ensures
            r.i as int == wrap_usize(self.i + delta(direction).0),
            r.j as int == wrap_usize(self.j + delta(direction).1),
    {
        let (di, dj) = direction.as_pair();
        Position { i: self.i.wrapping_add_signed(di as isize), j: self.j.wrapping_add_signed(dj as isize) }
    }
}

} // verus!
