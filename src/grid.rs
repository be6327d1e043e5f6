//! The grid engine: the cells, the move, and the spawning of new tiles.
use vstd::prelude::*;
use rand::rngs::ThreadRng;
use crate::position::{Direction, Position, CELLS, in_bounds, cell_index};
use crate::tile::{Tile, TileState, new_tile};
use crate::rules::{
    cell_fits, cell_numbers, count_tiles, destination, doubles_fit, has_empty, is_spawn_number, merged_tile,
    numbers_fit, prepared, render_cell, render_prefix, slid, slide_from, slide_through, spawn_outcome,
    steps_to_edge, tiles_fit, traversal_at,
};
use crate::rules::{
    lemma_count_empty, lemma_count_none, lemma_count_update, lemma_prepared_fits, lemma_slide_from_fits,
    lemma_traversal_in_bounds,
};
use crate::random::{choose_slot, chance};

verus! {

/// A four-by-four grid of tiles, with its own random generator and a switch
/// for spawning a new tile after each move that changed something.
#[derive(Debug, Copy, Clone)]
pub struct Grid {
    /// The cells in row-major order.
    pub cells: [Option<Tile>; 16],
    /// The source of the random draws of spawning.
    pub rng: ThreadRng,
    /// Whether a move that changed something spawns a new tile.
    pub enable_new_tiles: bool,
}

impl Grid {
    /// A grid of the given cells, with spawning on.
    pub fn new(cells: [Option<Tile>; 16]) -> (r: Grid)
        ensures
            r.cells@ == cells@,
            r.enable_new_tiles,
    {
        Grid { cells, rng: rand::thread_rng(), enable_new_tiles: true }
    }

    /// Turns spawning off for good.
    pub fn disable_new_tiles(&mut self)
        ensures
            final(self).cells@ == old(self).cells@,
            !final(self).enable_new_tiles,
    {
        self.enable_new_tiles = false;
    }

    /// The tile at `position`; `None` for an empty cell or a position off the grid.
    pub fn get(&self, position: Position) -> (r: Option<Tile>)
        ensures
            r == if in_bounds(position.i as int, position.j as int) {
                self.cells@[cell_index(position.i as int, position.j as int)]
            } else {
                None
            },
    {
        if position.is_out_of_bounds() {
            None
        } else {
            self.cells[position.index()]
        }
    }

    /// Marks every tile static and records its current position as its previous one.
    fn prepare_for_move(&mut self)
        ensures
            final(self).cells@ == prepared(old(self).cells@),
            final(self).rng == old(self).rng,
            final(self).enable_new_tiles == old(self).enable_new_tiles,
    {
        let ghost cells = self.cells@;
        let mut i: usize = 0;
        while i < CELLS
            invariant
                i <= CELLS,
                self.cells@.len() == CELLS,
                self.rng == old(self).rng,
                self.enable_new_tiles == old(self).enable_new_tiles,
                cells == old(self).cells@,
                forall|k: int| 0 <= k < i ==> #[trigger] self.cells@[k] == prepared(cells)[k],
                forall|k: int| i <= k < CELLS ==> #[trigger] self.cells@[k] == cells[k],
            decreases CELLS - i,
        {
            if let Some(tile) = self.cells[i] {
                self.cells[i] = Some(
                    Tile { number: tile.number, state: TileState::Static, previous_position: Some(Position::from_index(i)) },
                );
            }
            i += 1;
        }
        assert(self.cells@ =~= prepared(cells));
    }

    /// Slides every tile as far as it goes in `direction`, merging equal
    /// tiles, and spawns a new tile if anything moved and spawning is on.
    pub fn move_in(&mut self, direction: Direction)
        requires
            numbers_fit(old(self).cells@),
        ensures
            final(self).enable_new_tiles == old(self).enable_new_tiles,
            !(slid(old(self).cells@, direction).1 && old(self).enable_new_tiles) ==> final(self).cells@ == slid(
                old(self).cells@,
                direction,
            ).0,
            slid(old(self).cells@, direction).1 && old(self).enable_new_tiles ==> spawn_outcome(
                slid(old(self).cells@, direction).0,
                final(self).cells@,
            ),
    {
        let ghost start = old(self).cells@;
        self.prepare_for_move();
        proof {
            lemma_prepared_fits(start);
        }
        let traversal = direction.build_traversal();
        let mut moved = false;
        let mut k: usize = 0;
        while k < traversal.len()
            invariant
                traversal@.len() == CELLS,
                forall|m: int|
                    0 <= m < CELLS ==> (#[trigger] traversal@[m]).i as int == traversal_at(direction, m).0
                        && traversal@[m].j as int == traversal_at(direction, m).1,
                k <= CELLS,
                (self.cells@, moved) == slide_through(prepared(start), direction, k as nat),
                tiles_fit(self.cells@),
                self.cells@.len() == CELLS,
                self.enable_new_tiles == old(self).enable_new_tiles,
            decreases CELLS - k,
        {
            let start_position = traversal[k];
            proof {
                lemma_traversal_in_bounds(direction, k as int);
                lemma_slide_from_fits(self.cells@, start_position.i as int, start_position.j as int, direction);
            }
            let changed = self.traverse_from(start_position, direction);
            moved = moved || changed;
            k += 1;
        }
        if moved {
            self.add_random_tile();
        }
    }

    /// Whether every tile's number can be doubled without overflow, which a move asks.
    pub fn numbers_fit(&self) -> (r: bool)
        ensures
            r == numbers_fit(self.cells@),
    {
        let mut k: usize = 0;
        while k < CELLS
            invariant
                k <= CELLS,
                self.cells@.len() == CELLS,
                forall|m: int| 0 <= m < k ==> (#[trigger] self.cells@[m] matches Some(t) ==> doubles_fit(t.number)),
            decreases CELLS - k,
        {
            if let Some(tile) = self.cells[k] {
                if tile.number < i32::MIN / 2 || tile.number > i32::MAX / 2 {
                    return false;
                }
            }
            k += 1;
        }
        true
    }

    /// What a renderer draws, cell by cell in row-major order: each tile at
    /// its position, and after a merged tile the half it absorbed, at the same
    /// position, static, with the same previous position.
    pub fn tiles(&self) -> (r: Vec<(Position, Tile)>)
        ensures
            r@ == render_prefix(self.cells@, CELLS as nat),
    {
        let mut r: Vec<(Position, Tile)> = Vec::new();
        let mut k: usize = 0;
        while k < CELLS
            invariant
                k <= CELLS,
                self.cells@.len() == CELLS,
                r@ == render_prefix(self.cells@, k as nat),
            decreases CELLS - k,
        {
            let ghost before = r@;
            if let Some(tile) = self.cells[k] {
                let position = Position::from_index(k);
                r.push((position, tile));
                if tile.state == TileState::Merged {
                    r.push(
                        (
                            position,
                            Tile { number: tile.number / 2, state: TileState::Static, previous_position: tile.previous_position },
                        ),
                    );
                }
            }
            assert(r@ =~= before + render_cell(k as int, self.cells@[k as int]));
            k += 1;
        }
        r
    }

    /// The indices of the empty cells, in increasing order.
    fn empty_cells(&self) -> (r: Vec<usize>)
        ensures
            forall|x: usize| r@.contains(x) <==> (x < CELLS && self.cells@[x as int] is None),
            r@.len() == 0 <==> !has_empty(self.cells@),
    {
        let mut r: Vec<usize> = Vec::new();
        let mut i: usize = 0;
        while i < CELLS
            invariant
                i <= CELLS,
                self.cells@.len() == CELLS,
                forall|x: usize| r@.contains(x) <==> (x < i && self.cells@[x as int] is None),
            decreases CELLS - i,
        {
            if self.cells[i].is_none() {
                let ghost before = r@;
                r.push(i);
                assert forall|x: usize| r@.contains(x) <==> (x < i + 1 && self.cells@[x as int] is None) by {
                    if x == i {
                        assert(r@[before.len() as int] == x);
                    }
                    if before.contains(x) {
                        let w = choose|w: int| 0 <= w < before.len() && before[w] == x;
                        assert(r@[w] == x);
                    }
                    if r@.contains(x) && x != i {
                        let w = choose|w: int| 0 <= w < r@.len() && r@[w] == x;
                        assert(before[w] == x);
                    }
                }
            }
            i += 1;
        }
        proof {
            if r@.len() == 0 {
                assert forall|k: int| 0 <= k < self.cells@.len() implies !(#[trigger] self.cells@[k] is None) by {
                    assert(!r@.contains(k as usize));
                }
            } else {
                assert(r@.contains(r@[0]));
            }
        }
        r
    }

    /// Puts a new tile into the empty cell `slot`: a 4 when `four` holds, else a 2.
    pub fn place_new_tile(&mut self, slot: usize, four: bool)
        requires
            slot < CELLS,
            old(self).cells@[slot as int] is None,
        ensures
            final(self).cells@ == old(self).cells@.update(slot as int, Some(new_tile(if four { 4 } else { 2 }))),
            final(self).rng == old(self).rng,
            final(self).enable_new_tiles == old(self).enable_new_tiles,
    {
        let number: i32 = if four { 4 } else { 2 };
        self.cells[slot] = Some(Tile::new(number));
    }

    /// When spawning is on, puts a 2, or with chance one in ten a 4, into an
    /// empty cell picked at random; does nothing on a full grid.
    fn add_random_tile(&mut self)
        ensures
            final(self).enable_new_tiles == old(self).enable_new_tiles,
            !old(self).enable_new_tiles ==> final(self).cells@ == old(self).cells@,
            old(self).enable_new_tiles ==> spawn_outcome(old(self).cells@, final(self).cells@),
    {
        if !self.enable_new_tiles {
            return;
        }
        let slots = self.empty_cells();
        match choose_slot(&mut self.rng, &slots) {
            None => {},
            Some(slot) => {
                let four = chance(&mut self.rng, 1, 10);
                let ghost before = self.cells@;
                self.place_new_tile(slot, four);
                assert(is_spawn_number(if four { 4 } else { 2 }));
            },
        }
    }

    /// Slides the tile at `start_position`, if any, in `in_direction`; true
    /// when it left its cell.
    fn traverse_from(&mut self, start_position: Position, in_direction: Direction) -> (r: bool)
        requires
            in_bounds(start_position.i as int, start_position.j as int),
            tiles_fit(old(self).cells@),
        ensures
            (final(self).cells@, r) == slide_from(
                old(self).cells@,
                start_position.i as int,
                start_position.j as int,
                in_direction,
            ),
            final(self).rng == old(self).rng,
            final(self).enable_new_tiles == old(self).enable_new_tiles,
    {
        let ghost cells = self.cells@;
        let ghost (si, sj) = (start_position.i as int, start_position.j as int);
        let mut start_tile = match self.get(start_position) {
            Some(tile) => tile,
            None => return false,
        };
        let ghost original = start_tile;
        let ghost dst = destination(cells, si, sj, in_direction, original.number);
        let mut new_position = start_position;
        loop
            invariant_except_break
                self.cells@ == cells,
                tiles_fit(cells),
                start_tile == original,
                in_bounds(new_position.i as int, new_position.j as int),
                destination(cells, new_position.i as int, new_position.j as int, in_direction, original.number) == dst,
            ensures
                self.cells@ == cells,
                in_bounds(new_position.i as int, new_position.j as int),
                new_position.i == dst.0,
                new_position.j == dst.1,
                start_tile == if dst.2 { merged_tile(original) } else { original },
            decreases steps_to_edge(new_position.i as int, new_position.j as int, in_direction),
        {
            let next_position = new_position.add_direction(in_direction);
            if next_position.is_out_of_bounds() {
                break;
            }
            if let Some(tile) = self.get(next_position) {
                if tile == start_tile && tile.state != TileState::Merged {
                    assert(cell_fits(cells[cell_index(next_position.i as int, next_position.j as int)]));
                    start_tile.number = start_tile.number * 2;
                    start_tile.state = TileState::Merged;
                    new_position = next_position;
                }
                break;
            }
            new_position = next_position;
        }
        if start_position == new_position {
            return false;
        }
        self.cells[start_position.index()] = None;
        self.cells[new_position.index()] = Some(start_tile);
        true
    }
}

impl Default for Grid {
    /// Two tiles of 2 or 4 in otherwise empty cells, with spawning on.
    fn default() -> (r: Grid)
        ensures
            r.enable_new_tiles,
            count_tiles(r.cells@) == 2,
            forall|k: int|
                0 <= k < CELLS ==> (#[trigger] r.cells@[k] matches Some(t) ==> (t.state == TileState::New
                    && is_spawn_number(t.number) && t.previous_position is None)),
    {
        let mut grid = Grid::new([None; 16]);
        proof {
            assert forall|k: int| 0 <= k < CELLS implies #[trigger] grid.cells@[k] is None by {}
            lemma_count_none(grid.cells@);
            assert(grid.cells@[0] is None);
            lemma_count_empty(grid.cells@);
        }
        let ghost empty = grid.cells@;
        grid.add_random_tile();
        let ghost first = grid.cells@;
        proof {
            let (k, n) = choose|k: int, n: i32|
                0 <= k < empty.len() && empty[k] is None && is_spawn_number(n) && first == empty.update(
                    k,
                    Some(new_tile(n)),
                );
            lemma_count_update(empty, k, Some(new_tile(n)));
            lemma_count_empty(first);
        }
        grid.add_random_tile();
        proof {
            let second = grid.cells@;
            let (k, n) = choose|k: int, n: i32|
                0 <= k < first.len() && first[k] is None && is_spawn_number(n) && second == first.update(
                    k,
                    Some(new_tile(n)),
                );
            lemma_count_update(first, k, Some(new_tile(n)));
        }
        grid
    }

}

impl PartialEq for Grid {
    /// Grids are equal when every cell holds the same number, or is empty in both.
    fn eq(&self, other: &Grid) -> (r: bool)
        ensures
            r == (cell_numbers(self.cells@) == cell_numbers(other.cells@)),
    {
        let mut k: usize = 0;
        while k < CELLS
            invariant
                k <= CELLS,
                self.cells@.len() == CELLS,
                other.cells@.len() == CELLS,
                forall|m: int| 0 <= m < k ==> #[trigger] cell_numbers(self.cells@)[m] == cell_numbers(other.cells@)[m],
            decreases CELLS - k,
        {
            let same = match (self.cells[k], other.cells[k]) {
                (Some(a), Some(b)) => a.number == b.number,
                (None, None) => true,
                _ => false,
            };
            if !same {
                assert(cell_numbers(self.cells@)[k as int] != cell_numbers(other.cells@)[k as int]);
                return false;
            }
            k += 1;
        }
        assert(cell_numbers(self.cells@) =~= cell_numbers(other.cells@));
        true
    }
}

impl vstd::std_specs::cmp::PartialEqSpecImpl for Grid {
    open spec fn obeys_eq_spec() -> bool {
        true
    }

    open spec fn eq_spec(&self, other: &Grid) -> bool {
        cell_numbers(self.cells@) == cell_numbers(other.cells@)
    }
}

} // verus!
