//! Properties of moves that hold for every grid and direction.
use vstd::prelude::*;
use crate::position::{Direction, delta, in_bounds, cell_index};
use crate::tile::{Tile, TileState, new_tile};
use crate::rules::{
    Cells, count_tiles, sum_numbers, cell_numbers, slid, prepared, spawn_outcome, has_empty, numbers_fit,
    slide_from, merged_tile, doubles_fit, lemma_slide_through, lemma_prepared, lemma_prepared_fits,
    lemma_count_update, lemma_sum_update,
};

verus! {

/// A move in which no tile moves leaves every tile's number where it was, and
/// the same move made again changes nothing at all: it yields exactly the same
/// cells and again moves nothing.
pub proof fn law_noop_move_is_stable(cells: Cells, direction: Direction)
    requires
        cells.len() == 16,
        numbers_fit(cells),
        !slid(cells, direction).1,
    ensures
        slid(cells, direction).0 == prepared(cells),
        cell_numbers(slid(cells, direction).0) == cell_numbers(cells),
        slid(slid(cells, direction).0, direction) == slid(cells, direction),
{
    lemma_prepared_fits(cells);
    lemma_slide_through(prepared(cells), direction, 16);
    lemma_prepared(cells);
}

/// Spawning into a grid with an empty cell adds one tile, of number 2 or 4.
proof fn lemma_spawn(before: Cells, after: Cells)
    requires
        has_empty(before),
        spawn_outcome(before, after),
    ensures
        count_tiles(after) == count_tiles(before) + 1,
        sum_numbers(after) == sum_numbers(before) + 2 || sum_numbers(after) == sum_numbers(before) + 4,
{
    let (k, n) = choose|k: int, n: i32|
        0 <= k < before.len() && before[k] is None && (n == 2 || n == 4) && after == before.update(
            k,
            Some(new_tile(n)),
        );
    lemma_count_update(before, k, Some(new_tile(n)));
    lemma_sum_update(before, k, Some(new_tile(n)));
}

/// With spawning on, a move in which some tile moved leaves exactly one tile
/// more than the slides alone did, and a move in which none moved leaves as
/// many tiles as there were. `after` is what `Grid::move_in` leaves when
/// spawning is on.
pub proof fn law_spawn_only_after_change(before: Cells, direction: Direction, after: Cells)
    requires
        before.len() == 16,
        numbers_fit(before),
        slid(before, direction).1 ==> spawn_outcome(slid(before, direction).0, after),
        !slid(before, direction).1 ==> after == slid(before, direction).0,
    ensures
        slid(before, direction).1 ==> count_tiles(after) == count_tiles(slid(before, direction).0) + 1,
        !slid(before, direction).1 ==> count_tiles(after) == count_tiles(before),
{
    lemma_prepared_fits(before);
    lemma_slide_through(prepared(before), direction, 16);
    lemma_prepared(before);
    if slid(before, direction).1 {
        lemma_spawn(slid(before, direction).0, after);
    }
}

/// The sum of the numbers after a move is the sum before it, plus the number
/// of the spawned tile, 2 or 4, when one was spawned. `after` is what
/// `Grid::move_in` leaves, with spawning on or off.
pub proof fn law_sum_of_numbers(before: Cells, direction: Direction, spawning: bool, after: Cells)
    requires
        before.len() == 16,
        numbers_fit(before),
        slid(before, direction).1 && spawning ==> spawn_outcome(slid(before, direction).0, after),
        !(slid(before, direction).1 && spawning) ==> after == slid(before, direction).0,
    ensures
        sum_numbers(slid(before, direction).0) == sum_numbers(before),
        !(slid(before, direction).1 && spawning) ==> sum_numbers(after) == sum_numbers(before),
        slid(before, direction).1 && spawning ==> (sum_numbers(after) == sum_numbers(before) + 2
            || sum_numbers(after) == sum_numbers(before) + 4),
{
    lemma_prepared_fits(before);
    lemma_slide_through(prepared(before), direction, 16);
    lemma_prepared(before);
    if slid(before, direction).1 && spawning {
        lemma_spawn(slid(before, direction).0, after);
    }
}

/// A tile that slides into the next cell's equal tile, which has not merged
/// yet, merges with it: its own cell empties and the next cell holds one
/// merged tile of twice the number.
pub proof fn law_adjacent_equal_tiles_merge(cells: Cells, i: int, j: int, direction: Direction, t: Tile, u: Tile)
    requires
        cells.len() == 16,
        in_bounds(i, j),
        in_bounds(i + delta(direction).0, j + delta(direction).1),
        cells[cell_index(i, j)] == Some(t),
        cells[cell_index(i + delta(direction).0, j + delta(direction).1)] == Some(u),
        u.number == t.number,
        u.state != TileState::Merged,
        doubles_fit(t.number),
    ensures
        slide_from(cells, i, j, direction) == (
            cells.update(cell_index(i, j), None).update(
                cell_index(i + delta(direction).0, j + delta(direction).1),
                Some(merged_tile(t)),
            ),
            true,
        ),
        merged_tile(t).number == 2 * t.number,
        merged_tile(t).state == TileState::Merged,
{
}

/// A tile that merged during this move merges no more: a tile that meets it
/// stops in front of it.
pub proof fn law_merged_tile_merges_once(cells: Cells, i: int, j: int, direction: Direction, t: Tile, u: Tile)
    requires
        cells.len() == 16,
        in_bounds(i, j),
        in_bounds(i + delta(direction).0, j + delta(direction).1),
        cells[cell_index(i, j)] == Some(t),
        cells[cell_index(i + delta(direction).0, j + delta(direction).1)] == Some(u),
        u.state == TileState::Merged,
    ensures
        slide_from(cells, i, j, direction) == (cells, false),
{
}

} // verus!
