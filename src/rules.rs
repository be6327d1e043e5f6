//! The mathematical model of a move: where a tile slides to, what a single
//! tile's slide does to the cells, and the whole move as the slides of all
//! cells in traversal order.
use vstd::prelude::*;
use crate::position::{Direction, Position, SIDE, delta, in_bounds, cell_index, position_of};
use crate::tile::{Tile, TileState, new_tile};

verus! {

/// The cells of a grid in row-major order; `None` is an empty cell.
pub type Cells = Seq<Option<Tile>>;

/// Whether doubling `n` stays within `i32`.
pub open spec fn doubles_fit(n: i32) -> bool {
    i32::MIN <= 2 * n <= i32::MAX
}

/// A tile that may still merge can be doubled without overflow.
pub open spec fn cell_fits(c: Option<Tile>) -> bool {
    c matches Some(t) ==> (t.state != TileState::Merged ==> doubles_fit(t.number))
}

/// Every tile that may still merge can be doubled without overflow.
pub open spec fn tiles_fit(cells: Cells) -> bool {
    forall|k: int| 0 <= k < cells.len() ==> cell_fits(#[trigger] cells[k])
}

/// Every tile of the grid can be doubled without overflow.
pub open spec fn numbers_fit(cells: Cells) -> bool {
    forall|k: int| 0 <= k < cells.len() ==> (#[trigger] cells[k] matches Some(t) ==> doubles_fit(t.number))
}

/// How many steps (`i`, `j`) lies from the edge that `direction` faces.
pub open spec fn steps_to_edge(i: int, j: int, direction: Direction) -> nat {
    match direction {
        Direction::Left => j as nat,
        Direction::Right => (SIDE - 1 - j) as nat,
        Direction::Up => i as nat,
        Direction::Down => (SIDE - 1 - i) as nat,
    }
}

/// Where a tile numbered `number` that stands at (`i`, `j`) comes to rest
/// when it slides in `direction`, and whether it merges there: it crosses
/// empty cells, stops before the edge or before a tile it cannot merge with,
/// and enters the cell of an equal tile that has not merged yet.
pub open spec fn destination(cells: Cells, i: int, j: int, direction: Direction, number: i32) -> (int, int, bool)
    decreases steps_to_edge(i, j, direction),
{
    let ni = i + delta(direction).0;
    let nj = j + delta(direction).1;
    if !in_bounds(i, j) || !in_bounds(ni, nj) {
        (i, j, false)
    } else {
        match cells[cell_index(ni, nj)] {
            Some(t) => if t.number == number && t.state != TileState::Merged {
                (ni, nj, true)
            } else {
                (i, j, false)
            },
            None => destination(cells, ni, nj, direction, number),
        }
    }
}

/// The tile that a merge of `t` into an equal tile leaves behind.
pub open spec fn merged_tile(t: Tile) -> Tile {
    Tile { number: (2 * t.number) as i32, state: TileState::Merged, previous_position: t.previous_position }
}

/// The cells after the tile at (`i`, `j`) slides in `direction`, and whether it left its cell.
pub open spec fn slide_from(cells: Cells, i: int, j: int, direction: Direction) -> (Cells, bool) {
    match cells[cell_index(i, j)] {
        None => (cells, false),
        Some(t) => {
            let dst = destination(cells, i, j, direction, t.number);
            if dst.0 == i && dst.1 == j {
                (cells, false)
            } else {
                let placed = if dst.2 { merged_tile(t) } else { t };
                (cells.update(cell_index(i, j), None).update(cell_index(dst.0, dst.1), Some(placed)), true)
            }
        }
    }
}

/// The `k`-th cell visited by a move in `direction`: rows top to bottom
/// (bottom to top for `Down`), and in each row columns left to right
/// (right to left for `Right`), so that cells nearer the target edge come first.
pub open spec fn traversal_at(direction: Direction, k: int) -> (int, int) {
    let row = if direction == Direction::Down { SIDE - 1 - k / SIDE as int } else { k / SIDE as int };
    let col = if direction == Direction::Right { SIDE - 1 - k % SIDE as int } else { k % SIDE as int };
    (row, col)
}

/// The cells after the first `k` cells of the traversal have slid, and
/// whether any tile left its cell.
pub open spec fn slide_through(cells: Cells, direction: Direction, k: nat) -> (Cells, bool)
    decreases k,
{
    if k == 0 {
        (cells, false)
    } else {
        let before = slide_through(cells, direction, (k - 1) as nat);
        let p = traversal_at(direction, k - 1);
        let step = slide_from(before.0, p.0, p.1, direction);
        (step.0, before.1 || step.1)
    }
}

/// The cells with every tile marked static and remembering its own position.
pub open spec fn prepared(cells: Cells) -> Cells {
    Seq::new(
        cells.len(),
        |k: int|
            match cells[k] {
                None => None,
                Some(t) => Some(
                    Tile { number: t.number, state: TileState::Static, previous_position: Some(position_of(k)) },
                ),
            },
    )
}

/// The cells after a move in `direction`, before any spawn, and whether any tile moved.
pub open spec fn slid(cells: Cells, direction: Direction) -> (Cells, bool) {
    slide_through(prepared(cells), direction, 16)
}

/// Whether some cell is empty.
pub open spec fn has_empty(cells: Cells) -> bool {
    exists|k: int| 0 <= k < cells.len() && #[trigger] cells[k] is None
}

/// The numbers that a spawned tile may hold.
pub open spec fn is_spawn_number(n: i32) -> bool {
    n == 2 || n == 4
}

/// `after` is `before` with one new tile of 2 or 4 in a cell that was empty,
/// or `before` itself when no cell was empty.
pub open spec fn spawn_outcome(before: Cells, after: Cells) -> bool {
    if has_empty(before) {
        exists|k: int, n: i32|
            0 <= k < before.len() && before[k] is None && is_spawn_number(n) && after == before.update(
                k,
                Some(new_tile(n)),
            )
    } else {
        after == before
    }
}

/// The number in each cell, which is all that equality of grids compares.
pub open spec fn cell_numbers(cells: Cells) -> Seq<Option<i32>> {
    Seq::new(cells.len(), |k: int| match cells[k] {
        None => None,
        Some(t) => Some(t.number),
    })
}

/// 1 for an occupied cell, 0 for an empty one.
pub open spec fn occupied(c: Option<Tile>) -> nat {
    if c is Some { 1 } else { 0 }
}

/// The number in a cell, 0 for an empty one.
pub open spec fn value(c: Option<Tile>) -> int {
    match c {
        Some(t) => t.number as int,
        None => 0,
    }
}

/// The number of tiles.
pub open spec fn count_tiles(cells: Cells) -> nat
    decreases cells.len(),
{
    if cells.len() == 0 {
        0
    } else {
        count_tiles(cells.drop_last()) + occupied(cells.last())
    }
}

/// The sum of the numbers of all tiles.
pub open spec fn sum_numbers(cells: Cells) -> int
    decreases cells.len(),
{
    if cells.len() == 0 {
        0
    } else {
        sum_numbers(cells.drop_last()) + value(cells.last())
    }
}

/// Half of `n`, rounded toward zero as `i32` division does.
pub open spec fn half_of(n: i32) -> i32 {
    if n >= 0 { (n / 2) as i32 } else { -((-n) / 2) as i32 }
}

/// The entries that draw a cell: the tile itself, and for a merged tile also
/// the half it absorbed, drawn at the same place.
pub open spec fn render_cell(k: int, c: Option<Tile>) -> Seq<(Position, Tile)> {
    match c {
        None => seq![],
        Some(t) => if t.state == TileState::Merged {
            seq![
                (position_of(k), t),
                (position_of(k), Tile { number: half_of(t.number), state: TileState::Static, previous_position: t.previous_position }),
            ]
        } else {
            seq![(position_of(k), t)]
        },
    }
}

/// The entries that draw the first `k` cells.
pub open spec fn render_prefix(cells: Cells, k: nat) -> Seq<(Position, Tile)>
    decreases k,
{
    if k == 0 {
        seq![]
    } else {
        render_prefix(cells, (k - 1) as nat) + render_cell(k - 1, cells[k - 1])
    }
}


/// A slide ends on the grid; a merge ends in the next cell, on an equal tile
/// that has not merged yet; any other slide that leaves its cell ends on an empty cell.
pub proof fn lemma_destination(cells: Cells, i: int, j: int, direction: Direction, number: i32)
    requires
        cells.len() == 16,
        in_bounds(i, j),
    ensures
        ({
            let r = destination(cells, i, j, direction, number);
            &&& in_bounds(r.0, r.1)
            &&& (r.0 == i && r.1 == j) || steps_to_edge(r.0, r.1, direction) < steps_to_edge(i, j, direction)
            &&& r.2 ==> !(r.0 == i && r.1 == j)
            &&& r.2 ==> (cells[cell_index(r.0, r.1)] matches Some(u) && u.number == number && u.state
                != TileState::Merged)
            &&& (!r.2 && !(r.0 == i && r.1 == j)) ==> cells[cell_index(r.0, r.1)] is None
        }),
    decreases steps_to_edge(i, j, direction),
{
    let ni = i + delta(direction).0;
    let nj = j + delta(direction).1;
    if in_bounds(ni, nj) && cells[cell_index(ni, nj)] is None {
        lemma_destination(cells, ni, nj, direction, number);
    }
}

/// A slide keeps the grid's size and keeps every tile that may merge doubleable.
pub proof fn lemma_slide_from_fits(cells: Cells, i: int, j: int, direction: Direction)
    requires
        cells.len() == 16,
        in_bounds(i, j),
        tiles_fit(cells),
    ensures
        slide_from(cells, i, j, direction).0.len() == 16,
        tiles_fit(slide_from(cells, i, j, direction).0),
{
    if let Some(t) = cells[cell_index(i, j)] {
        lemma_destination(cells, i, j, direction, t.number);
        let dst = destination(cells, i, j, direction, t.number);
        assert(cell_fits(cells[cell_index(dst.0, dst.1)]));
        assert(cell_fits(cells[cell_index(i, j)]));
        let after = slide_from(cells, i, j, direction).0;
        assert forall|k: int| 0 <= k < after.len() implies cell_fits(#[trigger] after[k]) by {
            assert(cell_fits(cells[k]));
        }
    }
}

/// Every cell of the traversal lies on the grid.
pub proof fn lemma_traversal_in_bounds(direction: Direction, k: int)
    requires
        0 <= k < 16,
    ensures
        in_bounds(traversal_at(direction, k).0, traversal_at(direction, k).1),
{
}

/// Preparing a grid whose numbers all double safely leaves every tile doubleable.
pub proof fn lemma_prepared_fits(cells: Cells)
    requires
        numbers_fit(cells),
    ensures
        tiles_fit(prepared(cells)),
        prepared(cells).len() == cells.len(),
{
    assert forall|k: int| 0 <= k < prepared(cells).len() implies cell_fits(#[trigger] prepared(cells)[k]) by {
        assert(cells[k] matches Some(t) ==> doubles_fit(t.number));
    }
}


/// Replacing one cell changes the tile count by the difference of the two cells.
pub proof fn lemma_count_update(cells: Cells, k: int, c: Option<Tile>)
    requires
        0 <= k < cells.len(),
    ensures
        count_tiles(cells.update(k, c)) == count_tiles(cells) - occupied(cells[k]) + occupied(c),
    decreases cells.len(),
{
    let after = cells.update(k, c);
    if k == cells.len() - 1 {
        assert(after.drop_last() =~= cells.drop_last());
    } else {
        assert(after.drop_last() =~= cells.drop_last().update(k, c));
        lemma_count_update(cells.drop_last(), k, c);
    }
}

/// Replacing one cell changes the sum by the difference of the two cells.
pub proof fn lemma_sum_update(cells: Cells, k: int, c: Option<Tile>)
    requires
        0 <= k < cells.len(),
    ensures
        sum_numbers(cells.update(k, c)) == sum_numbers(cells) - value(cells[k]) + value(c),
    decreases cells.len(),
{
    let after = cells.update(k, c);
    if k == cells.len() - 1 {
        assert(after.drop_last() =~= cells.drop_last());
    } else {
        assert(after.drop_last() =~= cells.drop_last().update(k, c));
        lemma_sum_update(cells.drop_last(), k, c);
    }
}

/// Some cell is empty exactly when there are fewer tiles than cells.
pub proof fn lemma_count_empty(cells: Cells)
    ensures
        count_tiles(cells) <= cells.len(),
        has_empty(cells) <==> count_tiles(cells) < cells.len(),
    decreases cells.len(),
{
    if cells.len() > 0 {
        let init = cells.drop_last();
        lemma_count_empty(init);
        if has_empty(init) {
            let w = choose|w: int| 0 <= w < init.len() && #[trigger] init[w] is None;
            assert(cells[w] is None);
        }
        if has_empty(cells) {
            let w = choose|w: int| 0 <= w < cells.len() && #[trigger] cells[w] is None;
            if w < init.len() {
                assert(init[w] is None);
            }
        }
        if cells.last() is None {
            assert(cells[cells.len() - 1] is None);
        }
    }
}

/// A slide never adds a tile, and one that moves a tile leaves its start cell empty.
pub proof fn lemma_slide_from_count(cells: Cells, i: int, j: int, direction: Direction)
    requires
        cells.len() == 16,
        in_bounds(i, j),
    ensures
        count_tiles(slide_from(cells, i, j, direction).0) <= count_tiles(cells),
        slide_from(cells, i, j, direction).1 ==> has_empty(slide_from(cells, i, j, direction).0),
{
    if let Some(t) = cells[cell_index(i, j)] {
        lemma_destination(cells, i, j, direction, t.number);
        let dst = destination(cells, i, j, direction, t.number);
        if !(dst.0 == i && dst.1 == j) {
            let s = cell_index(i, j);
            let d = cell_index(dst.0, dst.1);
            let placed = if dst.2 { merged_tile(t) } else { t };
            let mid = cells.update(s, None);
            lemma_count_update(cells, s, None);
            lemma_count_update(mid, d, Some(placed));
            let after = mid.update(d, Some(placed));
            assert(after[s] is None);
        }
    }
}

/// A slide keeps the sum of the numbers: a merge turns two equal numbers into their sum.
pub proof fn lemma_slide_from_sum(cells: Cells, i: int, j: int, direction: Direction)
    requires
        cells.len() == 16,
        in_bounds(i, j),
        tiles_fit(cells),
    ensures
        sum_numbers(slide_from(cells, i, j, direction).0) == sum_numbers(cells),
{
    if let Some(t) = cells[cell_index(i, j)] {
        lemma_destination(cells, i, j, direction, t.number);
        let dst = destination(cells, i, j, direction, t.number);
        if !(dst.0 == i && dst.1 == j) {
            let s = cell_index(i, j);
            let d = cell_index(dst.0, dst.1);
            assert(cell_fits(cells[d]));
            let placed = if dst.2 { merged_tile(t) } else { t };
            let mid = cells.update(s, None);
            lemma_sum_update(cells, s, None);
            lemma_sum_update(mid, d, Some(placed));
        }
    }
}

/// The slides of the first `k` cells of a traversal keep the grid's size, the
/// sum of its numbers and its tiles doubleable, never add a tile, and leave
/// an empty cell once a tile has moved.
pub proof fn lemma_slide_through(cells: Cells, direction: Direction, k: nat)
    requires
        cells.len() == 16,
        tiles_fit(cells),
        k <= 16,
    ensures
        slide_through(cells, direction, k).0.len() == 16,
        tiles_fit(slide_through(cells, direction, k).0),
        sum_numbers(slide_through(cells, direction, k).0) == sum_numbers(cells),
        count_tiles(slide_through(cells, direction, k).0) <= count_tiles(cells),
        slide_through(cells, direction, k).1 ==> has_empty(slide_through(cells, direction, k).0),
        !slide_through(cells, direction, k).1 ==> slide_through(cells, direction, k).0 == cells,
    decreases k,
{
    if k > 0 {
        lemma_slide_through(cells, direction, (k - 1) as nat);
        let before = slide_through(cells, direction, (k - 1) as nat).0;
        let p = traversal_at(direction, k - 1);
        lemma_traversal_in_bounds(direction, k - 1);
        lemma_slide_from_fits(before, p.0, p.1, direction);
        lemma_slide_from_count(before, p.0, p.1, direction);
        lemma_slide_from_sum(before, p.0, p.1, direction);
        let after = slide_from(before, p.0, p.1, direction).0;
        lemma_count_empty(before);
        lemma_count_empty(after);
    }
}

/// Preparing keeps the tile count and the numbers, and is idempotent.
pub proof fn lemma_prepared(cells: Cells)
    ensures
        count_tiles(prepared(cells)) == count_tiles(cells),
        sum_numbers(prepared(cells)) == sum_numbers(cells),
        cell_numbers(prepared(cells)) == cell_numbers(cells),
        prepared(prepared(cells)) == prepared(cells),
    decreases cells.len(),
{
    assert(cell_numbers(prepared(cells)) =~= cell_numbers(cells));
    assert(prepared(prepared(cells)) =~= prepared(cells));
    if cells.len() > 0 {
        lemma_prepared(cells.drop_last());
        assert(prepared(cells).drop_last() =~= prepared(cells.drop_last()));
    }
}


/// A grid without tiles counts none.
pub proof fn lemma_count_none(cells: Cells)
    requires
        forall|k: int| 0 <= k < cells.len() ==> #[trigger] cells[k] is None,
    ensures
        count_tiles(cells) == 0,
    decreases cells.len(),
{
    if cells.len() > 0 {
        let init = cells.drop_last();
        assert forall|k: int| 0 <= k < init.len() implies #[trigger] init[k] is None by {
            assert(cells[k] is None);
        }
        lemma_count_none(init);
        assert(cells[cells.len() - 1] is None);
    }
}

} // verus!
