use game2048::grid::Grid;
use game2048::position::{Direction, Position};
use game2048::tile::{Tile, TileState};

fn single(k: usize, tile: Tile) -> Grid {
    let mut cells = [None; 16];
    cells[k] = Some(tile);
    Grid::new(cells)
}

#[test]
fn direction_pairs() {
    assert_eq!(Direction::Left.as_pair(), (0, -1));
    assert_eq!(Direction::Right.as_pair(), (0, 1));
    assert_eq!(Direction::Up.as_pair(), (-1, 0));
    assert_eq!(Direction::Down.as_pair(), (1, 0));
}

#[test]
fn traversal_orders() {
    let right = Direction::Right.build_traversal();
    assert_eq!(right.len(), 16);
    assert_eq!(right[0], Position::new(0, 3));
    assert_eq!(right[3], Position::new(0, 0));
    assert_eq!(right[4], Position::new(1, 3));
    let down = Direction::Down.build_traversal();
    assert_eq!(down[0], Position::new(3, 0));
    assert_eq!(down[15], Position::new(0, 3));
    let up = Direction::Up.build_traversal();
    assert_eq!(up[5], Position::new(1, 1));
}

#[test]
fn positions_and_indices() {
    assert_eq!(Position::from_index(0), Position::new(0, 0));
    assert_eq!(Position::from_index(6), Position::new(1, 2));
    assert_eq!(Position::from_index(15), Position::new(3, 3));
    assert_eq!(Position::new(2, 1).index(), 9);
    assert!(!Position::new(3, 3).is_out_of_bounds());
    assert!(Position::new(4, 0).is_out_of_bounds());
    assert!(Position::new(0, 4).is_out_of_bounds());
}

#[test]
fn stepping_off_the_grid_is_out_of_bounds() {
    let corner = Position::new(0, 0);
    assert!(corner.add_direction(Direction::Left).is_out_of_bounds());
    assert!(corner.add_direction(Direction::Up).is_out_of_bounds());
    assert_eq!(corner.add_direction(Direction::Right), Position::new(0, 1));
    assert_eq!(corner.add_direction(Direction::Down), Position::new(1, 0));
    assert!(Position::new(3, 3).add_direction(Direction::Down).is_out_of_bounds());
}

#[test]
fn state_names() {
    assert_eq!(TileState::New.to_string(), "new");
    assert_eq!(TileState::Static.to_string(), "static");
    assert_eq!(TileState::Merged.to_string(), "merged");
}

#[test]
fn tiles_equal_by_number_only() {
    let a = Tile::new(8);
    let b = Tile { number: 8, state: TileState::Merged, previous_position: Some(Position::new(1, 1)) };
    assert_eq!(a, b);
    assert_ne!(a, Tile::new(4));
}

#[test]
fn grids_equal_by_numbers_only() {
    let a = single(5, Tile::new(2));
    let b = single(5, Tile { number: 2, state: TileState::Static, previous_position: None });
    assert_eq!(a, b);
    assert_ne!(a, single(6, Tile::new(2)));
    assert_ne!(a, single(5, Tile::new(4)));
}

#[test]
fn new_game_has_two_fresh_tiles() {
    for _ in 0..50 {
        let grid = Grid::default();
        assert!(grid.enable_new_tiles);
        let tiles: Vec<Tile> = grid.cells.iter().filter_map(|c| *c).collect();
        assert_eq!(tiles.len(), 2);
        for t in tiles {
            assert!(t.number == 2 || t.number == 4);
            assert_eq!(t.state, TileState::New);
            assert_eq!(t.previous_position, None);
        }
    }
}

#[test]
fn rendering_adds_the_absorbed_half_of_a_merge() {
    let merged = Tile { number: 8, state: TileState::Merged, previous_position: Some(Position::new(0, 2)) };
    let mut cells = [None; 16];
    cells[1] = Some(Tile::new(2));
    cells[3] = Some(merged);
    let entries = Grid::new(cells).tiles();
    assert_eq!(entries.len(), 3);
    assert_eq!(entries[0].0, Position::new(0, 1));
    assert_eq!(entries[1].0, Position::new(0, 3));
    assert_eq!(entries[1].1.state, TileState::Merged);
    assert_eq!(entries[1].1.number, 8);
    assert_eq!(entries[2].0, Position::new(0, 3));
    assert_eq!(entries[2].1.number, 4);
    assert_eq!(entries[2].1.state, TileState::Static);
    assert_eq!(entries[2].1.previous_position, Some(Position::new(0, 2)));
}

#[test]
fn rendering_an_empty_grid_draws_nothing() {
    assert!(Grid::new([None; 16]).tiles().is_empty());
}

#[test]
fn numbers_that_cannot_double_are_reported() {
    assert!(single(0, Tile::new(1 << 29)).numbers_fit());
    assert!(single(0, Tile::new(i32::MAX / 2)).numbers_fit());
    assert!(!single(0, Tile::new(1 << 30)).numbers_fit());
    assert!(Grid::new([None; 16]).numbers_fit());
}

#[test]
fn largest_doubleable_tiles_merge() {
    let mut cells = [None; 16];
    cells[0] = Some(Tile::new(1 << 29));
    cells[1] = Some(Tile::new(1 << 29));
    let mut grid = Grid::new(cells);
    grid.disable_new_tiles();
    grid.move_in(Direction::Left);
    assert_eq!(grid.cells[0].unwrap().number, 1 << 30);
    assert!(grid.cells[1].is_none());
}

#[test]
fn placing_a_tile_picks_its_number() {
    let mut grid = Grid::new([None; 16]);
    grid.place_new_tile(4, true);
    grid.place_new_tile(9, false);
    assert_eq!(grid.cells[4], Some(Tile::new(4)));
    assert_eq!(grid.cells[4].unwrap().state, TileState::New);
    assert_eq!(grid.cells[9].unwrap().number, 2);
    assert_eq!(grid.cells.iter().filter(|c| c.is_some()).count(), 2);
}

#[test]
fn get_reads_cells_and_nothing_off_the_grid() {
    let grid = single(6, Tile::new(16));
    assert_eq!(grid.get(Position::new(1, 2)).unwrap().number, 16);
    assert!(grid.get(Position::new(1, 1)).is_none());
    assert!(grid.get(Position::new(0, 6)).is_none());
}

#[test]
fn a_merge_makes_room_for_the_spawned_tile() {
    let numbers = [0, 4, 2, 2, 4, 2, 4, 2, 2, 4, 2, 4, 4, 2, 4, 2];
    let mut cells = [None; 16];
    for k in 0..16 {
        if numbers[k] > 0 {
            cells[k] = Some(Tile::new(numbers[k]));
        }
    }
    let mut grid = Grid::new(cells);
    grid.move_in(Direction::Right);
    assert_eq!(grid.cells.iter().filter(|c| c.is_some()).count(), 15);
    assert_eq!(grid.cells[3].unwrap().number, 4);
    assert_eq!(grid.cells[2].unwrap().number, 4);
    assert_eq!(grid.cells[3].unwrap().state, TileState::Merged);
}
