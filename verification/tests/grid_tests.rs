use game_of_life::Cell;
use game_of_life::Grid;

/// Collects the coordinates of every live cell, row by row.
fn alive_cells(grid: &Grid) -> Vec<(usize, usize)> {
    let mut alive = Vec::new();
    for y in 0..grid.height() {
        for x in 0..grid.width() {
            if grid.get_cell(x, y) == Cell::Alive {
                alive.push((x, y));
            }
        }
    }
    alive
}

fn grids_equal(a: &Grid, b: &Grid) -> bool {
    if a.width() != b.width() || a.height() != b.height() {
        return false;
    }
    for y in 0..a.height() {
        for x in 0..a.width() {
            if a.get_cell(x, y) != b.get_cell(x, y) {
                return false;
            }
        }
    }
    true
}

#[test]
fn new_grid_is_all_dead() {
    let grid = Grid::new(4, 3);
    assert_eq!(grid.width(), 4);
    assert_eq!(grid.height(), 3);
    assert!(alive_cells(&grid).is_empty());
}

#[test]
fn get_cell_returns_what_set_cell_wrote() {
    let mut grid = Grid::new(5, 5);
    grid.set_cell(2, 3, Cell::Alive);
    assert_eq!(grid.get_cell(2, 3), Cell::Alive);
    assert_eq!(grid.get_cell(3, 2), Cell::Dead);
    grid.set_cell(2, 3, Cell::Dead);
    assert_eq!(grid.get_cell(2, 3), Cell::Dead);
}

#[test]
fn next_generation_preserves_dimensions() {
    let mut grid = Grid::new(7, 4);
    grid.set_cell(1, 1, Cell::Alive);
    grid.set_cell(2, 1, Cell::Alive);
    grid.next_generation();
    assert_eq!(grid.width(), 7);
    assert_eq!(grid.height(), 4);
}

#[test]
fn count_neighbors_counts_exactly_the_live_moore_neighbors() {
    let mut grid = Grid::new(3, 3);
    grid.set_cell(0, 0, Cell::Alive);
    grid.set_cell(1, 0, Cell::Alive);
    grid.set_cell(2, 2, Cell::Alive);
    // Neighbors of (1, 1) are all eight other cells: three are alive.
    assert_eq!(grid.count_neighbors(1, 1), 3);
    // (1, 1) itself is dead, and (2, 2) is not adjacent to (0, 0).
    assert_eq!(grid.count_neighbors(0, 0), 1);
    // The live cell itself is excluded from its own count.
    grid.set_cell(1, 1, Cell::Alive);
    assert_eq!(grid.count_neighbors(1, 1), 3);
}

#[test]
fn next_generation_is_deterministic() {
    let pattern = [(1usize, 0usize), (2, 1), (0, 2), (1, 2), (2, 2)];
    let mut first = Grid::new(6, 6);
    let mut second = Grid::new(6, 6);
    for &(x, y) in pattern.iter() {
        first.set_cell(x, y, Cell::Alive);
        second.set_cell(x, y, Cell::Alive);
    }
    assert!(grids_equal(&first, &second));
    first.next_generation();
    second.next_generation();
    assert!(grids_equal(&first, &second));
}

#[test]
fn isolated_alive_cell_dies() {
    let mut grid = Grid::new(3, 3);
    grid.set_cell(1, 1, Cell::Alive);
    grid.next_generation();
    assert_eq!(grid.get_cell(1, 1), Cell::Dead);
}

#[test]
fn alive_cell_with_two_neighbors_survives() {
    let mut grid = Grid::new(3, 3);
    grid.set_cell(0, 1, Cell::Alive);
    grid.set_cell(1, 1, Cell::Alive);
    grid.set_cell(2, 1, Cell::Alive);
    assert_eq!(grid.count_neighbors(1, 1), 2);
    grid.next_generation();
    assert_eq!(grid.get_cell(1, 1), Cell::Alive);
}

#[test]
fn alive_cell_with_four_neighbors_dies() {
    let mut grid = Grid::new(3, 3);
    grid.set_cell(1, 1, Cell::Alive);
    grid.set_cell(0, 0, Cell::Alive);
    grid.set_cell(2, 0, Cell::Alive);
    grid.set_cell(0, 2, Cell::Alive);
    grid.set_cell(2, 2, Cell::Alive);
    assert_eq!(grid.count_neighbors(1, 1), 4);
    grid.next_generation();
    assert_eq!(grid.get_cell(1, 1), Cell::Dead);
}

#[test]
fn dead_cell_with_three_neighbors_is_born() {
    let mut grid = Grid::new(3, 3);
    grid.set_cell(0, 0, Cell::Alive);
    grid.set_cell(1, 0, Cell::Alive);
    grid.set_cell(2, 0, Cell::Alive);
    assert_eq!(grid.count_neighbors(1, 1), 3);
    grid.next_generation();
    assert_eq!(grid.get_cell(1, 1), Cell::Alive);
}

#[test]
fn dead_cell_with_two_neighbors_stays_dead() {
    let mut grid = Grid::new(3, 3);
    grid.set_cell(0, 0, Cell::Alive);
    grid.set_cell(1, 0, Cell::Alive);
    assert_eq!(grid.count_neighbors(1, 1), 2);
    grid.next_generation();
    assert_eq!(grid.get_cell(1, 1), Cell::Dead);
}

#[test]
fn block_pattern_is_a_fixed_point() {
    let mut grid = Grid::new(6, 6);
    grid.set_cell(2, 2, Cell::Alive);
    grid.set_cell(3, 2, Cell::Alive);
    grid.set_cell(2, 3, Cell::Alive);
    grid.set_cell(3, 3, Cell::Alive);
    grid.next_generation();
    let alive = alive_cells(&grid);
    assert_eq!(alive, vec![(2, 2), (3, 2), (2, 3), (3, 3)]);
}

#[test]
fn glider_advances_to_its_known_next_configuration() {
    // The standard five-cell glider, placed at offset (3, 3) on an
    // otherwise dead 10-by-10 grid.
    let mut grid = Grid::new(10, 10);
    for &(x, y) in [(4usize, 3usize), (5, 4), (3, 5), (4, 5), (5, 5)].iter() {
        grid.set_cell(x, y, Cell::Alive);
    }
    grid.next_generation();
    // One step later the glider must be in its known second phase.
    let expected = vec![(3usize, 4usize), (5, 4), (4, 5), (5, 5), (4, 6)];
    let mut alive = alive_cells(&grid);
    alive.sort_by(|a, b| (a.1, a.0).cmp(&(b.1, b.0)));
    assert_eq!(alive, expected);
}

#[test]
fn corner_cell_counts_no_neighbors_beyond_the_edge() {
    let mut grid = Grid::new(3, 3);
    grid.set_cell(0, 0, Cell::Alive);
    assert_eq!(grid.count_neighbors(0, 0), 0);
    // The live corner cell is a neighbor of the cells next to it.
    assert_eq!(grid.count_neighbors(1, 0), 1);
    assert_eq!(grid.count_neighbors(1, 1), 1);
}
