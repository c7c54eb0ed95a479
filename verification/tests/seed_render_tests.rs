use game_of_life::Cell;
use game_of_life::Grid;

#[test]
fn sparse_seeding_keeps_dimensions_and_never_kills() {
    let mut grid = Grid::new(8, 5);
    grid.set_cell(1, 1, Cell::Alive);
    grid.set_cell(6, 4, Cell::Alive);
    grid.seed_sparse_random(5);
    assert_eq!(grid.width(), 8);
    assert_eq!(grid.height(), 5);
    // Cells that were alive before seeding are still alive.
    assert_eq!(grid.get_cell(1, 1), Cell::Alive);
    assert_eq!(grid.get_cell(6, 4), Cell::Alive);
}

#[test]
fn sparse_seeding_with_zero_draws_changes_nothing() {
    let mut grid = Grid::new(4, 4);
    grid.set_cell(2, 2, Cell::Alive);
    grid.seed_sparse_random(0);
    for y in 0..4 {
        for x in 0..4 {
            let expected = if (x, y) == (2, 2) { Cell::Alive } else { Cell::Dead };
            assert_eq!(grid.get_cell(x, y), expected);
        }
    }
}

#[test]
fn sparse_seeding_adds_at_most_the_drawn_number_of_cells() {
    let mut grid = Grid::new(10, 10);
    grid.seed_sparse_random(5);
    let mut alive = 0;
    for y in 0..10 {
        for x in 0..10 {
            if grid.get_cell(x, y) == Cell::Alive {
                alive += 1;
            }
        }
    }
    // Draws need not be distinct, so between 1 and 5 cells are alive.
    assert!(alive >= 1);
    assert!(alive <= 5);
}

#[test]
fn dense_seeding_with_probability_zero_leaves_every_cell_dead() {
    let mut grid = Grid::new(6, 6);
    grid.set_cell(3, 3, Cell::Alive);
    grid.seed_dense_random(0, 10);
    for y in 0..6 {
        for x in 0..6 {
            assert_eq!(grid.get_cell(x, y), Cell::Dead);
        }
    }
}

#[test]
fn dense_seeding_with_probability_one_makes_every_cell_alive() {
    let mut grid = Grid::new(6, 6);
    grid.seed_dense_random(10, 10);
    for y in 0..6 {
        for x in 0..6 {
            assert_eq!(grid.get_cell(x, y), Cell::Alive);
        }
    }
}

#[test]
fn render_writes_one_glyph_per_cell_and_one_line_per_row() {
    let mut grid = Grid::new(3, 2);
    grid.set_cell(0, 0, Cell::Alive);
    grid.set_cell(2, 1, Cell::Alive);
    let rendered: String = grid.render('*', ' ').into_iter().collect();
    assert_eq!(rendered, "*  \n  *\n");
}

#[test]
fn render_glyph_choice_is_the_callers() {
    let mut grid = Grid::new(2, 1);
    grid.set_cell(1, 0, Cell::Alive);
    let rendered: String = grid.render('#', '.').into_iter().collect();
    assert_eq!(rendered, ".#\n");
}
