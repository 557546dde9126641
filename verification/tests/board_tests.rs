use battleships::board::{
    initialize_grid, initialize_grid_with_ships, resolve, Board, CellState, Outcome,
};

#[test]
fn initialize_grid_is_all_empty() {
    let grid = initialize_grid(3);
    assert_eq!(grid.len(), 3);
    for row in &grid {
        assert_eq!(row.len(), 3);
        for cell in row {
            assert_eq!(*cell, CellState::Empty);
        }
    }
}

#[test]
fn initialize_grid_with_ships_marks_ships() {
    let ships = vec![(0, 1), (2, 2)];
    let grid = initialize_grid_with_ships(3, &ships);
    for r in 0..3 {
        for c in 0..3 {
            let expected = if ships.contains(&(r, c)) {
                CellState::Ship
            } else {
                CellState::Empty
            };
            assert_eq!(grid[r][c], expected);
        }
    }
}

#[test]
fn create_sets_up_cells_and_ships() {
    let board = Board::create(4, vec![(1, 2), (3, 0)]);
    assert_eq!(board.size(), 4);
    assert_eq!(board.remaining_ships(), 2);
    assert!(board.has_ship_at((1, 2)));
    assert!(board.has_ship_at((3, 0)));
    assert!(!board.has_ship_at((0, 0)));
    assert_eq!(board.cell_at(1, 2), CellState::Ship);
    assert_eq!(board.cell_at(0, 0), CellState::Empty);
}

#[test]
fn resolve_hit_removes_ship_and_marks_cell() {
    let mut board = Board::create(3, vec![(1, 1), (0, 2)]);
    let before = board.remaining_ships();
    let outcome = resolve(&mut board, (1, 1));
    assert_eq!(outcome, Outcome::Hit);
    assert_eq!(board.cell_at(1, 1), CellState::Hit);
    assert!(!board.has_ship_at((1, 1)));
    assert_eq!(board.remaining_ships(), before - 1);
    // the other ship is untouched
    assert!(board.has_ship_at((0, 2)));
    assert_eq!(board.cell_at(0, 2), CellState::Ship);
}

#[test]
fn resolve_miss_leaves_ships_and_marks_cell() {
    let mut board = Board::create(3, vec![(1, 1)]);
    let outcome = resolve(&mut board, (2, 0));
    assert_eq!(outcome, Outcome::Miss);
    assert_eq!(board.cell_at(2, 0), CellState::Miss);
    assert_eq!(board.remaining_ships(), 1);
    assert!(board.has_ship_at((1, 1)));
}

#[test]
fn resolve_repeat_guess_is_a_miss() {
    let mut board = Board::create(2, vec![(0, 0)]);
    assert_eq!(resolve(&mut board, (0, 0)), Outcome::Hit);
    assert_eq!(resolve(&mut board, (0, 0)), Outcome::Miss);
    assert_eq!(board.cell_at(0, 0), CellState::Miss);
    assert_eq!(board.remaining_ships(), 0);
}

#[test]
fn is_defeated_iff_no_ships_remain_and_stays_defeated() {
    let mut board = Board::create(2, vec![(0, 0), (1, 1)]);
    assert!(!board.is_defeated());
    resolve(&mut board, (0, 0));
    assert!(!board.is_defeated());
    resolve(&mut board, (1, 1));
    assert!(board.is_defeated());
    // no later guess can revive a ship
    resolve(&mut board, (0, 1));
    resolve(&mut board, (1, 1));
    assert!(board.is_defeated());
}

#[test]
fn render_conceals_ships_unless_revealed() {
    let mut board = Board::create(2, vec![(0, 1)]);
    let concealed = board.render(false);
    // a concealed ship cell is indistinguishable from an empty one
    assert_eq!(concealed[0][1], concealed[0][0]);
    assert_eq!(concealed[0][1], '~');
    let revealed = board.render(true);
    assert_eq!(revealed[0][1], 'S');
    assert_eq!(revealed[0][0], '~');
    // hits and misses show the same either way
    resolve(&mut board, (0, 1));
    resolve(&mut board, (1, 0));
    let concealed = board.render(false);
    let revealed = board.render(true);
    assert_eq!(concealed[0][1], 'X');
    assert_eq!(revealed[0][1], 'X');
    assert_eq!(concealed[1][0], 'O');
    assert_eq!(revealed[1][0], 'O');
}
