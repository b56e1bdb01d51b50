use fillit::grid::Grid;
use fillit::tetrimino::Tetrimino;

#[test]
fn test_grid() {
    let grid = Grid::new(10, 20);
    assert_eq!(grid.get(0, 0), ' ');
}

#[test]
fn test_grid_set() {
    let mut grid = Grid::new(10, 20);
    grid.set(0, 0, 'x');
    assert_eq!(grid.get(0, 0), 'x');
}

#[test]
fn test_grid_set_out_of_bounds() {
    let mut grid = Grid::new(10, 20);
    grid.set(10, 20, 'x');
    for cell in grid.cells {
        assert_eq!(cell, ' ');
    }
}

#[test]
fn test_already_set_cell() {
    let mut grid = Grid::new(10, 20);
    grid.set(0, 0, 'x');
    grid.set(0, 0, 'y');
    assert_eq!(grid.get(0, 0), 'x');
}

#[test]
fn test_insert_tetrimino() {
    let mut grid = Grid::new(10, 20);
    let tetrimino = Tetrimino::from_shape('A', [[1, 1, 0, 0], [1, 1, 0, 0], [0, 0, 0, 0], [0, 0, 0, 0]]);

    let _ = grid.insert(0, 0, &tetrimino);
    assert_eq!(grid.get(0, 0), 'A');
    assert_eq!(grid.get(1, 0), 'A');
    assert_eq!(grid.get(0, 1), 'A');
    assert_eq!(grid.get(1, 1), 'A');
}

#[test]
fn test_insert_over_already_inserted() {
    let mut grid = Grid::new(10, 20);
    let tetrimino = Tetrimino::from_shape('A', [[1, 1, 0, 0], [1, 1, 0, 0], [0, 0, 0, 0], [0, 0, 0, 0]]);

    grid.insert(0, 0, &tetrimino).unwrap();
    let tetrimino = Tetrimino::from_shape('B', [[1, 1, 0, 0], [1, 1, 0, 0], [0, 0, 0, 0], [0, 0, 0, 0]]);

    let result = grid.insert(0, 0, &tetrimino);
    assert_eq!(result, Err("Cannot place the tetrimino"));
}

#[test]
fn test_grow_grid() {
    let mut grid = Grid::new(10, 20);
    grid.grow(1);

    assert_eq!(grid.width, 11);
    assert_eq!(grid.height, 21);
    assert_eq!(grid.cells.len(), 11 * 21);
}

#[test]
fn get_past_the_end_reads_unknown() {
    let grid = Grid::new(3, 3);
    assert_eq!(grid.get(0, 3), '?');
    assert_eq!(grid.get(u32::MAX, u32::MAX), '?');
    // a column past the row end reads the next row's cell by position
    assert_eq!(grid.get(3, 0), ' ');
}

#[test]
fn set_past_the_row_end_writes_nothing() {
    let mut grid = Grid::new(3, 3);
    grid.set(3, 0, 'x');
    assert!(grid.cells.iter().all(|c| *c == ' '));
}

#[test]
fn insert_keeps_other_cells_and_refuses_overlap() {
    let mut grid = Grid::new(4, 4);
    let bar = Tetrimino::from_shape('A', [[1, 0, 0, 0], [1, 0, 0, 0], [1, 0, 0, 0], [1, 0, 0, 0]]);
    assert_eq!(grid.insert(1, 0, &bar), Ok(true));
    assert!(!grid.can_insert(0, 0, &Tetrimino::from_shape('B', [[1, 1, 0, 0], [1, 1, 0, 0], [0, 0, 0, 0], [0, 0, 0, 0]])));
    let expected: Vec<char> = ".A...A...A...A..".chars().map(|c| if c == '.' { ' ' } else { c }).collect();
    assert_eq!(grid.cells, expected);
    let before = grid.cells.clone();
    assert!(grid.insert(0, 2, &bar).is_err());
    assert_eq!(grid.cells, before);
}

#[test]
fn grow_empties_every_cell() {
    let mut grid = Grid::new(2, 2);
    grid.set(0, 0, 'A');
    grid.grow(2);
    assert_eq!(grid.width, 4);
    assert_eq!(grid.height, 4);
    assert_eq!(grid.cells, vec![' '; 16]);
}

#[test]
fn cells_past_the_row_end_do_not_fit() {
    let grid = Grid::new(2, 2);
    let bar = Tetrimino::from_shape('A', [[1, 1, 1, 1], [0, 0, 0, 0], [0, 0, 0, 0], [0, 0, 0, 0]]);
    assert!(!grid.can_insert(0, 0, &bar));
    let mut grid = grid;
    assert_eq!(grid.insert(0, 0, &bar), Err("Cannot place the tetrimino"));
    assert_eq!(grid.cells, vec![' '; 4]);
    let mut wide = Grid::new(4, 1);
    assert_eq!(wide.insert(0, 0, &bar), Ok(true));
    assert_eq!(wide.cells, vec!['A'; 4]);
}
