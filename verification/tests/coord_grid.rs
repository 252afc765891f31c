use wavesim::coord::Coord;
use wavesim::grid::Grid;

#[test]
fn compute_index() {
    let coord = Coord::new(5, 8);
    let index = coord.index(5);
    assert_eq!(index, 45)
}

#[test]
fn add_coords() {
    let mut a = Coord::new(5, 8);
    let b = Coord::new(2, 1);
    assert_eq!(a.add(b), Coord::new(7, 9));
}

#[test]
fn is_valid_coord_for_a_grid() {
    let grid: Grid<i64> = Grid::<i64>::new(5, 5);
    let valid = Coord::new(3, 2);
    let invalid = Coord::new(5, 8);
    assert!(grid.is_valid_coord(&valid));
    assert!(!grid.is_valid_coord(&invalid)); // out of bounds
}

#[test]
fn returns_an_option_for_f32_grid_get_coord() {
    let grid: Grid<i64> = Grid::<i64>::new(5, 5);
    let valid = Coord::new(3, 2);
    let invalid = Coord::new(5, 8);
    assert_eq!(grid.get(valid), Some(&0i64));
    assert_eq!(grid.get(invalid), None); // out of bounds
}

#[test]
fn set_then_get_returns_the_value() {
    let mut grid: Grid<i64> = Grid::<i64>::new(4, 6);
    let c = Coord::new(3, 5);
    grid.set(c, 42);
    assert_eq!(grid.get(c), Some(&42i64));
    // Every other cell is untouched.
    assert_eq!(grid.get(Coord::new(0, 0)), Some(&0i64));
    assert_eq!(grid.height(), 6);
}

#[test]
fn rejected_mutation_reports_the_bounds() {
    let mut grid: Grid<i64> = Grid::<i64>::new(5, 5);
    let bad = Coord::new(7, -1);
    let r = grid.try_set(bad, 9);
    let e = r.unwrap_err();
    assert_eq!(e.coord, bad);
    assert_eq!(e.width, 5);
    assert_eq!(e.height, 5);
    // The grid is unchanged.
    assert_eq!(grid.get(Coord::new(0, 0)), Some(&0i64));
    assert!(grid.try_set(Coord::new(2, 2), 9).is_ok());
    assert_eq!(grid.get(Coord::new(2, 2)), Some(&9i64));
}

#[test]
fn valid_neighbors_drops_out_of_range_cells() {
    let grid: Grid<bool> = Grid::<bool>::new(3, 3);
    let corner = grid.valid_neighbors(Coord::new(0, 0));
    assert_eq!(corner, vec![Coord::new(0, 1), Coord::new(1, 0)]);
    let center = grid.valid_neighbors(Coord::new(1, 1));
    assert_eq!(
        center,
        vec![
            Coord::new(1, 0),
            Coord::new(1, 2),
            Coord::new(0, 1),
            Coord::new(2, 1)
        ]
    );
}

#[test]
fn grid_max_finds_the_largest_cell() {
    let mut grid: Grid<i64> = Grid::<i64>::new(3, 2);
    grid.set(Coord::new(1, 0), -7);
    grid.set(Coord::new(2, 1), 55);
    assert_eq!(grid.max(), 55);
}
