use ars_militaris::grid::Grid;
use ars_militaris::path::{find_path, heuristic};
use ars_militaris::pos::Pos;

fn grid_taken(width: usize, height: usize, taken: &[(usize, usize)]) -> Grid {
    let mut grid = Grid::new(width, height).unwrap();
    for (n, (x, y)) in taken.iter().enumerate() {
        grid.push_occupant(Pos::new(*x, *y), 100 + n);
    }
    grid
}

fn check_path(grid: &Grid, path: &[Pos], start: Pos, destination: Pos) {
    assert_eq!(path.first(), Some(&start));
    assert_eq!(path.last(), Some(&destination));
    for pair in path.windows(2) {
        assert_eq!(pair[0].distance(&pair[1]), 1);
        assert!(grid.in_bounds(pair[1]));
        assert!(!grid.is_occupied(pair[1]));
    }
}

#[test]
fn path_on_an_open_grid_has_four_tiles_and_cost_three() {
    let grid = Grid::new(5, 5).unwrap();
    let start = Pos::new(0, 0);
    let destination = Pos::new(3, 0);
    let path = find_path(&grid, start, destination).unwrap();
    assert_eq!(path.len(), 4);
    assert_eq!(path.len() - 1, 3);
    check_path(&grid, &path, start, destination);
}

#[test]
fn path_may_start_on_the_walkers_own_tile() {
    let grid = grid_taken(5, 5, &[(0, 0)]);
    let path = find_path(&grid, Pos::new(0, 0), Pos::new(3, 0)).unwrap();
    assert_eq!(path.len(), 4);
}

#[test]
fn no_path_to_an_enclosed_destination() {
    let grid = grid_taken(5, 5, &[(2, 3), (2, 1), (1, 2), (3, 2)]);
    assert_eq!(find_path(&grid, Pos::new(0, 0), Pos::new(2, 2)), None);
}

#[test]
fn no_path_to_an_enclosed_corner() {
    let grid = grid_taken(4, 4, &[(3, 2), (2, 3)]);
    assert_eq!(find_path(&grid, Pos::new(0, 0), Pos::new(3, 3)), None);
}

#[test]
fn no_path_onto_a_taken_tile() {
    let grid = grid_taken(5, 5, &[(3, 0)]);
    assert_eq!(find_path(&grid, Pos::new(0, 0), Pos::new(3, 0)), None);
}

#[test]
fn no_path_from_or_to_a_tile_off_the_grid() {
    let grid = Grid::new(5, 5).unwrap();
    assert_eq!(find_path(&grid, Pos::new(5, 0), Pos::new(0, 0)), None);
    assert_eq!(find_path(&grid, Pos::new(0, 0), Pos::new(0, 5)), None);
    assert_eq!(
        find_path(&grid, Pos::new(0, 0), Pos::new(usize::MAX, usize::MAX)),
        None
    );
}

#[test]
fn path_to_oneself_is_the_one_tile() {
    let grid = grid_taken(5, 5, &[(2, 2)]);
    let here = Pos::new(2, 2);
    assert_eq!(find_path(&grid, here, here), Some(vec![here]));
}

#[test]
fn path_goes_round_a_wall_by_the_shortest_way() {
    // Column 2 is blocked except at the top row.
    let grid = grid_taken(5, 5, &[(2, 0), (2, 1), (2, 2), (2, 3)]);
    let start = Pos::new(1, 0);
    let destination = Pos::new(3, 0);
    let path = find_path(&grid, start, destination).unwrap();
    check_path(&grid, &path, start, destination);
    assert_eq!(path.len() - 1, 10);
    let mut seen = path.clone();
    seen.sort_by_key(|p| (p.x, p.y));
    seen.dedup();
    assert_eq!(seen.len(), path.len());
}

#[test]
fn path_differs_from_its_start_when_the_destination_does() {
    let grid = Grid::new(2, 1).unwrap();
    let path = find_path(&grid, Pos::new(0, 0), Pos::new(1, 0)).unwrap();
    assert_eq!(path, vec![Pos::new(0, 0), Pos::new(1, 0)]);
}

#[test]
fn heuristic_is_the_taxicab_distance() {
    assert_eq!(heuristic(&Pos::new(0, 0), &Pos::new(3, 4)), 7);
    assert_eq!(heuristic(&Pos::new(3, 4), &Pos::new(3, 4)), 0);
}
