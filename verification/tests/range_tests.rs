use ars_militaris::grid::Grid;
use ars_militaris::neighbors::{get_valid_attack_neighbors, get_valid_neighbors};
use ars_militaris::pos::{AttackType, Direction, Pos};
use ars_militaris::range::{contains_pos, find_possible_attacks, find_possible_movements};

fn grid_with(width: usize, height: usize, taken: &[(usize, usize)]) -> Grid {
    let mut grid = Grid::new(width, height).unwrap();
    for (n, (x, y)) in taken.iter().enumerate() {
        grid.push_occupant(Pos::new(*x, *y), 100 + n);
    }
    grid
}

fn sorted(mut tiles: Vec<Pos>) -> Vec<(usize, usize)> {
    let mut out: Vec<(usize, usize)> = tiles.drain(..).map(|p| (p.x, p.y)).collect();
    out.sort();
    out
}

#[test]
fn grid_rejects_sides_over_the_limit() {
    assert!(Grid::new(16384, 1).is_some());
    assert!(Grid::new(16385, 1).is_none());
    assert!(Grid::new(1, 16385).is_none());
}

#[test]
fn blank_grid_is_empty_grass_of_height_one() {
    let grid = Grid::new(3, 2).unwrap();
    assert_eq!(grid.width(), 3);
    assert_eq!(grid.height(), 2);
    assert!(grid.in_bounds(Pos::new(2, 1)));
    assert!(!grid.in_bounds(Pos::new(3, 0)));
    assert!(!grid.in_bounds(Pos::new(0, 2)));
    assert_eq!(grid.tile_height(Pos::new(1, 1)), 1);
    assert!(!grid.is_occupied(Pos::new(1, 1)));
    assert!(grid.occupants(Pos::new(1, 1)).is_empty());
    assert_eq!(grid.first_occupant(Pos::new(1, 1)), None);
}

#[test]
fn occupants_come_and_go_in_order() {
    let mut grid = Grid::new(2, 2).unwrap();
    let p = Pos::new(1, 0);
    grid.push_occupant(p, 7);
    grid.push_occupant(p, 9);
    assert_eq!(grid.occupants(p), vec![7, 9]);
    assert_eq!(grid.first_occupant(p), Some(7));
    assert!(grid.is_occupied(p));
    assert_eq!(grid.pop_occupant(p), Some(9));
    assert_eq!(grid.remove_first_occupant(p), Some(7));
    assert_eq!(grid.pop_occupant(p), None);
    assert_eq!(grid.remove_first_occupant(p), None);
    assert!(!grid.is_occupied(Pos::new(5, 5)));
    assert!(grid.occupants(Pos::new(5, 5)).is_empty());
}

#[test]
fn neighbors_come_north_south_east_west_with_cost_one() {
    let grid = Grid::new(3, 3).unwrap();
    let got = get_valid_neighbors(&grid, Pos::new(1, 1));
    assert_eq!(
        got,
        vec![
            (Pos::new(1, 2), 1),
            (Pos::new(1, 0), 1),
            (Pos::new(2, 1), 1),
            (Pos::new(0, 1), 1)
        ]
    );
}

#[test]
fn neighbors_stop_at_the_edges() {
    let grid = Grid::new(3, 3).unwrap();
    assert_eq!(
        get_valid_neighbors(&grid, Pos::new(0, 0)),
        vec![(Pos::new(0, 1), 1), (Pos::new(1, 0), 1)]
    );
    assert_eq!(
        get_valid_neighbors(&grid, Pos::new(2, 2)),
        vec![(Pos::new(2, 1), 1), (Pos::new(1, 2), 1)]
    );
}

#[test]
fn move_neighbors_leave_out_taken_tiles_attack_neighbors_do_not() {
    let grid = grid_with(3, 3, &[(1, 2), (0, 1)]);
    assert_eq!(
        get_valid_neighbors(&grid, Pos::new(1, 1)),
        vec![(Pos::new(1, 0), 1), (Pos::new(2, 1), 1)]
    );
    assert_eq!(
        get_valid_attack_neighbors(&grid, Pos::new(1, 1)),
        vec![
            (Pos::new(1, 2), 1),
            (Pos::new(1, 0), 1),
            (Pos::new(2, 1), 1),
            (Pos::new(0, 1), 1)
        ]
    );
}

#[test]
fn no_range_no_moves() {
    let grid = grid_with(5, 5, &[(2, 2)]);
    assert!(find_possible_movements(&grid, Pos::new(2, 2), 0).is_empty());
    assert!(find_possible_movements(&grid, Pos::new(2, 2), -4).is_empty());
    assert!(find_possible_movements(&grid, Pos::new(0, 0), isize::MIN).is_empty());
}

#[test]
fn no_range_no_attacks() {
    let grid = grid_with(5, 5, &[(2, 2)]);
    for kind in [AttackType::Melee, AttackType::Ranged] {
        assert!(find_possible_attacks(&grid, Pos::new(2, 2), 0, kind).is_empty());
        assert!(find_possible_attacks(&grid, Pos::new(2, 2), -1, kind).is_empty());
    }
}

#[test]
fn moves_with_range_one_are_the_free_neighbors() {
    let grid = grid_with(5, 5, &[(2, 2), (2, 3)]);
    let tiles = find_possible_movements(&grid, Pos::new(2, 2), 1);
    assert_eq!(sorted(tiles), vec![(1, 2), (2, 1), (3, 2)]);
}

#[test]
fn moves_with_range_two_make_a_diamond_without_its_centre() {
    let grid = grid_with(5, 5, &[(2, 2)]);
    let tiles = find_possible_movements(&grid, Pos::new(2, 2), 2);
    assert_eq!(
        sorted(tiles),
        vec![
            (0, 2),
            (1, 1),
            (1, 2),
            (1, 3),
            (2, 0),
            (2, 1),
            (2, 3),
            (2, 4),
            (3, 1),
            (3, 2),
            (3, 3),
            (4, 2)
        ]
    );
}

#[test]
fn moves_never_hold_the_origin_even_when_it_is_free() {
    let grid = Grid::new(5, 5).unwrap();
    let origin = Pos::new(2, 2);
    for range in 0..5 {
        let tiles = find_possible_movements(&grid, origin, range);
        assert!(!contains_pos(&tiles, origin));
    }
}

#[test]
fn moves_never_hold_a_taken_tile_and_list_each_tile_once() {
    let taken = [(1, 1), (2, 1), (3, 3), (0, 4)];
    let grid = grid_with(5, 5, &taken);
    let tiles = find_possible_movements(&grid, Pos::new(1, 1), 4);
    for (x, y) in taken {
        assert!(!contains_pos(&tiles, Pos::new(x, y)));
    }
    let listed = sorted(tiles);
    let mut once = listed.clone();
    once.dedup();
    assert_eq!(listed, once);
}

#[test]
fn moves_go_round_units_but_not_through_them() {
    // A wall across column 1 with a gap at the top.
    let grid = grid_with(3, 3, &[(0, 0), (1, 0), (1, 1)]);
    let origin = Pos::new(0, 0);
    assert_eq!(sorted(find_possible_movements(&grid, origin, 2)), vec![(0, 1), (0, 2)]);
    assert_eq!(
        sorted(find_possible_movements(&grid, origin, 3)),
        vec![(0, 1), (0, 2), (1, 2)]
    );
    assert_eq!(
        sorted(find_possible_movements(&grid, origin, 5)),
        vec![(0, 1), (0, 2), (1, 2), (2, 1), (2, 2)]
    );
}

#[test]
fn moves_from_off_the_grid_are_none() {
    let grid = Grid::new(3, 3).unwrap();
    assert!(find_possible_movements(&grid, Pos::new(3, 0), 2).is_empty());
    assert!(find_possible_attacks(&grid, Pos::new(3, 0), 2, AttackType::Ranged).is_empty());
    assert!(find_possible_attacks(&grid, Pos::new(0, 3), 2, AttackType::Melee).is_empty());
}

#[test]
fn melee_reaches_along_the_four_lines() {
    let grid = grid_with(7, 7, &[(3, 3)]);
    let tiles = find_possible_attacks(&grid, Pos::new(3, 3), 2, AttackType::Melee);
    assert_eq!(
        sorted(tiles),
        vec![(1, 3), (2, 3), (3, 1), (3, 2), (3, 4), (3, 5), (4, 3), (5, 3)]
    );
}

#[test]
fn melee_reaches_as_far_as_its_range_says() {
    let grid = grid_with(9, 1, &[(0, 0)]);
    let tiles = find_possible_attacks(&grid, Pos::new(0, 0), 4, AttackType::Melee);
    assert_eq!(sorted(tiles), vec![(1, 0), (2, 0), (3, 0), (4, 0)]);
}

#[test]
fn melee_stops_behind_the_first_unit_in_line() {
    let grid = grid_with(7, 7, &[(3, 3), (4, 3), (3, 5)]);
    let tiles = find_possible_attacks(&grid, Pos::new(3, 3), 3, AttackType::Melee);
    assert_eq!(
        sorted(tiles),
        vec![(0, 3), (1, 3), (2, 3), (3, 0), (3, 1), (3, 2), (3, 4), (3, 5), (4, 3)]
    );
}

#[test]
fn ranged_reaches_a_diamond_through_units() {
    let grid = grid_with(5, 5, &[(2, 2), (2, 3), (1, 2), (3, 2), (2, 1)]);
    let tiles = find_possible_attacks(&grid, Pos::new(2, 2), 2, AttackType::Ranged);
    assert_eq!(
        sorted(tiles),
        vec![
            (0, 2),
            (1, 1),
            (1, 2),
            (1, 3),
            (2, 0),
            (2, 1),
            (2, 3),
            (2, 4),
            (3, 1),
            (3, 2),
            (3, 3),
            (4, 2)
        ]
    );
}

#[test]
fn ranged_is_cut_by_the_edge_of_the_grid() {
    let grid = Grid::new(3, 3).unwrap();
    let tiles = find_possible_attacks(&grid, Pos::new(0, 0), 2, AttackType::Ranged);
    assert_eq!(sorted(tiles), vec![(0, 1), (0, 2), (1, 0), (1, 1), (2, 0)]);
}

#[test]
fn directions_and_attack_kinds_are_read_from_their_names() {
    assert_eq!(Direction::from_string("East".to_string()), Some(Direction::East));
    assert_eq!(Direction::from_string("South".to_string()), Some(Direction::South));
    assert_eq!(Direction::from_string("West".to_string()), Some(Direction::West));
    assert_eq!(Direction::from_string("North".to_string()), Some(Direction::North));
    assert_eq!(Direction::from_string("north".to_string()), None);
    assert_eq!(Direction::from_string("".to_string()), None);
    assert_eq!(AttackType::from_string("Melee".to_string()), Some(AttackType::Melee));
    assert_eq!(AttackType::from_string("Ranged".to_string()), Some(AttackType::Ranged));
    assert_eq!(AttackType::from_string("Magic".to_string()), None);
    assert_eq!(Direction::default(), Direction::East);
    assert_eq!(AttackType::default(), AttackType::Melee);
}

#[test]
fn distance_steps_and_facing() {
    let a = Pos::new(1, 5);
    let b = Pos::new(4, 3);
    assert_eq!(a.distance(&b), 5);
    assert_eq!(b.distance(&a), 5);
    assert_eq!(a.distance(&a), 0);
    assert_eq!(Pos::new(0, 0).distance(&Pos::new(usize::MAX, usize::MAX)), usize::MAX);
    assert!(a.same(&Pos::new(1, 5)));
    assert!(!a.same(&b));
    assert_eq!(a.step(Direction::North), Some(Pos::new(1, 6)));
    assert_eq!(a.step(Direction::South), Some(Pos::new(1, 4)));
    assert_eq!(a.step(Direction::East), Some(Pos::new(2, 5)));
    assert_eq!(a.step(Direction::West), Some(Pos::new(0, 5)));
    assert_eq!(Pos::new(0, 0).step(Direction::West), None);
    assert_eq!(Pos::new(0, 0).step(Direction::South), None);
    assert_eq!(Pos::new(usize::MAX, 0).step(Direction::East), None);
    let d = Direction::East;
    assert_eq!(d.facing(a, Pos::new(0, 5)), Direction::West);
    assert_eq!(Direction::West.facing(a, Pos::new(2, 5)), Direction::East);
    assert_eq!(d.facing(a, Pos::new(1, 6)), Direction::North);
    assert_eq!(d.facing(a, Pos::new(1, 4)), Direction::South);
    assert_eq!(d.facing(a, Pos::new(0, 4)), Direction::South);
    assert_eq!(Direction::South.facing(a, a), Direction::South);
}
