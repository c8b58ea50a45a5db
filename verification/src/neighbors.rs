//! The tiles next to a tile: for movement, those that are free; for attacks,
//! all of them.

use vstd::prelude::*;
use crate::pos::{Pos, Direction, adjacent, step_spec, lemma_adjacent_is_step};
use crate::grid::{Grid, GridView};

verus! {

/// A unit may step from `p` onto `q`: `q` lies on the grid next to `p`, and,
/// unless `through_units` is set, nobody stands on it.
pub open spec fn step_ok(g: GridView, p: Pos, q: Pos, through_units: bool) -> bool {
    g.in_bounds(q) && adjacent(p, q) && (through_units || !g.occupied(q))
}

/// The neighbour of `p` in direction `d` as a list: the tile if a unit may
/// step onto it, else nothing.
pub open spec fn neighbor_in(g: GridView, p: Pos, d: Direction, through_units: bool) -> Seq<Pos> {
    match step_spec(p, d) {
        Some(q) => if g.in_bounds(q) && (through_units || !g.occupied(q)) {
            seq![q]
        } else {
            Seq::empty()
        },
        None => Seq::empty(),
    }
}

/// The neighbours of `p` that a unit may step onto, in the order north,
/// south, east, west.
pub open spec fn neighbors_spec(g: GridView, p: Pos, through_units: bool) -> Seq<Pos> {
    neighbor_in(g, p, Direction::North, through_units) + neighbor_in(
        g,
        p,
        Direction::South,
        through_units,
    ) + neighbor_in(g, p, Direction::East, through_units) + neighbor_in(
        g,
        p,
        Direction::West,
        through_units,
    )
}

/// A neighbour paired with the cost of the step onto it, which is 1.
pub open spec fn with_unit_cost(s: Seq<Pos>) -> Seq<(Pos, usize)> {
    s.map_values(|q: Pos| (q, 1usize))
}

/// The listed neighbours are exactly the tiles a unit may step onto, each
/// listed once.
pub proof fn lemma_neighbors_spec(g: GridView, p: Pos, through_units: bool)
    ensures
        neighbors_spec(g, p, through_units).no_duplicates(),
        neighbors_spec(g, p, through_units).len() <= 4,
        forall|q: Pos|
            neighbors_spec(g, p, through_units).contains(q) <==> step_ok(g, p, q, through_units),
{
    let s = neighbors_spec(g, p, through_units);
    let n = neighbor_in(g, p, Direction::North, through_units);
    let so = neighbor_in(g, p, Direction::South, through_units);
    let e = neighbor_in(g, p, Direction::East, through_units);
    let w = neighbor_in(g, p, Direction::West, through_units);
    assert forall|q: Pos| s.contains(q) <==> step_ok(g, p, q, through_units) by {
        if s.contains(q) {
            let i = choose|i: int| 0 <= i < s.len() && s[i] == q;
            assert(step_ok(g, p, q, through_units));
        }
        if step_ok(g, p, q, through_units) {
            lemma_adjacent_is_step(p, q);
            let d = choose|d: Direction| step_spec(p, d) == Some(q);
            match d {
                Direction::North => {
                    assert(n == seq![q]);
                    assert(s[0] == q);
                },
                Direction::South => {
                    assert(so == seq![q]);
                    assert(s[n.len() as int] == q);
                },
                Direction::East => {
                    assert(e == seq![q]);
                    assert(s[(n.len() + so.len()) as int] == q);
                },
                Direction::West => {
                    assert(w == seq![q]);
                    assert(s[(n.len() + so.len() + e.len()) as int] == q);
                },
            }
        }
    }
    assert forall|i: int, j: int| 0 <= i < s.len() && 0 <= j < s.len() && i != j implies s[i]
        != s[j] by {
    }
}

/// The tiles next to `pos` that a unit can move onto, each with the cost of
/// the step: those on the grid that nobody stands on, in the order north,
/// south, east, west.
pub fn get_valid_neighbors(grid: &Grid, pos: Pos) -> (neighbors: Vec<(Pos, usize)>)
    requires
        grid.wf(),
    ensures
        neighbors@ == with_unit_cost(neighbors_spec(grid@, pos, false)),
{
    collect_neighbors(grid, pos, false)
}

/// The tiles next to `pos` that an attack can reach, each with the cost of
/// the step: all those on the grid, whoever stands there, in the order
/// north, south, east, west.
pub fn get_valid_attack_neighbors(grid: &Grid, pos: Pos) -> (neighbors: Vec<(Pos, usize)>)
    requires
        grid.wf(),
    ensures
        neighbors@ == with_unit_cost(neighbors_spec(grid@, pos, true)),
{
    collect_neighbors(grid, pos, true)
}

/// The neighbours of `pos` in the four directions, keeping those on the grid
/// and, unless `through_units` is set, those that nobody stands on.
pub fn collect_neighbors(grid: &Grid, pos: Pos, through_units: bool) -> (neighbors: Vec<
    (Pos, usize),
>)
    requires
        grid.wf(),
    ensures
        neighbors@ == with_unit_cost(neighbors_spec(grid@, pos, through_units)),
{
    let mut neighbors: Vec<(Pos, usize)> = Vec::new();
    let order = [Direction::North, Direction::South, Direction::East, Direction::West];
    let ghost mut seen: Seq<Pos> = Seq::empty();
    let mut i: usize = 0;
    while i < 4
        invariant
            i <= 4,
            grid.wf(),
            order@ == seq![Direction::North, Direction::South, Direction::East, Direction::West],
            neighbors@ == with_unit_cost(seen),
            i == 0 ==> seen == Seq::<Pos>::empty(),
            i == 1 ==> seen == neighbor_in(grid@, pos, Direction::North, through_units),
            i == 2 ==> seen == neighbor_in(grid@, pos, Direction::North, through_units)
                + neighbor_in(grid@, pos, Direction::South, through_units),
            i == 3 ==> seen == neighbor_in(grid@, pos, Direction::North, through_units)
                + neighbor_in(grid@, pos, Direction::South, through_units) + neighbor_in(
                grid@,
                pos,
                Direction::East,
                through_units,
            ),
            i == 4 ==> seen == neighbors_spec(grid@, pos, through_units),
        decreases 4 - i,
    {
        let d = order[i];
        let ghost before = seen;
        match pos.step(d) {
            Some(q) => {
                if grid.in_bounds(q) && (through_units || !grid.is_occupied(q)) {
                    neighbors.push((q, 1));
                    proof {
                        seen = seen.push(q);
                        assert(neighbors@ =~= with_unit_cost(seen));
                    }
                }
            },
            None => {},
        }
        proof {
            assert(seen =~= before + neighbor_in(grid@, pos, d, through_units));
            if i == 0 {
                assert(seen =~= neighbor_in(grid@, pos, Direction::North, through_units));
            }
        }
        i = i + 1;
    }
    neighbors
}

} // verus!
