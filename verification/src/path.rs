//! Shortest paths over the free tiles of the grid.

use vstd::prelude::*;
use crate::pos::{Pos, manhattan, adjacent, lemma_manhattan_triangle};
use crate::grid::{Grid, GridView};
use crate::neighbors::{step_ok, get_valid_neighbors};
use crate::range::{walk_within, lands, in_reach, lemma_walk_within_more};

verus! {

/// The step from the `i`-th tile of `path` to the next is one a unit may
/// take: onto a neighbouring tile of the grid that nobody stands on.
pub open spec fn link(g: GridView, path: Seq<Pos>, i: int) -> bool {
    step_ok(g, path[i], path[i + 1], false)
}

/// `path` leads from `start` to `destination`: it begins on `start`, a tile
/// of the grid, ends on `destination`, and each step is one a unit may take.
/// The tile a path starts on may hold a unit: the one that walks.
pub open spec fn is_path(g: GridView, start: Pos, destination: Pos, path: Seq<Pos>) -> bool {
    &&& path.len() >= 1
    &&& path[0] == start
    &&& path.last() == destination
    &&& g.in_bounds(start)
    &&& forall|i: int| 0 <= i < path.len() - 1 ==> #[trigger] link(g, path, i)
}

/// Some path leads from `start` to `destination`.
pub open spec fn reachable(g: GridView, start: Pos, destination: Pos) -> bool {
    exists|path: Seq<Pos>| #[trigger] is_path(g, start, destination, path)
}

/// `path` leads from `start` to `destination`, and no path between the two
/// has fewer tiles.
pub open spec fn is_shortest_path(
    g: GridView,
    start: Pos,
    destination: Pos,
    path: Seq<Pos>,
) -> bool {
    &&& is_path(g, start, destination, path)
    &&& forall|other: Seq<Pos>| #[trigger]
        is_path(g, start, destination, other) ==> path.len() <= other.len()
}

/// What a search for a path owes: a shortest path where one exists, and
/// nothing only where none does.
pub open spec fn path_found(
    g: GridView,
    start: Pos,
    destination: Pos,
    found: Option<Seq<Pos>>,
) -> bool {
    match found {
        Some(path) => is_shortest_path(g, start, destination, path),
        None => !reachable(g, start, destination),
    }
}

/// The number of steps of a path: one less than its tiles.
pub open spec fn path_cost(path: Seq<Pos>) -> int {
    path.len() - 1
}

/// The estimate that guides the search: the taxicab distance to the
/// destination, or `usize::MAX` where that would not fit.
pub fn heuristic(pos: &Pos, destination: &Pos) -> (h: usize)
    ensures
        h == if manhattan(*pos, *destination) <= usize::MAX {
            manhattan(*pos, *destination)
        } else {
            usize::MAX as int
        },
{
    pos.distance(destination)
}

/// Calls `pathfinding::prelude::astar` from `start`, with
/// `get_valid_neighbors` for the successors (every step costs 1),
/// `heuristic` for the estimate and "is `destination`" for the goal.
///
/// Believed of it, from its documentation: it returns the shortest path from
/// the start to a node that meets the goal, with that path's cost, or `None`
/// if no path can be found; the path holds both ends and no node twice. That
/// holds where no step costs less than nothing and the estimate never
/// exceeds the true cost; `lemma_heuristic_never_overestimates` shows the
/// latter. With both ends on a grid whose sides are within `MAX_SIDE`, no
/// cost that the search adds up leaves `usize`.
#[verifier::external_body]
fn astar_search(grid: &Grid, start: Pos, destination: Pos) -> (found: Option<(Vec<Pos>, usize)>)
    requires
        grid.wf(),
        grid@.in_bounds(start),
        grid@.in_bounds(destination),
    ensures
        match found {
            Some((path, cost)) => is_shortest_path(grid@, start, destination, path@)
                && path@.no_duplicates() && cost == path_cost(path@),
            None => !reachable(grid@, start, destination),
        },
{
    pathfinding::prelude::astar(
        &start,
        |pos: &Pos| get_valid_neighbors(grid, *pos),
        |pos: &Pos| heuristic(pos, &destination),
        |pos: &Pos| pos.same(&destination),
    )
}

/// A shortest path from `start` to `destination` over tiles that nobody
/// stands on, both ends included, or `None` where there is no path. The
/// search does not look at how far the walker may go. Which of several
/// shortest paths comes back is left open.
pub fn find_path(grid: &Grid, start: Pos, destination: Pos) -> (found: Option<Vec<Pos>>)
    requires
        grid.wf(),
    ensures
        found.is_some() <==> reachable(grid@, start, destination),
        found.is_some() ==> is_shortest_path(grid@, start, destination, found.unwrap()@)
            && found.unwrap()@.no_duplicates(),
{
    if !grid.in_bounds(start) {
        return None;
    }
    if !grid.in_bounds(destination) {
        proof {
            assert forall|path: Seq<Pos>| !#[trigger] is_path(
                grid@,
                start,
                destination,
                path,
            ) by {
                if is_path(grid@, start, destination, path) {
                    lemma_path_ends_on_grid(grid@, start, destination, path);
                }
            }
        }
        return None;
    }
    match astar_search(grid, start, destination) {
        Some((path, _)) => Some(path),
        None => None,
    }
}

/// A path ends on a tile of the grid, and, unless it has no step, on one that
/// nobody stands on.
pub proof fn lemma_path_ends_on_grid(g: GridView, start: Pos, destination: Pos, path: Seq<Pos>)
    requires
        is_path(g, start, destination, path),
    ensures
        g.in_bounds(destination),
        start != destination ==> !g.occupied(destination) && path.len() >= 2,
{
    if path.len() >= 2 {
        assert(link(g, path, path.len() - 2));
    }
}

/// The taxicab distance never exceeds the number of steps of a path: the
/// estimate that guides the search is never too high.
pub proof fn lemma_heuristic_never_overestimates(
    g: GridView,
    start: Pos,
    destination: Pos,
    path: Seq<Pos>,
)
    requires
        is_path(g, start, destination, path),
    ensures
        manhattan(start, destination) <= path_cost(path),
    decreases path.len(),
{
    if path.len() == 1 {
        lemma_manhattan_triangle(start, start, destination);
    } else {
        let shorter = path.drop_last();
        let before = shorter.last();
        assert forall|i: int| 0 <= i < shorter.len() - 1 implies #[trigger] link(g, shorter, i) by {
            assert(link(g, path, i));
        }
        assert(is_path(g, start, before, shorter));
        lemma_heuristic_never_overestimates(g, start, before, shorter);
        assert(link(g, path, path.len() - 2));
        lemma_manhattan_triangle(start, before, destination);
    }
}

/// No path leads to a tile whose neighbours on the grid all hold a unit,
/// unless the walker stands on the tile already or can reach it in one step
/// from where it stands: the walker's own tile holds a unit, the walker, and
/// yet lets it out.
pub proof fn lemma_enclosed_destination_unreachable(g: GridView, start: Pos, destination: Pos)
    requires
        forall|q: Pos| g.in_bounds(q) && adjacent(q, destination) ==> #[trigger] g.occupied(q),
        !(g.in_bounds(start) && (start == destination || step_ok(g, start, destination, false))),
    ensures
        !reachable(g, start, destination),
{
    assert forall|path: Seq<Pos>| !#[trigger] is_path(g, start, destination, path) by {
        if is_path(g, start, destination, path) {
            lemma_path_ends_on_grid(g, start, destination, path);
            let n = path.len() as int;
            assert(link(g, path, n - 2));
            let q = path[n - 2];
            lemma_manhattan_triangle(q, destination, q);
            assert(adjacent(q, destination));
            assert(n >= 3);
            assert(link(g, path, n - 3));
            assert(g.occupied(q));
        }
    }
}

/// No path leads onto a tile that a unit stands on, except from that tile
/// itself.
pub proof fn lemma_occupied_destination_unreachable(g: GridView, start: Pos, destination: Pos)
    requires
        start != destination,
        g.occupied(destination),
    ensures
        !reachable(g, start, destination),
{
    assert forall|path: Seq<Pos>| !#[trigger] is_path(g, start, destination, path) by {
        if is_path(g, start, destination, path) {
            lemma_path_ends_on_grid(g, start, destination, path);
        }
    }
}

/// A walk of at most `n` steps from `p` to `t` gives a path between the two
/// of at most `n + 1` tiles.
pub proof fn lemma_walk_gives_path(g: GridView, p: Pos, t: Pos, n: nat) -> (path: Seq<Pos>)
    requires
        g.in_bounds(p),
        walk_within(g, p, t, n, false),
    ensures
        is_path(g, p, t, path),
        2 <= path.len() <= n + 1,
    decreases n,
{
    let q = choose|q: Pos|
        #[trigger] step_ok(g, p, q, false) && lands(g, q, t, (n - 1) as nat, false);
    if q == t {
        let path = seq![p, t];
        assert forall|i: int| 0 <= i < path.len() - 1 implies #[trigger] link(g, path, i) by {
        }
        path
    } else {
        let tail = lemma_walk_gives_path(g, q, t, (n - 1) as nat);
        let path = seq![p] + tail;
        assert forall|i: int| 0 <= i < path.len() - 1 implies #[trigger] link(g, path, i) by {
            if i >= 1 {
                assert(link(g, tail, i - 1));
                assert(path[i] == tail[i - 1]);
                assert(path[i + 1] == tail[i]);
            } else {
                assert(path[1] == tail[0]);
            }
        }
        assert(path.last() == tail.last());
        path
    }
}

/// A path of at least two tiles from `p` to `t` gives a walk between the two
/// of as many steps as the path has.
pub proof fn lemma_path_gives_walk(g: GridView, p: Pos, t: Pos, path: Seq<Pos>)
    requires
        is_path(g, p, t, path),
        path.len() >= 2,
    ensures
        walk_within(g, p, t, path_cost(path) as nat, false),
    decreases path.len(),
{
    let q = path[1];
    assert(link(g, path, 0));
    if path.len() == 2 {
        assert(q == t);
        assert(step_ok(g, p, q, false) && lands(g, q, t, 0, false));
    } else {
        let tail = path.drop_first();
        assert forall|i: int| 0 <= i < tail.len() - 1 implies #[trigger] link(g, tail, i) by {
            assert(link(g, path, i + 1));
        }
        assert(is_path(g, q, t, tail));
        lemma_path_gives_walk(g, q, t, tail);
        assert(step_ok(g, p, q, false) && lands(g, q, t, (path_cost(path) - 1) as nat, false));
    }
}

/// A tile is one that a unit can move to exactly if it is another tile than
/// the unit's and a path of no more steps than the unit's range leads to it.
pub proof fn lemma_reach_iff_short_path(g: GridView, origin: Pos, range: int, t: Pos)
    ensures
        in_reach(g, origin, range, t, false) <==> t != origin && exists|path: Seq<Pos>|
            #[trigger] is_path(g, origin, t, path) && path_cost(path) <= range,
{
    if in_reach(g, origin, range, t, false) {
        let path = lemma_walk_gives_path(g, origin, t, range as nat);
        assert(is_path(g, origin, t, path) && path_cost(path) <= range);
    }
    if t != origin && exists|path: Seq<Pos>|
        #[trigger] is_path(g, origin, t, path) && path_cost(path) <= range {
        let path = choose|path: Seq<Pos>|
            #[trigger] is_path(g, origin, t, path) && path_cost(path) <= range;
        lemma_path_ends_on_grid(g, origin, t, path);
        lemma_path_gives_walk(g, origin, t, path);
        lemma_walk_within_more(g, origin, t, path_cost(path) as nat, range as nat, false);
    }
}

/// On a grid where nobody stands in the way, the shortest path between two
/// tiles has as many steps as the taxicab distance between them.
pub proof fn lemma_open_grid_path_cost(g: GridView, start: Pos, destination: Pos, path: Seq<Pos>)
    requires
        is_shortest_path(g, start, destination, path),
        g.in_bounds(destination),
        forall|q: Pos| q != start ==> !#[trigger] g.occupied(q),
    ensures
        path_cost(path) == manhattan(start, destination),
{
    lemma_heuristic_never_overestimates(g, start, destination, path);
    let direct = lemma_direct_path(g, start, destination);
    assert(is_path(g, start, destination, direct));
}

/// On a grid where nobody stands in the way, a path of as many steps as the
/// taxicab distance leads from one tile to another.
pub proof fn lemma_direct_path(g: GridView, start: Pos, destination: Pos) -> (path: Seq<Pos>)
    requires
        g.in_bounds(start),
        g.in_bounds(destination),
        forall|q: Pos| q != start ==> !#[trigger] g.occupied(q),
    ensures
        is_path(g, start, destination, path),
        path_cost(path) == manhattan(start, destination),
    decreases manhattan(start, destination),
{
    if start == destination {
        let path = seq![start];
        lemma_manhattan_triangle(start, start, start);
        path
    } else {
        let t = destination;
        let before = if t.x > start.x {
            Pos { x: (t.x - 1) as usize, y: t.y }
        } else if t.x < start.x {
            Pos { x: (t.x + 1) as usize, y: t.y }
        } else if t.y > start.y {
            Pos { x: t.x, y: (t.y - 1) as usize }
        } else {
            Pos { x: t.x, y: (t.y + 1) as usize }
        };
        assert(manhattan(start, before) == manhattan(start, t) - 1);
        let shorter = lemma_direct_path(g, start, before);
        let path = shorter.push(t);
        assert forall|i: int| 0 <= i < path.len() - 1 implies #[trigger] link(g, path, i) by {
            if i < shorter.len() - 1 {
                assert(link(g, shorter, i));
            } else {
                assert(path[i] == before);
                assert(path[i + 1] == t);
            }
        }
        path
    }
}

} // verus!
