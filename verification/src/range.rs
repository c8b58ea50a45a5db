//! Which tiles a unit can move to, and which it can attack, from a tile and
//! a range.

use vstd::prelude::*;
use crate::pos::{Pos, Direction, AttackType, manhattan, lemma_manhattan_triangle};
use crate::grid::{Grid, GridView};
use crate::neighbors::{step_ok, neighbors_spec, with_unit_cost, lemma_neighbors_spec, collect_neighbors};

verus! {

/// There is a walk of at least one and at most `n` steps from `p` to `t`,
/// each step onto a neighbouring tile that a unit may step onto.
pub open spec fn walk_within(g: GridView, p: Pos, t: Pos, n: nat, through_units: bool) -> bool
    decreases n, 0int,
{
    n > 0 && exists|q: Pos|
        #[trigger] step_ok(g, p, q, through_units) && lands(g, q, t, (n - 1) as nat, through_units)
}

/// A walk of at most `n` steps from `q` ends on `t`; it may have no step at
/// all, where `q` is `t`.
pub open spec fn lands(g: GridView, q: Pos, t: Pos, n: nat, through_units: bool) -> bool
    decreases n, 1int,
{
    q == t || walk_within(g, q, t, n, through_units)
}

/// Tile `t` is within `range` steps of `origin`, a tile of the grid, and is
/// not `origin` itself.
pub open spec fn in_reach(g: GridView, origin: Pos, range: int, t: Pos, through_units: bool) -> bool {
    g.in_bounds(origin) && t != origin && range > 0 && walk_within(
        g,
        origin,
        t,
        range as nat,
        through_units,
    )
}

/// The tile `k` steps from `p` in direction `d`, where the coordinates
/// allow it.
pub open spec fn ray(p: Pos, d: Direction, k: int) -> Option<Pos> {
    match d {
        Direction::North => if p.y + k <= usize::MAX {
            Some(Pos { x: p.x, y: (p.y + k) as usize })
        } else {
            None
        },
        Direction::South => if p.y - k >= 0 {
            Some(Pos { x: p.x, y: (p.y - k) as usize })
        } else {
            None
        },
        Direction::East => if p.x + k <= usize::MAX {
            Some(Pos { x: (p.x + k) as usize, y: p.y })
        } else {
            None
        },
        Direction::West => if p.x - k >= 0 {
            Some(Pos { x: (p.x - k) as usize, y: p.y })
        } else {
            None
        },
    }
}

/// Tile `t` lies `k` steps from `origin` in direction `d`, on the grid, with
/// nobody standing on the tiles between the two.
pub open spec fn ray_hits(g: GridView, origin: Pos, d: Direction, k: int, t: Pos) -> bool {
    &&& k >= 1
    &&& ray(origin, d, k) == Some(t)
    &&& g.in_bounds(t)
    &&& forall|j: int| 1 <= j < k ==> !g.occupied(#[trigger] ray(origin, d, j).unwrap())
}

/// Tile `t` lies in direction `d` from `origin`, at most `range` steps away,
/// with the line free up to it.
pub open spec fn ray_reach(g: GridView, origin: Pos, d: Direction, range: int, t: Pos) -> bool {
    exists|k: int| 1 <= k <= range && #[trigger] ray_hits(g, origin, d, k, t)
}

/// A melee attack from `origin`, a tile of the grid, reaches `t`: `t` lies
/// on one of the four lines through `origin`, at most `range` steps away, and
/// the line is free up to it.
pub open spec fn melee_reach(g: GridView, origin: Pos, range: int, t: Pos) -> bool {
    g.in_bounds(origin) && on_a_ray(g, origin, range, t)
}

/// Tile `t` lies on one of the four lines from `origin`, at most `range`
/// steps away, with the line free up to it.
pub open spec fn on_a_ray(g: GridView, origin: Pos, range: int, t: Pos) -> bool {
    ||| ray_reach(g, origin, Direction::North, range, t)
    ||| ray_reach(g, origin, Direction::South, range, t)
    ||| ray_reach(g, origin, Direction::East, range, t)
    ||| ray_reach(g, origin, Direction::West, range, t)
}

/// An attack of the given kind from `origin` reaches `t`.
pub open spec fn attack_reach(
    g: GridView,
    origin: Pos,
    range: int,
    kind: AttackType,
    t: Pos,
) -> bool {
    match kind {
        AttackType::Melee => melee_reach(g, origin, range, t),
        AttackType::Ranged => in_reach(g, origin, range, t, true),
    }
}

/// A walk ends on a tile of the grid, and, where units block the way, on a
/// tile that nobody stands on.
pub proof fn lemma_walk_ends_on_open_tile(g: GridView, p: Pos, t: Pos, n: nat, through_units: bool)
    requires
        walk_within(g, p, t, n, through_units),
    ensures
        g.in_bounds(t),
        through_units || !g.occupied(t),
    decreases n,
{
    let q = choose|q: Pos|
        #[trigger] step_ok(g, p, q, through_units) && lands(g, q, t, (n - 1) as nat, through_units);
    if q != t {
        lemma_walk_ends_on_open_tile(g, q, t, (n - 1) as nat, through_units);
    }
}

/// With a range of zero or less nothing is in reach, whether to move or to
/// attack.
pub proof fn lemma_nothing_in_reach_without_range(
    g: GridView,
    origin: Pos,
    range: int,
    kind: AttackType,
    t: Pos,
)
    requires
        range <= 0,
    ensures
        !in_reach(g, origin, range, t, false),
        !attack_reach(g, origin, range, kind, t),
{
}

/// The tiles a unit can move to never include the tile it stands on, and
/// never a tile that somebody stands on.
pub proof fn lemma_moves_avoid_origin_and_units(g: GridView, origin: Pos, range: int, t: Pos)
    requires
        in_reach(g, origin, range, t, false),
    ensures
        t != origin,
        g.in_bounds(t),
        !g.occupied(t),
{
    lemma_walk_ends_on_open_tile(g, origin, t, range as nat, false);
}

/// A longer range reaches at least as far.
pub proof fn lemma_walk_within_more(g: GridView, p: Pos, t: Pos, n: nat, m: nat, through_units: bool)
    requires
        walk_within(g, p, t, n, through_units),
        n <= m,
    ensures
        walk_within(g, p, t, m, through_units),
    decreases n,
{
    let q = choose|q: Pos|
        #[trigger] step_ok(g, p, q, through_units) && lands(g, q, t, (n - 1) as nat, through_units);
    if q != t {
        lemma_walk_within_more(g, q, t, (n - 1) as nat, (m - 1) as nat, through_units);
    }
    assert(step_ok(g, p, q, through_units) && lands(g, q, t, (m - 1) as nat, through_units));
}

/// A walk is at least as long as the taxicab distance between its ends.
pub proof fn lemma_walk_covers_distance(g: GridView, p: Pos, t: Pos, n: nat, through_units: bool)
    requires
        walk_within(g, p, t, n, through_units),
    ensures
        manhattan(p, t) <= n,
    decreases n,
{
    let q = choose|q: Pos|
        #[trigger] step_ok(g, p, q, through_units) && lands(g, q, t, (n - 1) as nat, through_units);
    if q != t {
        lemma_walk_covers_distance(g, q, t, (n - 1) as nat, through_units);
    }
    lemma_manhattan_triangle(p, q, t);
}

/// Where units do not block the way, a walk as long as the taxicab distance
/// leads from any tile of the grid to any other.
pub proof fn lemma_straight_walk(g: GridView, p: Pos, t: Pos)
    requires
        g.in_bounds(p),
        g.in_bounds(t),
        p != t,
    ensures
        walk_within(g, p, t, manhattan(p, t) as nat, true),
    decreases manhattan(p, t),
{
    let q = if p.x < t.x {
        Pos { x: (p.x + 1) as usize, y: p.y }
    } else if p.x > t.x {
        Pos { x: (p.x - 1) as usize, y: p.y }
    } else if p.y < t.y {
        Pos { x: p.x, y: (p.y + 1) as usize }
    } else {
        Pos { x: p.x, y: (p.y - 1) as usize }
    };
    assert(manhattan(q, t) == manhattan(p, t) - 1);
    if q != t {
        lemma_straight_walk(g, q, t);
    }
    assert(step_ok(g, p, q, true) && lands(g, q, t, (manhattan(p, t) - 1) as nat, true));
}

/// A ranged attack reaches exactly the tiles of the grid other than its own
/// whose taxicab distance is within its range: a diamond, whoever stands in
/// it.
pub proof fn lemma_ranged_reach_is_diamond(g: GridView, origin: Pos, range: int, t: Pos)
    ensures
        attack_reach(g, origin, range, AttackType::Ranged, t) <==> g.in_bounds(origin)
            && g.in_bounds(t) && 1 <= manhattan(origin, t) <= range,
{
    if attack_reach(g, origin, range, AttackType::Ranged, t) {
        lemma_walk_covers_distance(g, origin, t, range as nat, true);
        lemma_walk_ends_on_open_tile(g, origin, t, range as nat, true);
        lemma_manhattan_triangle(origin, t, t);
    }
    if g.in_bounds(origin) && g.in_bounds(t) && 1 <= manhattan(origin, t) <= range {
        lemma_manhattan_triangle(origin, t, t);
        lemma_straight_walk(g, origin, t);
        lemma_walk_within_more(g, origin, t, manhattan(origin, t) as nat, range as nat, true);
    }
}

/// The tiles a unit can move to all lie within its movement range, as the
/// crow flies.
pub proof fn lemma_moves_within_range(g: GridView, origin: Pos, range: int, t: Pos)
    requires
        in_reach(g, origin, range, t, false),
    ensures
        1 <= manhattan(origin, t) <= range,
{
    lemma_walk_covers_distance(g, origin, t, range as nat, false);
    lemma_manhattan_triangle(origin, t, t);
}

/// A melee attack reaches only tiles in the row or the column of its own,
/// other than its own, within its range.
pub proof fn lemma_melee_reach_is_on_the_cross(g: GridView, origin: Pos, range: int, t: Pos)
    requires
        melee_reach(g, origin, range, t),
    ensures
        t.x == origin.x || t.y == origin.y,
        1 <= manhattan(origin, t) <= range,
        g.in_bounds(t),
{
    let d = if ray_reach(g, origin, Direction::North, range, t) {
        Direction::North
    } else if ray_reach(g, origin, Direction::South, range, t) {
        Direction::South
    } else if ray_reach(g, origin, Direction::East, range, t) {
        Direction::East
    } else {
        Direction::West
    };
    let k = choose|k: int| 1 <= k <= range && #[trigger] ray_hits(g, origin, d, k, t);
    assert(ray(origin, d, k) == Some(t));
}

/// On a grid with nobody on it, a melee attack reaches every tile in the row
/// or the column of its own, other than its own, within its range.
pub proof fn lemma_melee_reach_on_open_lines(g: GridView, origin: Pos, range: int, t: Pos)
    requires
        g.in_bounds(origin),
        g.in_bounds(t),
        t.x == origin.x || t.y == origin.y,
        1 <= manhattan(origin, t) <= range,
        forall|q: Pos| !#[trigger] g.occupied(q),
    ensures
        melee_reach(g, origin, range, t),
{
    let k = manhattan(origin, t);
    let d = if t.y > origin.y {
        Direction::North
    } else if t.y < origin.y {
        Direction::South
    } else if t.x > origin.x {
        Direction::East
    } else {
        Direction::West
    };
    assert(ray(origin, d, k) == Some(t));
    assert(ray_hits(g, origin, d, k, t));
    assert(ray_reach(g, origin, d, range, t));
}

/// Whether `tiles` holds `p`.
pub fn contains_pos(tiles: &Vec<Pos>, p: Pos) -> (r: bool)
    ensures
        r == tiles@.contains(p),
{
    let mut i: usize = 0;
    while i < tiles.len()
        invariant
            i <= tiles.len(),
            forall|j: int| 0 <= j < i ==> tiles@[j] != p,
        decreases tiles.len() - i,
    {
        if tiles[i].same(&p) {
            return true;
        }
        i = i + 1;
    }
    false
}

/// Adds `p` to `tiles` unless it is there already.
pub fn push_unique(tiles: &mut Vec<Pos>, p: Pos)
    ensures
        old(tiles)@.no_duplicates() ==> final(tiles)@.no_duplicates(),
        forall|u: Pos|
            #![trigger final(tiles)@.contains(u)]
            #![trigger old(tiles)@.contains(u)]
            final(tiles)@.contains(u) <==> old(tiles)@.contains(u) || u == p,
{
    if !contains_pos(tiles, p) {
        tiles.push(p);
        proof {
            let before = old(tiles)@;
            let after = tiles@;
            assert(after == before.push(p));
            assert forall|u: Pos| after.contains(u) <==> before.contains(u) || u == p by {
                if after.contains(u) {
                    let c = choose|c: int| 0 <= c < after.len() && after[c] == u;
                    if c < before.len() {
                        assert(before[c] == u);
                    }
                }
                if before.contains(u) {
                    let c = choose|c: int| 0 <= c < before.len() && before[c] == u;
                    assert(after[c] == u);
                }
                assert(after[before.len() as int] == p);
            }
        }
    }
}

/// Adds to `tiles` each of `more` that is not `skip` and not there already.
pub fn merge_unique(tiles: &mut Vec<Pos>, more: &Vec<Pos>, skip: Pos)
    ensures
        old(tiles)@.no_duplicates() ==> final(tiles)@.no_duplicates(),
        forall|u: Pos|
            #![trigger final(tiles)@.contains(u)]
            #![trigger old(tiles)@.contains(u)]
            #![trigger more@.contains(u)]
            final(tiles)@.contains(u) <==> old(tiles)@.contains(u) || (more@.contains(u) && u
                != skip),
{
    let mut k: usize = 0;
    while k < more.len()
        invariant
            k <= more.len(),
            old(tiles)@.no_duplicates() ==> tiles@.no_duplicates(),
            forall|u: Pos|
                tiles@.contains(u) <==> old(tiles)@.contains(u) || (more@.subrange(
                    0,
                    k as int,
                ).contains(u) && u != skip),
        decreases more.len() - k,
    {
        let t = more[k];
        let ghost prev = tiles@;
        if !t.same(&skip) {
            push_unique(tiles, t);
        }
        proof {
            let done = more@.subrange(0, k as int);
            let next = more@.subrange(0, k + 1);
            assert(next == done.push(t));
            assert forall|u: Pos| next.contains(u) <==> done.contains(u) || u == t by {
                if next.contains(u) {
                    let c = choose|c: int| 0 <= c < next.len() && next[c] == u;
                    if c < done.len() {
                        assert(done[c] == u);
                    }
                }
                if done.contains(u) {
                    let c = choose|c: int| 0 <= c < done.len() && done[c] == u;
                    assert(next[c] == u);
                }
                assert(next[done.len() as int] == t);
            }
        }
        k = k + 1;
    }
    proof {
        assert(more@.subrange(0, more@.len() as int) == more@);
    }
}

/// Every tile other than `start` that a walk of at most `range` steps from
/// `start` ends on, each listed once. A range of zero or less gives none.
fn flood(grid: &Grid, start: Pos, range: isize, through_units: bool) -> (tiles: Vec<Pos>)
    requires
        grid.wf(),
    ensures
        tiles@.no_duplicates(),
        forall|t: Pos|
            #![trigger tiles@.contains(t)]
            #![trigger in_reach(grid@, start, range as int, t, through_units)]
            tiles@.contains(t) <==> in_reach(grid@, start, range as int, t, through_units),
    decreases range,
{
    let mut tiles: Vec<Pos> = Vec::new();
    if range <= 0 || !grid.in_bounds(start) {
        return tiles;
    }
    let neighbors = collect_neighbors(grid, start, through_units);
    let ghost g = grid@;
    let ghost ns = neighbors_spec(g, start, through_units);
    let ghost rest = (range - 1) as nat;
    proof {
        lemma_neighbors_spec(g, start, through_units);
    }
    let mut i: usize = 0;
    while i < neighbors.len()
        invariant
            i <= neighbors.len(),
            grid.wf(),
            g == grid@,
            range > 0,
            rest == (range - 1) as nat,
            ns == neighbors_spec(g, start, through_units),
            neighbors@ == with_unit_cost(ns),
            tiles@.no_duplicates(),
            forall|t: Pos|
                tiles@.contains(t) <==> t != start && exists|j: int|
                    0 <= j < i && #[trigger] lands(g, ns[j], t, rest, through_units),
        decreases neighbors.len() - i,
    {
        let n = neighbors[i].0;
        assert(n == ns[i as int]);
        assert(ns.contains(n));
        assert(step_ok(g, start, n, through_units));
        let ghost before = tiles@;
        if !n.same(&start) {
            push_unique(&mut tiles, n);
        }
        let ghost mid = tiles@;
        let further = flood(grid, n, range - 1, through_units);
        merge_unique(&mut tiles, &further, start);
        proof {
            assert(n != start);
            assert(forall|u: Pos| mid.contains(u) <==> before.contains(u) || u == n);
            assert(forall|u: Pos|
                tiles@.contains(u) <==> mid.contains(u) || (further@.contains(u) && u != start));
            assert(forall|u: Pos|
                further@.contains(u) <==> in_reach(g, n, range - 1, u, through_units));
            assert forall|t: Pos|
                tiles@.contains(t) <==> t != start && exists|j: int|
                    0 <= j < i + 1 && #[trigger] lands(g, ns[j], t, rest, through_units) by {
                if tiles@.contains(t) {
                    if before.contains(t) {
                        let j = choose|j: int|
                            0 <= j < i && #[trigger] lands(g, ns[j], t, rest, through_units);
                        assert(0 <= j < i + 1 && lands(g, ns[j], t, rest, through_units));
                    } else if t == n {
                        assert(lands(g, ns[i as int], t, rest, through_units));
                    } else {
                        assert(further@.contains(t));
                        assert(in_reach(g, n, range - 1, t, through_units));
                        assert(lands(g, ns[i as int], t, rest, through_units));
                    }
                }
                if t != start && exists|j: int|
                    0 <= j < i + 1 && #[trigger] lands(g, ns[j], t, rest, through_units) {
                    let j = choose|j: int|
                        0 <= j < i + 1 && #[trigger] lands(g, ns[j], t, rest, through_units);
                    if j < i {
                        assert(before.contains(t));
                    } else if t == n {
                        assert(mid.contains(t));
                    } else {
                        assert(walk_within(g, n, t, rest, through_units));
                        assert(rest > 0);
                        assert(in_reach(g, n, range - 1, t, through_units));
                        assert(further@.contains(t));
                    }
                }
            }
        }
        i = i + 1;
    }
    proof {
        assert forall|t: Pos| tiles@.contains(t) <==> in_reach(
            g,
            start,
            range as int,
            t,
            through_units,
        ) by {
            if tiles@.contains(t) {
                let j = choose|j: int|
                    0 <= j < ns.len() && #[trigger] lands(g, ns[j], t, rest, through_units);
                assert(ns.contains(ns[j]));
                assert(step_ok(g, start, ns[j], through_units));
                assert(walk_within(g, start, t, range as nat, through_units));
            }
            if in_reach(g, start, range as int, t, through_units) {
                let q = choose|q: Pos|
                    #[trigger] step_ok(g, start, q, through_units) && lands(
                        g,
                        q,
                        t,
                        rest,
                        through_units,
                    );
                assert(ns.contains(q));
                let j = choose|j: int| 0 <= j < ns.len() && ns[j] == q;
                assert(0 <= j < ns.len() && lands(g, ns[j], t, rest, through_units));
            }
        }
    }
    tiles
}

/// The tiles a unit at `start` can move to with `movement_range` steps: every
/// tile other than `start` at the end of a walk of at most that many steps
/// over free tiles, each listed once.
pub fn find_possible_movements(grid: &Grid, start: Pos, movement_range: isize) -> (tiles: Vec<Pos>)
    requires
        grid.wf(),
    ensures
        tiles@.no_duplicates(),
        forall|t: Pos|
            #![trigger tiles@.contains(t)]
            #![trigger in_reach(grid@, start, movement_range as int, t, false)]
            tiles@.contains(t) <==> in_reach(grid@, start, movement_range as int, t, false),
        movement_range <= 0 ==> tiles@.len() == 0,
        !tiles@.contains(start),
        forall|t: Pos| #[trigger] tiles@.contains(t) ==> grid@.in_bounds(t) && !grid@.occupied(t),
{
    let tiles = flood(grid, start, movement_range, false);
    proof {
        assert forall|t: Pos| #[trigger] tiles@.contains(t) implies grid@.in_bounds(t)
            && !grid@.occupied(t) by {
            lemma_moves_avoid_origin_and_units(grid@, start, movement_range as int, t);
        }
        if movement_range <= 0 && tiles@.len() > 0 {
            assert(tiles@.contains(tiles@[0]));
        }
    }
    tiles
}

/// Adds to `tiles` the tiles that lie in direction `d` from `start`, at most
/// `range` steps away: it walks outward and stops at the edge of the grid or
/// behind the first tile that somebody stands on.
fn ray_tiles(grid: &Grid, start: Pos, d: Direction, range: isize, tiles: &mut Vec<Pos>)
    requires
        grid.wf(),
        grid@.in_bounds(start),
    ensures
        old(tiles)@.no_duplicates() ==> final(tiles)@.no_duplicates(),
        forall|u: Pos|
            #![trigger final(tiles)@.contains(u)]
            #![trigger old(tiles)@.contains(u)]
            #![trigger ray_reach(grid@, start, d, range as int, u)]
            final(tiles)@.contains(u) <==> old(tiles)@.contains(u) || ray_reach(
                grid@,
                start,
                d,
                range as int,
                u,
            ),
{
    let ghost g = grid@;
    let mut cur = start;
    let mut k: isize = 0;
    let mut done = false;
    while k < range && !done
        invariant
            grid.wf(),
            g == grid@,
            0 <= k,
            k <= range || k == 0,
            ray(start, d, k as int) == Some(cur),
            g.in_bounds(cur),
            !done ==> forall|j: int|
                1 <= j <= k ==> !g.occupied(#[trigger] ray(start, d, j).unwrap()),
            done ==> forall|m: int, t: Pos| m > k ==> !#[trigger] ray_hits(g, start, d, m, t),
            old(tiles)@.no_duplicates() ==> tiles@.no_duplicates(),
            forall|u: Pos|
                #![trigger tiles@.contains(u)]
                #![trigger old(tiles)@.contains(u)]
                #![trigger ray_reach(g, start, d, k as int, u)]
                tiles@.contains(u) <==> old(tiles)@.contains(u) || ray_reach(
                    g,
                    start,
                    d,
                    k as int,
                    u,
                ),
        decreases range - k, if done { 0int } else { 1int },
    {
        let ghost before = tiles@;
        match cur.step(d) {
            Some(q) => {
                if grid.in_bounds(q) {
                    assert(ray(start, d, k + 1) == Some(q));
                    push_unique(tiles, q);
                    proof {
                        assert(ray_hits(g, start, d, k + 1, q));
                        assert forall|u: Pos|
                            #![trigger tiles@.contains(u)]
                            #![trigger old(tiles)@.contains(u)]
                            #![trigger ray_reach(g, start, d, k + 1, u)]
                            tiles@.contains(u) <==> old(tiles)@.contains(u) || ray_reach(
                                g,
                                start,
                                d,
                                k + 1,
                                u,
                            ) by {
                            if ray_reach(g, start, d, k + 1, u) {
                                let m = choose|m: int|
                                    1 <= m <= k + 1 && #[trigger] ray_hits(g, start, d, m, u);
                                if m <= k {
                                    assert(ray_reach(g, start, d, k as int, u));
                                } else {
                                    assert(u == q);
                                }
                            }
                            if ray_reach(g, start, d, k as int, u) {
                                let m = choose|m: int|
                                    1 <= m <= k && #[trigger] ray_hits(g, start, d, m, u);
                                assert(1 <= m <= k + 1 && ray_hits(g, start, d, m, u));
                            }
                        }
                    }
                    k = k + 1;
                    cur = q;
                    if grid.is_occupied(q) {
                        done = true;
                        proof {
                            assert forall|m: int, t: Pos| m > k implies !#[trigger] ray_hits(
                                g,
                                start,
                                d,
                                m,
                                t,
                            ) by {
                                if ray_hits(g, start, d, m, t) {
                                    assert(!g.occupied(ray(start, d, k as int).unwrap()));
                                }
                            }
                        }
                    }
                } else {
                    done = true;
                    proof {
                        assert forall|m: int, t: Pos| m > k implies !#[trigger] ray_hits(
                            g,
                            start,
                            d,
                            m,
                            t,
                        ) by {
                            if ray_hits(g, start, d, m, t) {
                                assert(g.in_bounds(t));
                            }
                        }
                    }
                }
            },
            None => {
                done = true;
                proof {
                    assert forall|m: int, t: Pos| m > k implies !#[trigger] ray_hits(
                        g,
                        start,
                        d,
                        m,
                        t,
                    ) by {
                        if ray_hits(g, start, d, m, t) {
                            assert(g.in_bounds(t));
                        }
                    }
                }
            },
        }
    }
    proof {
        assert forall|u: Pos|
            #![trigger ray_reach(g, start, d, range as int, u)]
            ray_reach(g, start, d, range as int, u) <==> ray_reach(g, start, d, k as int, u) by {
            if ray_reach(g, start, d, range as int, u) {
                let m = choose|m: int| 1 <= m <= range && #[trigger] ray_hits(g, start, d, m, u);
                assert(1 <= m <= k && ray_hits(g, start, d, m, u));
            }
            if ray_reach(g, start, d, k as int, u) {
                let m = choose|m: int| 1 <= m <= k && #[trigger] ray_hits(g, start, d, m, u);
                assert(1 <= m <= range && ray_hits(g, start, d, m, u));
            }
        }
    }
}

/// The tiles that a unit at `start` can attack: for a melee unit those on
/// the four lines through `start`, out to `attack_range` steps or to the
/// first tile that somebody stands on; for a ranged unit every tile other
/// than `start` within `attack_range` steps, whoever stands in between.
/// Each tile is listed once; a range of zero or less gives none.
pub fn find_possible_attacks(
    grid: &Grid,
    start: Pos,
    attack_range: isize,
    attack_type: AttackType,
) -> (tiles: Vec<Pos>)
    requires
        grid.wf(),
    ensures
        tiles@.no_duplicates(),
        forall|t: Pos|
            #![trigger tiles@.contains(t)]
            #![trigger attack_reach(grid@, start, attack_range as int, attack_type, t)]
            tiles@.contains(t) <==> attack_reach(
                grid@,
                start,
                attack_range as int,
                attack_type,
                t,
            ),
        attack_range <= 0 ==> tiles@.len() == 0,
{
    let tiles = match attack_type {
        AttackType::Melee => {
            let mut tiles: Vec<Pos> = Vec::new();
            if !grid.in_bounds(start) {
                return tiles;
            }
            ray_tiles(grid, start, Direction::North, attack_range, &mut tiles);
            ray_tiles(grid, start, Direction::South, attack_range, &mut tiles);
            ray_tiles(grid, start, Direction::East, attack_range, &mut tiles);
            ray_tiles(grid, start, Direction::West, attack_range, &mut tiles);
            tiles
        },
        AttackType::Ranged => flood(grid, start, attack_range, true),
    };
    proof {
        if attack_range <= 0 && tiles@.len() > 0 {
            assert(tiles@.contains(tiles@[0]));
        }
    }
    tiles
}

} // verus!
