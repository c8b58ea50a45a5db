//! Carrying out a move: the path is looked for once, cut into steps from
//! tile to neighbouring tile, and walked one step at a time.

use vstd::prelude::*;
use crate::pos::{Pos, facing_spec, adjacent};
use crate::grid::GridView;
use crate::path::{find_path, is_path, link, path_found};
use crate::battle::{Battle, BattleView, is_chain, lemma_index_of};
use crate::scheduler::lemma_with_unit_at_wf;
use crate::actions::finish;
use crate::unit::{Unit, UnitView, UnitAction, Activity, MoveAction};

verus! {

/// The steps of a path: from each of its tiles to the next, none of the
/// step's time spent yet.
pub open spec fn steps_of(path: Seq<Pos>, duration: u64) -> Seq<MoveAction> {
    Seq::new(
        (path.len() - 1) as nat,
        |k: int| MoveAction { origin: path[k], destination: path[k + 1], elapsed: 0, duration },
    )
}

/// A unit whose move has been looked at: with a path it walks the steps of
/// it, without one its move is blocked.
pub open spec fn planned(u: UnitView, found: Option<Seq<Pos>>, duration: u64) -> UnitView {
    match found {
        Some(path) => UnitView { activity: Activity::Moving, steps: steps_of(path, duration), ..u },
        None => UnitView { activity: Activity::MoveBlocked, ..u },
    }
}

/// What looking for its path may make of a unit. A unit without a pending
/// move stays as it is. A move that starts elsewhere than where the unit
/// stands is dropped. Else the unit walks a shortest path to the
/// destination, or its move is blocked where there is no path.
pub open spec fn plan_allows(g: GridView, duration: u64, u: UnitView, after: UnitView) -> bool {
    if u.activity != Activity::MovePending {
        after == u
    } else {
        match u.queue[0].0 {
            UnitAction::Move { origin, destination } => if origin != u.pos {
                after == u.finished()
            } else {
                exists|found: Option<Seq<Pos>>|
                    path_found(g, origin, destination, found) && after == #[trigger] planned(
                        u,
                        found,
                        duration,
                    )
            },
            _ => after == u,
        }
    }
}

/// What looking for the paths of all pending moves may make of a battle:
/// of each unit what `plan_allows` says, and nothing else changes.
pub open spec fn plans_allow(b: BattleView, a: BattleView) -> bool {
    &&& a == (BattleView { units: a.units, ..b })
    &&& a.units.len() == b.units.len()
    &&& forall|i: int|
        0 <= i < b.units.len() ==> plan_allows(
            b.grid,
            b.step_duration,
            b.units[i],
            #[trigger] a.units[i],
        )
}

/// The steps of a path lead on from its first tile, tile by neighbouring
/// tile, and stay on the grid.
pub proof fn lemma_steps_of_path_chain(
    g: GridView,
    start: Pos,
    destination: Pos,
    path: Seq<Pos>,
    duration: u64,
)
    requires
        is_path(g, start, destination, path),
    ensures
        is_chain(g, start, steps_of(path, duration)),
{
    let steps = steps_of(path, duration);
    assert forall|k: int| 0 <= k < steps.len() implies {
        &&& (#[trigger] steps[k]).origin == if k == 0 {
            start
        } else {
            steps[k - 1].destination
        }
        &&& adjacent(steps[k].origin, steps[k].destination)
        &&& g.in_bounds(steps[k].destination)
    } by {
        assert(link(g, path, k));
    }
}

/// Cuts a path into the steps of a walk.
pub fn path_steps(path: &Vec<Pos>, duration: u64) -> (steps: Vec<MoveAction>)
    requires
        path@.len() >= 1,
    ensures
        steps@ == steps_of(path@, duration),
{
    let mut steps: Vec<MoveAction> = Vec::new();
    let mut k: usize = 0;
    while k + 1 < path.len()
        invariant
            k + 1 <= path.len(),
            steps@.len() == k,
            forall|j: int|
                0 <= j < k ==> steps@[j] == (MoveAction {
                    origin: path@[j],
                    destination: path@[j + 1],
                    elapsed: 0,
                    duration,
                }),
        decreases path.len() - k,
    {
        steps.push(MoveAction { origin: path[k], destination: path[k + 1], elapsed: 0, duration });
        k = k + 1;
    }
    assert(steps@ =~= steps_of(path@, duration));
    steps
}

/// Gives a unit with a pending move the outcome of the search for its path.
pub fn plan_with(unit: &mut Unit, found: Option<Vec<Pos>>, duration: u64)
    requires
        found.is_some() ==> found.unwrap()@.len() >= 1,
    ensures
        final(unit)@ == planned(
            old(unit)@,
            match found {
                Some(path) => Some(path@),
                None => None,
            },
            duration,
        ),
{
    match found {
        Some(path) => {
            unit.actions.move_actions = path_steps(&path, duration);
            unit.actions.activity = Activity::Moving;
        },
        None => {
            unit.actions.activity = Activity::MoveBlocked;
        },
    }
}

/// One unit `delta` milliseconds later in its walk. A unit that does not
/// walk stays as it is. One with no step left, or whose next tile is taken,
/// is done with its move where it stands. Else the unit turns the way of its
/// step and the step's time goes on; when the time is up the unit leaves its
/// tile for the next, and is done if that was its last step.
pub open spec fn advanced(b: BattleView, i: int, delta: u64) -> BattleView {
    let u = b.units[i];
    if u.activity != Activity::Moving {
        b
    } else if u.steps.len() == 0 || b.grid.occupied(u.steps[0].destination) {
        b.with_unit_at(i, u.finished())
    } else {
        let s = u.steps[0];
        let spent = if s.elapsed + delta > u64::MAX {
            u64::MAX
        } else {
            (s.elapsed + delta) as u64
        };
        let dir = facing_spec(u.dir, s.origin, s.destination);
        if spent < s.duration {
            b.with_unit_at(
                i,
                UnitView { dir, steps: u.steps.update(0, MoveAction { elapsed: spent, ..s }), ..u },
            )
        } else {
            let moved = UnitView { pos: s.destination, dir, steps: u.steps.drop_first(), ..u };
            BattleView {
                grid: b.grid.with_occupants(u.pos, Seq::empty()).with_occupants(
                    s.destination,
                    seq![u.id],
                ),
                units: b.units.update(
                    i,
                    if moved.steps.len() == 0 {
                        moved.finished()
                    } else {
                        moved
                    },
                ),
                ..b
            }
        }
    }
}

/// The battle after the first `n` units of the list have each been taken
/// `delta` milliseconds further in their walk, one after the other.
pub open spec fn advanced_through(b: BattleView, n: nat, delta: u64) -> BattleView
    decreases n,
{
    if n == 0 {
        b
    } else {
        advanced(advanced_through(b, (n - 1) as nat, delta), n - 1, delta)
    }
}

/// Taking a unit further in its walk keeps the rules of the battle, and
/// neither adds nor removes a unit.
pub proof fn lemma_advanced_wf(b: BattleView, i: int, delta: u64)
    requires
        b.wf(),
        0 <= i < b.units.len(),
    ensures
        advanced(b, i, delta).wf(),
        advanced(b, i, delta).units.len() == b.units.len(),
{
    let a = advanced(b, i, delta);
    let u = b.units[i];
    assert(u.wf());
    assert(is_chain(b.grid, u.pos, u.steps));
    if u.activity != Activity::Moving {
    } else if u.steps.len() == 0 || b.grid.occupied(u.steps[0].destination) {
        lemma_with_unit_at_wf(b, i, u.finished());
    } else {
        let s = u.steps[0];
        let spent = if s.elapsed + delta > u64::MAX {
            u64::MAX
        } else {
            (s.elapsed + delta) as u64
        };
        let dir = facing_spec(u.dir, s.origin, s.destination);
        if spent < s.duration {
            let w = UnitView {
                dir,
                steps: u.steps.update(0, MoveAction { elapsed: spent, ..s }),
                ..u
            };
            assert(is_chain(b.grid, w.pos, w.steps)) by {
                assert forall|k: int| 0 <= k < w.steps.len() implies {
                    &&& (#[trigger] w.steps[k]).origin == if k == 0 {
                        w.pos
                    } else {
                        w.steps[k - 1].destination
                    }
                    &&& adjacent(w.steps[k].origin, w.steps[k].destination)
                    &&& b.grid.in_bounds(w.steps[k].destination)
                } by {
                    assert(u.steps[k].origin == u.steps[k].origin);
                    if k > 0 {
                        assert(u.steps[k - 1].destination == w.steps[k - 1].destination);
                    }
                }
            }
            lemma_with_unit_at_wf(b, i, w);
        } else {
            lemma_moved_wf(b, i, delta);
        }
    }
}

/// A unit that leaves its tile for the free neighbouring tile of its next
/// step leaves the battle's rules in force.
proof fn lemma_moved_wf(b: BattleView, i: int, delta: u64)
    requires
        b.wf(),
        0 <= i < b.units.len(),
        b.units[i].activity == Activity::Moving,
        b.units[i].steps.len() > 0,
        !b.grid.occupied(b.units[i].steps[0].destination),
        b.units[i].steps[0].elapsed + delta >= b.units[i].steps[0].duration,
    ensures
        advanced(b, i, delta).wf(),
{
    let a = advanced(b, i, delta);
    let u = b.units[i];
    let s = u.steps[0];
    let p = u.pos;
    let q = s.destination;
    assert(u.wf());
    assert(is_chain(b.grid, p, u.steps));
    assert(s.origin == p);
    assert(b.grid.in_bounds(q));
    assert(p != q);
    assert(b.grid.occupants(p) == seq![u.id]);
    assert(b.grid.occupants(q).len() == 0);
    let v = a.units[i];
    assert(v.id == u.id && v.pos == q);
    assert forall|id: usize| #[trigger] a.has_unit(id) == b.has_unit(id) by {
        if a.has_unit(id) {
            let k = a.index_of(id);
            assert(b.units[k].id == id);
        }
        if b.has_unit(id) {
            let k = b.index_of(id);
            assert(a.units[k].id == id);
        }
    }
    assert(a.ids_differ()) by {
        assert forall|j: int, k: int|
            0 <= j < a.units.len() && 0 <= k < a.units.len() && j != k implies (
        #[trigger] a.units[j]).id != (#[trigger] a.units[k]).id by {
            assert(b.units[j].id != b.units[k].id);
        }
    }
    assert(a.units_on_tiles()) by {
        assert forall|j: int| 0 <= j < a.units.len() implies a.grid.in_bounds(
            (#[trigger] a.units[j]).pos,
        ) && a.grid.occupants(a.units[j].pos) == seq![a.units[j].id] by {
            if j != i {
                assert(a.units[j] == b.units[j]);
                assert(b.grid.occupants(b.units[j].pos) == seq![b.units[j].id]);
                assert(b.units[j].id != b.units[i].id);
                assert(b.units[j].pos != p);
                assert(b.units[j].pos != q);
            }
        }
    }
    assert(a.tiles_hold_units()) by {
        assert forall|t: Pos|
            a.grid.in_bounds(t) && (#[trigger] a.grid.occupants(t)).len() > 0 implies {
            &&& a.grid.occupants(t).len() == 1
            &&& a.has_unit(a.grid.occupants(t)[0])
            &&& a.units[a.index_of(a.grid.occupants(t)[0])].pos == t
        } by {
            let id = a.grid.occupants(t)[0];
            if t == q {
                assert(id == u.id);
                lemma_index_of(a, i);
            } else {
                assert(t != p);
                assert(b.grid.occupants(t) == a.grid.occupants(t));
                assert(b.has_unit(id));
                let k = b.index_of(id);
                assert(b.units[k].id == id);
                assert(b.units[k].pos == t);
                assert(k != i);
                lemma_index_of(a, k);
            }
        }
    }
    assert forall|j: int| 0 <= j < a.units.len() implies (#[trigger] a.units[j]).wf() && is_chain(
        a.grid,
        a.units[j].pos,
        a.units[j].steps,
    ) by {
        if j != i {
            assert(b.units[j].wf());
            assert(is_chain(b.grid, b.units[j].pos, b.units[j].steps));
        } else {
            let rest = u.steps.drop_first();
            assert forall|k: int| 0 <= k < rest.len() implies {
                &&& (#[trigger] rest[k]).origin == if k == 0 {
                    q
                } else {
                    rest[k - 1].destination
                }
                &&& adjacent(rest[k].origin, rest[k].destination)
                &&& b.grid.in_bounds(rest[k].destination)
            } by {
                assert(rest[k] == u.steps[k + 1]);
                if k > 0 {
                    assert(rest[k - 1] == u.steps[k]);
                }
            }
        }
    }
    assert(a.marks_unit(a.actor));
    assert(a.marks_unit(a.attacker));
    assert(a.marks_unit(a.target));
}

/// Taking the first `n` units further in their walk keeps the rules of the
/// battle, and neither adds nor removes a unit.
pub proof fn lemma_advanced_through_wf(b: BattleView, n: nat, delta: u64)
    requires
        b.wf(),
        n <= b.units.len(),
    ensures
        advanced_through(b, n, delta).wf(),
        advanced_through(b, n, delta).units.len() == b.units.len(),
    decreases n,
{
    if n > 0 {
        lemma_advanced_through_wf(b, (n - 1) as nat, delta);
        lemma_advanced_wf(advanced_through(b, (n - 1) as nat, delta), n - 1, delta);
    }
}

impl Battle {
    /// Looks for the path of unit `i`, if it has a move pending.
    pub fn plan_unit(&mut self, i: usize)
        requires
            old(self).wf(),
            i < old(self)@.units.len(),
        ensures
            final(self).wf(),
            final(self)@ == old(self)@.with_unit_at(i as int, final(self)@.units[i as int]),
            plan_allows(
                old(self)@.grid,
                old(self)@.step_duration,
                old(self)@.units[i as int],
                final(self)@.units[i as int],
            ),
    {
        let ghost before = self@;
        let ghost u = before.units[i as int];
        proof {
            assert(u.wf());
            assert(is_chain(before.grid, u.pos, u.steps));
        }
        if self.units[i].actions.activity != Activity::MovePending {
            assert(self@.units =~= before.units.update(i as int, u));
            return;
        }
        let (origin, destination) = match &self.units[i].actions.unit_actions[0].0 {
            UnitAction::Move { origin, destination } => (*origin, *destination),
            _ => {
                assert(self@.units =~= before.units.update(i as int, u));
                return;
            },
        };
        if !origin.same(&self.units[i].pos) {
            finish(&mut self.units[i]);
            proof {
                assert(self@.units =~= before.units.update(i as int, u.finished()));
                lemma_with_unit_at_wf(before, i as int, u.finished());
            }
            return;
        }
        let found = find_path(&self.grid, origin, destination);
        let ghost found_view: Option<Seq<Pos>> = if found.is_some() {
            Some(found.unwrap()@)
        } else {
            None
        };
        let duration = self.step_duration;
        plan_with(&mut self.units[i], found, duration);
        proof {
            let w = planned(u, found_view, duration);
            assert(self@.units =~= before.units.update(i as int, w));
            assert(path_found(before.grid, origin, destination, found_view));
            match found_view {
                Some(path) => {
                    lemma_steps_of_path_chain(before.grid, origin, destination, path, duration);
                },
                None => {},
            }
            lemma_with_unit_at_wf(before, i as int, w);
        }
    }

    /// Looks for the path of every unit that has a move pending. Nothing
    /// but those units changes.
    pub fn process_move_actions(&mut self)
        requires
            old(self).wf(),
        ensures
            final(self).wf(),
            plans_allow(old(self)@, final(self)@),
    {
        let ghost before = self@;
        let mut i: usize = 0;
        while i < self.units.len()
            invariant
                self.wf(),
                i <= self.units.len(),
                self@ == (BattleView { units: self@.units, ..before }),
                self@.units.len() == before.units.len(),
                forall|j: int|
                    0 <= j < i ==> plan_allows(
                        before.grid,
                        before.step_duration,
                        before.units[j],
                        #[trigger] self@.units[j],
                    ),
                forall|j: int| i <= j < before.units.len() ==> #[trigger] self@.units[j]
                    == before.units[j],
            decreases self.units.len() - i,
        {
            self.plan_unit(i);
            i = i + 1;
        }
    }

    /// Takes unit `i` `delta` milliseconds further in its walk.
    pub fn advance_unit(&mut self, i: usize, delta: u64)
        requires
            old(self).wf(),
            i < old(self)@.units.len(),
        ensures
            final(self).wf(),
            final(self)@ == advanced(old(self)@, i as int, delta),
    {
        let ghost before = self@;
        let ghost u = before.units[i as int];
        proof {
            assert(u.wf());
            assert(is_chain(before.grid, u.pos, u.steps));
            lemma_advanced_wf(before, i as int, delta);
        }
        if self.units[i].actions.activity != Activity::Moving {
            return;
        }
        if self.units[i].actions.move_actions.len() == 0 {
            finish(&mut self.units[i]);
            assert(self@.units =~= before.units.update(i as int, u.finished()));
            return;
        }
        let s = self.units[i].actions.move_actions[0];
        if self.grid.is_occupied(s.destination) {
            finish(&mut self.units[i]);
            assert(self@.units =~= before.units.update(i as int, u.finished()));
            return;
        }
        let spent: u64 = if delta > u64::MAX - s.elapsed {
            u64::MAX
        } else {
            s.elapsed + delta
        };
        let dir = self.units[i].dir.facing(s.origin, s.destination);
        self.units[i].dir = dir;
        if spent < s.duration {
            self.units[i].actions.move_actions[0].elapsed = spent;
            proof {
                let w = UnitView {
                    dir,
                    steps: u.steps.update(0, MoveAction { elapsed: spent, ..s }),
                    ..u
                };
                assert(self@.units[i as int].steps =~= w.steps);
                assert(self@.units =~= before.units.update(i as int, w));
            }
        } else {
            let from = self.units[i].pos;
            let id = self.units[i].id;
            assert(before.grid.occupants(from) == seq![id]);
            self.grid.pop_occupant(from);
            self.grid.push_occupant(s.destination, id);
            self.units[i].pos = s.destination;
            self.units[i].actions.move_actions.remove(0);
            proof {
                assert(self@.units[i as int].steps =~= u.steps.drop_first());
                assert(seq![id].drop_last() =~= Seq::<usize>::empty());
                assert(before.grid.occupants(s.destination) =~= Seq::<usize>::empty());
                assert(Seq::<usize>::empty().push(id) =~= seq![id]);
            }
            if self.units[i].actions.move_actions.len() == 0 {
                finish(&mut self.units[i]);
            }
            proof {
                let a = advanced(before, i as int, delta);
                assert(self@.units =~= a.units);
                assert(self@.grid == a.grid);
            }
        }
    }

    /// Takes every walking unit `delta` milliseconds further, one after the
    /// other in the order of the list.
    pub fn handle_move_state(&mut self, delta: u64)
        requires
            old(self).wf(),
        ensures
            final(self).wf(),
            final(self)@ == advanced_through(old(self)@, old(self)@.units.len(), delta),
    {
        let ghost before = self@;
        let n = self.units.len();
        let mut i: usize = 0;
        while i < n
            invariant
                self.wf(),
                before.wf(),
                i <= n,
                n == before.units.len(),
                self@ == advanced_through(before, i as nat, delta),
                self@.units.len() == n,
            decreases n - i,
        {
            proof {
                lemma_advanced_wf(self@, i as int, delta);
            }
            self.advance_unit(i, delta);
            i = i + 1;
        }
    }
}

} // verus!
