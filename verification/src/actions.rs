//! The queue of actions of each unit: what is asked of a unit waits in line,
//! starts when its time has come and nothing else is in flight, and leaves
//! the queue when it is done.

use vstd::prelude::*;
use crate::pos::Pos;
use crate::battle::{Battle, BattleView, unit_views, is_chain, lemma_rules_kept};
use crate::scheduler::lemma_with_unit_at_wf;
use crate::unit::{Unit, UnitView, UnitAction, UnitActionTuple, Activity, activity_for};

verus! {

/// A unit one dispatch later: if it has an action waiting, nothing in
/// flight, and the time of the action has come, it starts on the action.
pub open spec fn dispatched(u: UnitView, now: u64) -> UnitView {
    if u.queue.len() == 0 || u.processing || now < u.queue[0].1 {
        u
    } else {
        UnitView { processing: true, activity: activity_for(u.queue[0].0), ..u }
    }
}

/// A unit done with what it does, if what it does is `activity`.
pub open spec fn finished_if(u: UnitView, activity: Activity) -> UnitView {
    if u.activity == activity {
        u.finished()
    } else {
        u
    }
}

/// A unit told to do nothing, at once.
pub open spec fn told_nothing(u: UnitView) -> UnitView {
    u.enqueued(UnitActionTuple(UnitAction::DoNothing, 0))
}

impl BattleView {
    /// The battle after every unit has started on the head of its queue, if
    /// it had nothing in flight and the time of the action had come.
    pub open spec fn dispatched_all(self, now: u64) -> BattleView {
        BattleView {
            units: Seq::new(self.units.len(), |i: int| dispatched(self.units[i], now)),
            ..self
        }
    }

    /// The battle after every unit that was doing `activity` is done with
    /// it.
    pub open spec fn finished_all(self, activity: Activity) -> BattleView {
        BattleView {
            units: Seq::new(self.units.len(), |i: int| finished_if(self.units[i], activity)),
            ..self
        }
    }

    /// The battle with `entry` at the back of the queue of the unit with
    /// this id; the battle itself where no unit has the id.
    pub open spec fn enqueue_spec(self, id: usize, entry: UnitActionTuple) -> BattleView {
        if self.has_unit(id) {
            self.with_unit_at(self.index_of(id), self.units[self.index_of(id)].enqueued(entry))
        } else {
            self
        }
    }

    /// The battle with a move to `destination` at the back of the queue of
    /// the unit with this id, starting from where the unit stands now.
    pub open spec fn move_command_spec(self, id: usize, destination: Pos) -> BattleView {
        if self.has_unit(id) {
            self.enqueue_spec(
                id,
                UnitActionTuple(
                    UnitAction::Move { origin: self.units[self.index_of(id)].pos, destination },
                    0,
                ),
            )
        } else {
            self
        }
    }

    /// The battle with the blocked move of the unit with this id taken off
    /// its queue; the battle itself where no such unit has a blocked move.
    pub open spec fn cancel_spec(self, id: usize) -> BattleView {
        if self.has_unit(id) && self.units[self.index_of(id)].activity == Activity::MoveBlocked {
            self.with_unit_at(self.index_of(id), self.units[self.index_of(id)].finished())
        } else {
            self
        }
    }
}

/// A unit keeps its rules when an action joins its queue.
pub proof fn lemma_enqueued_wf(u: UnitView, entry: UnitActionTuple)
    requires
        u.wf(),
    ensures
        u.enqueued(entry).wf(),
{
    if u.queue.len() > 0 {
        assert(u.enqueued(entry).queue[0] == u.queue[0]);
    }
}

/// The action in flight at the head of the queue is done: it leaves the
/// queue and the unit is idle.
pub fn finish(unit: &mut Unit)
    requires
        old(unit)@.queue.len() > 0,
    ensures
        final(unit)@ == old(unit)@.finished(),
{
    unit.actions.unit_actions.remove(0);
    unit.actions.processing_unit_action = false;
    unit.actions.activity = Activity::Idle;
    unit.actions.move_actions = Vec::new();
    proof {
        assert(unit@.queue =~= old(unit)@.queue.drop_first());
        assert(unit@.steps =~= Seq::empty());
    }
}

/// Lets a unit start on the head of its queue, if it may.
pub fn dispatch(unit: &mut Unit, now: u64)
    ensures
        final(unit)@ == dispatched(old(unit)@, now),
{
    if unit.actions.unit_actions.len() == 0 || unit.actions.processing_unit_action || now
        < unit.actions.unit_actions[0].1 {
        return;
    }
    let activity = match &unit.actions.unit_actions[0].0 {
        UnitAction::Move { .. } => Activity::MovePending,
        UnitAction::Talk { .. } => Activity::Talking,
        UnitAction::BasicAttack { .. } => Activity::Attacking,
        UnitAction::DoNothing => Activity::Resting,
    };
    unit.actions.processing_unit_action = true;
    unit.actions.activity = activity;
}

/// Lets every unit start on the head of its queue, if it may.
fn dispatch_all(units: &mut Vec<Unit>, now: u64)
    ensures
        unit_views(final(units)@) =~= Seq::new(
            old(units)@.len(),
            |i: int| dispatched(old(units)@[i]@, now),
        ),
{
    let mut i: usize = 0;
    while i < units.len()
        invariant
            i <= units.len(),
            units.len() == old(units)@.len(),
            forall|j: int| 0 <= j < i ==> (#[trigger] units@[j])@ == dispatched(old(units)@[j]@, now),
            forall|j: int| i <= j < units.len() ==> (#[trigger] units@[j]) == old(units)@[j],
        decreases units.len() - i,
    {
        dispatch(&mut units[i], now);
        i = i + 1;
    }
}

/// Finishes every unit that is doing `activity`.
fn finish_all(units: &mut Vec<Unit>, activity: Activity)
    requires
        forall|j: int| 0 <= j < old(units)@.len() ==> (#[trigger] old(units)@[j])@.wf(),
        activity != Activity::Idle,
    ensures
        unit_views(final(units)@) =~= Seq::new(
            old(units)@.len(),
            |i: int| finished_if(old(units)@[i]@, activity),
        ),
{
    let mut i: usize = 0;
    while i < units.len()
        invariant
            i <= units.len(),
            units.len() == old(units)@.len(),
            activity != Activity::Idle,
            forall|j: int| 0 <= j < old(units)@.len() ==> (#[trigger] old(units)@[j])@.wf(),
            forall|j: int|
                0 <= j < i ==> (#[trigger] units@[j])@ == finished_if(old(units)@[j]@, activity),
            forall|j: int| i <= j < units.len() ==> (#[trigger] units@[j]) == old(units)@[j],
        decreases units.len() - i,
    {
        assert(units@[i as int]@.wf());
        if units[i].actions.activity == activity {
            finish(&mut units[i]);
        }
        i = i + 1;
    }
}

/// Tells every unit to do nothing.
fn tell_all_nothing(units: &mut Vec<Unit>)
    ensures
        unit_views(final(units)@) =~= Seq::new(
            old(units)@.len(),
            |i: int| told_nothing(old(units)@[i]@),
        ),
{
    let mut i: usize = 0;
    while i < units.len()
        invariant
            i <= units.len(),
            units.len() == old(units)@.len(),
            forall|j: int| 0 <= j < i ==> (#[trigger] units@[j])@ == told_nothing(old(units)@[j]@),
            forall|j: int| i <= j < units.len() ==> (#[trigger] units@[j]) == old(units)@[j],
        decreases units.len() - i,
    {
        units[i].actions.unit_actions.push(UnitActionTuple(UnitAction::DoNothing, 0));
        i = i + 1;
    }
}

/// A battle whose units each changed in a way that keeps a unit's rules, id,
/// place and steps, and nothing else, keeps its rules.
pub proof fn lemma_units_mapped_wf(b: BattleView, a: BattleView)
    requires
        b.wf(),
        a == (BattleView { units: a.units, ..b }),
        a.units.len() == b.units.len(),
        forall|i: int|
            0 <= i < b.units.len() ==> {
                &&& (#[trigger] a.units[i]).id == b.units[i].id
                &&& a.units[i].pos == b.units[i].pos
                &&& a.units[i].wf()
                &&& a.units[i].steps == b.units[i].steps || a.units[i].steps.len() == 0
            },
    ensures
        a.wf(),
{
    assert forall|i: int| 0 <= i < a.units.len() implies is_chain(
        a.grid,
        (#[trigger] a.units[i]).pos,
        a.units[i].steps,
    ) by {
        assert(is_chain(b.grid, b.units[i].pos, b.units[i].steps));
    }
    lemma_rules_kept(b, a);
}

impl Battle {
    /// Puts `entry` at the back of the queue of the unit with this id, and
    /// says whether there is such a unit.
    pub fn enqueue(&mut self, unit_id: usize, entry: UnitActionTuple) -> (done: bool)
        requires
            old(self).wf(),
        ensures
            final(self).wf(),
            final(self)@ == old(self)@.enqueue_spec(unit_id, entry),
            done == old(self)@.has_unit(unit_id),
    {
        let ghost before = self@;
        match self.unit_index(unit_id) {
            Some(k) => {
                self.units[k].actions.unit_actions.push(entry);
                proof {
                    let u = before.units[k as int].enqueued(entry);
                    assert(self@.units =~= before.units.update(k as int, u));
                    assert(before.units[k as int].wf());
                    lemma_enqueued_wf(before.units[k as int], entry);
                    assert(is_chain(before.grid, before.units[k as int].pos, before.units[k as int].steps));
                    lemma_with_unit_at_wf(before, k as int, u);
                }
                true
            },
            None => false,
        }
    }

    /// Tells every unit to do nothing.
    pub fn do_nothing_command(&mut self)
        requires
            old(self).wf(),
        ensures
            final(self).wf(),
            final(self)@ == (BattleView {
                units: Seq::new(
                    old(self)@.units.len(),
                    |i: int| told_nothing(old(self)@.units[i]),
                ),
                ..old(self)@
            }),
    {
        let ghost before = self@;
        tell_all_nothing(&mut self.units);
        proof {
            assert(self@.units =~= Seq::new(
                before.units.len(),
                |i: int| told_nothing(before.units[i]),
            ));
            assert forall|i: int| 0 <= i < before.units.len() implies (
            #[trigger] self@.units[i]).wf() by {
                assert(before.units[i].wf());
                lemma_enqueued_wf(before.units[i], UnitActionTuple(UnitAction::DoNothing, 0));
            }
            lemma_units_mapped_wf(before, self@);
        }
    }

    /// Tells the unit with this id to say `msg`, and says whether there is
    /// such a unit.
    pub fn talk_command(&mut self, unit_id: usize, msg: String) -> (done: bool)
        requires
            old(self).wf(),
        ensures
            final(self).wf(),
            final(self)@ == old(self)@.enqueue_spec(
                unit_id,
                UnitActionTuple(UnitAction::Talk { message: msg }, 0),
            ),
            done == old(self)@.has_unit(unit_id),
    {
        self.enqueue(unit_id, UnitActionTuple(UnitAction::Talk { message: msg }, 0))
    }

    /// Tells the unit with this id to move to column `x`, row `y`, from where
    /// it stands now, and says whether there is such a unit.
    pub fn move_command(&mut self, unit_id: usize, x: usize, y: usize) -> (done: bool)
        requires
            old(self).wf(),
        ensures
            final(self).wf(),
            final(self)@ == old(self)@.move_command_spec(unit_id, Pos { x, y }),
            done == old(self)@.has_unit(unit_id),
    {
        match self.unit_index(unit_id) {
            Some(k) => {
                let origin = self.units[k].pos;
                self.enqueue(
                    unit_id,
                    UnitActionTuple(UnitAction::Move { origin, destination: Pos { x, y } }, 0),
                )
            },
            None => false,
        }
    }

    /// Lets every unit start on the head of its queue, if it has nothing in
    /// flight and the time of the action has come.
    pub fn process_unit_actions(&mut self, now: u64)
        requires
            old(self).wf(),
        ensures
            final(self).wf(),
            final(self)@ == old(self)@.dispatched_all(now),
    {
        let ghost before = self@;
        dispatch_all(&mut self.units, now);
        proof {
            assert(self@.units =~= Seq::new(
                before.units.len(),
                |i: int| dispatched(before.units[i], now),
            ));
            assert forall|i: int| 0 <= i < before.units.len() implies (
            #[trigger] self@.units[i]).wf() by {
                assert(before.units[i].wf());
            }
            lemma_units_mapped_wf(before, self@);
        }
    }

    /// The messages of the talking units have been acknowledged: each is
    /// done talking.
    pub fn handle_talk_state(&mut self)
        requires
            old(self).wf(),
        ensures
            final(self).wf(),
            final(self)@ == old(self)@.finished_all(Activity::Talking),
    {
        let ghost before = self@;
        proof {
            assert forall|j: int| 0 <= j < self.units@.len() implies (
            #[trigger] self.units@[j])@.wf() by {
                assert(before.units[j].wf());
            }
        }
        finish_all(&mut self.units, Activity::Talking);
        proof {
            assert(self@.units =~= Seq::new(
                before.units.len(),
                |i: int| finished_if(before.units[i], Activity::Talking),
            ));
            assert forall|i: int| 0 <= i < before.units.len() implies (
            #[trigger] self@.units[i]).wf() by {
                assert(before.units[i].wf());
            }
            lemma_units_mapped_wf(before, self@);
        }
    }

    /// Each unit that does nothing is done with it.
    pub fn process_do_nothing_actions(&mut self)
        requires
            old(self).wf(),
        ensures
            final(self).wf(),
            final(self)@ == old(self)@.finished_all(Activity::Resting),
    {
        let ghost before = self@;
        proof {
            assert forall|j: int| 0 <= j < self.units@.len() implies (
            #[trigger] self.units@[j])@.wf() by {
                assert(before.units[j].wf());
            }
        }
        finish_all(&mut self.units, Activity::Resting);
        proof {
            assert(self@.units =~= Seq::new(
                before.units.len(),
                |i: int| finished_if(before.units[i], Activity::Resting),
            ));
            assert forall|i: int| 0 <= i < before.units.len() implies (
            #[trigger] self@.units[i]).wf() by {
                assert(before.units[i].wf());
            }
            lemma_units_mapped_wf(before, self@);
        }
    }

    /// Takes the move for which no path was found off the queue of the unit
    /// with this id, and says whether there was one.
    pub fn cancel_blocked_move(&mut self, unit_id: usize) -> (done: bool)
        requires
            old(self).wf(),
        ensures
            final(self).wf(),
            final(self)@ == old(self)@.cancel_spec(unit_id),
            done == (old(self)@.has_unit(unit_id) && old(self)@.units[old(self)@.index_of(
                unit_id,
            )].activity == Activity::MoveBlocked),
    {
        let ghost before = self@;
        match self.unit_index(unit_id) {
            Some(k) => {
                assert(before.units[k as int].wf());
                if self.units[k].actions.activity == Activity::MoveBlocked {
                    finish(&mut self.units[k]);
                    proof {
                        let u = before.units[k as int].finished();
                        assert(self@.units =~= before.units.update(k as int, u));
                        assert(is_chain(before.grid, u.pos, u.steps));
                        lemma_with_unit_at_wf(before, k as int, u);
                    }
                    true
                } else {
                    false
                }
            },
            None => false,
        }
    }
}

/// The queue is first in, first out: of two actions that join the queue the
/// first stands before the second and behind all that were there, and when
/// the unit is done with the action at the head, the rest moves up in order.
pub proof fn lemma_queue_is_fifo(u: UnitView, first: UnitActionTuple, second: UnitActionTuple)
    ensures
        u.enqueued(first).enqueued(second).queue == u.queue + seq![first, second],
        u.enqueued(first).enqueued(second).finished().queue == (u.queue + seq![
            first,
            second,
        ]).drop_first(),
        u.queue.len() == 0 ==> u.enqueued(first).enqueued(second).queue[0] == first
            && u.enqueued(first).enqueued(second).finished().queue == seq![second]
            && u.enqueued(first).enqueued(second).finished().finished().queue
            == Seq::<UnitActionTuple>::empty(),
{
    let q = u.enqueued(first).enqueued(second).queue;
    assert(q =~= u.queue + seq![first, second]);
    if u.queue.len() == 0 {
        assert(q.drop_first() =~= seq![second]);
        assert(seq![second].drop_first() =~= Seq::<UnitActionTuple>::empty());
    }
}

/// A unit starts only on the head of its queue, and on nothing while
/// another action is in flight.
pub proof fn lemma_dispatch_takes_the_head(u: UnitView, now: u64)
    requires
        u.wf(),
    ensures
        dispatched(u, now).queue == u.queue,
        u.processing ==> dispatched(u, now) == u,
        dispatched(u, now).processing && !u.processing ==> u.queue.len() > 0 && u.queue[0].1
            <= now && dispatched(u, now).activity == activity_for(u.queue[0].0),
{
}

} // verus!
