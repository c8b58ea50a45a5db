//! Units: their numbers, their queue of actions, and what they are doing.

use vstd::prelude::*;
use crate::pos::{Pos, Direction, AttackType};

verus! {

/// The numbers of a unit: hit and magic points, and its seven attributes.
#[derive(Clone, Copy, Debug, PartialEq, Eq, Structural)]
pub struct Stats {
    pub hp_max: usize,
    pub hp_current: usize,
    pub mp_max: usize,
    pub mp_current: usize,
    pub strength: usize,
    pub vitality: usize,
    pub intelligence: usize,
    pub mentality: usize,
    pub agility: usize,
    pub dexterity: usize,
    pub luck: usize,
}

/// Something a unit has been told to do.
#[derive(Debug)]
pub enum UnitAction {
    Move { origin: Pos, destination: Pos },
    Talk { message: String },
    BasicAttack { target: Pos, is_counterattack: bool, damage: usize },
    DoNothing,
}

/// An action with the time, in milliseconds of battle time, from which it
/// may start; 0 stands for "at once".
#[derive(Debug)]
pub struct UnitActionTuple(pub UnitAction, pub u64);

/// One step of a walk, from a tile to a neighbour, with the time spent on it
/// and the time it takes, in milliseconds.
#[derive(Clone, Copy, Debug, PartialEq, Eq, Structural)]
pub struct MoveAction {
    pub origin: Pos,
    pub destination: Pos,
    pub elapsed: u64,
    pub duration: u64,
}

/// What a unit is doing with the action at the head of its queue.
#[derive(Clone, Copy, Debug, PartialEq, Eq, Structural)]
pub enum Activity {
    /// Nothing is in flight.
    Idle,
    /// A move has started; its path has not been looked for yet.
    MovePending,
    /// The unit walks along its path.
    Moving,
    /// No path was found; the move waits to be cancelled.
    MoveBlocked,
    /// The unit waits for its message to be acknowledged.
    Talking,
    /// The unit's attack waits to be resolved.
    Attacking,
    /// The unit does nothing, and is done with it at the next step.
    Resting,
}

/// A unit's actions: the queue, whether its head is in flight, and the state
/// of the one in flight.
#[derive(Debug)]
pub struct UnitActions {
    pub unit_actions: Vec<UnitActionTuple>,
    pub processing_unit_action: bool,
    pub activity: Activity,
    pub move_actions: Vec<MoveAction>,
}

/// A unit of the battle.
#[derive(Debug)]
pub struct Unit {
    pub id: usize,
    pub team: usize,
    pub pos: Pos,
    pub stats: Stats,
    pub wt_max: usize,
    pub wt_current: usize,
    pub movement_range: isize,
    pub attack_range: isize,
    pub attack_type: AttackType,
    pub dir: Direction,
    pub actions: UnitActions,
}

/// A unit as plain values.
pub struct UnitView {
    pub id: usize,
    pub team: usize,
    pub pos: Pos,
    pub stats: Stats,
    pub wt_max: usize,
    pub wt_current: usize,
    pub movement_range: isize,
    pub attack_range: isize,
    pub attack_type: AttackType,
    pub dir: Direction,
    /// The queue of actions, the next one first.
    pub queue: Seq<UnitActionTuple>,
    /// Whether the head of the queue is in flight.
    pub processing: bool,
    pub activity: Activity,
    /// The steps still to walk, the next one first.
    pub steps: Seq<MoveAction>,
}

impl View for Unit {
    type V = UnitView;

    open spec fn view(&self) -> UnitView {
        UnitView {
            id: self.id,
            team: self.team,
            pos: self.pos,
            stats: self.stats,
            wt_max: self.wt_max,
            wt_current: self.wt_current,
            movement_range: self.movement_range,
            attack_range: self.attack_range,
            attack_type: self.attack_type,
            dir: self.dir,
            queue: self.actions.unit_actions@,
            processing: self.actions.processing_unit_action,
            activity: self.actions.activity,
            steps: self.actions.move_actions@,
        }
    }
}

/// What a unit does goes with the action it was told to do.
pub open spec fn fits(action: UnitAction, activity: Activity) -> bool {
    match action {
        UnitAction::Move { .. } => activity == Activity::MovePending || activity
            == Activity::Moving || activity == Activity::MoveBlocked,
        UnitAction::Talk { .. } => activity == Activity::Talking,
        UnitAction::BasicAttack { .. } => activity == Activity::Attacking,
        UnitAction::DoNothing => activity == Activity::Resting,
    }
}

/// What a unit does when it starts on an action.
pub open spec fn activity_for(action: UnitAction) -> Activity {
    match action {
        UnitAction::Move { .. } => Activity::MovePending,
        UnitAction::Talk { .. } => Activity::Talking,
        UnitAction::BasicAttack { .. } => Activity::Attacking,
        UnitAction::DoNothing => Activity::Resting,
    }
}

impl UnitView {
    /// The head of the queue is in flight exactly when the unit is doing
    /// something, and then the queue has a head that goes with what the unit
    /// does; only a walking unit has steps left; the unit is alive.
    pub open spec fn wf(self) -> bool {
        &&& self.processing <==> self.activity != Activity::Idle
        &&& self.processing ==> self.queue.len() > 0 && fits(self.queue[0].0, self.activity)
        &&& self.activity != Activity::Moving ==> self.steps.len() == 0
        &&& self.stats.hp_current > 0
    }

    /// The unit with nothing in flight and the head of its queue gone.
    pub open spec fn finished(self) -> UnitView {
        UnitView {
            queue: self.queue.drop_first(),
            processing: false,
            activity: Activity::Idle,
            steps: Seq::empty(),
            ..self
        }
    }

    /// The unit with one more action at the back of its queue.
    pub open spec fn enqueued(self, entry: UnitActionTuple) -> UnitView {
        UnitView { queue: self.queue.push(entry), ..self }
    }
}

impl Unit {
    /// A unit with an empty queue and nothing in flight.
    pub fn new(
        id: usize,
        team: usize,
        pos: Pos,
        stats: Stats,
        wt_max: usize,
        wt_current: usize,
        movement_range: isize,
        attack_range: isize,
        attack_type: AttackType,
        dir: Direction,
    ) -> (unit: Unit)
        ensures
            unit@ == (UnitView {
                id,
                team,
                pos,
                stats,
                wt_max,
                wt_current,
                movement_range,
                attack_range,
                attack_type,
                dir,
                queue: Seq::empty(),
                processing: false,
                activity: Activity::Idle,
                steps: Seq::empty(),
            }),
    {
        Unit {
            id,
            team,
            pos,
            stats,
            wt_max,
            wt_current,
            movement_range,
            attack_range,
            attack_type,
            dir,
            actions: UnitActions {
                unit_actions: Vec::new(),
                processing_unit_action: false,
                activity: Activity::Idle,
                move_actions: Vec::new(),
            },
        }
    }
}

impl Default for UnitAction {
    fn default() -> (a: UnitAction)
        ensures
            a == UnitAction::DoNothing,
    {
        UnitAction::DoNothing
    }
}

impl Default for UnitActionTuple {
    fn default() -> (e: UnitActionTuple)
        ensures
            e == UnitActionTuple(UnitAction::DoNothing, 0),
    {
        UnitActionTuple(UnitAction::DoNothing, 0)
    }
}

} // verus!
