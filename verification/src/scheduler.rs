//! Whose turn it is: wait times count down, the first unit at zero whose
//! team has a controller gets the turn, and the turn ends when its
//! controller says so.

use vstd::prelude::*;
use crate::battle::{Battle, BattleView, Game, GameView, TurnState, ControlledBy, lemma_same_places, unit_views};
use crate::battle::{is_chain, lemma_rules_kept};
use crate::unit::{Unit, UnitView, UnitAction, UnitActionTuple};
use crate::pos::{Pos, Direction, step_spec};
use crate::protocol::ClientMessage;
use crate::range::{find_possible_movements, find_possible_attacks, contains_pos, in_reach, attack_reach};

verus! {

/// A unit one tick later: its wait time one less, unless it is zero.
pub open spec fn counted_down(u: UnitView) -> UnitView {
    UnitView {
        wt_current: if u.wt_current > 0 {
            (u.wt_current - 1) as usize
        } else {
            0
        },
        ..u
    }
}

/// All units one tick later.
pub open spec fn all_counted_down(units: Seq<UnitView>) -> Seq<UnitView> {
    Seq::new(units.len(), |i: int| counted_down(units[i]))
}

/// Unit `i` has a wait time of zero and no unit before it in the list has.
pub open spec fn is_first_ready(units: Seq<UnitView>, i: int) -> bool {
    &&& 0 <= i < units.len()
    &&& units[i].wt_current == 0
    &&& forall|j: int| 0 <= j < i ==> (#[trigger] units[j]).wt_current != 0
}

/// The first unit in the list whose wait time is zero.
pub open spec fn first_ready(units: Seq<UnitView>) -> Option<int> {
    if exists|i: int| is_first_ready(units, i) {
        Some(choose|i: int| is_first_ready(units, i))
    } else {
        None
    }
}

/// Unit `u` stands at zero and its team has a controller.
pub open spec fn is_led(g: GameView, u: UnitView) -> bool {
    u.wt_current == 0 && g.controller(u.team) != ControlledBy::Nobody
}

/// Unit `i` stands at zero and its team has a controller, and that holds of
/// no unit before it in the list.
pub open spec fn is_first_led(g: GameView, units: Seq<UnitView>, i: int) -> bool {
    &&& 0 <= i < units.len()
    &&& is_led(g, units[i])
    &&& forall|j: int| 0 <= j < i ==> !is_led(g, #[trigger] units[j])
}

/// The unit that a tick of waiting names as the one to act: the first in the
/// list that stands at zero and whose team has a controller; where there is
/// none, the first that stands at zero.
pub open spec fn turn_taker(g: GameView, units: Seq<UnitView>) -> Option<int> {
    if exists|i: int| is_first_led(g, units, i) {
        Some(choose|i: int| is_first_led(g, units, i))
    } else {
        first_ready(units)
    }
}

/// The state in which the turn of a team starts, by who controls the team; a
/// team that nobody controls leaves things as they are.
pub open spec fn turn_state_for(controller: ControlledBy, current: TurnState) -> TurnState {
    match controller {
        ControlledBy::Player => TurnState::Turn,
        ControlledBy::AI => TurnState::AI,
        ControlledBy::Nobody => current,
    }
}

/// One tick of waiting: every wait time above zero goes down by one, and of
/// the units that stood at zero before the tick the first in the list whose
/// team has a controller gets the turn. Units of a team that nobody controls
/// are passed over, so only that team stands still; if only such units
/// stand at zero, the first of them is named as the one to act and the wait
/// goes on. While a turn is on, nothing changes.
pub open spec fn wait_turn_spec(b: BattleView) -> BattleView {
    if b.turn_state != TurnState::Wait {
        b
    } else {
        match turn_taker(b.game, b.units) {
            None => BattleView { units: all_counted_down(b.units), ..b },
            Some(i) => BattleView {
                units: all_counted_down(b.units),
                game: GameView {
                    current_unit: b.units[i].id,
                    current_team: b.units[i].team,
                    ..b.game
                },
                actor: Some(b.units[i].id),
                turn_state: turn_state_for(b.game.controller(b.units[i].team), b.turn_state),
                ..b
            },
        }
    }
}

/// Counts every wait time above zero down by one, and returns the place of
/// the unit that is to act.
fn count_down(units: &mut Vec<Unit>, game: &Game) -> (taker: Option<usize>)
    ensures
        unit_views(final(units)@) =~= all_counted_down(unit_views(old(units)@)),
        match taker {
            Some(k) => turn_taker(game@, unit_views(old(units)@)) == Some(k as int),
            None => turn_taker(game@, unit_views(old(units)@)).is_none(),
        },
{
    let ghost before = unit_views(units@);
    let mut ready: Option<usize> = None;
    let mut led: Option<usize> = None;
    let mut i: usize = 0;
    while i < units.len()
        invariant
            i <= units.len(),
            units.len() == before.len(),
            forall|j: int| 0 <= j < i ==> (#[trigger] units@[j])@ == counted_down(before[j]),
            forall|j: int| i <= j < before.len() ==> (#[trigger] units@[j])@ == before[j],
            ready.is_none() ==> forall|j: int|
                0 <= j < i ==> (#[trigger] before[j]).wt_current != 0,
            ready.is_some() ==> is_first_ready(before, ready.unwrap() as int),
            led.is_none() ==> forall|j: int| 0 <= j < i ==> !is_led(game@, #[trigger] before[j]),
            led.is_some() ==> is_first_led(game@, before, led.unwrap() as int),
        decreases units.len() - i,
    {
        assert(units@[i as int]@ == before[i as int]);
        if units[i].wt_current == 0 {
            if ready.is_none() {
                ready = Some(i);
            }
            if led.is_none() && game.controller(units[i].team) != ControlledBy::Nobody {
                led = Some(i);
            }
        } else {
            units[i].wt_current = units[i].wt_current - 1;
        }
        i = i + 1;
    }
    proof {
        match led {
            Some(k) => {
                let c = choose|c: int| is_first_led(game@, before, c);
                assert(is_first_led(game@, before, c));
                assert(c == k);
            },
            None => {
                assert(!exists|c: int| is_first_led(game@, before, c));
                match ready {
                    Some(k) => {
                        let c = choose|c: int| is_first_ready(before, c);
                        assert(is_first_ready(before, c));
                        assert(c == k);
                    },
                    None => {},
                }
            },
        }
    }
    if led.is_some() {
        led
    } else {
        ready
    }
}

impl Battle {
    /// Lets one tick of waiting pass.
    pub fn wait_turn_system(&mut self)
        requires
            old(self).wf(),
        ensures
            final(self).wf(),
            final(self)@ == wait_turn_spec(old(self)@),
    {
        if !matches!(self.turn_state, TurnState::Wait) {
            return;
        }
        let ghost before = self@;
        let taker = count_down(&mut self.units, &self.game);
        match taker {
            Some(k) => {
                assert(self@.units[k as int] == counted_down(before.units[k as int]));
                let id = self.units[k].id;
                let team = self.units[k].team;
                let controller = self.game.controller(team);
                self.game.current_unit = id;
                self.game.current_team = team;
                self.actor = Some(id);
                match controller {
                    ControlledBy::Player => {
                        self.turn_state = TurnState::Turn;
                    },
                    ControlledBy::AI => {
                        self.turn_state = TurnState::AI;
                    },
                    ControlledBy::Nobody => {},
                }
            },
            None => {},
        }
        proof {
            lemma_wait_turn_wf(before);
        }
    }
}

/// The unit that a tick of waiting names stands at zero, and is in the list.
pub proof fn lemma_turn_taker(g: GameView, units: Seq<UnitView>)
    ensures
        match turn_taker(g, units) {
            Some(i) => 0 <= i < units.len() && units[i].wt_current == 0,
            None => forall|j: int| 0 <= j < units.len() ==> (#[trigger] units[j]).wt_current != 0,
        },
{
    if exists|i: int| is_first_led(g, units, i) {
        let i = choose|i: int| is_first_led(g, units, i);
        assert(is_first_led(g, units, i));
    } else if exists|i: int| is_first_ready(units, i) {
        let i = choose|i: int| is_first_ready(units, i);
        assert(is_first_ready(units, i));
    } else {
        assert forall|j: int| 0 <= j < units.len() implies (#[trigger] units[j]).wt_current
            != 0 by {
            if units[j].wt_current == 0 {
                lemma_some_first_ready(units, j);
            }
        }
    }
}

/// Where a unit stands at zero, some unit is the first to do so.
proof fn lemma_some_first_ready(units: Seq<UnitView>, j: int)
    requires
        0 <= j < units.len(),
        units[j].wt_current == 0,
    ensures
        exists|i: int| is_first_ready(units, i),
    decreases j,
{
    if exists|k: int| 0 <= k < j && (#[trigger] units[k]).wt_current == 0 {
        let k = choose|k: int| 0 <= k < j && (#[trigger] units[k]).wt_current == 0;
        lemma_some_first_ready(units, k);
    } else {
        assert(is_first_ready(units, j));
    }
}

/// A tick of waiting keeps the battle's rules.
pub proof fn lemma_wait_turn_wf(b: BattleView)
    requires
        b.wf(),
    ensures
        wait_turn_spec(b).wf(),
{
    let a = wait_turn_spec(b);
    if b.turn_state == TurnState::Wait {
        lemma_same_places(b, a);
        assert forall|i: int| 0 <= i < a.units.len() implies (#[trigger] a.units[i]).wf()
            && is_chain(a.grid, a.units[i].pos, a.units[i].steps) by {
            assert(b.units[i].wf());
            assert(is_chain(b.grid, b.units[i].pos, b.units[i].steps));
        }
        lemma_turn_taker(b.game, b.units);
        match turn_taker(b.game, b.units) {
            Some(i) => {
                assert(b.units[i].id == b.units[i].id);
                assert(b.has_unit(b.units[i].id));
            },
            None => {},
        }
    }
}

/// What the player does with a selection: take the tile under the cursor, or
/// give the selection up.
#[derive(Clone, Copy, Debug, PartialEq, Eq, Structural)]
pub enum Choice {
    Confirm(Pos),
    Cancel,
}

impl BattleView {
    /// The place in `units` of the unit that has the turn.
    pub open spec fn actor_index(self) -> int {
        self.index_of(self.actor.unwrap())
    }

    /// The unit that has the turn.
    pub open spec fn actor_unit(self) -> UnitView {
        self.units[self.actor_index()]
    }

    /// The battle with unit `k` replaced.
    pub open spec fn with_unit_at(self, k: int, u: UnitView) -> BattleView {
        BattleView { units: self.units.update(k, u), ..self }
    }
}

/// A unit at the end of its turn: its wait time is back at its maximum.
pub open spec fn rewound(u: UnitView) -> UnitView {
    UnitView { wt_current: u.wt_max, ..u }
}

/// The end of a player's turn. In a battle of one player the unit's wait
/// time goes back to its maximum, nobody has the turn any more and the wait
/// goes on. In a battle of two the battle stays as it is until the other
/// side answers. Outside a player's turn nothing changes.
pub open spec fn end_turn_spec(b: BattleView) -> BattleView {
    if b.turn_state != TurnState::Turn || b.game.is_multiplayer {
        b
    } else {
        BattleView {
            actor: None,
            turn_state: TurnState::Wait,
            ..b.with_unit_at(b.actor_index(), rewound(b.actor_unit()))
        }
    }
}

/// What the end of a turn sends to the other side: `Wait`, in a battle of two
/// players during a player's turn.
pub open spec fn end_turn_message(b: BattleView) -> Option<ClientMessage> {
    if b.turn_state == TurnState::Turn && b.game.is_multiplayer {
        Some(ClientMessage::Wait)
    } else {
        None
    }
}

/// Where the stand-in for a thinking machine sends its unit: one tile to the
/// west, or nowhere from the western edge.
pub open spec fn ai_destination(from: Pos) -> Pos {
    match step_spec(from, Direction::West) {
        Some(q) => q,
        None => from,
    }
}

/// The turn of a unit of the machine: it is told to move one tile west, its
/// wait time goes back to its maximum, and the wait goes on. Outside such a
/// turn nothing changes.
pub open spec fn first_ai_spec(b: BattleView) -> BattleView {
    if b.turn_state != TurnState::AI {
        b
    } else {
        let u = b.actor_unit();
        BattleView {
            actor: None,
            turn_state: TurnState::Wait,
            ..b.with_unit_at(
                b.actor_index(),
                rewound(u).enqueued(
                    UnitActionTuple(
                        UnitAction::Move { origin: u.pos, destination: ai_destination(u.pos) },
                        0,
                    ),
                ),
            )
        }
    }
}

/// What becomes of a choice of where to move. Outside such a choice, and on
/// a tile that was not offered, nothing changes. Giving up leads back to the
/// turn. Taking an offered tile, in a battle of one player, puts the move at
/// the back of the unit's queue and leads back to the turn; in a battle of
/// two it changes nothing until the other side answers.
pub open spec fn choose_move_spec(b: BattleView, choice: Choice) -> BattleView {
    if b.turn_state != TurnState::ChooseMove {
        b
    } else {
        match choice {
            Choice::Cancel => BattleView {
                turn_state: TurnState::Turn,
                move_tiles: Seq::empty(),
                ..b
            },
            Choice::Confirm(c) => if !b.move_tiles.contains(c) || b.game.is_multiplayer {
                b
            } else {
                let u = b.actor_unit();
                BattleView {
                    turn_state: TurnState::Turn,
                    move_tiles: Seq::empty(),
                    ..b.with_unit_at(
                        b.actor_index(),
                        u.enqueued(
                            UnitActionTuple(UnitAction::Move { origin: u.pos, destination: c }, 0),
                        ),
                    )
                }
            },
        }
    }
}

/// What a choice of where to move sends to the other side: the move, where
/// an offered tile is taken in a battle of two players.
pub open spec fn choose_move_message(b: BattleView, choice: Choice) -> Option<ClientMessage> {
    match choice {
        Choice::Confirm(c) => if b.turn_state == TurnState::ChooseMove && b.move_tiles.contains(c)
            && b.game.is_multiplayer {
            Some(ClientMessage::Move { origin: b.actor_unit().pos, destination: c })
        } else {
            None
        },
        Choice::Cancel => None,
    }
}

/// What becomes of a choice of whom to attack. Outside such a choice, and on
/// a tile that was not offered, nothing changes. Giving up leads back to the
/// turn. Taking an offered tile that a unit stands on, in a battle of one
/// player, puts the attack at the back of the unit's queue, marks attacker
/// and target and leads back to the turn; an empty tile changes nothing. In
/// a battle of two nothing changes until the other side answers.
pub open spec fn choose_attack_spec(b: BattleView, choice: Choice) -> BattleView {
    if b.turn_state != TurnState::ChooseAttack {
        b
    } else {
        match choice {
            Choice::Cancel => BattleView {
                turn_state: TurnState::Turn,
                attack_tiles: Seq::empty(),
                ..b
            },
            Choice::Confirm(c) => if !b.attack_tiles.contains(c) || b.game.is_multiplayer
                || !b.grid.occupied(c) {
                b
            } else {
                let u = b.actor_unit();
                BattleView {
                    turn_state: TurnState::Turn,
                    attack_tiles: Seq::empty(),
                    attacker: Some(u.id),
                    target: Some(b.grid.occupants(c)[0]),
                    ..b.with_unit_at(
                        b.actor_index(),
                        u.enqueued(
                            UnitActionTuple(
                                UnitAction::BasicAttack {
                                    target: c,
                                    is_counterattack: false,
                                    damage: 0,
                                },
                                0,
                            ),
                        ),
                    )
                }
            },
        }
    }
}

/// What a choice of whom to attack sends to the other side: the attack, where
/// an offered tile is taken in a battle of two players.
pub open spec fn choose_attack_message(b: BattleView, choice: Choice) -> Option<ClientMessage> {
    match choice {
        Choice::Confirm(c) => if b.turn_state == TurnState::ChooseAttack
            && b.attack_tiles.contains(c) && b.game.is_multiplayer {
            Some(ClientMessage::BasicAttack { attacker: b.actor_unit().pos, target: c, damage: 0 })
        } else {
            None
        },
        Choice::Cancel => None,
    }
}

/// Replacing a unit by one with the same id and place that keeps the rules
/// of a unit, and whose steps still lead on from its place, keeps the rules
/// of the battle.
pub proof fn lemma_with_unit_at_wf(b: BattleView, k: int, u: UnitView)
    requires
        b.wf(),
        0 <= k < b.units.len(),
        u.id == b.units[k].id,
        u.pos == b.units[k].pos,
        u.wf(),
        is_chain(b.grid, u.pos, u.steps),
    ensures
        b.with_unit_at(k, u).wf(),
{
    let a = b.with_unit_at(k, u);
    assert forall|i: int| 0 <= i < a.units.len() implies (#[trigger] a.units[i]).wf() && is_chain(
        a.grid,
        a.units[i].pos,
        a.units[i].steps,
    ) by {
        if i != k {
            assert(b.units[i].wf());
            assert(is_chain(b.grid, b.units[i].pos, b.units[i].steps));
        }
    }
    lemma_rules_kept(b, a);
}

impl Battle {
    /// The place in the list of units of the one that has the turn.
    pub fn actor_index(&self) -> (found: Option<usize>)
        requires
            self.wf(),
        ensures
            found.is_some() <==> self@.actor.is_some(),
            found.is_some() ==> found.unwrap() == self@.actor_index() && found.unwrap()
                < self@.units.len() && self@.units[found.unwrap() as int].id
                == self@.actor.unwrap(),
    {
        match self.actor {
            Some(id) => {
                let found = self.unit_index(id);
                proof {
                    let k = self@.index_of(id);
                    assert(self@.units[k].id == id);
                }
                found
            },
            None => None,
        }
    }

    /// Ends the turn of the player's unit.
    pub fn end_turn(&mut self) -> (message: Option<ClientMessage>)
        requires
            old(self).wf(),
        ensures
            final(self).wf(),
            final(self)@ == end_turn_spec(old(self)@),
            message == end_turn_message(old(self)@),
    {
        if self.turn_state != TurnState::Turn {
            return None;
        }
        if self.game.is_multiplayer {
            return Some(ClientMessage::Wait);
        }
        let ghost before = self@;
        match self.actor_index() {
            Some(k) => {
                self.units[k].wt_current = self.units[k].wt_max;
                self.actor = None;
                self.turn_state = TurnState::Wait;
                proof {
                    let u = rewound(before.actor_unit());
                    assert(self@.units =~= before.units.update(k as int, u));
                    assert(before.units[k as int].wf());
                    assert(is_chain(before.grid, u.pos, u.steps));
                    lemma_with_unit_at_wf(before, k as int, u);
                    lemma_rules_kept(before.with_unit_at(k as int, u), self@);
                }
            },
            None => {},
        }
        None
    }

    /// Plays the turn of a unit of the machine.
    pub fn first_ai(&mut self)
        requires
            old(self).wf(),
        ensures
            final(self).wf(),
            final(self)@ == first_ai_spec(old(self)@),
    {
        if self.turn_state != TurnState::AI {
            return;
        }
        let ghost before = self@;
        match self.actor_index() {
            Some(k) => {
                let origin = self.units[k].pos;
                let destination = match origin.step(Direction::West) {
                    Some(q) => q,
                    None => origin,
                };
                self.units[k].actions.unit_actions.push(
                    UnitActionTuple(UnitAction::Move { origin, destination }, 0),
                );
                self.units[k].wt_current = self.units[k].wt_max;
                self.actor = None;
                self.turn_state = TurnState::Wait;
                proof {
                    let old_u = before.actor_unit();
                    let u = rewound(old_u).enqueued(
                        UnitActionTuple(
                            UnitAction::Move {
                                origin: old_u.pos,
                                destination: ai_destination(old_u.pos),
                            },
                            0,
                        ),
                    );
                    assert(self@.units =~= before.units.update(k as int, u));
                    assert(old_u.wf());
                    assert(is_chain(before.grid, old_u.pos, old_u.steps));
                    lemma_with_unit_at_wf(before, k as int, u);
                    lemma_rules_kept(before.with_unit_at(k as int, u), self@);
                }
            },
            None => {},
        }
    }

    /// Starts the choice of where to move: the tiles that the unit with the
    /// turn can move to are offered. Outside a player's turn nothing
    /// changes.
    pub fn start_choose_move(&mut self)
        requires
            old(self).wf(),
        ensures
            final(self).wf(),
            old(self)@.turn_state != TurnState::Turn ==> final(self)@ == old(self)@,
            old(self)@.turn_state == TurnState::Turn ==> {
                &&& final(self)@ == (BattleView {
                    turn_state: TurnState::ChooseMove,
                    move_tiles: final(self)@.move_tiles,
                    ..old(self)@
                })
                &&& final(self)@.move_tiles.no_duplicates()
                &&& forall|t: Pos|
                    #![trigger final(self)@.move_tiles.contains(t)]
                    final(self)@.move_tiles.contains(t) <==> in_reach(
                        old(self)@.grid,
                        old(self)@.actor_unit().pos,
                        old(self)@.actor_unit().movement_range as int,
                        t,
                        false,
                    )
            },
    {
        if self.turn_state != TurnState::Turn {
            return;
        }
        let ghost before = self@;
        match self.actor_index() {
            Some(k) => {
                self.move_tiles = find_possible_movements(
                    &self.grid,
                    self.units[k].pos,
                    self.units[k].movement_range,
                );
                self.turn_state = TurnState::ChooseMove;
                proof {
                    lemma_rules_kept(before, self@);
                }
            },
            None => {},
        }
    }

    /// Takes the player's answer to the choice of where to move.
    pub fn handle_choose_move(&mut self, choice: Choice) -> (message: Option<ClientMessage>)
        requires
            old(self).wf(),
        ensures
            final(self).wf(),
            final(self)@ == choose_move_spec(old(self)@, choice),
            message == choose_move_message(old(self)@, choice),
    {
        if self.turn_state != TurnState::ChooseMove {
            return None;
        }
        let ghost before = self@;
        match choice {
            Choice::Cancel => {
                self.move_tiles = Vec::new();
                self.turn_state = TurnState::Turn;
                proof {
                    lemma_rules_kept(before, self@);
                }
                None
            },
            Choice::Confirm(c) => {
                if !contains_pos(&self.move_tiles, c) {
                    return None;
                }
                match self.actor_index() {
                    Some(k) => {
                        let origin = self.units[k].pos;
                        if self.game.is_multiplayer {
                            return Some(ClientMessage::Move { origin, destination: c });
                        }
                        self.units[k].actions.unit_actions.push(
                            UnitActionTuple(UnitAction::Move { origin, destination: c }, 0),
                        );
                        self.move_tiles = Vec::new();
                        self.turn_state = TurnState::Turn;
                        proof {
                            let old_u = before.actor_unit();
                            let u = old_u.enqueued(
                                UnitActionTuple(
                                    UnitAction::Move { origin: old_u.pos, destination: c },
                                    0,
                                ),
                            );
                            assert(self@.units =~= before.units.update(k as int, u));
                            assert(old_u.wf());
                            assert(is_chain(before.grid, old_u.pos, old_u.steps));
                            lemma_with_unit_at_wf(before, k as int, u);
                            lemma_rules_kept(before.with_unit_at(k as int, u), self@);
                        }
                        None
                    },
                    None => None,
                }
            },
        }
    }

    /// Starts the choice of whom to attack: the tiles that the unit with the
    /// turn can attack are offered. Outside a player's turn nothing changes.
    pub fn start_choose_attack(&mut self)
        requires
            old(self).wf(),
        ensures
            final(self).wf(),
            old(self)@.turn_state != TurnState::Turn ==> final(self)@ == old(self)@,
            old(self)@.turn_state == TurnState::Turn ==> {
                &&& final(self)@ == (BattleView {
                    turn_state: TurnState::ChooseAttack,
                    attack_tiles: final(self)@.attack_tiles,
                    ..old(self)@
                })
                &&& final(self)@.attack_tiles.no_duplicates()
                &&& forall|t: Pos|
                    #![trigger final(self)@.attack_tiles.contains(t)]
                    final(self)@.attack_tiles.contains(t) <==> attack_reach(
                        old(self)@.grid,
                        old(self)@.actor_unit().pos,
                        old(self)@.actor_unit().attack_range as int,
                        old(self)@.actor_unit().attack_type,
                        t,
                    )
            },
    {
        if self.turn_state != TurnState::Turn {
            return;
        }
        let ghost before = self@;
        match self.actor_index() {
            Some(k) => {
                self.attack_tiles = find_possible_attacks(
                    &self.grid,
                    self.units[k].pos,
                    self.units[k].attack_range,
                    self.units[k].attack_type,
                );
                self.turn_state = TurnState::ChooseAttack;
                proof {
                    lemma_rules_kept(before, self@);
                }
            },
            None => {},
        }
    }

    /// Takes the player's answer to the choice of whom to attack.
    pub fn handle_choose_attack(&mut self, choice: Choice) -> (message: Option<ClientMessage>)
        requires
            old(self).wf(),
        ensures
            final(self).wf(),
            final(self)@ == choose_attack_spec(old(self)@, choice),
            message == choose_attack_message(old(self)@, choice),
    {
        if self.turn_state != TurnState::ChooseAttack {
            return None;
        }
        let ghost before = self@;
        match choice {
            Choice::Cancel => {
                self.attack_tiles = Vec::new();
                self.turn_state = TurnState::Turn;
                proof {
                    lemma_rules_kept(before, self@);
                }
                None
            },
            Choice::Confirm(c) => {
                if !contains_pos(&self.attack_tiles, c) {
                    return None;
                }
                match self.actor_index() {
                    Some(k) => {
                        let origin = self.units[k].pos;
                        if self.game.is_multiplayer {
                            return Some(
                                ClientMessage::BasicAttack { attacker: origin, target: c, damage: 0 },
                            );
                        }
                        match self.grid.first_occupant(c) {
                            Some(target_id) => {
                                let id = self.units[k].id;
                                self.units[k].actions.unit_actions.push(
                                    UnitActionTuple(
                                        UnitAction::BasicAttack {
                                            target: c,
                                            is_counterattack: false,
                                            damage: 0,
                                        },
                                        0,
                                    ),
                                );
                                self.attacker = Some(id);
                                self.target = Some(target_id);
                                self.attack_tiles = Vec::new();
                                self.turn_state = TurnState::Turn;
                                proof {
                                    let old_u = before.actor_unit();
                                    let u = old_u.enqueued(
                                        UnitActionTuple(
                                            UnitAction::BasicAttack {
                                                target: c,
                                                is_counterattack: false,
                                                damage: 0,
                                            },
                                            0,
                                        ),
                                    );
                                    assert(self@.units =~= before.units.update(k as int, u));
                                    assert(old_u.wf());
                                    assert(is_chain(before.grid, old_u.pos, old_u.steps));
                                    assert(before.grid.occupants(c).len() > 0);
                                    assert(before.has_unit(target_id));
                                    lemma_with_unit_at_wf(before, k as int, u);
                                    lemma_rules_kept(before.with_unit_at(k as int, u), self@);
                                }
                                None
                            },
                            None => None,
                        }
                    },
                    None => None,
                }
            },
        }
    }
}

/// In a tick of waiting the first unit of the list that stands at zero and
/// whose team has a controller, and no other, gets the turn; its own wait
/// time stays at zero, and its team's controller decides how the turn is
/// played.
pub proof fn lemma_first_led_gets_the_turn(b: BattleView, i: int)
    requires
        b.turn_state == TurnState::Wait,
        is_first_led(b.game, b.units, i),
    ensures
        wait_turn_spec(b).actor == Some(b.units[i].id),
        wait_turn_spec(b).game.current_unit == b.units[i].id,
        wait_turn_spec(b).game.current_team == b.units[i].team,
        wait_turn_spec(b).units[i].wt_current == 0,
        wait_turn_spec(b).turn_state == turn_state_for(
            b.game.controller(b.units[i].team),
            TurnState::Wait,
        ),
        wait_turn_spec(b).turn_state != TurnState::Wait,
{
    let c = choose|c: int| is_first_led(b.game, b.units, c);
    assert(is_first_led(b.game, b.units, c));
    assert(c == i);
}

/// Where only units of teams that nobody controls stand at zero, a tick of
/// waiting names the first of them, and the wait goes on.
pub proof fn lemma_unled_unit_stalls(b: BattleView, i: int)
    requires
        b.turn_state == TurnState::Wait,
        is_first_ready(b.units, i),
        forall|j: int| 0 <= j < b.units.len() ==> !is_led(b.game, #[trigger] b.units[j]),
    ensures
        wait_turn_spec(b).actor == Some(b.units[i].id),
        wait_turn_spec(b).turn_state == TurnState::Wait,
{
    if exists|c: int| is_first_led(b.game, b.units, c) {
        let c = choose|c: int| is_first_led(b.game, b.units, c);
        assert(is_led(b.game, b.units[c]));
    }
    let c = choose|c: int| is_first_ready(b.units, c);
    assert(is_first_ready(b.units, c));
    assert(c == i);
}

/// Where exactly one unit stands at zero, that unit and no other is named in
/// a tick of waiting.
pub proof fn lemma_only_ready_gets_the_turn(b: BattleView, i: int)
    requires
        b.turn_state == TurnState::Wait,
        0 <= i < b.units.len(),
        forall|j: int| 0 <= j < b.units.len() ==> ((#[trigger] b.units[j]).wt_current == 0 <==> j == i),
    ensures
        wait_turn_spec(b).actor == Some(b.units[i].id),
        wait_turn_spec(b).turn_state == turn_state_for(
            b.game.controller(b.units[i].team),
            TurnState::Wait,
        ),
{
    lemma_turn_taker(b.game, b.units);
    assert(b.units[i].wt_current == 0);
    let k = turn_taker(b.game, b.units).unwrap();
    assert(b.units[k].wt_current == 0);
    assert(k == i);
}

/// Where no unit stands at zero, a tick of waiting gives nobody the turn.
pub proof fn lemma_nobody_ready_no_turn(b: BattleView)
    requires
        forall|j: int| 0 <= j < b.units.len() ==> (#[trigger] b.units[j]).wt_current != 0,
    ensures
        wait_turn_spec(b).actor == b.actor,
        wait_turn_spec(b).turn_state == b.turn_state,
{
    lemma_turn_taker(b.game, b.units);
    match turn_taker(b.game, b.units) {
        Some(k) => {
            assert(b.units[k].wt_current == 0);
        },
        None => {},
    }
}

/// While a unit has the turn, no wait time goes down.
pub proof fn lemma_wait_times_stand_during_a_turn(b: BattleView)
    requires
        b.turn_state != TurnState::Wait,
    ensures
        wait_turn_spec(b) == b,
{
}

/// In a battle that keeps its rules, whenever a turn is on, exactly one unit
/// has it: the actor names a unit alive, and no other unit has its id.
pub proof fn lemma_one_actor_during_a_turn(b: BattleView)
    requires
        b.wf(),
        b.turn_state != TurnState::Wait,
    ensures
        b.actor.is_some(),
        0 <= b.actor_index() < b.units.len(),
        b.actor_unit().id == b.actor.unwrap(),
        forall|j: int|
            0 <= j < b.units.len() && (#[trigger] b.units[j]).id == b.actor.unwrap() ==> j
                == b.actor_index(),
{
    let id = b.actor.unwrap();
    assert(b.has_unit(id));
    let k = b.index_of(id);
    assert(b.units[k].id == id);
}

} // verus!
