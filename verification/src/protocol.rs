//! The messages that two players' battles exchange, and what a battle does
//! on receiving one.

use vstd::prelude::*;
use crate::pos::Pos;
use crate::battle::{Battle, BattleView, GameView, GameState, TurnState, ControlledBy};
use crate::battle::{unit_views, is_chain, lemma_rules_kept};
use crate::actions::{lemma_units_mapped_wf, lemma_enqueued_wf};
use crate::scheduler::lemma_with_unit_at_wf;
use crate::unit::{Unit, UnitView, UnitAction, UnitActionTuple};

verus! {

/// What a player sends.
#[derive(Debug)]
pub enum ClientMessage {
    GetClientId,
    StartGame,
    LoadingComplete,
    WaitTurnComplete,
    Wait,
    Move { origin: Pos, destination: Pos },
    BasicAttack { attacker: Pos, target: Pos, damage: usize },
}

/// What a player receives.
#[derive(Debug)]
pub enum ServerMessage {
    ClientId { client_id: u64 },
    StartGame { client_id: u64 },
    StartGame2,
    PlayerTurn { client_id: u64, current_unit: usize },
    /// For each unit named by its id, its wait time.
    WaitTurn { wait_turns: Vec<(usize, usize)> },
    Wait,
    Move { origin: Pos, destination: Pos },
    BasicAttack { attacker: Pos, target: Pos, damage: usize, is_counterattack: bool },
    GameOver { winner: ControlledBy },
}

/// The units with the wait time of the one with this id set to `wt`.
pub open spec fn with_wait(units: Seq<UnitView>, id: usize, wt: usize) -> Seq<UnitView> {
    Seq::new(
        units.len(),
        |i: int|
            if units[i].id == id {
                UnitView { wt_current: wt, ..units[i] }
            } else {
                units[i]
            },
    )
}

/// The units after the first `n` of the wait times told have been set, one
/// after the other.
pub open spec fn with_waits(units: Seq<UnitView>, told: Seq<(usize, usize)>, n: nat) -> Seq<
    UnitView,
>
    decreases n,
{
    if n == 0 {
        units
    } else {
        with_wait(with_waits(units, told, (n - 1) as nat), told[n - 1].0, told[n - 1].1)
    }
}

impl BattleView {
    /// The battle after the other side has said whose turn it is: the unit
    /// named has the turn, and the turn is played here if the client named
    /// is this one, else waited for. A unit that is not there gets no turn.
    pub open spec fn player_turn(self, client_id: u64, current_unit: usize) -> BattleView {
        BattleView {
            game: GameView { current_unit, ..self.game },
            game_state: GameState::Battle,
            actor: if self.has_unit(current_unit) {
                Some(current_unit)
            } else {
                None
            },
            turn_state: if self.has_unit(current_unit) && client_id == self.client_id {
                TurnState::Turn
            } else {
                TurnState::Wait
            },
            ..self
        }
    }

    /// The battle after a move has come from the other side: the unit on
    /// the tile `origin` gets the move at the back of its queue, and a choice
    /// of where to move that was open here is closed. With nobody on the
    /// tile nothing changes.
    pub open spec fn remote_move(self, origin: Pos, destination: Pos) -> BattleView {
        if !self.grid.occupied(origin) {
            self
        } else {
            let k = self.index_of(self.grid.occupants(origin)[0]);
            BattleView {
                turn_state: if self.turn_state == TurnState::ChooseMove {
                    TurnState::Turn
                } else {
                    self.turn_state
                },
                move_tiles: if self.turn_state == TurnState::ChooseMove {
                    Seq::empty()
                } else {
                    self.move_tiles
                },
                ..self.with_unit_at(
                    k,
                    self.units[k].enqueued(
                        UnitActionTuple(UnitAction::Move { origin, destination }, 0),
                    ),
                )
            }
        }
    }

    /// The battle after an attack has come from the other side: the unit on
    /// the tile `attacker` gets the attack at the back of its queue and is
    /// marked as attacker, whoever stands on the tile `target` is marked as
    /// target, and a choice of whom to attack that was open here is closed.
    /// With nobody on the attacker's tile nothing changes.
    pub open spec fn remote_attack(
        self,
        attacker: Pos,
        target: Pos,
        damage: usize,
        is_counterattack: bool,
    ) -> BattleView {
        if !self.grid.occupied(attacker) {
            self
        } else {
            let k = self.index_of(self.grid.occupants(attacker)[0]);
            BattleView {
                attacker: Some(self.grid.occupants(attacker)[0]),
                target: if self.grid.occupied(target) {
                    Some(self.grid.occupants(target)[0])
                } else {
                    None
                },
                turn_state: if self.turn_state == TurnState::ChooseAttack {
                    TurnState::Turn
                } else {
                    self.turn_state
                },
                attack_tiles: if self.turn_state == TurnState::ChooseAttack {
                    Seq::empty()
                } else {
                    self.attack_tiles
                },
                ..self.with_unit_at(
                    k,
                    self.units[k].enqueued(
                        UnitActionTuple(
                            UnitAction::BasicAttack { target, is_counterattack, damage },
                            0,
                        ),
                    ),
                )
            }
        }
    }

    /// The battle after a message from the other side.
    pub open spec fn received(self, message: ServerMessage) -> BattleView {
        match message {
            ServerMessage::ClientId { client_id } => BattleView { client_id, ..self },
            ServerMessage::StartGame { .. } => BattleView {
                game: GameView { is_multiplayer: true, ..self.game },
                game_state: GameState::Loading,
                ..self
            },
            ServerMessage::StartGame2 => self,
            ServerMessage::PlayerTurn { client_id, current_unit } => self.player_turn(
                client_id,
                current_unit,
            ),
            ServerMessage::WaitTurn { wait_turns } => BattleView {
                units: with_waits(self.units, wait_turns@, wait_turns@.len()),
                ..self
            },
            ServerMessage::Wait => BattleView {
                actor: None,
                game_state: GameState::Wait,
                turn_state: TurnState::Wait,
                ..self
            },
            ServerMessage::Move { origin, destination } => self.remote_move(origin, destination),
            ServerMessage::BasicAttack {
                attacker,
                target,
                damage,
                is_counterattack,
            } => self.remote_attack(attacker, target, damage, is_counterattack),
            ServerMessage::GameOver { winner } => BattleView {
                game: GameView { winner, ..self.game },
                game_state: GameState::MainMenu,
                turn_state: TurnState::Wait,
                ..self
            },
        }
    }
}

/// Sets the wait time of the unit with this id.
fn set_wait(units: &mut Vec<Unit>, id: usize, wt: usize)
    ensures
        unit_views(final(units)@) =~= with_wait(unit_views(old(units)@), id, wt),
{
    let mut i: usize = 0;
    while i < units.len()
        invariant
            i <= units.len(),
            units.len() == old(units)@.len(),
            forall|j: int|
                0 <= j < i ==> (#[trigger] units@[j])@ == with_wait(
                    unit_views(old(units)@),
                    id,
                    wt,
                )[j],
            forall|j: int| i <= j < units.len() ==> (#[trigger] units@[j]) == old(units)@[j],
        decreases units.len() - i,
    {
        if units[i].id == id {
            units[i].wt_current = wt;
        }
        i = i + 1;
    }
}

/// Setting wait times keeps each unit's rules, id, place and steps.
pub proof fn lemma_with_waits(units: Seq<UnitView>, told: Seq<(usize, usize)>, n: nat)
    requires
        n <= told.len(),
    ensures
        with_waits(units, told, n).len() == units.len(),
        forall|i: int|
            0 <= i < units.len() ==> {
                let u = #[trigger] with_waits(units, told, n)[i];
                u == UnitView { wt_current: u.wt_current, ..units[i] }
            },
    decreases n,
{
    if n > 0 {
        lemma_with_waits(units, told, (n - 1) as nat);
    }
}

impl Battle {
    /// Takes a message from the other side.
    pub fn handle_server_message(&mut self, message: ServerMessage)
        requires
            old(self).wf(),
        ensures
            final(self).wf(),
            final(self)@ == old(self)@.received(message),
    {
        let ghost before = self@;
        match message {
            ServerMessage::ClientId { client_id } => {
                self.client_id = client_id;
                proof {
                    lemma_units_mapped_wf_game(before, self@);
                }
            },
            ServerMessage::StartGame { client_id } => {
                self.game.is_multiplayer = true;
                self.game_state = GameState::Loading;
                proof {
                    lemma_units_mapped_wf_game(before, self@);
                }
            },
            ServerMessage::StartGame2 => {},
            ServerMessage::PlayerTurn { client_id, current_unit } => {
                self.receive_player_turn(client_id, current_unit);
            },
            ServerMessage::WaitTurn { wait_turns } => {
                self.receive_wait_turns(&wait_turns);
            },
            ServerMessage::Wait => {
                self.actor = None;
                self.game_state = GameState::Wait;
                self.turn_state = TurnState::Wait;
                proof {
                    lemma_units_mapped_wf_game(before, self@);
                }
            },
            ServerMessage::Move { origin, destination } => {
                self.receive_move(origin, destination);
            },
            ServerMessage::BasicAttack { attacker, target, damage, is_counterattack } => {
                self.receive_attack(attacker, target, damage, is_counterattack);
            },
            ServerMessage::GameOver { winner } => {
                self.game.winner = winner;
                self.game_state = GameState::MainMenu;
                self.turn_state = TurnState::Wait;
                proof {
                    lemma_units_mapped_wf_game(before, self@);
                }
            },
        }
    }

    /// The other side has said whose turn it is.
    pub fn receive_player_turn(&mut self, client_id: u64, current_unit: usize)
        requires
            old(self).wf(),
        ensures
            final(self).wf(),
            final(self)@ == old(self)@.player_turn(client_id, current_unit),
    {
        let ghost before = self@;
        let known = self.unit_index(current_unit).is_some();
        self.game.current_unit = current_unit;
        self.game_state = GameState::Battle;
        if known {
            self.actor = Some(current_unit);
        } else {
            self.actor = None;
        }
        if known && client_id == self.client_id {
            self.turn_state = TurnState::Turn;
        } else {
            self.turn_state = TurnState::Wait;
        }
        proof {
            lemma_units_mapped_wf_game(before, self@);
        }
    }

    /// The other side has told the wait times of some units.
    pub fn receive_wait_turns(&mut self, wait_turns: &Vec<(usize, usize)>)
        requires
            old(self).wf(),
        ensures
            final(self).wf(),
            final(self)@ == (BattleView {
                units: with_waits(old(self)@.units, wait_turns@, wait_turns@.len()),
                ..old(self)@
            }),
    {
        let ghost before = self@;
        let mut n: usize = 0;
        while n < wait_turns.len()
            invariant
                n <= wait_turns.len(),
                self.grid.wf(),
                self@ == (BattleView {
                    units: with_waits(before.units, wait_turns@, n as nat),
                    ..before
                }),
            decreases wait_turns.len() - n,
        {
            let ghost prev = self@;
            set_wait(&mut self.units, wait_turns[n].0, wait_turns[n].1);
            proof {
                assert(self@.units =~= with_wait(prev.units, wait_turns@[n as int].0, wait_turns@[n as int].1));
            }
            n = n + 1;
        }
        proof {
            lemma_with_waits(before.units, wait_turns@, wait_turns@.len());
            assert forall|i: int| 0 <= i < before.units.len() implies (#[trigger] self@.units[i]).wf()
                && self@.units[i].steps == before.units[i].steps by {
                assert(before.units[i].wf());
            }
            lemma_units_mapped_wf(before, self@);
        }
    }

    /// A move has come from the other side.
    pub fn receive_move(&mut self, origin: Pos, destination: Pos)
        requires
            old(self).wf(),
        ensures
            final(self).wf(),
            final(self)@ == old(self)@.remote_move(origin, destination),
    {
        let ghost before = self@;
        match self.grid.first_occupant(origin) {
            Some(id) => {
                assert(before.grid.occupants(origin).len() > 0);
                match self.unit_index(id) {
                    Some(k) => {
                        let entry = UnitActionTuple(UnitAction::Move { origin, destination }, 0);
                        self.units[k].actions.unit_actions.push(entry);
                        if self.turn_state == TurnState::ChooseMove {
                            self.turn_state = TurnState::Turn;
                            self.move_tiles = Vec::new();
                        }
                        proof {
                            let u = before.units[k as int].enqueued(entry);
                            assert(self@.units =~= before.units.update(k as int, u));
                            assert(before.units[k as int].wf());
                            lemma_enqueued_wf(before.units[k as int], entry);
                            assert(is_chain(
                                before.grid,
                                before.units[k as int].pos,
                                before.units[k as int].steps,
                            ));
                            lemma_with_unit_at_wf(before, k as int, u);
                            lemma_rules_kept(before.with_unit_at(k as int, u), self@);
                        }
                    },
                    None => {},
                }
            },
            None => {},
        }
    }

    /// An attack has come from the other side.
    pub fn receive_attack(
        &mut self,
        attacker: Pos,
        target: Pos,
        damage: usize,
        is_counterattack: bool,
    )
        requires
            old(self).wf(),
        ensures
            final(self).wf(),
            final(self)@ == old(self)@.remote_attack(attacker, target, damage, is_counterattack),
    {
        let ghost before = self@;
        match self.grid.first_occupant(attacker) {
            Some(id) => {
                assert(before.grid.occupants(attacker).len() > 0);
                match self.unit_index(id) {
                    Some(k) => {
                        let entry = UnitActionTuple(
                            UnitAction::BasicAttack { target, is_counterattack, damage },
                            0,
                        );
                        self.units[k].actions.unit_actions.push(entry);
                        self.attacker = Some(id);
                        self.target = self.grid.first_occupant(target);
                        if self.turn_state == TurnState::ChooseAttack {
                            self.turn_state = TurnState::Turn;
                            self.attack_tiles = Vec::new();
                        }
                        proof {
                            let u = before.units[k as int].enqueued(entry);
                            assert(self@.units =~= before.units.update(k as int, u));
                            assert(before.units[k as int].wf());
                            lemma_enqueued_wf(before.units[k as int], entry);
                            assert(is_chain(
                                before.grid,
                                before.units[k as int].pos,
                                before.units[k as int].steps,
                            ));
                            if before.grid.occupied(target) {
                                assert(before.grid.occupants(target).len() > 0);
                            }
                            lemma_with_unit_at_wf(before, k as int, u);
                            lemma_rules_kept(before.with_unit_at(k as int, u), self@);
                        }
                    },
                    None => {},
                }
            },
            None => {},
        }
    }

    /// Loading is done: the battle waits for the other side, which is to be
    /// told so.
    pub fn loading_complete(&mut self) -> (message: ClientMessage)
        requires
            old(self).wf(),
        ensures
            final(self).wf(),
            final(self)@ == (BattleView { game_state: GameState::Wait, ..old(self)@ }),
            message == ClientMessage::LoadingComplete,
    {
        let ghost before = self@;
        self.game_state = GameState::Wait;
        proof {
            lemma_units_mapped_wf_game(before, self@);
        }
        ClientMessage::LoadingComplete
    }
}

/// A battle in which only the session, this player's identity, the state of
/// the program, the turn and its actor changed keeps its rules, if the turn
/// has its actor and the actor is alive.
pub proof fn lemma_units_mapped_wf_game(b: BattleView, a: BattleView)
    requires
        b.wf(),
        a == (BattleView {
            game: a.game,
            game_state: a.game_state,
            turn_state: a.turn_state,
            actor: a.actor,
            client_id: a.client_id,
            ..b
        }),
        a.actor.is_some() ==> b.has_unit(a.actor.unwrap()) && a.actor == Some(
            a.game.current_unit,
        ),
        a.turn_state != TurnState::Wait ==> a.actor.is_some(),
    ensures
        a.wf(),
{
    assert forall|i: int| 0 <= i < a.units.len() implies (#[trigger] a.units[i]).wf() && is_chain(
        a.grid,
        a.units[i].pos,
        a.units[i].steps,
    ) by {
        assert(b.units[i].wf());
        assert(is_chain(b.grid, b.units[i].pos, b.units[i].steps));
    }
    lemma_rules_kept(b, a);
}

} // verus!
