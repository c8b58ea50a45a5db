//! The battle: the grid, the units on it, whose turn it is, and the rules
//! that keep the three consistent.

use vstd::prelude::*;
use std::collections::HashMap;
use crate::pos::{Pos, adjacent};
use crate::grid::{Grid, GridView};
use crate::unit::{Unit, UnitView, Activity, MoveAction};

verus! {

/// Who gives a team its orders.
#[derive(Clone, Copy, Debug, PartialEq, Eq, Structural)]
pub enum ControlledBy {
    Player,
    AI,
    Nobody,
}

/// Where the turn stands.
#[derive(Clone, Copy, Debug, PartialEq, Eq, Structural)]
pub enum TurnState {
    /// Wait times count down; nobody acts.
    Wait,
    /// A player's unit has the turn.
    Turn,
    /// The player picks a tile to move to.
    ChooseMove,
    /// The player picks a tile to attack.
    ChooseAttack,
    /// A unit of the machine has the turn.
    AI,
}

/// Where the program stands.
#[derive(Clone, Copy, Debug, PartialEq, Eq, Structural)]
pub enum GameState {
    MainMenu,
    Loading,
    LoadingComplete,
    Battle,
    Talk,
    Move,
    WaitTurn,
    Wait,
    LoadAmbush,
    Ambush,
    SinglePlayerPause,
    GameOver,
}

/// The session: whose turn it is, who controls which team, who has won.
pub struct Game {
    pub current_unit: usize,
    pub current_team: usize,
    pub players: HashMap<usize, ControlledBy>,
    pub winner: ControlledBy,
    pub is_multiplayer: bool,
}

/// The session as plain values.
pub struct GameView {
    pub current_unit: usize,
    pub current_team: usize,
    pub players: Map<usize, ControlledBy>,
    pub winner: ControlledBy,
    pub is_multiplayer: bool,
}

impl View for Game {
    type V = GameView;

    open spec fn view(&self) -> GameView {
        GameView {
            current_unit: self.current_unit,
            current_team: self.current_team,
            players: self.players@,
            winner: self.winner,
            is_multiplayer: self.is_multiplayer,
        }
    }
}

impl GameView {
    /// The controller of `team`; `Nobody` for a team that has not been given
    /// one.
    pub open spec fn controller(self, team: usize) -> ControlledBy {
        if self.players.contains_key(team) {
            self.players[team]
        } else {
            ControlledBy::Nobody
        }
    }

    /// The session before any battle: no unit has had a turn, no team a
    /// controller, nobody has won.
    pub open spec fn fresh() -> GameView {
        GameView {
            current_unit: 0,
            current_team: 1,
            players: Map::empty(),
            winner: ControlledBy::Nobody,
            is_multiplayer: false,
        }
    }
}

impl Game {
    /// The controller of `team`; `Nobody` for a team that has not been given
    /// one.
    pub fn controller(&self, team: usize) -> (controller: ControlledBy)
        ensures
            controller == self@.controller(team),
    {
        broadcast use vstd::std_specs::hash::group_hash_axioms;

        match self.players.get(&team) {
            Some(controller) => *controller,
            None => ControlledBy::Nobody,
        }
    }
}

impl Default for Game {
    fn default() -> (game: Game)
        ensures
            game@ == GameView::fresh(),
    {
        Game {
            current_unit: 0,
            current_team: 1,
            players: HashMap::new(),
            winner: ControlledBy::Nobody,
            is_multiplayer: false,
        }
    }
}

/// Why a unit could not be put on the grid.
#[derive(Clone, Copy, Debug, PartialEq, Eq, Structural)]
pub enum RosterError {
    /// Its position is not on the grid.
    OffGrid,
    /// Another unit stands on its tile.
    TileTaken,
    /// Another unit has its id.
    DuplicateId,
    /// It has no hit points left.
    NoHitPoints,
    /// It comes with an action in flight.
    InFlight,
}

/// The time one step of a walk takes unless the caller says otherwise, in
/// milliseconds.
pub const STEP_DURATION: u64 = 2000;

/// A battle.
pub struct Battle {
    pub(crate) grid: Grid,
    pub(crate) units: Vec<Unit>,
    pub(crate) game: Game,
    pub(crate) turn_state: TurnState,
    pub(crate) game_state: GameState,
    pub(crate) client_id: u64,
    pub(crate) actor: Option<usize>,
    pub(crate) attacker: Option<usize>,
    pub(crate) target: Option<usize>,
    pub(crate) move_tiles: Vec<Pos>,
    pub(crate) attack_tiles: Vec<Pos>,
    pub(crate) step_duration: u64,
}

/// A battle as plain values.
pub struct BattleView {
    pub grid: GridView,
    /// The units alive, in the order they joined.
    pub units: Seq<UnitView>,
    pub game: GameView,
    pub turn_state: TurnState,
    pub game_state: GameState,
    /// This player's identity among the peers.
    pub client_id: u64,
    /// The id of the unit that has the turn.
    pub actor: Option<usize>,
    /// The id of the unit marked as attacking.
    pub attacker: Option<usize>,
    /// The id of the unit marked as attacked.
    pub target: Option<usize>,
    /// The tiles offered while a move is chosen.
    pub move_tiles: Seq<Pos>,
    /// The tiles offered while an attack is chosen.
    pub attack_tiles: Seq<Pos>,
    /// The time one step of a walk takes, in milliseconds.
    pub step_duration: u64,
}

/// The steps lead from `from` onward, tile by neighbouring tile, and stay on
/// the grid.
pub open spec fn is_chain(g: GridView, from: Pos, steps: Seq<MoveAction>) -> bool {
    forall|k: int|
        0 <= k < steps.len() ==> {
            &&& (#[trigger] steps[k]).origin == if k == 0 {
                from
            } else {
                steps[k - 1].destination
            }
            &&& adjacent(steps[k].origin, steps[k].destination)
            &&& g.in_bounds(steps[k].destination)
        }
}

impl BattleView {
    /// Some unit alive has this id.
    pub open spec fn has_unit(self, id: usize) -> bool {
        exists|i: int| 0 <= i < self.units.len() && (#[trigger] self.units[i]).id == id
    }

    /// The place in `units` of the unit with this id.
    pub open spec fn index_of(self, id: usize) -> int {
        choose|i: int| 0 <= i < self.units.len() && (#[trigger] self.units[i]).id == id
    }

    /// A marker, where set, names a unit alive.
    pub open spec fn marks_unit(self, marker: Option<usize>) -> bool {
        marker.is_some() ==> self.has_unit(marker.unwrap())
    }

    /// Each unit stands on a tile of the grid and is the one occupant of it.
    pub open spec fn units_on_tiles(self) -> bool {
        forall|i: int|
            0 <= i < self.units.len() ==> self.grid.in_bounds((#[trigger] self.units[i]).pos)
                && self.grid.occupants(self.units[i].pos) == seq![self.units[i].id]
    }

    /// Each tile holds at most one unit, and whom it holds stands on it.
    pub open spec fn tiles_hold_units(self) -> bool {
        forall|p: Pos|
            self.grid.in_bounds(p) && (#[trigger] self.grid.occupants(p)).len() > 0 ==> {
                &&& self.grid.occupants(p).len() == 1
                &&& self.has_unit(self.grid.occupants(p)[0])
                &&& self.units[self.index_of(self.grid.occupants(p)[0])].pos == p
            }
    }

    /// No two units share an id.
    pub open spec fn ids_differ(self) -> bool {
        forall|i: int, j: int|
            0 <= i < self.units.len() && 0 <= j < self.units.len() && i != j ==> (
            #[trigger] self.units[i]).id != (#[trigger] self.units[j]).id
    }

    /// The rules that hold of every battle between two calls.
    pub open spec fn wf(self) -> bool {
        &&& self.grid.wf()
        &&& forall|i: int| 0 <= i < self.units.len() ==> (#[trigger] self.units[i]).wf()
        &&& forall|i: int|
            0 <= i < self.units.len() ==> is_chain(
                self.grid,
                (#[trigger] self.units[i]).pos,
                self.units[i].steps,
            )
        &&& self.units_on_tiles()
        &&& self.tiles_hold_units()
        &&& self.ids_differ()
        &&& self.marks_unit(self.actor)
        &&& self.marks_unit(self.attacker)
        &&& self.marks_unit(self.target)
        &&& self.actor.is_some() ==> self.actor == Some(self.game.current_unit)
        &&& self.turn_state != TurnState::Wait ==> self.actor.is_some()
    }

    /// A battle on `grid` with no unit on it, nobody's turn and a fresh
    /// session, before the battle has been entered.
    pub open spec fn start(grid: GridView) -> BattleView {
        BattleView {
            grid,
            units: Seq::empty(),
            game: GameView::fresh(),
            turn_state: TurnState::Wait,
            game_state: GameState::MainMenu,
            client_id: 0,
            actor: None,
            attacker: None,
            target: None,
            move_tiles: Seq::empty(),
            attack_tiles: Seq::empty(),
            step_duration: STEP_DURATION,
        }
    }

    /// The battle at the start of a session: team 1 is a player's, team 2 is
    /// controlled as said, no unit has had a turn and nobody has won.
    pub open spec fn with_session(self, second: ControlledBy, is_multiplayer: bool) -> BattleView {
        BattleView {
            game: GameView {
                current_unit: 0,
                current_team: 1,
                players: Map::empty().insert(1usize, ControlledBy::Player).insert(2usize, second),
                winner: ControlledBy::Nobody,
                is_multiplayer,
            },
            actor: None,
            turn_state: TurnState::Wait,
            ..self
        }
    }

    /// What `add_unit` answers for `unit`: the first rule that it breaks.
    pub open spec fn admits(self, unit: UnitView) -> Result<(), RosterError> {
        if unit.processing || unit.activity != Activity::Idle || unit.steps.len() > 0 {
            Err(RosterError::InFlight)
        } else if unit.stats.hp_current == 0 {
            Err(RosterError::NoHitPoints)
        } else if !self.grid.in_bounds(unit.pos) {
            Err(RosterError::OffGrid)
        } else if self.grid.occupied(unit.pos) {
            Err(RosterError::TileTaken)
        } else if self.has_unit(unit.id) {
            Err(RosterError::DuplicateId)
        } else {
            Ok(())
        }
    }

    /// The battle with `unit` added behind the others and put on its tile.
    pub open spec fn with_unit(self, unit: UnitView) -> BattleView {
        BattleView {
            grid: self.grid.with_occupants(unit.pos, seq![unit.id]),
            units: self.units.push(unit),
            ..self
        }
    }
}

/// The units of a battle as plain values.
pub open spec fn unit_views(units: Seq<Unit>) -> Seq<UnitView> {
    Seq::new(units.len(), |i: int| units[i]@)
}

impl View for Battle {
    type V = BattleView;

    open(crate) spec fn view(&self) -> BattleView {
        BattleView {
            grid: self.grid@,
            units: unit_views(self.units@),
            game: self.game@,
            turn_state: self.turn_state,
            game_state: self.game_state,
            client_id: self.client_id,
            actor: self.actor,
            attacker: self.attacker,
            target: self.target,
            move_tiles: self.move_tiles@,
            attack_tiles: self.attack_tiles@,
            step_duration: self.step_duration,
        }
    }
}

impl Battle {
    /// The battle keeps its rules.
    pub open(crate) spec fn wf(&self) -> bool {
        self.grid.wf() && self@.wf()
    }

    /// A battle on `grid` with no unit yet, nobody's turn and a fresh
    /// session; `None` if a unit stands on the grid already.
    pub fn new(grid: Grid) -> (battle: Option<Battle>)
        requires
            grid.wf(),
        ensures
            battle.is_some() <==> grid@.empty(),
            battle.is_some() ==> battle.unwrap().wf() && battle.unwrap()@ == BattleView::start(
                grid@,
            ),
    {
        if !grid.is_empty() {
            return None;
        }
        let battle = Battle {
            grid,
            units: Vec::new(),
            game: Game::default(),
            turn_state: TurnState::Wait,
            game_state: GameState::MainMenu,
            client_id: 0,
            actor: None,
            attacker: None,
            target: None,
            move_tiles: Vec::new(),
            attack_tiles: Vec::new(),
            step_duration: STEP_DURATION,
        };
        proof {
            assert(battle@.units =~= Seq::empty());
            grid.lemma_view_wf();
        }
        Some(battle)
    }

    /// The grid.
    pub fn grid(&self) -> (grid: &Grid)
        ensures
            grid@ == self@.grid,
            self.wf() ==> grid.wf(),
    {
        &self.grid
    }

    /// The units alive, in the order they joined.
    pub fn units(&self) -> (units: &Vec<Unit>)
        ensures
            unit_views(units@) == self@.units,
    {
        &self.units
    }

    /// The session.
    pub fn game(&self) -> (game: &Game)
        ensures
            game@ == self@.game,
    {
        &self.game
    }

    /// Whether this is a battle of two players.
    pub fn is_multiplayer(&self) -> (r: bool)
        ensures
            r == self@.game.is_multiplayer,
    {
        self.game.is_multiplayer
    }

    /// Whether this is a battle of one player.
    pub fn is_singleplayer(&self) -> (r: bool)
        ensures
            r == !self@.game.is_multiplayer,
    {
        !self.game.is_multiplayer
    }

    /// Where the turn stands.
    pub fn turn_state(&self) -> (state: TurnState)
        ensures
            state == self@.turn_state,
    {
        self.turn_state
    }

    /// Where the program stands.
    pub fn game_state(&self) -> (state: GameState)
        ensures
            state == self@.game_state,
    {
        self.game_state
    }

    /// This player's identity among the peers.
    pub fn client_id(&self) -> (id: u64)
        ensures
            id == self@.client_id,
    {
        self.client_id
    }

    /// The id of the unit that has the turn.
    pub fn actor(&self) -> (id: Option<usize>)
        ensures
            id == self@.actor,
    {
        self.actor
    }

    /// The id of the unit marked as attacking.
    pub fn attacker(&self) -> (id: Option<usize>)
        ensures
            id == self@.attacker,
    {
        self.attacker
    }

    /// The id of the unit marked as attacked.
    pub fn target(&self) -> (id: Option<usize>)
        ensures
            id == self@.target,
    {
        self.target
    }

    /// The tiles offered while a move is chosen.
    pub fn move_tiles(&self) -> (tiles: &Vec<Pos>)
        ensures
            tiles@ == self@.move_tiles,
    {
        &self.move_tiles
    }

    /// The tiles offered while an attack is chosen.
    pub fn attack_tiles(&self) -> (tiles: &Vec<Pos>)
        ensures
            tiles@ == self@.attack_tiles,
    {
        &self.attack_tiles
    }

    /// The time one step of a walk takes, in milliseconds.
    pub fn step_duration(&self) -> (duration: u64)
        ensures
            duration == self@.step_duration,
    {
        self.step_duration
    }

    /// Sets the time one step of a walk takes, in milliseconds, for the
    /// moves that are planned from now on.
    pub fn set_step_duration(&mut self, duration: u64)
        ensures
            final(self)@ == (BattleView { step_duration: duration, ..old(self)@ }),
            old(self).wf() ==> final(self).wf(),
    {
        self.step_duration = duration;
        proof {
            if old(self).wf() {
                lemma_rules_kept(old(self)@, self@);
            }
        }
    }

    /// Sets where the program stands.
    pub fn set_game_state(&mut self, state: GameState)
        ensures
            final(self)@ == (BattleView { game_state: state, ..old(self)@ }),
            old(self).wf() ==> final(self).wf(),
    {
        self.game_state = state;
        proof {
            if old(self).wf() {
                lemma_rules_kept(old(self)@, self@);
            }
        }
    }

    /// The unit with this id.
    pub fn unit(&self, id: usize) -> (unit: Option<&Unit>)
        requires
            self.wf(),
        ensures
            unit.is_some() <==> self@.has_unit(id),
            unit.is_some() ==> unit.unwrap()@ == self@.units[self@.index_of(id)],
    {
        match self.unit_index(id) {
            Some(k) => Some(&self.units[k]),
            None => None,
        }
    }

    /// Starts the session of a battle of one player: team 1 is the
    /// player's, team 2 the machine's, and nobody has the turn.
    pub fn setup_game_resource_system(&mut self)
        requires
            old(self).wf(),
        ensures
            final(self).wf(),
            final(self)@ == old(self)@.with_session(ControlledBy::AI, false),
    {
        self.start_session(ControlledBy::AI, false);
    }

    /// Starts the session of a battle of two players: both teams are
    /// players', and nobody has the turn.
    pub fn setup_game_resource_system_multiplayer(&mut self)
        requires
            old(self).wf(),
        ensures
            final(self).wf(),
            final(self)@ == old(self)@.with_session(ControlledBy::Player, true),
    {
        self.start_session(ControlledBy::Player, true);
    }

    /// Starts a session in which team 1 is a player's and team 2 is
    /// controlled as said.
    fn start_session(&mut self, second: ControlledBy, is_multiplayer: bool)
        requires
            old(self).wf(),
        ensures
            final(self).wf(),
            final(self)@ == old(self)@.with_session(second, is_multiplayer),
    {
        broadcast use vstd::std_specs::hash::group_hash_axioms;

        let mut players: HashMap<usize, ControlledBy> = HashMap::new();
        players.insert(1, ControlledBy::Player);
        players.insert(2, second);
        self.game = Game {
            current_unit: 0,
            current_team: 1,
            players,
            winner: ControlledBy::Nobody,
            is_multiplayer,
        };
        self.actor = None;
        self.turn_state = TurnState::Wait;
        proof {
            assert(self@.game.players =~= old(self)@.with_session(
                second,
                is_multiplayer,
            ).game.players);
            lemma_rules_kept(old(self)@, self@);
        }
    }

    /// Says who controls `team` from now on.
    pub fn set_controller(&mut self, team: usize, controller: ControlledBy)
        requires
            old(self).wf(),
        ensures
            final(self).wf(),
            final(self)@ == (BattleView {
                game: GameView {
                    players: old(self)@.game.players.insert(team, controller),
                    ..old(self)@.game
                },
                ..old(self)@
            }),
    {
        broadcast use vstd::std_specs::hash::group_hash_axioms;

        self.game.players.insert(team, controller);
        proof {
            lemma_rules_kept(old(self)@, self@);
        }
    }

    /// The place in the list of units of the one with this id.
    pub fn unit_index(&self, id: usize) -> (found: Option<usize>)
        requires
            self.wf(),
        ensures
            found.is_some() <==> self@.has_unit(id),
            found.is_some() ==> found.unwrap() == self@.index_of(id) && found.unwrap()
                < self@.units.len(),
    {
        let mut i: usize = 0;
        while i < self.units.len()
            invariant
                self.wf(),
                i <= self.units.len(),
                forall|j: int| 0 <= j < i ==> (#[trigger] self@.units[j]).id != id,
            decreases self.units.len() - i,
        {
            if self.units[i].id == id {
                proof {
                    assert(self@.units[i as int].id == id);
                    let j = self@.index_of(id);
                    assert(self@.units[j].id == id);
                }
                return Some(i);
            }
            i = i + 1;
        }
        None
    }

    /// Puts `unit` on the grid and at the end of the list of units, or says
    /// which rule it breaks and leaves the battle as it is.
    pub fn add_unit(&mut self, unit: Unit) -> (r: Result<(), RosterError>)
        requires
            old(self).wf(),
        ensures
            final(self).wf(),
            r == old(self)@.admits(unit@),
            r.is_ok() ==> final(self)@ == old(self)@.with_unit(unit@),
            r.is_err() ==> final(self)@ == old(self)@,
    {
        if unit.actions.processing_unit_action || !matches!(unit.actions.activity, Activity::Idle)
            || unit.actions.move_actions.len() > 0 {
            return Err(RosterError::InFlight);
        }
        if unit.stats.hp_current == 0 {
            return Err(RosterError::NoHitPoints);
        }
        if !self.grid.in_bounds(unit.pos) {
            return Err(RosterError::OffGrid);
        }
        if self.grid.is_occupied(unit.pos) {
            return Err(RosterError::TileTaken);
        }
        if self.unit_index(unit.id).is_some() {
            return Err(RosterError::DuplicateId);
        }
        let ghost before = self@;
        let ghost u = unit@;
        proof {
            assert(unit.actions.unit_actions@.len() >= 0);
        }
        self.grid.push_occupant(unit.pos, unit.id);
        self.units.push(unit);
        proof {
            let after = self@;
            assert(before.grid.occupants(u.pos) =~= Seq::empty());
            assert(Seq::<usize>::empty().push(u.id) =~= seq![u.id]);
            assert(after.units =~= before.units.push(u));
            assert(after.grid == before.grid.with_occupants(u.pos, seq![u.id]));
            assert(after == before.with_unit(u));
            lemma_with_unit_wf(before, u);
        }
        Ok(())
    }
}

/// Adding a unit that the battle admits keeps the battle's rules.
pub proof fn lemma_with_unit_wf(b: BattleView, u: UnitView)
    requires
        b.wf(),
        b.admits(u).is_ok(),
    ensures
        b.with_unit(u).wf(),
{
    let a = b.with_unit(u);
    let n = b.units.len() as int;
    assert(a.units[n] == u);
    assert forall|id: usize| b.has_unit(id) implies #[trigger] a.has_unit(id) by {
        let i = b.index_of(id);
        assert(a.units[i].id == id);
    }
    assert(a.has_unit(u.id));
    assert(a.ids_differ()) by {
        assert forall|i: int, j: int|
            0 <= i < a.units.len() && 0 <= j < a.units.len() && i != j implies (
        #[trigger] a.units[i]).id != (#[trigger] a.units[j]).id by {
            if i < n && j < n {
                assert(b.units[i].id != b.units[j].id);
            } else if i < n {
                assert(b.units[i].id == a.units[i].id);
            } else {
                assert(b.units[j].id == a.units[j].id);
            }
        }
    }
    assert(a.units_on_tiles()) by {
        assert forall|i: int| 0 <= i < a.units.len() implies a.grid.in_bounds(
            (#[trigger] a.units[i]).pos,
        ) && a.grid.occupants(a.units[i].pos) == seq![a.units[i].id] by {
            if i < n {
                assert(b.units[i] == a.units[i]);
                assert(b.grid.occupants(b.units[i].pos) == seq![b.units[i].id]);
                assert(b.units[i].pos != u.pos);
            }
        }
    }
    assert(a.tiles_hold_units()) by {
        assert forall|p: Pos|
            a.grid.in_bounds(p) && (#[trigger] a.grid.occupants(p)).len() > 0 implies {
            &&& a.grid.occupants(p).len() == 1
            &&& a.has_unit(a.grid.occupants(p)[0])
            &&& a.units[a.index_of(a.grid.occupants(p)[0])].pos == p
        } by {
            let id = a.grid.occupants(p)[0];
            if p == u.pos {
                assert(id == u.id);
                let k = a.index_of(id);
                assert(a.units[k].id == id);
                assert(a.units[n].id == id);
                assert(k == n);
            } else {
                assert(b.grid.occupants(p) == a.grid.occupants(p));
                assert(b.has_unit(id));
                let i = b.index_of(id);
                assert(a.units[i].id == id);
                let k = a.index_of(id);
                assert(a.units[k].id == id);
                assert(k == i);
            }
        }
    }
    assert forall|i: int| 0 <= i < a.units.len() implies (#[trigger] a.units[i]).wf() && is_chain(
        a.grid,
        a.units[i].pos,
        a.units[i].steps,
    ) by {
        if i < n {
            assert(b.units[i] == a.units[i]);
            assert(b.units[i].wf());
            assert(is_chain(b.grid, b.units[i].pos, b.units[i].steps));
        }
    }
    assert(a.grid.wf());
}

/// A battle that differs from one that keeps its rules in neither the grid
/// nor the ids and places of its units has its units on their tiles too, and
/// the same units under the same ids.
pub proof fn lemma_same_places(b: BattleView, a: BattleView)
    requires
        b.wf(),
        a.grid == b.grid,
        a.units.len() == b.units.len(),
        forall|i: int|
            0 <= i < b.units.len() ==> (#[trigger] a.units[i]).id == b.units[i].id
                && a.units[i].pos == b.units[i].pos,
    ensures
        a.units_on_tiles(),
        a.tiles_hold_units(),
        a.ids_differ(),
        forall|id: usize| #[trigger] a.has_unit(id) == b.has_unit(id),
        forall|id: usize| b.has_unit(id) ==> #[trigger] a.index_of(id) == b.index_of(id),
        forall|m: Option<usize>| b.marks_unit(m) ==> #[trigger] a.marks_unit(m),
{
    assert forall|i: int, j: int|
        0 <= i < a.units.len() && 0 <= j < a.units.len() && i != j implies (
    #[trigger] a.units[i]).id != (#[trigger] a.units[j]).id by {
        assert(b.units[i].id != b.units[j].id);
    }
    assert forall|id: usize| #[trigger] a.has_unit(id) == b.has_unit(id) by {
        if a.has_unit(id) {
            let i = a.index_of(id);
            assert(b.units[i].id == id);
        }
        if b.has_unit(id) {
            let i = b.index_of(id);
            assert(a.units[i].id == id);
        }
    }
    assert forall|id: usize| b.has_unit(id) implies #[trigger] a.index_of(id) == b.index_of(
        id,
    ) by {
        let i = b.index_of(id);
        assert(a.units[i].id == id);
        let k = a.index_of(id);
        assert(a.units[k].id == id);
    }
    assert forall|i: int| 0 <= i < a.units.len() implies a.grid.in_bounds(
        (#[trigger] a.units[i]).pos,
    ) && a.grid.occupants(a.units[i].pos) == seq![a.units[i].id] by {
        assert(b.grid.occupants(b.units[i].pos) == seq![b.units[i].id]);
    }
    assert forall|p: Pos|
        a.grid.in_bounds(p) && (#[trigger] a.grid.occupants(p)).len() > 0 implies {
        &&& a.grid.occupants(p).len() == 1
        &&& a.has_unit(a.grid.occupants(p)[0])
        &&& a.units[a.index_of(a.grid.occupants(p)[0])].pos == p
    } by {
        let id = b.grid.occupants(p)[0];
        assert(b.has_unit(id));
        assert(a.index_of(id) == b.index_of(id));
    }
}

/// A battle that differs from one that keeps its rules in neither the grid
/// nor the ids and places of its units keeps the rules too, if each of its
/// units does, its markers name units alive and the turn has its actor.
pub proof fn lemma_rules_kept(b: BattleView, a: BattleView)
    requires
        b.wf(),
        a.grid == b.grid,
        a.units.len() == b.units.len(),
        forall|i: int|
            0 <= i < b.units.len() ==> (#[trigger] a.units[i]).id == b.units[i].id
                && a.units[i].pos == b.units[i].pos,
        forall|i: int|
            0 <= i < a.units.len() ==> (#[trigger] a.units[i]).wf() && is_chain(
                a.grid,
                a.units[i].pos,
                a.units[i].steps,
            ),
        a.actor.is_some() ==> b.has_unit(a.actor.unwrap()) && a.actor == Some(
            a.game.current_unit,
        ),
        a.attacker.is_some() ==> b.has_unit(a.attacker.unwrap()),
        a.target.is_some() ==> b.has_unit(a.target.unwrap()),
        a.turn_state != TurnState::Wait ==> a.actor.is_some(),
    ensures
        a.wf(),
{
    lemma_same_places(b, a);
}

/// In a battle that keeps its rules, the unit with a given id is found at
/// its place, and no other unit has the id.
pub proof fn lemma_index_of(b: BattleView, i: int)
    requires
        b.ids_differ(),
        0 <= i < b.units.len(),
    ensures
        b.has_unit(b.units[i].id),
        b.index_of(b.units[i].id) == i,
{
    let id = b.units[i].id;
    assert(b.units[i].id == id);
    let k = b.index_of(id);
    assert(b.units[k].id == id);
}

} // verus!
