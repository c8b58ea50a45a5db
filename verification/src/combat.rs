//! Resolving attacks: damage, death, the counter-attack, and the end of the
//! battle.

use vstd::prelude::*;
use crate::pos::{Pos, AttackType, facing_spec};
use crate::range::{melee_reach, find_possible_attacks, contains_pos};
use crate::battle::{Battle, BattleView, GameView, GameState, TurnState, ControlledBy, is_chain};
use crate::battle::{lemma_rules_kept, lemma_index_of};
use crate::actions::{finish, lemma_enqueued_wf};
use crate::unit::{Stats, UnitView, UnitAction, UnitActionTuple, Activity};

verus! {

/// The team of the player in a battle of one player.
pub const PLAYER_TEAM: usize = 1;

/// The team of the machine in a battle of one player.
pub const AI_TEAM: usize = 2;

/// The number of outcomes of the roll that goes into the damage.
pub const ROLLS: usize = 7;

/// The damage of a blow by a unit of the given strength: a third of the
/// strength, rounded down, plus the roll less 3, and not less than nothing.
pub open spec fn rolled_damage(strength: usize, roll: usize) -> int {
    if strength / 3 + roll - 3 < 0 {
        0
    } else {
        strength / 3 + roll - 3
    }
}

/// The damage of a blow by a unit of the given strength, for a roll of 0 to
/// 6.
pub fn compute_damage(strength: usize, roll: usize) -> (damage: usize)
    requires
        roll < ROLLS,
    ensures
        damage == rolled_damage(strength, roll),
{
    let base = strength / 3;
    if roll >= 3 {
        base + (roll - 3)
    } else if base >= 3 - roll {
        base - (3 - roll)
    } else {
        0
    }
}

/// Calls `gen_range(0..7)` of `rand::Rng` on `rand::thread_rng()`.
///
/// Believed of it, from its documentation: the value lies in the range it
/// was given, here 0 to 6. Which value comes is chance. The generator is
/// the thread's own, seeded by the system; where the system cannot seed it,
/// the call does not return.
#[verifier::external_body]
fn roll_damage_modifier() -> (roll: usize)
    ensures
        roll < ROLLS,
{
    rand::Rng::gen_range(&mut rand::thread_rng(), 0..7)
}

/// The place in the list of the first unit whose attack waits to be
/// resolved.
pub open spec fn is_first_attacking(units: Seq<UnitView>, i: int) -> bool {
    &&& 0 <= i < units.len()
    &&& units[i].activity == Activity::Attacking
    &&& forall|j: int| 0 <= j < i ==> (#[trigger] units[j]).activity != Activity::Attacking
}

/// No unit's attack waits to be resolved.
pub open spec fn none_attacking(units: Seq<UnitView>) -> bool {
    forall|j: int| 0 <= j < units.len() ==> (#[trigger] units[j]).activity != Activity::Attacking
}

/// What resolving the first waiting attack may make of a battle: nothing
/// where no attack waits; else what `resolved` gives for the first attacking
/// unit and one of the rolls 0 to 6.
pub open spec fn attack_allows(b: BattleView, a: BattleView) -> bool {
    &&& none_attacking(b.units) ==> a == b
    &&& forall|i: int|
        is_first_attacking(b.units, i) ==> exists|roll: usize|
            roll < ROLLS && a == #[trigger] b.resolved(i, roll)
}

impl BattleView {
    /// The tile that the attack at the head of unit `i`'s queue aims at.
    pub open spec fn aim(self, i: int) -> Option<Pos> {
        match self.units[i].queue[0].0 {
            UnitAction::BasicAttack { target, .. } => Some(target),
            _ => None,
        }
    }

    /// The place in the list of the unit that the attack of unit `i` hits:
    /// the one that stands on the tile aimed at, if it is another unit.
    pub open spec fn victim(self, i: int) -> Option<int> {
        match self.aim(i) {
            Some(target) => if self.grid.occupied(target) && self.grid.occupants(target)[0]
                != self.units[i].id {
                Some(self.index_of(self.grid.occupants(target)[0]))
            } else {
                None
            },
            None => None,
        }
    }

    /// The damage that the attack of unit `i` does: in a battle of two
    /// players what the attack says, else what the attacker's strength and
    /// the roll give.
    pub open spec fn damage_dealt(self, i: int, roll: usize) -> int {
        match self.units[i].queue[0].0 {
            UnitAction::BasicAttack { damage, .. } => if self.game.is_multiplayer {
                damage as int
            } else {
                rolled_damage(self.units[i].stats.strength, roll)
            },
            _ => 0,
        }
    }

    /// Unit `j`, hit by unit `i` and alive, strikes back: in a battle of one
    /// player, if the blow was no counter-attack itself, `j` fights hand to
    /// hand and `i` stands where `j` can reach it.
    pub open spec fn counters(self, i: int, j: int) -> bool {
        match self.units[i].queue[0].0 {
            UnitAction::BasicAttack { is_counterattack, .. } => !self.game.is_multiplayer
                && !is_counterattack && self.units[j].attack_type == AttackType::Melee
                && melee_reach(
                self.grid,
                self.units[j].pos,
                self.units[j].attack_range as int,
                self.units[i].pos,
            ),
            _ => false,
        }
    }

    /// The battle after unit `j` has died under the blow of unit `i`, which
    /// is now `done`: `j` is gone from its tile and from the list, no unit is
    /// marked as attacker or target, and if `j` had the turn, nobody has.
    pub open spec fn slain(self, i: int, j: int, done: UnitView) -> BattleView {
        BattleView {
            grid: self.grid.with_occupants(self.units[j].pos, Seq::empty()),
            units: self.units.update(i, done).remove(j),
            attacker: None,
            target: None,
            actor: if self.actor == Some(self.units[j].id) {
                None
            } else {
                self.actor
            },
            turn_state: if self.actor == Some(self.units[j].id) {
                TurnState::Wait
            } else {
                self.turn_state
            },
            ..self
        }
    }

    /// The battle after the attack of unit `i` has been resolved with the
    /// given roll. A unit that is not attacking changes nothing. An attack
    /// that finds no other unit on its tile is dropped. Else the attacker
    /// turns to its victim, and the victim loses the damage from its hit
    /// points, or all it has left. A victim without hit points dies. One
    /// that lives on strikes back where `counters` says so: the
    /// counter-attack joins its queue, and the two units swap the marks of
    /// attacker and target. In every case the attack leaves the attacker's
    /// queue.
    pub open spec fn resolved(self, i: int, roll: usize) -> BattleView {
        if self.units[i].activity != Activity::Attacking {
            self
        } else {
            match self.victim(i) {
                None => self.missed(i),
                Some(j) => self.struck(i, j, self.damage_dealt(i, roll)),
            }
        }
    }

    /// The battle after the attack of unit `i` found nobody to hit: the
    /// attack leaves the queue and no unit is marked as attacker or target.
    pub open spec fn missed(self, i: int) -> BattleView {
        BattleView { attacker: None, target: None, ..self.with_unit_at(i, self.units[i].finished()) }
    }

    /// Unit `i` after its blow at unit `j`: turned towards `j`, and done with
    /// the attack.
    pub open spec fn after_blow(self, i: int, j: int) -> UnitView {
        (UnitView {
            dir: facing_spec(self.units[i].dir, self.units[i].pos, self.units[j].pos),
            ..self.units[i]
        }).finished()
    }

    /// Unit `j` with `damage` taken from its hit points.
    pub open spec fn hurt(self, j: int, damage: int) -> UnitView {
        UnitView {
            stats: Stats {
                hp_current: (self.units[j].stats.hp_current - damage) as usize,
                ..self.units[j].stats
            },
            ..self.units[j]
        }
    }

    /// The battle after unit `j` took `damage` from unit `i` and lived.
    pub open spec fn wounded(self, i: int, j: int, damage: int) -> BattleView {
        if self.counters(i, j) {
            BattleView {
                attacker: Some(self.units[j].id),
                target: Some(self.units[i].id),
                units: self.units.update(i, self.after_blow(i, j)).update(
                    j,
                    self.hurt(j, damage).enqueued(counter_attack(self.units[i].pos)),
                ),
                ..self
            }
        } else {
            BattleView {
                attacker: None,
                target: None,
                units: self.units.update(i, self.after_blow(i, j)).update(
                    j,
                    self.hurt(j, damage),
                ),
                ..self
            }
        }
    }

    /// The battle after the blow of unit `i` has hit unit `j` for `damage`.
    pub open spec fn struck(self, i: int, j: int, damage: int) -> BattleView {
        if damage >= self.units[j].stats.hp_current {
            self.slain(i, j, self.after_blow(i, j))
        } else {
            self.wounded(i, j, damage)
        }
    }

    /// Some unit alive belongs to `team`.
    pub open spec fn team_alive(self, team: usize) -> bool {
        exists|i: int| 0 <= i < self.units.len() && (#[trigger] self.units[i]).team == team
    }

    /// The battle after the look at who is left. While both sides have
    /// units, nothing changes. With no unit of the machine left the player
    /// has won; else, with no unit of the player left, the machine has. The
    /// battle is over then: nobody's turn, back to the main menu.
    pub open spec fn game_over_spec(self) -> BattleView {
        if self.team_alive(PLAYER_TEAM) && self.team_alive(AI_TEAM) {
            self
        } else {
            BattleView {
                game: GameView {
                    winner: if !self.team_alive(AI_TEAM) {
                        ControlledBy::Player
                    } else {
                        ControlledBy::AI
                    },
                    ..self.game
                },
                game_state: GameState::MainMenu,
                turn_state: TurnState::Wait,
                ..self
            }
        }
    }
}

/// The blow that a unit strikes back with, at the tile of the unit that hit
/// it.
pub open spec fn counter_attack(at: Pos) -> UnitActionTuple {
    UnitActionTuple(UnitAction::BasicAttack { target: at, is_counterattack: true, damage: 0 }, 0)
}

/// The death of a unit under the blow of another leaves the battle's rules
/// in force.
pub proof fn lemma_slain_wf(b: BattleView, i: int, j: int, done: UnitView)
    requires
        b.wf(),
        0 <= i < b.units.len(),
        0 <= j < b.units.len(),
        done.id == b.units[i].id,
        done.pos == b.units[i].pos,
        done.wf(),
        is_chain(b.grid, done.pos, done.steps),
    ensures
        b.slain(i, j, done).wf(),
{
    let a = b.slain(i, j, done);
    let t = b.units[j];
    let mid = b.units.update(i, done);
    assert(b.grid.occupants(t.pos) == seq![t.id]);
    assert forall|k: int| 0 <= k < a.units.len() implies (#[trigger] a.units[k]) == mid[if k < j {
        k
    } else {
        k + 1
    }] by {
    }
    assert forall|id: usize| #[trigger] a.has_unit(id) == (b.has_unit(id) && id != t.id) by {
        if a.has_unit(id) {
            let k = a.index_of(id);
            let s = if k < j {
                k
            } else {
                k + 1
            };
            assert(a.units[k] == mid[s]);
            assert(b.units[s].id == id);
            assert(b.units[j].id == t.id);
        }
        if b.has_unit(id) && id != t.id {
            let s = b.index_of(id);
            assert(b.units[s].id == id);
            let k = if s < j {
                s
            } else {
                s - 1
            };
            assert(a.units[k] == mid[s]);
            assert(a.units[k].id == id);
        }
    }
    assert(a.ids_differ()) by {
        assert forall|x: int, y: int|
            0 <= x < a.units.len() && 0 <= y < a.units.len() && x != y implies (
        #[trigger] a.units[x]).id != (#[trigger] a.units[y]).id by {
            let sx = if x < j {
                x
            } else {
                x + 1
            };
            let sy = if y < j {
                y
            } else {
                y + 1
            };
            assert(a.units[x] == mid[sx]);
            assert(a.units[y] == mid[sy]);
            assert(b.units[sx].id != b.units[sy].id);
        }
    }
    assert forall|k: int| 0 <= k < a.units.len() implies {
        &&& (#[trigger] a.units[k]).wf()
        &&& is_chain(a.grid, a.units[k].pos, a.units[k].steps)
        &&& a.grid.in_bounds(a.units[k].pos)
        &&& a.grid.occupants(a.units[k].pos) == seq![a.units[k].id]
    } by {
        let s = if k < j {
            k
        } else {
            k + 1
        };
        assert(a.units[k] == mid[s]);
        assert(b.units[s].wf());
        assert(is_chain(b.grid, b.units[s].pos, b.units[s].steps));
        assert(b.grid.occupants(b.units[s].pos) == seq![b.units[s].id]);
        assert(b.units[s].id != b.units[j].id);
        assert(b.units[s].pos != t.pos);
    }
    assert(a.tiles_hold_units()) by {
        assert forall|p: Pos|
            a.grid.in_bounds(p) && (#[trigger] a.grid.occupants(p)).len() > 0 implies {
            &&& a.grid.occupants(p).len() == 1
            &&& a.has_unit(a.grid.occupants(p)[0])
            &&& a.units[a.index_of(a.grid.occupants(p)[0])].pos == p
        } by {
            let id = a.grid.occupants(p)[0];
            assert(p != t.pos);
            assert(b.grid.occupants(p) == a.grid.occupants(p));
            assert(b.has_unit(id));
            let s = b.index_of(id);
            assert(b.units[s].id == id);
            assert(b.units[s].pos == p);
            assert(s != j);
            let k = if s < j {
                s
            } else {
                s - 1
            };
            assert(a.units[k] == mid[s]);
            lemma_index_of(a, k);
        }
    }
    assert(a.grid.wf());
}

impl Battle {
    /// The place in the list of the first unit whose attack waits to be
    /// resolved.
    pub fn first_attacking(&self) -> (found: Option<usize>)
        ensures
            match found {
                Some(i) => is_first_attacking(self@.units, i as int),
                None => none_attacking(self@.units),
            },
    {
        let mut i: usize = 0;
        while i < self.units.len()
            invariant
                i <= self.units.len(),
                forall|j: int|
                    0 <= j < i ==> (#[trigger] self@.units[j]).activity != Activity::Attacking,
            decreases self.units.len() - i,
        {
            if self.units[i].actions.activity == Activity::Attacking {
                assert(self@.units[i as int].activity == Activity::Attacking);
                return Some(i);
            }
            i = i + 1;
        }
        None
    }

    /// The attack of unit `i` found nobody to hit.
    fn miss(&mut self, i: usize)
        requires
            old(self).wf(),
            i < old(self)@.units.len(),
            old(self)@.units[i as int].processing,
        ensures
            final(self).wf(),
            final(self)@ == old(self)@.missed(i as int),
    {
        let ghost before = self@;
        let ghost a = before.units[i as int];
        proof {
            assert(a.wf());
            assert(is_chain(before.grid, a.pos, a.steps));
        }
        finish(&mut self.units[i]);
        self.attacker = None;
        self.target = None;
        proof {
            assert(self@.units =~= before.units.update(i as int, a.finished()));
            assert forall|k: int| 0 <= k < self@.units.len() implies (
            #[trigger] self@.units[k]).wf() && is_chain(
                self@.grid,
                self@.units[k].pos,
                self@.units[k].steps,
            ) by {
                assert(before.units[k].wf());
                assert(is_chain(before.grid, before.units[k].pos, before.units[k].steps));
            }
            lemma_rules_kept(before, self@);
        }
    }

    /// Unit `i` turns to unit `j` and is done with its attack.
    fn blow(&mut self, i: usize, j: usize)
        requires
            old(self).wf(),
            i < old(self)@.units.len(),
            j < old(self)@.units.len(),
            old(self)@.units[i as int].processing,
        ensures
            final(self).wf(),
            final(self)@ == old(self)@.with_unit_at(i as int, old(self)@.after_blow(i as int, j as int)),
    {
        let ghost before = self@;
        let ghost a = before.units[i as int];
        proof {
            assert(a.wf());
            assert(is_chain(before.grid, a.pos, a.steps));
        }
        let from = self.units[i].pos;
        let at = self.units[j].pos;
        self.units[i].dir = self.units[i].dir.facing(from, at);
        finish(&mut self.units[i]);
        proof {
            let done = before.after_blow(i as int, j as int);
            assert(self@.units =~= before.units.update(i as int, done));
            crate::scheduler::lemma_with_unit_at_wf(before, i as int, done);
        }
    }

    /// Unit `j` dies.
    fn kill(&mut self, j: usize)
        requires
            old(self).wf(),
            j < old(self)@.units.len(),
        ensures
            final(self).wf(),
            final(self)@ == old(self)@.slain(j as int, j as int, old(self)@.units[j as int]),
    {
        let ghost before = self@;
        let ghost t = before.units[j as int];
        proof {
            assert(t.wf());
            assert(is_chain(before.grid, t.pos, t.steps));
            assert(before.grid.occupants(t.pos) == seq![t.id]);
        }
        let id = self.units[j].id;
        let at = self.units[j].pos;
        self.grid.remove_first_occupant(at);
        self.units.remove(j);
        self.attacker = None;
        self.target = None;
        if self.actor == Some(id) {
            self.actor = None;
            self.turn_state = TurnState::Wait;
        }
        proof {
            assert(seq![t.id].drop_first() =~= Seq::<usize>::empty());
            assert(before.units.update(j as int, t) =~= before.units);
            assert(self@.units =~= before.units.update(j as int, t).remove(j as int));
            lemma_slain_wf(before, j as int, j as int, t);
        }
    }

    /// Unit `j` loses `damage` hit points and lives; it strikes back at the
    /// tile `from` if `strikes_back` says so, and then unit `i` and unit `j`
    /// are marked as target and attacker.
    fn wound(&mut self, i: usize, j: usize, damage: usize, strikes_back: bool, from: Pos)
        requires
            old(self).wf(),
            i < old(self)@.units.len(),
            j < old(self)@.units.len(),
            i != j,
            damage < old(self)@.units[j as int].stats.hp_current,
        ensures
            final(self).wf(),
            final(self)@ == (BattleView {
                attacker: if strikes_back {
                    Some(old(self)@.units[j as int].id)
                } else {
                    None
                },
                target: if strikes_back {
                    Some(old(self)@.units[i as int].id)
                } else {
                    None
                },
                ..old(self)@.with_unit_at(
                    j as int,
                    if strikes_back {
                        old(self)@.hurt(j as int, damage as int).enqueued(counter_attack(from))
                    } else {
                        old(self)@.hurt(j as int, damage as int)
                    },
                )
            }),
    {
        let ghost before = self@;
        let ghost t = before.units[j as int];
        proof {
            assert(t.wf());
            assert(is_chain(before.grid, t.pos, t.steps));
        }
        self.units[j].stats.hp_current = self.units[j].stats.hp_current - damage;
        let ghost hurt = before.hurt(j as int, damage as int);
        if strikes_back {
            self.units[j].actions.unit_actions.push(
                UnitActionTuple(
                    UnitAction::BasicAttack { target: from, is_counterattack: true, damage: 0 },
                    0,
                ),
            );
            self.attacker = Some(self.units[j].id);
            self.target = Some(self.units[i].id);
            proof {
                lemma_enqueued_wf(hurt, counter_attack(from));
                assert(self@.units =~= before.units.update(
                    j as int,
                    hurt.enqueued(counter_attack(from)),
                ));
            }
        } else {
            self.attacker = None;
            self.target = None;
            proof {
                assert(self@.units =~= before.units.update(j as int, hurt));
            }
        }
        proof {
            lemma_index_of(before, i as int);
            lemma_index_of(before, j as int);
            assert forall|k: int| 0 <= k < self@.units.len() implies (
            #[trigger] self@.units[k]).wf() && is_chain(
                self@.grid,
                self@.units[k].pos,
                self@.units[k].steps,
            ) by {
                assert(before.units[k].wf());
                assert(is_chain(before.grid, before.units[k].pos, before.units[k].steps));
            }
            lemma_rules_kept(before, self@);
        }
    }

    /// Whether unit `j`, hit by unit `i`, strikes back.
    fn strikes_back(&self, i: usize, j: usize, is_counterattack: bool) -> (r: bool)
        requires
            self.wf(),
            i < self@.units.len(),
            j < self@.units.len(),
        ensures
            r == (!self@.game.is_multiplayer && !is_counterattack && self@.units[j as int].attack_type
                == AttackType::Melee && melee_reach(
                self@.grid,
                self@.units[j as int].pos,
                self@.units[j as int].attack_range as int,
                self@.units[i as int].pos,
            )),
    {
        if self.game.is_multiplayer || is_counterattack {
            false
        } else {
            match self.units[j].attack_type {
                AttackType::Ranged => false,
                AttackType::Melee => {
                    let reach = find_possible_attacks(
                        &self.grid,
                        self.units[j].pos,
                        self.units[j].attack_range,
                        AttackType::Melee,
                    );
                    contains_pos(&reach, self.units[i].pos)
                },
            }
        }
    }

    /// Resolves the attack of unit `i` with the given roll.
    pub fn resolve_attack(&mut self, i: usize, roll: usize)
        requires
            old(self).wf(),
            i < old(self)@.units.len(),
            roll < ROLLS,
        ensures
            final(self).wf(),
            final(self)@ == old(self)@.resolved(i as int, roll),
    {
        let ghost before = self@;
        let ghost a = before.units[i as int];
        proof {
            assert(a.wf());
        }
        if self.units[i].actions.activity != Activity::Attacking {
            return;
        }
        let head: Option<(Pos, bool, usize)> = match &self.units[i].actions.unit_actions[0].0 {
            UnitAction::BasicAttack { target, is_counterattack, damage } => Some(
                (*target, *is_counterattack, *damage),
            ),
            _ => None,
        };
        let victim: Option<usize> = match head {
            Some((target, _, _)) => match self.grid.first_occupant(target) {
                Some(id) => if id != self.units[i].id {
                    assert(before.grid.occupants(target).len() > 0);
                    self.unit_index(id)
                } else {
                    None
                },
                None => None,
            },
            None => None,
        };
        assert(victim.is_some() == before.victim(i as int).is_some());
        match (head, victim) {
            (Some((_, is_counterattack, said)), Some(j)) => {
                assert(j as int == before.victim(i as int).unwrap());
                assert(j != i) by {
                    assert(before.units[j as int].id != before.units[i as int].id);
                }
                let damage = if self.game.is_multiplayer {
                    said
                } else {
                    compute_damage(self.units[i].stats.strength, roll)
                };
                assert(damage == before.damage_dealt(i as int, roll));
                let strikes_back = self.strikes_back(i, j, is_counterattack);
                assert(strikes_back == before.counters(i as int, j as int));
                let from = self.units[i].pos;
                self.blow(i, j);
                let ghost mid = self@;
                assert(mid.units[j as int] == before.units[j as int]);
                if damage >= self.units[j].stats.hp_current {
                    self.kill(j);
                    proof {
                        assert(mid.units.update(j as int, mid.units[j as int]) =~= mid.units);
                        assert(self@.units =~= before.struck(i as int, j as int, damage as int).units);
                    }
                } else {
                    self.wound(i, j, damage, strikes_back, from);
                    proof {
                        assert(self@.units =~= before.struck(i as int, j as int, damage as int).units);
                    }
                }
            },
            _ => {
                self.miss(i);
            },
        }
    }

    /// Resolves the attack of the first unit in the list whose attack waits
    /// for it. In a battle of one player the damage goes by a roll of the
    /// dice, so the outcome is one of those that `resolved` gives for the
    /// rolls 0 to 6. With no attack waiting nothing changes.
    pub fn process_basic_attack_actions(&mut self)
        requires
            old(self).wf(),
        ensures
            final(self).wf(),
            attack_allows(old(self)@, final(self)@),
    {
        let ghost before = self@;
        match self.first_attacking() {
            Some(k) => {
                let roll = if self.game.is_multiplayer {
                    0
                } else {
                    roll_damage_modifier()
                };
                self.resolve_attack(k, roll);
                proof {
                    assert forall|i: int| is_first_attacking(before.units, i) implies exists|
                        roll: usize,
                    |
                        roll < ROLLS && self@ == #[trigger] before.resolved(i, roll) by {
                        assert(i == k);
                        assert(roll < ROLLS && self@ == before.resolved(i, roll));
                    }
                }
            },
            None => {
                proof {
                    assert forall|i: int| is_first_attacking(before.units, i) implies exists|
                        roll: usize,
                    |
                        roll < ROLLS && self@ == #[trigger] before.resolved(i, roll) by {
                        assert(before.units[i].activity == Activity::Attacking);
                    }
                }
            },
        }
    }

    /// Whether a unit of `team` is alive.
    pub fn team_alive(&self, team: usize) -> (alive: bool)
        ensures
            alive == self@.team_alive(team),
    {
        let mut i: usize = 0;
        while i < self.units.len()
            invariant
                i <= self.units.len(),
                forall|j: int| 0 <= j < i ==> (#[trigger] self@.units[j]).team != team,
            decreases self.units.len() - i,
        {
            if self.units[i].team == team {
                assert(self@.units[i as int].team == team);
                return true;
            }
            i = i + 1;
        }
        false
    }

    /// Looks at who is left, and ends the battle if a side has no unit.
    pub fn handle_ambush_game_over(&mut self)
        requires
            old(self).wf(),
        ensures
            final(self).wf(),
            final(self)@ == old(self)@.game_over_spec(),
    {
        let ghost before = self@;
        let player_still_alive = self.team_alive(PLAYER_TEAM);
        let ai_still_alive = self.team_alive(AI_TEAM);
        if !player_still_alive {
            self.game.winner = ControlledBy::AI;
        }
        if !ai_still_alive {
            self.game.winner = ControlledBy::Player;
        }
        if !player_still_alive || !ai_still_alive {
            self.game_state = GameState::MainMenu;
            self.turn_state = TurnState::Wait;
            proof {
                assert forall|k: int| 0 <= k < self@.units.len() implies (
                #[trigger] self@.units[k]).wf() && is_chain(
                    self@.grid,
                    self@.units[k].pos,
                    self@.units[k].steps,
                ) by {
                    assert(before.units[k].wf());
                    assert(is_chain(before.grid, before.units[k].pos, before.units[k].steps));
                }
                lemma_rules_kept(before, self@);
            }
        }
    }
}

/// A blow that does no damage leaves the victim's hit points as they were.
pub proof fn lemma_no_damage_no_loss(b: BattleView, i: int, j: int)
    requires
        b.wf(),
        0 <= i < b.units.len(),
        0 <= j < b.units.len(),
        i != j,
    ensures
        b.struck(i, j, 0).units.len() == b.units.len(),
        b.struck(i, j, 0).units[j].stats == b.units[j].stats,
        b.struck(i, j, 0).grid == b.grid,
{
    assert(b.units[j].wf());
}

/// In a battle of two players the damage of a blow is what the attack says,
/// whatever the roll.
pub proof fn lemma_sent_damage_is_taken(b: BattleView, i: int, roll: usize, said: usize)
    requires
        b.game.is_multiplayer,
        b.units[i].queue.len() > 0,
        match b.units[i].queue[0].0 {
            UnitAction::BasicAttack { damage, .. } => damage == said,
            _ => false,
        },
    ensures
        b.damage_dealt(i, roll) == said,
{
}

/// A blow that takes all the hit points its victim has left, or more,
/// removes the victim: no unit has its id any more, its tile is empty, and
/// the battle has one unit less.
pub proof fn lemma_death_clears_the_tile(b: BattleView, i: int, j: int, damage: int)
    requires
        b.wf(),
        0 <= i < b.units.len(),
        0 <= j < b.units.len(),
        i != j,
        damage >= b.units[j].stats.hp_current,
    ensures
        !b.struck(i, j, damage).has_unit(b.units[j].id),
        b.struck(i, j, damage).grid.occupants(b.units[j].pos) == Seq::<usize>::empty(),
        b.struck(i, j, damage).units.len() == b.units.len() - 1,
{
    let a = b.struck(i, j, damage);
    let t = b.units[j];
    if a.has_unit(t.id) {
        let k = a.index_of(t.id);
        let s = if k < j {
            k
        } else {
            k + 1
        };
        assert(a.units[k] == b.units.update(i, b.after_blow(i, j))[s]);
        assert(b.units[s].id == t.id);
        assert(b.units[j].id == t.id);
    }
}

/// A victim that lives and strikes back gets exactly one more action at the
/// back of its queue: the counter-attack at the tile of the unit that hit
/// it. One that does not strike back keeps its queue.
pub proof fn lemma_one_counter_attack(b: BattleView, i: int, j: int, damage: int)
    requires
        b.wf(),
        0 <= i < b.units.len(),
        0 <= j < b.units.len(),
        i != j,
        0 <= damage < b.units[j].stats.hp_current,
    ensures
        b.counters(i, j) ==> b.struck(i, j, damage).units[j].queue == b.units[j].queue.push(
            counter_attack(b.units[i].pos),
        ) && b.struck(i, j, damage).attacker == Some(b.units[j].id) && b.struck(
            i,
            j,
            damage,
        ).target == Some(b.units[i].id),
        !b.counters(i, j) ==> b.struck(i, j, damage).units[j].queue == b.units[j].queue,
        b.struck(i, j, damage).units[j].stats.hp_current == b.units[j].stats.hp_current - damage,
        b.struck(i, j, damage).units[i].queue == b.units[i].queue.drop_first(),
{
}

/// A counter-attack is never answered: the blow it strikes does not make
/// its victim strike back.
pub proof fn lemma_counter_attack_is_not_answered(b: BattleView, i: int, j: int)
    requires
        b.units[i].queue.len() > 0,
        match b.units[i].queue[0].0 {
            UnitAction::BasicAttack { is_counterattack, .. } => is_counterattack,
            _ => false,
        },
    ensures
        !b.counters(i, j),
{
}

} // verus!
