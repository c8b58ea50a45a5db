//! One tick of a battle: what happens, and in which order.

use vstd::prelude::*;
use crate::battle::{Battle, BattleView};
use crate::scheduler::{wait_turn_spec, first_ai_spec};
use crate::movement::{plans_allow, advanced_through};
use crate::combat::attack_allows;
use crate::unit::Activity;

verus! {

/// What a tick may make of a battle, `now` being the time of the battle and
/// `delta` the time since the tick before, both in milliseconds. In this
/// order: wait times count down and the turn is given; a unit of the
/// machine that has the turn plays it; units start on their next action;
/// pending moves get their paths; walking units walk; units that do nothing
/// are done; the first waiting attack is resolved, and who dies of it is
/// gone; the battle ends if a side has no unit left.
pub open spec fn tick_allows(b: BattleView, a: BattleView, now: u64, delta: u64) -> bool {
    exists|planned: BattleView, fought: BattleView|
        {
            &&& #[trigger] plans_allow(
                first_ai_spec(wait_turn_spec(b)).dispatched_all(now),
                planned,
            )
            &&& #[trigger] attack_allows(
                advanced_through(planned, planned.units.len(), delta).finished_all(
                    Activity::Resting,
                ),
                fought,
            )
            &&& a == fought.game_over_spec()
        }
}

impl Battle {
    /// Lets one tick pass.
    pub fn tick(&mut self, now: u64, delta: u64)
        requires
            old(self).wf(),
        ensures
            final(self).wf(),
            tick_allows(old(self)@, final(self)@, now, delta),
    {
        self.wait_turn_system();
        self.first_ai();
        self.process_unit_actions(now);
        self.process_move_actions();
        let ghost planned = self@;
        self.handle_move_state(delta);
        self.process_do_nothing_actions();
        self.process_basic_attack_actions();
        let ghost fought = self@;
        self.handle_ambush_game_over();
        proof {
            assert(plans_allow(
                first_ai_spec(wait_turn_spec(old(self)@)).dispatched_all(now),
                planned,
            ));
            assert(attack_allows(
                advanced_through(planned, planned.units.len(), delta).finished_all(
                    Activity::Resting,
                ),
                fought,
            ));
        }
    }
}

} // verus!
