use ars_militaris::battle::{Battle, ControlledBy, GameState, RosterError, TurnState};
use ars_militaris::grid::Grid;
use ars_militaris::pos::{AttackType, Direction, Pos};
use ars_militaris::protocol::ClientMessage;
use ars_militaris::scheduler::Choice;
use ars_militaris::unit::{Activity, Stats, Unit, UnitAction, UnitActionTuple};

fn plain_stats(hp: usize) -> Stats {
    Stats {
        hp_max: hp,
        hp_current: hp,
        mp_max: 5,
        mp_current: 5,
        strength: 30,
        vitality: 4,
        intelligence: 3,
        mentality: 2,
        agility: 6,
        dexterity: 7,
        luck: 1,
    }
}

fn soldier(id: usize, team: usize, x: usize, y: usize, wt: usize) -> Unit {
    Unit::new(
        id,
        team,
        Pos::new(x, y),
        plain_stats(20),
        10,
        wt,
        3,
        1,
        AttackType::Melee,
        Direction::East,
    )
}

fn field(units: Vec<Unit>) -> Battle {
    let mut battle = Battle::new(Grid::new(5, 5).unwrap()).unwrap();
    battle.setup_game_resource_system();
    for unit in units {
        assert_eq!(battle.add_unit(unit), Ok(()));
    }
    battle
}

fn waits(battle: &Battle) -> Vec<usize> {
    battle.units().iter().map(|u| u.wt_current).collect()
}

#[test]
fn new_battle_is_empty_and_waits() {
    let battle = Battle::new(Grid::new(5, 5).unwrap()).unwrap();
    assert!(battle.units().is_empty());
    assert_eq!(battle.turn_state(), TurnState::Wait);
    assert_eq!(battle.game_state(), GameState::MainMenu);
    assert_eq!(battle.actor(), None);
    assert_eq!(battle.attacker(), None);
    assert_eq!(battle.target(), None);
    assert_eq!(battle.client_id(), 0);
    assert_eq!(battle.step_duration(), 2000);
    assert_eq!(battle.game().current_unit, 0);
    assert_eq!(battle.game().current_team, 1);
    assert!(battle.game().players.is_empty());
    assert!(!battle.game().is_multiplayer);
    assert_eq!(battle.game().winner, ControlledBy::Nobody);
}

#[test]
fn sessions_name_the_controllers() {
    let mut battle = field(vec![]);
    assert_eq!(battle.game().players.get(&1), Some(&ControlledBy::Player));
    assert_eq!(battle.game().players.get(&2), Some(&ControlledBy::AI));
    assert!(!battle.game().is_multiplayer);
    assert!(battle.is_singleplayer());
    assert!(!battle.is_multiplayer());
    battle.setup_game_resource_system_multiplayer();
    assert!(battle.is_multiplayer());
    assert!(!battle.is_singleplayer());
    assert_eq!(battle.game().players.get(&1), Some(&ControlledBy::Player));
    assert_eq!(battle.game().players.get(&2), Some(&ControlledBy::Player));
    assert!(battle.game().is_multiplayer);
    battle.set_controller(3, ControlledBy::AI);
    assert_eq!(battle.game().players.get(&3), Some(&ControlledBy::AI));
}

#[test]
fn add_unit_puts_the_unit_on_its_tile() {
    let battle = field(vec![soldier(7, 1, 2, 3, 4)]);
    assert_eq!(battle.units().len(), 1);
    assert_eq!(battle.grid().occupants(Pos::new(2, 3)), vec![7]);
    assert_eq!(battle.unit(7).unwrap().pos, Pos::new(2, 3));
    assert!(battle.unit(8).is_none());
    assert_eq!(battle.unit_index(7), Some(0));
    assert_eq!(battle.unit_index(8), None);
}

#[test]
fn add_unit_names_the_rule_that_is_broken() {
    let mut battle = field(vec![soldier(1, 1, 0, 0, 0)]);
    assert_eq!(battle.add_unit(soldier(2, 1, 5, 0, 0)), Err(RosterError::OffGrid));
    assert_eq!(battle.add_unit(soldier(2, 1, 0, 0, 0)), Err(RosterError::TileTaken));
    assert_eq!(battle.add_unit(soldier(1, 1, 1, 0, 0)), Err(RosterError::DuplicateId));
    let mut dead = soldier(3, 1, 1, 1, 0);
    dead.stats.hp_current = 0;
    assert_eq!(battle.add_unit(dead), Err(RosterError::NoHitPoints));
    let mut busy = soldier(4, 1, 1, 1, 0);
    busy.actions.processing_unit_action = true;
    assert_eq!(battle.add_unit(busy), Err(RosterError::InFlight));
    let mut odd = soldier(5, 1, 1, 1, 0);
    odd.actions.activity = Activity::Talking;
    assert_eq!(battle.add_unit(odd), Err(RosterError::InFlight));
    assert_eq!(battle.units().len(), 1);
    assert!(battle.grid().occupants(Pos::new(1, 1)).is_empty());
}

#[test]
fn the_unit_at_zero_gets_the_turn() {
    let mut battle = field(vec![
        soldier(1, 1, 0, 0, 5),
        soldier(2, 1, 1, 0, 0),
        soldier(3, 1, 2, 0, 5),
    ]);
    battle.wait_turn_system();
    assert_eq!(battle.actor(), Some(2));
    assert_eq!(battle.game().current_unit, 2);
    assert_eq!(battle.game().current_team, 1);
    assert_eq!(battle.turn_state(), TurnState::Turn);
    assert_eq!(waits(&battle), vec![4, 0, 4]);
}

#[test]
fn wait_times_of_zero_five_five_give_one_actor() {
    let mut battle = field(vec![
        soldier(1, 1, 0, 0, 0),
        soldier(2, 1, 1, 0, 5),
        soldier(3, 2, 2, 0, 5),
    ]);
    battle.wait_turn_system();
    assert_eq!(battle.actor(), Some(1));
    assert_eq!(battle.turn_state(), TurnState::Turn);
    assert_eq!(waits(&battle), vec![0, 4, 4]);
}

#[test]
fn nobody_at_zero_means_everybody_counts_down() {
    let mut battle = field(vec![soldier(1, 1, 0, 0, 2), soldier(2, 2, 1, 0, 1)]);
    battle.wait_turn_system();
    assert_eq!(battle.actor(), None);
    assert_eq!(battle.turn_state(), TurnState::Wait);
    assert_eq!(waits(&battle), vec![1, 0]);
    battle.wait_turn_system();
    assert_eq!(battle.actor(), Some(2));
    assert_eq!(battle.turn_state(), TurnState::AI);
    assert_eq!(waits(&battle), vec![0, 0]);
}

#[test]
fn of_two_units_at_zero_the_first_in_the_list_gets_the_turn() {
    let mut battle = field(vec![
        soldier(9, 2, 0, 0, 3),
        soldier(5, 2, 1, 0, 0),
        soldier(1, 1, 2, 0, 0),
    ]);
    battle.wait_turn_system();
    assert_eq!(battle.actor(), Some(5));
    assert_eq!(battle.game().current_team, 2);
    assert_eq!(battle.turn_state(), TurnState::AI);
}

#[test]
fn a_team_without_controller_stalls() {
    let mut battle = field(vec![soldier(1, 3, 0, 0, 0), soldier(2, 1, 1, 0, 3)]);
    battle.wait_turn_system();
    assert_eq!(battle.turn_state(), TurnState::Wait);
    assert_eq!(battle.actor(), Some(1));
    assert_eq!(battle.game().current_unit, 1);
    assert_eq!(battle.game().current_team, 3);
    battle.set_controller(3, ControlledBy::Nobody);
    battle.wait_turn_system();
    assert_eq!(battle.turn_state(), TurnState::Wait);
    assert_eq!(battle.actor(), Some(1));
    assert_eq!(waits(&battle), vec![0, 1]);
}

#[test]
fn a_team_without_controller_holds_no_other_team_up() {
    let mut battle = field(vec![
        soldier(1, 3, 0, 0, 0),
        soldier(2, 1, 1, 0, 1),
        soldier(3, 2, 2, 0, 1),
    ]);
    battle.wait_turn_system();
    assert_eq!(battle.turn_state(), TurnState::Wait);
    assert_eq!(battle.actor(), Some(1));
    assert_eq!(waits(&battle), vec![0, 0, 0]);
    battle.wait_turn_system();
    assert_eq!(battle.turn_state(), TurnState::Turn);
    assert_eq!(battle.actor(), Some(2));
    assert_eq!(battle.game().current_unit, 2);
    assert_eq!(battle.game().current_team, 1);
    assert!(battle.end_turn().is_none());
    battle.wait_turn_system();
    assert_eq!(battle.turn_state(), TurnState::AI);
    assert_eq!(battle.actor(), Some(3));
    assert_eq!(waits(&battle), vec![0, 9, 0]);
}

#[test]
fn the_session_tells_the_controller_of_a_team() {
    let mut battle = field(vec![]);
    assert_eq!(battle.game().controller(1), ControlledBy::Player);
    assert_eq!(battle.game().controller(2), ControlledBy::AI);
    assert_eq!(battle.game().controller(3), ControlledBy::Nobody);
    battle.set_controller(3, ControlledBy::Player);
    assert_eq!(battle.game().controller(3), ControlledBy::Player);
}

#[test]
fn wait_times_stand_still_during_a_turn() {
    let mut battle = field(vec![soldier(1, 1, 0, 0, 0), soldier(2, 2, 1, 0, 5)]);
    battle.wait_turn_system();
    assert_eq!(battle.turn_state(), TurnState::Turn);
    battle.wait_turn_system();
    battle.wait_turn_system();
    assert_eq!(waits(&battle), vec![0, 4]);
    assert_eq!(battle.actor(), Some(1));
}

#[test]
fn ending_the_turn_rewinds_the_wait_time() {
    let mut battle = field(vec![soldier(1, 1, 0, 0, 0), soldier(2, 2, 1, 0, 5)]);
    battle.wait_turn_system();
    assert!(battle.end_turn().is_none());
    assert_eq!(battle.turn_state(), TurnState::Wait);
    assert_eq!(battle.actor(), None);
    assert_eq!(waits(&battle), vec![10, 4]);
    assert_eq!(battle.game().current_unit, 1);
}

#[test]
fn ending_the_turn_outside_a_turn_changes_nothing() {
    let mut battle = field(vec![soldier(1, 1, 0, 0, 3)]);
    assert!(battle.end_turn().is_none());
    assert_eq!(waits(&battle), vec![3]);
    assert_eq!(battle.turn_state(), TurnState::Wait);
}

#[test]
fn ending_the_turn_in_a_battle_of_two_asks_the_other_side() {
    let mut battle = field(vec![soldier(1, 1, 0, 0, 0)]);
    battle.wait_turn_system();
    battle.set_controller(2, ControlledBy::Player);
    battle.handle_server_message(ars_militaris::protocol::ServerMessage::StartGame {
        client_id: 0,
    });
    assert!(battle.game().is_multiplayer);
    assert!(matches!(battle.end_turn(), Some(ClientMessage::Wait)));
    assert_eq!(battle.turn_state(), TurnState::Turn);
    assert_eq!(battle.actor(), Some(1));
    assert_eq!(waits(&battle), vec![0]);
}

#[test]
fn the_machine_moves_west_and_ends_its_turn() {
    let mut battle = field(vec![soldier(4, 2, 3, 2, 0)]);
    battle.wait_turn_system();
    assert_eq!(battle.turn_state(), TurnState::AI);
    battle.first_ai();
    assert_eq!(battle.turn_state(), TurnState::Wait);
    assert_eq!(battle.actor(), None);
    assert_eq!(waits(&battle), vec![10]);
    let queue = &battle.unit(4).unwrap().actions.unit_actions;
    assert_eq!(queue.len(), 1);
    assert!(matches!(
        &queue[0],
        UnitActionTuple(UnitAction::Move { origin, destination }, 0)
            if *origin == Pos::new(3, 2) && *destination == Pos::new(2, 2)
    ));
}

#[test]
fn the_machine_on_the_western_edge_stays() {
    let mut battle = field(vec![soldier(4, 2, 0, 2, 0)]);
    battle.wait_turn_system();
    battle.first_ai();
    let queue = &battle.unit(4).unwrap().actions.unit_actions;
    assert!(matches!(
        &queue[0],
        UnitActionTuple(UnitAction::Move { origin, destination }, 0)
            if *origin == Pos::new(0, 2) && *destination == Pos::new(0, 2)
    ));
}

#[test]
fn the_machine_does_nothing_outside_its_turn() {
    let mut battle = field(vec![soldier(1, 1, 2, 2, 0)]);
    battle.wait_turn_system();
    assert_eq!(battle.turn_state(), TurnState::Turn);
    battle.first_ai();
    assert_eq!(battle.turn_state(), TurnState::Turn);
    assert!(battle.unit(1).unwrap().actions.unit_actions.is_empty());
}

#[test]
fn choosing_a_move_offers_the_reachable_tiles() {
    let mut battle = field(vec![soldier(1, 1, 0, 0, 0), soldier(2, 2, 1, 0, 5)]);
    battle.wait_turn_system();
    battle.start_choose_move();
    assert_eq!(battle.turn_state(), TurnState::ChooseMove);
    let mut tiles: Vec<(usize, usize)> = battle.move_tiles().iter().map(|p| (p.x, p.y)).collect();
    tiles.sort();
    assert_eq!(tiles, vec![(0, 1), (0, 2), (0, 3), (1, 1), (1, 2), (2, 1)]);
}

#[test]
fn choosing_a_move_outside_a_turn_changes_nothing() {
    let mut battle = field(vec![soldier(1, 1, 0, 0, 4)]);
    battle.start_choose_move();
    assert_eq!(battle.turn_state(), TurnState::Wait);
    assert!(battle.move_tiles().is_empty());
    assert!(battle.handle_choose_move(Choice::Confirm(Pos::new(0, 1))).is_none());
    assert!(battle.unit(1).unwrap().actions.unit_actions.is_empty());
}

#[test]
fn taking_an_offered_tile_queues_the_move() {
    let mut battle = field(vec![soldier(1, 1, 0, 0, 0)]);
    battle.wait_turn_system();
    battle.start_choose_move();
    assert!(battle.handle_choose_move(Choice::Confirm(Pos::new(2, 1))).is_none());
    assert_eq!(battle.turn_state(), TurnState::Turn);
    assert!(battle.move_tiles().is_empty());
    let queue = &battle.unit(1).unwrap().actions.unit_actions;
    assert_eq!(queue.len(), 1);
    assert!(matches!(
        &queue[0],
        UnitActionTuple(UnitAction::Move { origin, destination }, 0)
            if *origin == Pos::new(0, 0) && *destination == Pos::new(2, 1)
    ));
}

#[test]
fn a_tile_that_was_not_offered_is_not_taken() {
    let mut battle = field(vec![soldier(1, 1, 0, 0, 0)]);
    battle.wait_turn_system();
    battle.start_choose_move();
    assert!(battle.handle_choose_move(Choice::Confirm(Pos::new(4, 4))).is_none());
    assert_eq!(battle.turn_state(), TurnState::ChooseMove);
    assert!(battle.unit(1).unwrap().actions.unit_actions.is_empty());
}

#[test]
fn giving_up_a_move_leaves_the_queue_alone() {
    let mut battle = field(vec![soldier(1, 1, 0, 0, 0)]);
    battle.wait_turn_system();
    battle.start_choose_move();
    assert!(battle.handle_choose_move(Choice::Cancel).is_none());
    assert_eq!(battle.turn_state(), TurnState::Turn);
    assert!(battle.move_tiles().is_empty());
    assert!(battle.unit(1).unwrap().actions.unit_actions.is_empty());
}

#[test]
fn in_a_battle_of_two_a_move_is_sent_not_queued() {
    let mut battle = field(vec![soldier(1, 1, 0, 0, 0)]);
    battle.setup_game_resource_system_multiplayer();
    battle.wait_turn_system();
    battle.start_choose_move();
    let message = battle.handle_choose_move(Choice::Confirm(Pos::new(1, 1)));
    assert!(matches!(
        message,
        Some(ClientMessage::Move { origin, destination })
            if origin == Pos::new(0, 0) && destination == Pos::new(1, 1)
    ));
    assert_eq!(battle.turn_state(), TurnState::ChooseMove);
    assert!(battle.unit(1).unwrap().actions.unit_actions.is_empty());
}

#[test]
fn choosing_an_attack_offers_the_tiles_in_reach() {
    let mut battle = field(vec![soldier(1, 1, 2, 2, 0), soldier(2, 2, 2, 3, 5)]);
    battle.wait_turn_system();
    battle.start_choose_attack();
    assert_eq!(battle.turn_state(), TurnState::ChooseAttack);
    let mut tiles: Vec<(usize, usize)> =
        battle.attack_tiles().iter().map(|p| (p.x, p.y)).collect();
    tiles.sort();
    assert_eq!(tiles, vec![(1, 2), (2, 1), (2, 3), (3, 2)]);
}

#[test]
fn attacking_a_unit_queues_the_attack_and_marks_the_two() {
    let mut battle = field(vec![soldier(1, 1, 2, 2, 0), soldier(2, 2, 2, 3, 5)]);
    battle.wait_turn_system();
    battle.start_choose_attack();
    assert!(battle.handle_choose_attack(Choice::Confirm(Pos::new(2, 3))).is_none());
    assert_eq!(battle.turn_state(), TurnState::Turn);
    assert_eq!(battle.attacker(), Some(1));
    assert_eq!(battle.target(), Some(2));
    assert!(battle.attack_tiles().is_empty());
    let queue = &battle.unit(1).unwrap().actions.unit_actions;
    assert_eq!(queue.len(), 1);
    assert!(matches!(
        &queue[0],
        UnitActionTuple(
            UnitAction::BasicAttack { target, is_counterattack: false, damage: 0 },
            0
        ) if *target == Pos::new(2, 3)
    ));
}

#[test]
fn attacking_an_empty_tile_changes_nothing() {
    let mut battle = field(vec![soldier(1, 1, 2, 2, 0), soldier(2, 2, 2, 3, 5)]);
    battle.wait_turn_system();
    battle.start_choose_attack();
    assert!(battle.handle_choose_attack(Choice::Confirm(Pos::new(1, 2))).is_none());
    assert_eq!(battle.turn_state(), TurnState::ChooseAttack);
    assert_eq!(battle.attacker(), None);
    assert!(battle.unit(1).unwrap().actions.unit_actions.is_empty());
    assert!(battle.handle_choose_attack(Choice::Confirm(Pos::new(4, 4))).is_none());
    assert_eq!(battle.turn_state(), TurnState::ChooseAttack);
}

#[test]
fn giving_up_an_attack_leads_back_to_the_turn() {
    let mut battle = field(vec![soldier(1, 1, 2, 2, 0), soldier(2, 2, 2, 3, 5)]);
    battle.wait_turn_system();
    battle.start_choose_attack();
    assert!(battle.handle_choose_attack(Choice::Cancel).is_none());
    assert_eq!(battle.turn_state(), TurnState::Turn);
    assert!(battle.attack_tiles().is_empty());
    assert!(battle.unit(1).unwrap().actions.unit_actions.is_empty());
}

#[test]
fn in_a_battle_of_two_an_attack_is_sent_whoever_stands_there() {
    let mut battle = field(vec![soldier(1, 1, 2, 2, 0)]);
    battle.setup_game_resource_system_multiplayer();
    battle.wait_turn_system();
    battle.start_choose_attack();
    let message = battle.handle_choose_attack(Choice::Confirm(Pos::new(1, 2)));
    assert!(matches!(
        message,
        Some(ClientMessage::BasicAttack { attacker, target, damage: 0 })
            if attacker == Pos::new(2, 2) && target == Pos::new(1, 2)
    ));
    assert_eq!(battle.turn_state(), TurnState::ChooseAttack);
    assert!(battle.unit(1).unwrap().actions.unit_actions.is_empty());
}

#[test]
fn step_duration_and_game_state_can_be_set() {
    let mut battle = field(vec![]);
    battle.set_step_duration(250);
    assert_eq!(battle.step_duration(), 250);
    battle.set_game_state(GameState::Ambush);
    assert_eq!(battle.game_state(), GameState::Ambush);
}

#[test]
fn a_battle_wants_an_empty_grid() {
    let mut grid = Grid::new(3, 3).unwrap();
    assert!(grid.is_empty());
    grid.push_occupant(Pos::new(2, 2), 1);
    assert!(!grid.is_empty());
    assert!(Battle::new(grid).is_none());
    assert!(Battle::new(Grid::new(0, 0).unwrap()).is_some());
}
