use ars_militaris::battle::{Battle, ControlledBy, GameState, TurnState};
use ars_militaris::combat::compute_damage;
use ars_militaris::grid::Grid;
use ars_militaris::pos::{AttackType, Direction, Pos};
use ars_militaris::protocol::ServerMessage;
use ars_militaris::unit::{Activity, Stats, Unit, UnitAction, UnitActionTuple};

fn stats_of(hp: usize, strength: usize) -> Stats {
    Stats {
        hp_max: 50,
        hp_current: hp,
        mp_max: 0,
        mp_current: 0,
        strength,
        vitality: 4,
        intelligence: 3,
        mentality: 2,
        agility: 6,
        dexterity: 7,
        luck: 1,
    }
}

fn fighter(id: usize, team: usize, x: usize, y: usize, hp: usize, kind: AttackType) -> Unit {
    Unit::new(
        id,
        team,
        Pos::new(x, y),
        stats_of(hp, 30),
        10,
        5,
        3,
        1,
        kind,
        Direction::North,
    )
}

fn arena(units: Vec<Unit>) -> Battle {
    let mut battle = Battle::new(Grid::new(5, 5).unwrap()).unwrap();
    battle.setup_game_resource_system();
    for unit in units {
        assert_eq!(battle.add_unit(unit), Ok(()));
    }
    battle
}

fn attack(battle: &mut Battle, id: usize, x: usize, y: usize, counter: bool, damage: usize) {
    assert!(battle.enqueue(
        id,
        UnitActionTuple(
            UnitAction::BasicAttack {
                target: Pos::new(x, y),
                is_counterattack: counter,
                damage,
            },
            0,
        ),
    ));
    battle.process_unit_actions(0);
}

fn make_multiplayer(battle: &mut Battle) {
    battle.handle_server_message(ServerMessage::StartGame { client_id: 1 });
    assert!(battle.game().is_multiplayer);
}

fn hp(battle: &Battle, id: usize) -> usize {
    battle.unit(id).unwrap().stats.hp_current
}

#[test]
fn damage_is_a_third_of_the_strength_plus_the_roll_less_three() {
    assert_eq!(compute_damage(30, 0), 7);
    assert_eq!(compute_damage(30, 1), 8);
    assert_eq!(compute_damage(30, 2), 9);
    assert_eq!(compute_damage(30, 3), 10);
    assert_eq!(compute_damage(30, 4), 11);
    assert_eq!(compute_damage(30, 5), 12);
    assert_eq!(compute_damage(30, 6), 13);
    assert_eq!(compute_damage(32, 3), 10);
    assert_eq!(compute_damage(33, 3), 11);
}

#[test]
fn damage_is_never_less_than_nothing() {
    assert_eq!(compute_damage(0, 0), 0);
    assert_eq!(compute_damage(5, 0), 0);
    assert_eq!(compute_damage(5, 2), 0);
    assert_eq!(compute_damage(5, 3), 1);
    assert_eq!(compute_damage(9, 0), 0);
    assert_eq!(compute_damage(9, 1), 1);
    assert_eq!(compute_damage(0, 6), 3);
    assert_eq!(compute_damage(usize::MAX, 6), usize::MAX / 3 + 3);
}

#[test]
fn sent_damage_of_nothing_leaves_the_hit_points() {
    let mut battle = arena(vec![
        fighter(1, 1, 1, 1, 20, AttackType::Melee),
        fighter(2, 2, 2, 1, 20, AttackType::Melee),
    ]);
    make_multiplayer(&mut battle);
    attack(&mut battle, 1, 2, 1, false, 0);
    assert_eq!(battle.unit(1).unwrap().actions.activity, Activity::Attacking);
    battle.process_basic_attack_actions();
    assert_eq!(hp(&battle, 2), 20);
    assert_eq!(battle.units().len(), 2);
    let attacker = battle.unit(1).unwrap();
    assert!(attacker.actions.unit_actions.is_empty());
    assert_eq!(attacker.actions.activity, Activity::Idle);
    assert_eq!(attacker.dir, Direction::East);
    assert!(battle.unit(2).unwrap().actions.unit_actions.is_empty());
    assert_eq!(battle.attacker(), None);
    assert_eq!(battle.target(), None);
}

#[test]
fn sent_damage_is_taken_as_it_is() {
    let mut battle = arena(vec![
        fighter(1, 1, 1, 1, 20, AttackType::Melee),
        fighter(2, 2, 2, 1, 20, AttackType::Melee),
    ]);
    make_multiplayer(&mut battle);
    attack(&mut battle, 1, 2, 1, false, 19);
    battle.process_basic_attack_actions();
    assert_eq!(hp(&battle, 2), 1);
}

#[test]
fn hit_points_of_exactly_nothing_remove_the_unit() {
    let mut battle = arena(vec![
        fighter(1, 1, 1, 1, 20, AttackType::Melee),
        fighter(2, 2, 2, 1, 20, AttackType::Melee),
        fighter(3, 2, 4, 4, 20, AttackType::Melee),
    ]);
    make_multiplayer(&mut battle);
    attack(&mut battle, 1, 2, 1, false, 20);
    battle.process_basic_attack_actions();
    assert!(battle.unit(2).is_none());
    assert_eq!(battle.units().len(), 2);
    assert!(battle.grid().occupants(Pos::new(2, 1)).is_empty());
    assert!(!battle.grid().is_occupied(Pos::new(2, 1)));
    assert_eq!(battle.unit_index(1), Some(0));
    assert_eq!(battle.unit_index(3), Some(1));
    assert_eq!(battle.grid().occupants(Pos::new(4, 4)), vec![3]);
    assert!(battle.unit(1).unwrap().actions.unit_actions.is_empty());
}

#[test]
fn more_damage_than_hit_points_removes_the_unit_too() {
    let mut battle = arena(vec![
        fighter(2, 2, 2, 1, 5, AttackType::Melee),
        fighter(1, 1, 1, 1, 20, AttackType::Melee),
    ]);
    make_multiplayer(&mut battle);
    attack(&mut battle, 1, 2, 1, false, 500);
    battle.process_basic_attack_actions();
    assert!(battle.unit(2).is_none());
    assert_eq!(battle.unit_index(1), Some(0));
    assert!(battle.grid().occupants(Pos::new(2, 1)).is_empty());
    assert_eq!(battle.unit(1).unwrap().actions.activity, Activity::Idle);
}

#[test]
fn the_death_of_the_unit_with_the_turn_ends_the_turn() {
    let mut battle = arena(vec![
        fighter(1, 1, 1, 1, 20, AttackType::Melee),
        fighter(2, 2, 2, 1, 20, AttackType::Melee),
    ]);
    battle.handle_server_message(ServerMessage::ClientId { client_id: 4 });
    make_multiplayer(&mut battle);
    battle.handle_server_message(ServerMessage::PlayerTurn { client_id: 4, current_unit: 2 });
    assert_eq!(battle.turn_state(), TurnState::Turn);
    assert_eq!(battle.actor(), Some(2));
    attack(&mut battle, 1, 2, 1, false, 20);
    battle.process_basic_attack_actions();
    assert!(battle.unit(2).is_none());
    assert_eq!(battle.turn_state(), TurnState::Wait);
    assert_eq!(battle.actor(), None);
}

#[test]
fn the_death_of_another_unit_leaves_the_turn() {
    let mut battle = arena(vec![
        fighter(1, 1, 1, 1, 20, AttackType::Melee),
        fighter(2, 2, 2, 1, 20, AttackType::Melee),
    ]);
    battle.handle_server_message(ServerMessage::ClientId { client_id: 4 });
    make_multiplayer(&mut battle);
    battle.handle_server_message(ServerMessage::PlayerTurn { client_id: 4, current_unit: 1 });
    attack(&mut battle, 1, 2, 1, false, 20);
    battle.process_basic_attack_actions();
    assert_eq!(battle.turn_state(), TurnState::Turn);
    assert_eq!(battle.actor(), Some(1));
}

#[test]
fn a_melee_unit_in_reach_strikes_back_once() {
    let mut battle = arena(vec![
        fighter(1, 1, 1, 1, 20, AttackType::Melee),
        fighter(2, 2, 2, 1, 40, AttackType::Melee),
    ]);
    attack(&mut battle, 1, 2, 1, false, 0);
    battle.resolve_attack(0, 3);
    assert_eq!(hp(&battle, 2), 30);
    let queue = &battle.unit(2).unwrap().actions.unit_actions;
    assert_eq!(queue.len(), 1);
    assert!(matches!(
        &queue[0],
        UnitActionTuple(
            UnitAction::BasicAttack { target, is_counterattack: true, damage: 0 },
            0
        ) if *target == Pos::new(1, 1)
    ));
    assert_eq!(battle.attacker(), Some(2));
    assert_eq!(battle.target(), Some(1));
    assert!(battle.unit(1).unwrap().actions.unit_actions.is_empty());

    // The counter-attack is resolved in its turn and is not answered.
    battle.process_unit_actions(0);
    assert_eq!(battle.unit(2).unwrap().actions.activity, Activity::Attacking);
    battle.resolve_attack(1, 0);
    assert_eq!(hp(&battle, 1), 13);
    assert!(battle.unit(1).unwrap().actions.unit_actions.is_empty());
    assert!(battle.unit(2).unwrap().actions.unit_actions.is_empty());
    assert_eq!(battle.unit(2).unwrap().dir, Direction::West);
    assert_eq!(battle.attacker(), None);
    assert_eq!(battle.target(), None);
}

#[test]
fn a_strike_back_comes_behind_what_the_unit_has_to_do() {
    let mut battle = arena(vec![
        fighter(1, 1, 1, 1, 20, AttackType::Melee),
        fighter(2, 2, 2, 1, 40, AttackType::Melee),
    ]);
    battle.talk_command(2, "Ouch".to_string());
    attack(&mut battle, 1, 2, 1, false, 0);
    battle.resolve_attack(0, 6);
    assert_eq!(hp(&battle, 2), 27);
    let queue = &battle.unit(2).unwrap().actions.unit_actions;
    assert_eq!(queue.len(), 2);
    assert!(matches!(&queue[0].0, UnitAction::Talk { .. }));
    assert!(matches!(&queue[1].0, UnitAction::BasicAttack { is_counterattack: true, .. }));
}

#[test]
fn a_ranged_unit_does_not_strike_back() {
    let mut battle = arena(vec![
        fighter(1, 1, 1, 1, 20, AttackType::Melee),
        fighter(2, 2, 2, 1, 40, AttackType::Ranged),
    ]);
    attack(&mut battle, 1, 2, 1, false, 0);
    battle.resolve_attack(0, 3);
    assert_eq!(hp(&battle, 2), 30);
    assert!(battle.unit(2).unwrap().actions.unit_actions.is_empty());
    assert_eq!(battle.attacker(), None);
    assert_eq!(battle.target(), None);
}

#[test]
fn a_unit_out_of_reach_does_not_strike_back() {
    let mut archer = fighter(1, 1, 0, 1, 20, AttackType::Ranged);
    archer.attack_range = 3;
    let mut battle = arena(vec![archer, fighter(2, 2, 2, 1, 40, AttackType::Melee)]);
    attack(&mut battle, 1, 2, 1, false, 0);
    battle.resolve_attack(0, 3);
    assert_eq!(hp(&battle, 2), 30);
    assert!(battle.unit(2).unwrap().actions.unit_actions.is_empty());
}

#[test]
fn a_long_arm_strikes_back_along_the_line() {
    let mut archer = fighter(1, 1, 0, 1, 20, AttackType::Ranged);
    archer.attack_range = 3;
    let mut pikeman = fighter(2, 2, 2, 1, 40, AttackType::Melee);
    pikeman.attack_range = 2;
    let mut battle = arena(vec![archer, pikeman]);
    attack(&mut battle, 1, 2, 1, false, 0);
    battle.resolve_attack(0, 3);
    assert_eq!(battle.unit(2).unwrap().actions.unit_actions.len(), 1);
    assert_eq!(battle.attacker(), Some(2));
    assert_eq!(battle.target(), Some(1));
}

#[test]
fn there_is_no_strike_back_in_a_battle_of_two() {
    let mut battle = arena(vec![
        fighter(1, 1, 1, 1, 20, AttackType::Melee),
        fighter(2, 2, 2, 1, 40, AttackType::Melee),
    ]);
    make_multiplayer(&mut battle);
    attack(&mut battle, 1, 2, 1, false, 4);
    battle.resolve_attack(0, 6);
    assert_eq!(hp(&battle, 2), 36);
    assert!(battle.unit(2).unwrap().actions.unit_actions.is_empty());
}

#[test]
fn a_dead_unit_does_not_strike_back() {
    let mut battle = arena(vec![
        fighter(1, 1, 1, 1, 20, AttackType::Melee),
        fighter(2, 2, 2, 1, 10, AttackType::Melee),
    ]);
    attack(&mut battle, 1, 2, 1, false, 0);
    battle.resolve_attack(0, 3);
    assert!(battle.unit(2).is_none());
    assert_eq!(battle.attacker(), None);
    assert_eq!(battle.target(), None);
}

#[test]
fn the_roll_decides_the_damage_in_a_battle_of_one() {
    for _ in 0..50 {
        let mut battle = arena(vec![
            fighter(1, 1, 1, 1, 20, AttackType::Melee),
            fighter(2, 2, 1, 2, 40, AttackType::Melee),
        ]);
        attack(&mut battle, 1, 1, 2, false, 999);
        battle.process_basic_attack_actions();
        let left = hp(&battle, 2);
        assert!((27..=33).contains(&left));
        assert_eq!(battle.unit(1).unwrap().dir, Direction::North);
        assert_eq!(battle.unit(2).unwrap().actions.unit_actions.len(), 1);
    }
}

#[test]
fn an_attack_on_an_empty_tile_is_dropped() {
    let mut battle = arena(vec![
        fighter(1, 1, 1, 1, 20, AttackType::Melee),
        fighter(2, 2, 2, 1, 40, AttackType::Melee),
    ]);
    attack(&mut battle, 1, 1, 2, false, 0);
    battle.process_basic_attack_actions();
    assert_eq!(hp(&battle, 2), 40);
    assert_eq!(hp(&battle, 1), 20);
    assert!(battle.unit(1).unwrap().actions.unit_actions.is_empty());
    assert_eq!(battle.unit(1).unwrap().actions.activity, Activity::Idle);
    assert_eq!(battle.unit(1).unwrap().dir, Direction::North);
}

#[test]
fn an_attack_on_oneself_is_dropped() {
    let mut battle = arena(vec![fighter(1, 1, 1, 1, 20, AttackType::Melee)]);
    attack(&mut battle, 1, 1, 1, false, 0);
    battle.resolve_attack(0, 6);
    assert_eq!(hp(&battle, 1), 20);
    assert!(battle.unit(1).unwrap().actions.unit_actions.is_empty());
}

#[test]
fn one_attack_is_resolved_at_a_time_the_first_in_the_list() {
    let mut battle = arena(vec![
        fighter(1, 1, 1, 1, 40, AttackType::Ranged),
        fighter(2, 2, 2, 1, 40, AttackType::Ranged),
    ]);
    make_multiplayer(&mut battle);
    attack(&mut battle, 2, 1, 1, false, 5);
    attack(&mut battle, 1, 2, 1, false, 7);
    assert_eq!(battle.first_attacking(), Some(0));
    battle.process_basic_attack_actions();
    assert_eq!(hp(&battle, 2), 33);
    assert_eq!(hp(&battle, 1), 40);
    assert_eq!(battle.first_attacking(), Some(1));
    battle.process_basic_attack_actions();
    assert_eq!(hp(&battle, 1), 35);
    assert_eq!(battle.first_attacking(), None);
    battle.process_basic_attack_actions();
    assert_eq!(hp(&battle, 1), 35);
    assert_eq!(hp(&battle, 2), 33);
}

#[test]
fn resolving_a_unit_that_does_not_attack_changes_nothing() {
    let mut battle = arena(vec![
        fighter(1, 1, 1, 1, 40, AttackType::Melee),
        fighter(2, 2, 2, 1, 40, AttackType::Melee),
    ]);
    battle.talk_command(1, "hm".to_string());
    battle.process_unit_actions(0);
    battle.resolve_attack(0, 2);
    assert_eq!(battle.unit(1).unwrap().actions.activity, Activity::Talking);
    assert_eq!(battle.unit(1).unwrap().actions.unit_actions.len(), 1);
    assert_eq!(hp(&battle, 2), 40);
}

#[test]
fn both_sides_alive_means_the_battle_goes_on() {
    let mut battle = arena(vec![
        fighter(1, 1, 1, 1, 40, AttackType::Melee),
        fighter(2, 2, 2, 1, 40, AttackType::Melee),
    ]);
    battle.set_game_state(GameState::Ambush);
    battle.handle_ambush_game_over();
    assert_eq!(battle.game_state(), GameState::Ambush);
    assert_eq!(battle.game().winner, ControlledBy::Nobody);
    assert!(battle.team_alive(1));
    assert!(battle.team_alive(2));
    assert!(!battle.team_alive(3));
}

#[test]
fn without_units_of_the_machine_the_player_wins() {
    let mut battle = arena(vec![fighter(1, 1, 1, 1, 40, AttackType::Melee)]);
    battle.set_game_state(GameState::Ambush);
    battle.wait_turn_system();
    battle.wait_turn_system();
    battle.handle_ambush_game_over();
    assert_eq!(battle.game().winner, ControlledBy::Player);
    assert_eq!(battle.game_state(), GameState::MainMenu);
    assert_eq!(battle.turn_state(), TurnState::Wait);
}

#[test]
fn without_units_of_the_player_the_machine_wins() {
    let mut battle = arena(vec![
        fighter(2, 2, 1, 1, 40, AttackType::Melee),
        fighter(3, 3, 2, 2, 40, AttackType::Melee),
    ]);
    battle.set_game_state(GameState::Ambush);
    battle.handle_ambush_game_over();
    assert_eq!(battle.game().winner, ControlledBy::AI);
    assert_eq!(battle.game_state(), GameState::MainMenu);
}

#[test]
fn without_any_unit_the_player_wins() {
    let mut battle = arena(vec![]);
    battle.handle_ambush_game_over();
    assert_eq!(battle.game().winner, ControlledBy::Player);
    assert_eq!(battle.game_state(), GameState::MainMenu);
}

#[test]
fn the_last_blow_ends_the_battle() {
    let mut battle = arena(vec![
        fighter(1, 1, 1, 1, 40, AttackType::Melee),
        fighter(2, 2, 2, 1, 7, AttackType::Melee),
    ]);
    battle.set_game_state(GameState::Ambush);
    attack(&mut battle, 1, 2, 1, false, 0);
    battle.process_basic_attack_actions();
    assert!(battle.unit(2).is_none());
    battle.handle_ambush_game_over();
    assert_eq!(battle.game().winner, ControlledBy::Player);
    assert_eq!(battle.game_state(), GameState::MainMenu);
}
