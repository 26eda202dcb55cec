use matrix_game::common::{
    Pos3, RobotUnitKind, Weapon, WeaponDamage, HITPOINT_SHOW_TIME_MS, MAX_WEAPON_CNT, PLAYER_SIDE,
    TRACE_BUILDING, TRACE_ROBOT,
};
use matrix_game::game_object::{DamageRow, Field, GameObject};
use matrix_game::map::{BuildingInstance, TurretPlaceCmap};
use matrix_game::map_static::{
    CellRect, Hit, MapStatic, ObjectCore, ObjectId, Objects, OBJECT_STATE_BUILDING_SPAWNBOT,
};
use matrix_game::object_building::{
    building_cvo_path, chassis_from_kind, kind_from_chassis, pick_balanced_team,
    robot_weapons_from_cfg, selection_placement, BaseState, BuildTimes, Building, BuildingType,
    ChassisKind, PendingKind, RobotConfig, RobotTeam, ARMOR_PASSIVE, BASE_FLOOR_MS,
    UNDER_ATTACK_IDLE_TIME_MS,
};
use matrix_game::object_cannon::{Cannon, CannonState, Difficulty, Fling, Scatter};
use matrix_game::object_robot::Structure;

const SCALE_MOVE: f32 = 10.0;

const TIMES: BuildTimes = BuildTimes {
    robot_ms: 5000,
    turret_ms: 4000,
};

const NO_HIT: WeaponDamage = WeaponDamage {
    damage: 0,
    mindamage: 0,
    friend_damage: 0,
};

fn pos3(x: f32, y: f32, z: f32) -> Pos3 {
    Pos3 {
        x: x.to_bits(),
        y: y.to_bits(),
        z: z.to_bits(),
    }
}

fn inst(kind: u8, side: u8) -> BuildingInstance {
    let pad = 30.0_f32;
    let cell = |dx: f32, dy: f32, ang: f32| TurretPlaceCmap {
        coord: (
            ((100.0 + dx) / SCALE_MOVE).floor() as i32,
            ((100.0 + dy) / SCALE_MOVE).floor() as i32,
        ),
        angle: ang.to_bits(),
        cannon_type: -1,
    };
    BuildingInstance {
        x: 100.0f32.to_bits(),
        y: 100.0f32.to_bits(),
        angle: 0,
        side,
        kind,
        shadow_kind: 0,
        shadow_size: 128,
        turrets_places_cnt: 4,
        turret_places: vec![
            cell(pad, pad, 0.0),
            cell(-pad, pad, std::f32::consts::FRAC_PI_2),
            cell(pad, -pad, -std::f32::consts::FRAC_PI_2),
            cell(-pad, -pad, std::f32::consts::PI),
        ],
    }
}

fn building(kind: u8, side: u8) -> Building {
    Building::from_instance(
        &inst(kind, side),
        0.0f32.to_bits(),
        pos3(100.0, 100.0, 0.0),
        50.0f32.to_bits(),
        CellRect {
            x0: 0,
            y0: 0,
            x1: 1,
            y1: 1,
        },
    )
}

fn house(o: &GameObject) -> &Building {
    match o {
        GameObject::Building(b) => b,
        _ => panic!("not a building"),
    }
}

fn house_mut(o: &mut GameObject) -> &mut Building {
    match o {
        GameObject::Building(b) => b,
        _ => panic!("not a building"),
    }
}

fn gun(o: &GameObject) -> &Cannon {
    match o {
        GameObject::Cannon(c) => c,
        _ => panic!("not a cannon"),
    }
}

fn field(row: WeaponDamage) -> Field {
    let rows: Vec<DamageRow> = [Weapon::Gun, Weapon::BigBoom, Weapon::Repair]
        .into_iter()
        .map(|weap| DamageRow { weap, row })
        .collect();
    let nowhere = pos3(0.0, 0.0, 0.0);
    let still = Fling {
        pos: nowhere,
        velocity: nowhere,
        ttl: 0,
        dp: 0,
        dy: 0,
        dr: 0,
    };
    Field {
        times: TIMES,
        building_damages: rows.clone(),
        cannon_damages: rows,
        difficulty: Difficulty {
            k_damage_enemy_to_player: 1000,
            k_friendly_fire: 1000,
        },
        now: 0,
        wreck: Scatter {
            basis_pos: nowhere,
            basis_ttl: 0,
            turret: still,
            shaft: still,
        },
        structure: Structure {
            chassis: vec![0, 10, 20, 30],
            hull: vec![0, 100, 200],
            head: vec![0, 5],
        },
        produced: Vec::new(),
        leaving: Vec::new(),
        robot_hits: Vec::new(),
        photos: Vec::new(),
        struck: Vec::new(),
    }
}

fn hit(weap: Weapon, attacker_side: i32) -> Hit {
    Hit {
        weap,
        pos: pos3(0.0, 0.0, 0.0),
        dir: pos3(0.0, 0.0, 1.0),
        attacker_side,
        attacker: None,
    }
}

fn run(objs: &mut Objects<GameObject>, ms: i32) {
    let mut env = field(NO_HIT);
    for _ in 0..ms / 10 {
        objs.proceed_logic(10, &mut env);
    }
}

fn enrolled(b: Building) -> (Objects<GameObject>, ObjectId) {
    let mut objs = Objects::new();
    let id = objs.spawn(GameObject::Building(b));
    objs.add_lt(id);
    (objs, id)
}

fn standing(b: Building, row: WeaponDamage) -> (Objects<GameObject>, ObjectId, Field) {
    let mut objs = Objects::new();
    let id = objs.spawn(GameObject::Building(b));
    (objs, id, field(row))
}

#[test]
fn from_instance_carries_pos_side_kind_and_initial_state() {
    let b = building(0, 1);
    assert_eq!(
        (f32::from_bits(b.pos.0), f32::from_bits(b.pos.1)),
        (100.0, 100.0)
    );
    assert_eq!(b.side, 1);
    assert_eq!(b.kind, BuildingType::Base);
    assert_eq!(b.state, BaseState::Closing);
    assert_eq!(f32::from_bits(b.base_floor), 0.2);
    assert_eq!(b.shadow_size, 128);
}

#[test]
fn init_max_hitpoint_seeds_all_three() {
    let mut b = building(0, 1);
    b.init_max_hitpoint(400);
    assert_eq!(b.hit_point, 400);
    assert_eq!(b.hit_point_max, 400);
    assert!((b.max_hit_point_inv as f64 / 1e9 - 0.0025).abs() < 1e-9);
    b.init_max_hitpoint(0);
    assert_eq!(b.max_hit_point_inv, 0);
}

#[test]
fn open_and_close_respect_dip_and_spawnbot_guards() {
    let mut b = building(0, 1);
    b.state = BaseState::Dip;
    b.open();
    assert_eq!(b.state, BaseState::Dip);
    b.close();
    assert_eq!(b.state, BaseState::Dip);

    b.state = BaseState::Opened;
    b.object_state_set(OBJECT_STATE_BUILDING_SPAWNBOT);
    b.close();
    assert_eq!(b.state, BaseState::Opened, "close blocked by SPAWNBOT");

    b.object_state_clear(OBJECT_STATE_BUILDING_SPAWNBOT);
    b.close();
    assert_eq!(b.state, BaseState::Closing);
    b.open();
    assert_eq!(b.state, BaseState::Opening);
}

#[test]
fn damage_decrements_hp_and_transitions_to_dip_on_death() {
    let mut b = building(0, PLAYER_SIDE as u8);
    b.init_max_hitpoint(300);
    let (mut objs, id, mut env) = standing(
        b,
        WeaponDamage {
            damage: 100,
            mindamage: 0,
            friend_damage: 50,
        },
    );
    for _ in 0..3 {
        objs.apply_damage(id, hit(Weapon::Gun, 2), "", &mut env);
    }
    let mb = house(objs.get(id).unwrap());
    assert_eq!(mb.state, BaseState::Dip);
    assert_eq!(mb.hit_point, -1);
    assert_eq!(mb.next_explosion_time, 0);
}

#[test]
fn damage_to_dip_building_is_noop_and_returns_true() {
    let mut b = building(0, PLAYER_SIDE as u8);
    b.init_max_hitpoint(100);
    b.state = BaseState::Dip;
    let (mut objs, id, mut env) = standing(b, NO_HIT);
    let died = objs.apply_damage(id, hit(Weapon::BigBoom, 2), "", &mut env);
    assert!(died, "already-DIP returns true without modifying state");
    assert_eq!(house(objs.get(id).unwrap()).hit_point, 100, "HP untouched");
}

#[test]
fn friendly_fire_selects_friend_damage_column() {
    let mut b = building(0, 2);
    b.init_max_hitpoint(1000);
    let (mut objs, id, mut env) = standing(
        b,
        WeaponDamage {
            damage: 500,
            mindamage: 0,
            friend_damage: 100,
        },
    );
    objs.apply_damage(id, hit(Weapon::BigBoom, 2), "", &mut env);
    assert_eq!(house(objs.get(id).unwrap()).hit_point, 900);
    objs.apply_damage(id, hit(Weapon::BigBoom, 3), "", &mut env);
    assert_eq!(house(objs.get(id).unwrap()).hit_point, 400);
}

#[test]
fn weapon_repair_heals_up_to_max() {
    let mut b = building(0, PLAYER_SIDE as u8);
    b.init_max_hitpoint(200);
    b.hit_point = 50;
    let (mut objs, id, mut env) = standing(
        b,
        WeaponDamage {
            damage: 80,
            mindamage: 0,
            friend_damage: 80,
        },
    );
    objs.apply_damage(id, hit(Weapon::Repair, PLAYER_SIDE), "", &mut env);
    assert_eq!(house(objs.get(id).unwrap()).hit_point, 130);
    objs.apply_damage(id, hit(Weapon::Repair, PLAYER_SIDE), "", &mut env);
    assert_eq!(
        house(objs.get(id).unwrap()).hit_point,
        200,
        "clamped at hit_point_max"
    );
}

#[test]
fn under_attack_timer_latches_on_enemy_hits_only() {
    let mut b = building(0, PLAYER_SIDE as u8);
    b.init_max_hitpoint(1000);
    let (mut objs, id, mut env) = standing(
        b,
        WeaponDamage {
            damage: 20,
            mindamage: 0,
            friend_damage: 10,
        },
    );
    objs.apply_damage(id, hit(Weapon::Gun, PLAYER_SIDE), "", &mut env);
    assert_eq!(house(objs.get(id).unwrap()).under_attack_time, 0);
    objs.apply_damage(id, hit(Weapon::Gun, 2), "", &mut env);
    assert_eq!(
        house(objs.get(id).unwrap()).under_attack_time,
        UNDER_ATTACK_IDLE_TIME_MS
    );
}

#[test]
fn opening_base_completes_and_latches_at_opened() {
    let mut b = building(0, PLAYER_SIDE as u8);
    b.init_max_hitpoint(500);
    b.open();
    assert_eq!(b.state, BaseState::Opening);
    assert_eq!(b.base_floor_progress, 0);
    let (mut objs, id) = enrolled(b);

    run(&mut objs, 1000);
    let mb = house(objs.get(id).unwrap());
    let p = mb.base_floor_progress as f32 / BASE_FLOOR_MS as f32;
    assert!(
        (p - 0.8).abs() < 1e-3,
        "base_floor_progress after 1s should be 0.8, got {}",
        p
    );
    assert_eq!(mb.state, BaseState::Opening);

    run(&mut objs, 500);
    let mb = house(objs.get(id).unwrap());
    assert_eq!(mb.base_floor_progress, BASE_FLOOR_MS);
    assert_eq!(mb.state, BaseState::Opened);
}

#[test]
fn closing_base_completes_and_latches_at_closed() {
    let mut b = building(0, PLAYER_SIDE as u8);
    b.init_max_hitpoint(500);
    b.base_floor_progress = BASE_FLOOR_MS;
    b.close();
    assert_eq!(b.state, BaseState::Closing);
    let (mut objs, id) = enrolled(b);

    run(&mut objs, 1000);
    let mb = house(objs.get(id).unwrap());
    let p = mb.base_floor_progress as f32 / BASE_FLOOR_MS as f32;
    assert!((p - 0.2).abs() < 1e-3);
    assert_eq!(mb.state, BaseState::Closing);

    run(&mut objs, 500);
    let mb = house(objs.get(id).unwrap());
    assert_eq!(mb.base_floor_progress, 0);
    assert_eq!(mb.state, BaseState::Closed);
}

#[test]
fn non_base_kinds_do_not_animate_base_floor() {
    let mut b = building(1, PLAYER_SIDE as u8);
    b.init_max_hitpoint(500);
    b.open();
    let (mut objs, id) = enrolled(b);
    run(&mut objs, 2000);
    let mb = house(objs.get(id).unwrap());
    assert_eq!(mb.base_floor_progress, 0);
    assert_eq!(
        mb.state,
        BaseState::Opening,
        "state stays Opening for non-Base kinds"
    );
}

#[test]
fn under_attack_timer_decays_to_zero() {
    let mut b = building(0, PLAYER_SIDE as u8);
    b.init_max_hitpoint(500);
    b.under_attack_time = 1000;
    let (mut objs, id) = enrolled(b);
    run(&mut objs, 400);
    assert_eq!(house(objs.get(id).unwrap()).under_attack_time, 600);
    run(&mut objs, 1000);
    assert_eq!(
        house(objs.get(id).unwrap()).under_attack_time,
        0,
        "clamped at zero, no negative drift"
    );
}

#[test]
fn damage_resets_show_hitpoint_timer() {
    let mut b = building(0, PLAYER_SIDE as u8);
    b.init_max_hitpoint(500);
    let (mut objs, id, mut env) = standing(
        b,
        WeaponDamage {
            damage: 50,
            mindamage: 0,
            friend_damage: 25,
        },
    );
    objs.apply_damage(id, hit(Weapon::Gun, 2), "", &mut env);
    assert_eq!(
        house(objs.get(id).unwrap()).show_hitpoint_time,
        HITPOINT_SHOW_TIME_MS
    );
}

#[test]
fn timers_freeze_in_dip_state() {
    let mut b = building(0, PLAYER_SIDE as u8);
    b.init_max_hitpoint(500);
    b.state = BaseState::Dip;
    b.under_attack_time = 1000;
    b.show_hitpoint_time = 500;
    let (mut objs, id) = enrolled(b);
    run(&mut objs, 2000);
    let mb = house(objs.get(id).unwrap());
    assert_eq!(mb.under_attack_time, 1000, "frozen in DIP");
    assert_eq!(mb.show_hitpoint_time, 500, "frozen in DIP");
}

#[test]
fn queue_turret_slot_reserves_marks_cannon_type_and_blocks_double_build() {
    let mut b = building(0, PLAYER_SIDE as u8);
    b.turrets_max = 4;
    assert_eq!(b.turret_places.len(), 4);
    for p in &b.turret_places {
        assert_eq!(p.cannon_type, -1, "fresh slots empty");
    }

    assert!(b.queue_turret_slot(2, 3), "slot 2 should accept turret kind 3");
    assert_eq!(b.turret_places[2].cannon_type, 3);
    assert_eq!(b.turrets_have, 1);

    assert!(!b.queue_turret_slot(2, 1), "slot 2 already occupied");
    assert_eq!(b.turret_places[2].cannon_type, 3);
    assert_eq!(b.turrets_have, 1);
}

#[test]
fn queue_turret_slot_rejects_when_max_reached() {
    let mut b = building(0, PLAYER_SIDE as u8);
    b.turrets_max = 2;
    assert!(b.queue_turret_slot(0, 1));
    assert!(b.queue_turret_slot(1, 2));
    assert!(!b.queue_turret_slot(2, 3));
    assert_eq!(b.turrets_have, 2);
}

#[test]
fn turret_build_progress_ramps_cannon_hp_and_completes_to_idle() {
    let mut b = building(0, PLAYER_SIDE as u8);
    b.init_max_hitpoint(1000);
    b.state = BaseState::Closed;
    let (mut objs, parent_id) = enrolled(b);
    {
        let bb = house_mut(objs.get_mut(parent_id).unwrap());
        bb.self_id = Some(parent_id);
        assert!(bb.queue_turret_slot(0, 1));
    }

    let mut cannon = Cannon::new(
        ObjectCore::default(),
        (100.0f32.to_bits(), 100.0f32.to_bits()),
        0,
        0,
        PLAYER_SIDE,
        1,
        Some(parent_id),
        0,
        None,
    );
    cannon.combat.hit_point_max = 200_000;
    cannon.begin_construction();
    assert!(cannon.combat.invulnerable);
    assert_eq!(cannon.combat.hit_point, 0);
    assert_eq!(cannon.combat.state, CannonState::UnderConstruction);
    let cannon_id = objs.spawn(GameObject::Cannon(cannon));
    objs.add_lt(cannon_id);

    let total = TIMES.turret_ms;
    run(&mut objs, total / 2);
    let cm = gun(objs.get(cannon_id).unwrap());
    assert!(
        cm.combat.hit_point > 80_000 && cm.combat.hit_point < 130_000,
        "expected ~100, got {}",
        cm.combat.hit_point
    );
    assert!(cm.combat.invulnerable);
    assert_eq!(cm.combat.state, CannonState::UnderConstruction);

    run(&mut objs, total);
    let cm = gun(objs.get(cannon_id).unwrap());
    assert_eq!(cm.combat.state, CannonState::Idle);
    assert_eq!(cm.combat.hit_point, cm.combat.hit_point_max);
    assert!(!cm.combat.invulnerable);
}

#[test]
fn building_fits_trace_building_mask_and_shows_up_in_find_objects() {
    let (objs, _id, _env) = standing(building(0, 1), NO_HIT);
    let near = |u: &GameObject| {
        let (x, y) = (
            f32::from_bits(house(u).pos.0),
            f32::from_bits(house(u).pos.1),
        );
        (x - 100.0).powi(2) + (y - 100.0).powi(2) <= 50.0f32.powi(2)
    };
    let area = CellRect {
        x0: 0,
        y0: 0,
        x1: 1,
        y1: 1,
    };
    assert!(objs.any_object_in_radius(area, TRACE_BUILDING, None, &near));
    assert!(!objs.any_object_in_radius(area, TRACE_ROBOT, None, &near));
}

// ── Queues and tables ───────────────────────────────────────────────────

fn config(chassis: i32) -> RobotConfig {
    RobotConfig {
        chassis: RobotUnitKind(chassis),
        hull: RobotUnitKind(1),
        head: RobotUnitKind(0),
        weapon: [RobotUnitKind(7); MAX_WEAPON_CNT],
    }
}

#[test]
fn finished_robot_opens_a_shut_base() {
    let mut b = building(0, 2);
    b.init_max_hitpoint(100);
    b.state = BaseState::Closed;
    let mut objs: Objects<GameObject> = Objects::new();
    b.self_id = Some(objs.spawn(GameObject::Building(building(0, 2))));
    assert!(b.queue_robot(config(3)));
    assert!(b.logic_takt(TIMES.robot_ms - 1, &TIMES).robot.is_none());
    assert_eq!(b.build_stack.progress(&TIMES).done, TIMES.robot_ms - 1);
    let t = b.logic_takt(1, &TIMES);
    let (cfg, side) = t.robot.expect("the robot is ready");
    assert_eq!(cfg.chassis, RobotUnitKind(3));
    assert_eq!(side, 2);
    assert_eq!(b.state, BaseState::Opening);
    assert_ne!(b.object_state & OBJECT_STATE_BUILDING_SPAWNBOT, 0);
    assert!(b.build_stack.is_empty());
}

#[test]
fn production_waits_while_the_base_is_open() {
    let mut b = building(0, 2);
    b.state = BaseState::Opened;
    let mut objs: Objects<GameObject> = Objects::new();
    b.self_id = Some(objs.spawn(GameObject::Building(building(0, 2))));
    assert!(b.queue_robot(config(1)));
    assert!(b.logic_takt(2 * TIMES.robot_ms, &TIMES).robot.is_none());
    assert_eq!(b.build_stack.items(), 1);
    b.state = BaseState::Closed;
    assert!(b.logic_takt(0, &TIMES).robot.is_some());
}

#[test]
fn full_queue_takes_no_more() {
    let mut b = building(0, 1);
    let mut n = 0;
    while b.queue_robot(config(1)) {
        n += 1;
    }
    assert!(b.build_stack.is_full());
    assert_eq!(b.build_stack.items(), n);
    assert!(!b.queue_default_robot(ChassisKind::Wheel));
    assert_eq!(b.build_stack.list().len(), n);
}

#[test]
fn default_robot_is_a_bare_chassis() {
    let mut b = building(0, 1);
    assert!(b.queue_default_robot(ChassisKind::Track));
    match b.build_stack.head().unwrap().kind {
        PendingKind::Robot(c) => {
            assert_eq!(c.chassis, RobotUnitKind(3));
            assert_eq!(c.hull, RobotUnitKind(ARMOR_PASSIVE));
            assert_eq!(c.weapon, [RobotUnitKind(0); MAX_WEAPON_CNT]);
        }
        PendingKind::Turret { .. } => panic!("a robot was queued"),
    }
}

#[test]
fn queue_turret_takes_the_first_empty_place() {
    let mut b = building(0, 1);
    b.turrets_max = 4;
    assert!(b.queue_turret_slot(0, 2));
    assert!(b.queue_turret(3));
    assert_eq!(b.turret_places[1].cannon_type, 3);
    assert_eq!(b.turrets_have, 2);
}

#[test]
fn weapons_below_the_least_damage_do_nothing() {
    let mut b = building(0, 2);
    b.init_max_hitpoint(100);
    let row = WeaponDamage {
        damage: 30,
        mindamage: 80,
        friend_damage: 0,
    };
    assert!(!b.damage(Weapon::Gun, 1, row));
    assert_eq!(b.hit_point, 70);
    assert!(!b.damage(Weapon::Gun, 1, row));
    assert_eq!(b.hit_point, 70);
    assert!(b.need_repair());
}

#[test]
fn teams_are_balanced_with_ties_to_the_first() {
    let r = |side, team| RobotTeam { side, team };
    assert_eq!(pick_balanced_team(&vec![], 1), 0);
    assert_eq!(pick_balanced_team(&vec![r(1, 0), r(1, 2)], 1), 1);
    assert_eq!(pick_balanced_team(&vec![r(1, 0), r(1, 1), r(2, 2)], 1), 2);
    assert_eq!(pick_balanced_team(&vec![r(1, 0), r(1, 1), r(1, 2)], 1), 0);
}

#[test]
fn chassis_kinds_go_there_and_back() {
    for k in 1..=5 {
        let c = chassis_from_kind(RobotUnitKind(k)).unwrap();
        assert_eq!(kind_from_chassis(c), RobotUnitKind(k));
    }
    assert!(chassis_from_kind(RobotUnitKind(0)).is_none());
    assert!(chassis_from_kind(RobotUnitKind(6)).is_none());
}

#[test]
fn weapons_sit_on_numbered_pylons() {
    let w = robot_weapons_from_cfg(&config(1));
    for (i, u) in w.iter().enumerate() {
        assert_eq!(u.pos, i as i32 + 1);
        assert_eq!(u.unit, RobotUnitKind(7));
    }
}

#[test]
fn archives_of_building_kinds() {
    assert_eq!(
        building_cvo_path(0).as_deref(),
        Some("Matrix/Building/b0.cvo")
    );
    assert_eq!(
        building_cvo_path(5).as_deref(),
        Some("Matrix/Building/b5.cvo")
    );
    assert!(building_cvo_path(6).is_none());
    assert!(BuildingType::from_u8(6).is_none());
}

#[test]
fn selection_ring_of_a_base() {
    let r = selection_placement(BuildingType::Base);
    assert_eq!((r.radius, r.along_x, r.along_y), (74, -7, -44));
}
