use matrix_game::arena::ObjectId;
use matrix_game::common::{Pos3, Weapon, WeaponDamage, PLAYER_SIDE};
use matrix_game::map_static::{
    MapStatic, ObjectCore, Objects, MR_MATRIX, OBJECT_STATE_ABLAZE, OBJECT_STATE_SHORTED,
};
use matrix_game::map_trace::TraceStop;
use matrix_game::object_building::Progress;
use matrix_game::cannon_turn::{Bearing, TurnEvent, TurnStep};
use matrix_game::object_cannon::{
    aim_rule, fire_decision, kind_index, seek_target, AimRule, Candidate, Cannon, CannonDipPart,
    CannonDipUnit, CannonState, DelayDamage, Difficulty, Flight, Fling, Gate, Measure, PieceEffect,
    Salvo, Scatter, Turns, WeaponId, CANNON_NULL_TARGET_TIME, CANNON_TIME_FROM_FIRE,
};

const NOWHERE: Pos3 = Pos3 { x: 0, y: 0, z: 0 };

const SCATTER: Scatter = Scatter {
    basis_pos: Pos3 { x: 1, y: 2, z: 3 },
    basis_ttl: 4,
    turret: Fling {
        pos: NOWHERE,
        velocity: Pos3 { x: 5, y: 6, z: 7 },
        ttl: 8,
        dp: 9,
        dy: 10,
        dr: 11,
    },
    shaft: Fling {
        pos: NOWHERE,
        velocity: NOWHERE,
        ttl: 12,
        dp: 13,
        dy: 14,
        dr: 15,
    },
};

const EVEN: Difficulty = Difficulty {
    k_damage_enemy_to_player: 1000,
    k_friendly_fire: 1000,
};

const ROW: WeaponDamage = WeaponDamage {
    damage: 10,
    mindamage: 0,
    friend_damage: 4,
};

fn cannon(side: i32, kind: i32) -> Cannon {
    Cannon::new(ObjectCore::default(), (0, 0), 0, 0, side, kind, None, 0, Some(100_000))
}

fn ids(n: u32) -> Vec<ObjectId> {
    let mut objs: Objects<u8> = Objects::new();
    (0..n).map(|_| objs.arena.spawn(0, matrix_game::arena::ObjectType::RobotAi)).collect()
}

fn bits(v: f32) -> u32 {
    v.to_bits()
}

#[test]
fn hits_count_by_side_and_difficulty() {
    let mut c = cannon(2, 1);
    let (o, released) = c.damage(Weapon::Gun, 1, ROW, EVEN, 0, &SCATTER);
    assert!(!o.gone && o.impact && !o.fire_end && released.is_empty());
    assert_eq!(c.combat.hit_point, 90_000);
    c.damage(Weapon::Gun, 2, ROW, EVEN, 0, &SCATTER);
    assert_eq!(c.combat.hit_point, 86_000);

    let mild = Difficulty {
        k_damage_enemy_to_player: 500,
        k_friendly_fire: 250,
    };
    let mut p = cannon(PLAYER_SIDE, 1);
    p.damage(Weapon::Gun, 2, ROW, mild, 0, &SCATTER);
    assert_eq!(p.combat.hit_point, 95_000);
    p.damage(Weapon::Gun, PLAYER_SIDE, ROW, mild, 0, &SCATTER);
    assert_eq!(p.combat.hit_point, 94_000);
}

#[test]
fn last_hit_makes_a_wreck_and_gives_the_weapons_up() {
    let mut c = cannon(2, 1);
    c.arm(vec![WeaponId { id: 5 }, WeaponId { id: 6 }]);
    c.combat.hit_point = 10_000;
    let (o, released) = c.damage(Weapon::Gun, 3, ROW, EVEN, 0, &SCATTER);
    assert!(o.gone && o.boom);
    assert_eq!(o.credit, Some(3));
    assert_eq!(released, vec![WeaponId { id: 5 }, WeaponId { id: 6 }]);
    assert!(c.weapons.is_empty());
    assert_eq!(c.combat.state, CannonState::Dip);
    assert!(!c.is_live());

    // A wreck takes no more.
    let before = c.combat;
    let (o, _) = c.damage(Weapon::Gun, 3, ROW, EVEN, 0, &SCATTER);
    assert!(o.gone && !o.boom);
    assert_eq!(c.combat, before);
}

#[test]
fn own_side_gets_no_credit() {
    let mut c = cannon(2, 1);
    c.combat.hit_point = 1_000;
    let (o, _) = c.damage(Weapon::Gun, 2, ROW, EVEN, 0, &SCATTER);
    assert!(o.boom);
    assert_eq!(o.credit, None);
}

#[test]
fn repair_stops_at_the_most() {
    let mut c = cannon(2, 1);
    c.combat.hit_point = 95_000;
    assert!(c.need_repair());
    let (o, _) = c.damage(Weapon::Repair, 3, ROW, EVEN, 0, &SCATTER);
    assert!(!o.gone && !o.impact);
    assert_eq!(c.combat.hit_point, 100_000);
    assert!(!c.need_repair());
}

#[test]
fn construction_is_safe_and_ramps() {
    let mut c = cannon(2, 1);
    c.begin_construction();
    c.damage(Weapon::Gun, 1, ROW, EVEN, 0, &SCATTER);
    assert_eq!(c.combat.hit_point, 0);
    c.tick_construction(Progress { done: 1, total: 4 });
    assert_eq!(c.combat.hit_point, 25_000);
    assert!(c.combat.invulnerable);
    c.takt(100);
    assert!(c.hitpoint_bar());
    c.tick_construction(Progress { done: 4, total: 4 });
    assert_eq!(c.combat.state, CannonState::Idle);
    assert_eq!(c.combat.hit_point, 100_000);
    c.takt(100);
    assert!(!c.hitpoint_bar());
    c.show_hitpoint();
    c.takt(400);
    assert_eq!(c.show_hitpoint_time, 600);
}

#[test]
fn flames_set_it_on_fire_and_the_fire_hurts() {
    let mut c = cannon(2, 1);
    c.damage(Weapon::Flamethrower, 3, ROW, EVEN, 1000, &SCATTER);
    assert_ne!(c.combat.object_state & OBJECT_STATE_ABLAZE, 0);
    assert_eq!(c.combat.ablaze_ttl, 300);
    assert_eq!(c.combat.last_delay_damage_side, 3);
    for _ in 0..30 {
        c.damage(Weapon::Flamethrower, 3, NONE, EVEN, 1000, &SCATTER);
    }
    assert_eq!(c.combat.ablaze_ttl, 5000);

    // One step of ninety milliseconds is nine hits.
    let dd = DelayDamage {
        ablaze: WeaponDamage {
            damage: 1,
            mindamage: 0,
            friend_damage: 1,
        },
        shorted: NONE,
        difficulty: EVEN,
    };
    let hp = c.combat.hit_point;
    let (fire, short, _, stop) = c.delay_damage(&dd, 1001, &SCATTER);
    assert_eq!(fire.steps, 1);
    assert_eq!(short.steps, 0);
    assert!(!stop);
    assert_eq!(c.combat.hit_point, hp - 9_000);
    assert_eq!(c.combat.next_time_ablaze, 1090);
}

const NONE: WeaponDamage = WeaponDamage {
    damage: 0,
    mindamage: 0,
    friend_damage: 0,
};

#[test]
fn fire_can_destroy_it() {
    let mut c = cannon(2, 1);
    c.arm(vec![WeaponId { id: 1 }]);
    c.damage(Weapon::Flamethrower, 3, NONE, EVEN, 0, &SCATTER);
    c.combat.hit_point = 3_000;
    let dd = DelayDamage {
        ablaze: WeaponDamage {
            damage: 1,
            mindamage: 0,
            friend_damage: 1,
        },
        shorted: NONE,
        difficulty: EVEN,
    };
    let (fire, _, released, stop) = c.delay_damage(&dd, 500, &SCATTER);
    assert!(fire.gone && fire.boom && stop);
    assert_eq!(fire.steps, 1);
    assert_eq!(fire.credit, Some(3));
    assert_eq!(released.len(), 1);
}

#[test]
fn bolts_short_it_out_for_the_turn() {
    let mut c = cannon(2, 1);
    let (o, _) = c.damage(Weapon::Lightening, 3, NONE, EVEN, 100, &SCATTER);
    assert!(o.fire_end && !o.impact);
    assert_ne!(c.combat.object_state & OBJECT_STATE_SHORTED, 0);
    assert_eq!(c.combat.shorted_ttl, 500);
    let dd = DelayDamage {
        ablaze: NONE,
        shorted: WeaponDamage {
            damage: 2,
            mindamage: 0,
            friend_damage: 2,
        },
        difficulty: EVEN,
    };
    let (_, short, _, stop) = c.delay_damage(&dd, 201, &SCATTER);
    assert!(stop);
    assert_eq!(short.steps, 3);
    assert_eq!(c.combat.hit_point, 94_000);
}

#[test]
fn gate_and_side_of_the_building() {
    let id = ids(1)[0];
    let mut c = cannon(2, 1);
    assert_eq!(c.logic_gate(true, Some(3)), Gate::Nothing);
    c.self_id = Some(id);
    assert_eq!(c.logic_gate(false, None), Gate::Nothing);
    assert_eq!(c.logic_gate(true, Some(3)), Gate::Live);
    assert_eq!(c.combat.side, 2);
    c.parent = Some(id);
    assert_eq!(c.logic_gate(true, Some(3)), Gate::Live);
    assert_eq!(c.combat.side, 3);
    c.combat.state = CannonState::Dip;
    assert_eq!(c.logic_gate(true, Some(1)), Gate::Wreck);
    assert_eq!(c.combat.side, 3);
    assert!(c.wreck_done());
}

#[test]
fn barrels_by_kind() {
    let id = ids(1)[0];
    let barrels: Vec<usize> = [0, 1, 2, 3, 4, 9]
        .iter()
        .map(|&k| {
            let mut c = cannon(1, k);
            c.self_id = Some(id);
            c.weapons_wanted(true)
        })
        .collect();
    assert_eq!(barrels, vec![2, 2, 1, 1, 2, 2]);
    assert_eq!(kind_index(9), 3);
    let mut c = cannon(1, 1);
    assert_eq!(c.weapons_wanted(true), 0);
    c.self_id = Some(id);
    assert_eq!(c.weapons_wanted(false), 0);
    c.arm(vec![WeaponId { id: 1 }]);
    assert_eq!(c.weapons_wanted(true), 0);
}

fn seen(id: ObjectId, side: i32, distance: f32, alignment: f32) -> Candidate {
    Candidate {
        id,
        side,
        distance: bits(distance),
        alignment: bits(alignment),
        through_units: TraceStop::Object(id),
        through_blocks: TraceStop::Nothing,
    }
}

#[test]
fn target_in_range_goes_before_a_better_aligned_one() {
    let i = ids(4);
    let (fire, seek) = (bits(100.0), bits(400.0));
    let far = seen(i[0], 1, 300.0, 0.9);
    let near = seen(i[1], 1, 50.0, 0.1);
    let friend = seen(i[2], 2, 10.0, 1.0);
    assert_eq!(seek_target(&vec![far], 2, fire, seek), Some(i[0]));
    assert_eq!(seek_target(&vec![far, near], 2, fire, seek), Some(i[1]));
    assert_eq!(seek_target(&vec![near, far], 2, fire, seek), Some(i[1]));
    assert_eq!(seek_target(&vec![friend], 2, fire, seek), None);

    let mut hidden = near;
    hidden.through_blocks = TraceStop::Object(i[3]);
    assert_eq!(seek_target(&vec![hidden], 2, fire, seek), None);
    let mut covered = near;
    covered.through_units = TraceStop::Landscape;
    assert_eq!(seek_target(&vec![covered], 2, fire, seek), None);
}

#[test]
fn thinking_looks_when_due_and_forgets_the_gone() {
    let mut objs: Objects<u8> = Objects::new();
    let t = objs.arena.spawn(0, matrix_game::arena::ObjectType::RobotAi);
    let mut c = cannon(2, 1);
    c.fire_next_think_time = 50;
    c.target_disp = Pos3 { x: 1, y: 1, z: 1 };
    let cs = vec![seen(t, 1, 50.0, 0.5)];
    assert!(!c.think_turn(&objs, 20, &cs, bits(100.0), bits(400.0)));
    assert_eq!(c.target, None);
    assert!(c.think_turn(&objs, 51, &cs, bits(100.0), bits(400.0)));
    assert_eq!(c.target, Some(t));
    assert_eq!(c.target_disp, Pos3 { x: 0, y: 0, z: 0 });
    assert_eq!(c.fire_next_think_time, 151);
    objs.arena.remove(t);
    assert!(!c.think_turn(&objs, 60, &cs, bits(100.0), bits(400.0)));
    assert_eq!(c.target, None);
    // A clock that was set back makes it look as well.
    assert!(c.think_due(0));
}

#[test]
fn aiming_rules() {
    let z = bits(0.0);
    let least = bits(0.03);
    assert_eq!(aim_rule(bits(0.01), z, z, least), AimRule::Snap);
    assert_eq!(aim_rule(bits(-0.01), z, z, least), AimRule::Snap);
    assert_eq!(aim_rule(bits(-0.5), z, z, least), AimRule::Ease);
    let (most, reach) = (bits(0.1), bits(0.101));
    assert_eq!(aim_rule(bits(0.1), most, reach, least), AimRule::Reach);
    assert_eq!(aim_rule(bits(-0.5), most, reach, least), AimRule::StepBack);
    assert_eq!(aim_rule(bits(0.5), most, reach, least), AimRule::StepForward);

    let t = Turns {
        snap: 1,
        ease: 2,
        reach: 3,
        back: 4,
        forward: 5,
    };
    let mut c = cannon(1, 1);
    c.rchange = 0;
    c.aim((AimRule::StepBack, t), (AimRule::Ease, t));
    assert_eq!((c.turret_angle, c.angle_x), (4, 2));
    assert_eq!(c.rchange, MR_MATRIX);
}

#[test]
fn fire_needs_aim_range_and_a_clear_shot() {
    let on = AimRule::Reach;
    let shot = |d: f32, misses: [f32; 2]| Measure {
        distance: bits(d),
        range: bits(100.0),
        misses: misses.map(bits).to_vec(),
        twice_radius: bits(8.0),
    };
    let near = shot(50.0, [3.0, 4.0]);
    assert!(fire_decision(true, on, AimRule::Snap, &near));
    assert!(!fire_decision(false, on, on, &near));
    assert!(!fire_decision(true, AimRule::Ease, on, &near));
    assert!(!fire_decision(true, on, AimRule::StepBack, &near));
    assert!(!fire_decision(true, on, on, &shot(101.0, [3.0, 4.0])));
    assert!(!fire_decision(true, on, on, &shot(50.0, [3.0, 9.0])));
}

#[test]
fn fire_goes_on_for_a_while_without_a_target() {
    let mut c = cannon(1, 1);
    c.open_fire();
    c.weapons_ran(&vec![false, true]);
    assert_eq!(c.null_target_time, CANNON_NULL_TARGET_TIME);
    assert_eq!(c.time_from_fire, CANNON_TIME_FROM_FIRE);
    assert!(!c.shoot_wide_due(400));
    assert_eq!(c.time_from_fire, 600);
    assert!(c.shoot_wide_due(600));
    assert_eq!(c.time_from_fire, CANNON_TIME_FROM_FIRE);

    assert!(!c.hold_fire(600));
    assert_eq!((c.null_target_time, c.time_from_fire), (400, 400));
    assert!(c.hold_fire(600));
    assert_eq!((c.null_target_time, c.time_from_fire), (0, 0));
    assert!(!c.hold_fire(10));
    assert_eq!(c.time_from_fire, CANNON_TIME_FROM_FIRE);
}

const DELAY: DelayDamage = DelayDamage {
    ablaze: ROW,
    shorted: ROW,
    difficulty: EVEN,
};

fn begun() -> TurnEvent {
    TurnEvent::Begun {
        has_map: true,
        parent_side: None,
        has_weapon: true,
    }
}

fn armed_with(n: u64) -> TurnEvent {
    TurnEvent::Armed {
        made: (0..n).map(|i| WeaponId { id: i }).collect(),
        delay: DELAY,
        wreck: SCATTER,
    }
}

#[test]
fn a_whole_turn_of_a_cannon() {
    let mut objs: Objects<u8> = Objects::new();
    let me = objs.arena.spawn(0, matrix_game::arena::ObjectType::Cannon);
    let foe = objs.arena.spawn(0, matrix_game::arena::ObjectType::RobotAi);
    let mut c = cannon(1, 1);
    c.self_id = Some(me);
    let r = c.turn(TurnStep::Begin, begun(), &objs, 10, 1000);
    assert_eq!(r.step, TurnStep::Arm { weapons: 2 });
    let r = c.turn(r.step, armed_with(2), &objs, 10, 1000);
    assert_eq!(r.step, TurnStep::Look);
    assert!(r.delayed.unwrap().released.is_empty());
    assert_eq!(c.weapons.len(), 2);
    let seen = vec![Candidate {
        id: foe,
        side: 2,
        distance: bits(50.0),
        alignment: bits(0.5),
        through_units: TraceStop::Object(foe),
        through_blocks: TraceStop::Nothing,
    }];
    let looked = TurnEvent::Looked {
        seen,
        fire: bits(100.0),
        seek: bits(400.0),
    };
    let r = c.turn(r.step, looked, &objs, 10, 1000);
    assert_eq!(
        r.step,
        TurnStep::Aim {
            target: foe,
            looked: true
        }
    );
    let t = Turns {
        snap: 1,
        ease: 2,
        reach: 3,
        back: 4,
        forward: 5,
    };
    let on = |max_da: f32| Bearing {
        da: bits(0.01),
        max_da: bits(max_da),
        reach: bits(max_da + 0.001),
        least: bits(0.03),
        turns: t,
    };
    let aimed = TurnEvent::Aimed {
        yaw: on(0.0),
        pitch: on(0.1),
    };
    let r = c.turn(r.step, aimed, &objs, 10, 1000);
    assert_eq!((c.turret_angle, c.angle_x), (1, 3));
    let shot = Measure {
        distance: bits(50.0),
        range: bits(100.0),
        misses: vec![bits(1.0)],
        twice_radius: bits(8.0),
    };
    let r = c.turn(r.step, TurnEvent::Pointed { shot }, &objs, 10, 1000);
    assert_eq!(r.step, TurnStep::Run { salvo: Salvo::Open });
    assert_eq!(c.null_target_time, CANNON_NULL_TARGET_TIME);
    c.time_from_fire = 10;
    let hits = vec![false, false];
    let r = c.turn(r.step, TurnEvent::Ran { hits }, &objs, 10, 1000);
    assert_eq!(r.step, TurnStep::Displace);
    let disp = Pos3 { x: 1, y: 1, z: 1 };
    let r = c.turn(r.step, TurnEvent::Displaced { disp }, &objs, 10, 1000);
    assert_eq!(r.step, TurnStep::Over);
    assert_eq!(c.target_disp, disp);
}

#[test]
fn a_turn_without_a_target_runs_the_weapons_down() {
    let objs: Objects<u8> = Objects::new();
    let mut c = cannon(1, 2);
    c.self_id = Some(ids(1)[0]);
    c.null_target_time = 15;
    c.fire_next_think_time = 1050;
    let mut steps = Vec::new();
    for _ in 0..3 {
        let r = c.turn(TurnStep::Begin, begun(), &objs, 10, 1000);
        steps.push(c.turn(r.step, armed_with(0), &objs, 10, 1000).step);
    }
    let run = TurnStep::Run { salvo: Salvo::Run };
    assert_eq!(steps, vec![run, TurnStep::EndFire, run]);
}

#[test]
fn a_shorted_or_burnt_out_cannon_does_nothing_else() {
    let objs: Objects<u8> = Objects::new();
    let mut c = cannon(1, 1);
    c.self_id = Some(ids(1)[0]);
    c.combat.object_state = OBJECT_STATE_SHORTED;
    c.combat.next_time_shorted = 2000;
    let r = c.turn(TurnStep::Arm { weapons: 0 }, armed_with(0), &objs, 10, 1000);
    assert_eq!(r.step, TurnStep::Over);

    let mut c = cannon(1, 1);
    c.self_id = Some(ids(1)[0]);
    c.combat.object_state = OBJECT_STATE_ABLAZE;
    c.combat.hit_point = 1;
    let r = c.turn(TurnStep::Arm { weapons: 2 }, armed_with(2), &objs, 10, 1000);
    assert_eq!(r.step, TurnStep::Over);
    assert_eq!(r.delayed.unwrap().released.len(), 2);
    assert_eq!(c.dip_units.len(), 3);
    let r = c.turn(TurnStep::Begin, begun(), &objs, 10, 1000);
    assert_eq!(r.step, TurnStep::Fly);
    c.dip_units.clear();
    let r = c.turn(r.step, TurnEvent::Flown, &objs, 10, 1000);
    assert_eq!(r.step, TurnStep::Remove);
    let r = c.turn(TurnStep::Look, TurnEvent::Flown, &objs, 10, 1000);
    assert_eq!(r.step, TurnStep::Over);
}

fn piece(part: CannonDipPart, vx: f32) -> CannonDipUnit {
    let zero = Pos3 { x: 0, y: 0, z: 0 };
    CannonDipUnit {
        pos: zero,
        velocity: Pos3 {
            x: bits(vx),
            y: 0,
            z: 0,
        },
        ttl: bits(500.0),
        dp: 0,
        dy: 0,
        dr: 0,
        part,
        yaw: 0,
        freeze_t: None,
    }
}

#[test]
fn a_destroyed_cannon_scatters_into_three_pieces() {
    let mut c = cannon(1, 1);
    c.angle = bits(0.5);
    c.combat.hit_point = 1;
    let (o, _) = c.damage(Weapon::Gun, 2, ROW, EVEN, 0, &SCATTER);
    assert!(o.boom);
    let parts: Vec<CannonDipPart> = c.dip_units.iter().map(|u| u.part).collect();
    assert_eq!(
        parts,
        vec![CannonDipPart::Basis, CannonDipPart::Turret, CannonDipPart::Shaft]
    );
    assert_eq!((c.dip_units[0].yaw, c.dip_units[1].yaw), (bits(0.5), 0));
    assert_eq!(c.dip_units[0].velocity, NOWHERE);
    assert_eq!(c.dip_units[1].velocity, SCATTER.turret.velocity);
    assert_eq!((c.dip_units[0].ttl, c.dip_units[2].dr), (4, 15));
    assert!(!c.wreck_done());
}

#[test]
fn pieces_of_a_wreck() {
    let id = ids(1)[0];
    let mut c = cannon(1, 1);
    c.combat.state = CannonState::Dip;
    c.dip_units = vec![
        piece(CannonDipPart::Basis, 0.0),
        piece(CannonDipPart::Turret, 1.0),
        piece(CannonDipPart::Shaft, 1.0),
    ];
    let at = |x: f32| Pos3 {
        x: bits(x),
        y: 0,
        z: 0,
    };
    let mut f = Flight {
        pos: at(2.0),
        velocity: at(1.0),
        stop: TraceStop::Nothing,
        hit: at(1.5),
        submerged: false,
        now: bits(77.0),
    };
    // The basis lies still, whatever the flight says.
    assert_eq!(c.dip_piece(0, bits(400.0), f), (PieceEffect::Nothing, 1));
    assert_eq!(c.dip_units[0].ttl, bits(400.0));
    assert_eq!(c.dip_units[0].pos, at(0.0));
    // The turret flies on, then meets the ground.
    assert_eq!(c.dip_piece(1, bits(400.0), f), (PieceEffect::Nothing, 2));
    assert_eq!(c.dip_units[1].pos, at(2.0));
    f.stop = TraceStop::Landscape;
    assert_eq!(c.dip_piece(1, bits(300.0), f), (PieceEffect::Nothing, 2));
    assert_eq!(c.dip_units[1].pos, at(1.5));
    assert_eq!(c.dip_units[1].freeze_t, Some(bits(77.0)));
    // The shaft hits an object.
    f.stop = TraceStop::Object(id);
    assert_eq!(c.dip_piece(2, bits(300.0), f), (PieceEffect::Debris(id), 3));
    assert_eq!(c.dip_units[2].ttl, bits(1.0));
    // In deep water it goes; the basis goes when its time is up.
    f.stop = TraceStop::Water;
    f.submerged = true;
    assert_eq!(c.dip_piece(2, bits(1.0), f), (PieceEffect::Splash, 2));
    assert_eq!(c.dip_piece(0, bits(-1.0), f), (PieceEffect::Boom, 0));
    assert_eq!(c.dip_units[0].part, CannonDipPart::Turret);
    assert!(!c.wreck_done());
    assert_eq!(c.dip_piece(0, bits(0.0), f), (PieceEffect::Boom, 0));
    assert!(c.wreck_done());
}

#[test]
fn rebuilding_clears_the_cannon() {
    let mut c = cannon(1, 1);
    assert!(c.r_need(MR_MATRIX));
    assert!(!c.r_need(MR_MATRIX));
}
