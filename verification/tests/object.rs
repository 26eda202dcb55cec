use matrix_game::common::Pos3;
use matrix_game::game_object::{Field, GameObject};
use matrix_game::map::{ObjectHeight, ObjectInstance};
use matrix_game::map_static::{
    CellRect, ObjectType, Objects, MR_GRAPH, MR_MATRIX, OBJECT_STATE_SPECIAL,
    OBJECT_STATE_TRACE_INVISIBLE,
};
use matrix_game::object::{BehFlag, MapObject};
use matrix_game::object_building::BuildTimes;
use matrix_game::object_cannon::{Difficulty, Fling, Scatter};
use matrix_game::object_robot::Structure;

const ORIGIN: Pos3 = Pos3 { x: 0, y: 0, z: 0 };
const ONE_CELL: CellRect = CellRect {
    x0: 0,
    y0: 0,
    x1: 0,
    y1: 0,
};

fn inst() -> MapObject {
    let placed = ObjectInstance {
        x: 0,
        y: 0,
        height: ObjectHeight::At(0),
        angle_z: 0,
        angle_x: 0,
        angle_y: 0,
        scale: 1.0f32.to_bits(),
        type_id: 0,
        shadow: None,
    };
    MapObject::from_instance(&placed, ORIGIN, ONE_CELL)
}

#[test]
fn placement_is_carried_over() {
    let placed = ObjectInstance {
        x: 0,
        y: 0,
        height: ObjectHeight::At(0),
        angle_z: 1,
        angle_x: 2,
        angle_y: 3,
        scale: 0,
        type_id: 5,
        shadow: None,
    };
    let o = MapObject::from_instance(&placed, ORIGIN, ONE_CELL);
    assert_eq!((o.angle_z, o.angle_x, o.angle_y), (1, 2, 3));
    assert_eq!(f32::from_bits(o.scale), 0.0001);
    assert_eq!(f32::from_bits(o.tex_bias), -1.0);
    assert_eq!((o.type_id, o.uid), (5, -1));
}

#[test]
fn empty_ids_row_leaves_static() {
    let mut o = inst();
    let r = o.apply_ids_row("");
    assert_eq!(o.beh_flag, BehFlag::Static);
    assert!(!r.add_lt);
}

#[test]
fn burn_keyword_sets_burn_but_does_not_addlt() {
    let mut o = inst();
    let r = o.apply_ids_row("path*vo*tex******Burn,Tex,Burn01");
    assert_eq!(o.beh_flag, BehFlag::Burn);
    assert!(!r.add_lt);
}

#[test]
fn break_variant_terron_is_distinguished() {
    let mut a = inst();
    let mut b = inst();
    assert!(a.apply_ids_row("path*vo*tex******Break,X,5000,Normal").add_lt);
    assert!(b.apply_ids_row("path*vo*tex******Break,X,5000,Terron").add_lt);
    assert_eq!(a.beh_flag, BehFlag::Break);
    assert_eq!(b.beh_flag, BehFlag::Terron);
}

#[test]
fn anim_vs_animp_split_on_fifth_char() {
    let mut a = inst();
    let mut p = inst();
    let a_lt = a.apply_ids_row("path*vo*tex******Anim").add_lt;
    let p_lt = p.apply_ids_row("path*vo*tex******AnimP").add_lt;
    assert_eq!(a.beh_flag, BehFlag::Anim);
    assert!(a_lt, "Anim takes logic turns");
    assert_eq!(p.beh_flag, BehFlag::Portret);
    assert!(!p_lt, "Portret takes graphic turns only");
}

#[test]
fn sens_and_spawn_seed_ablaze_ttl_as_timer() {
    let mut s = inst();
    let r = s.apply_ids_row("path*vo*tex******Sens,120.5");
    assert!(r.add_lt);
    assert_eq!(r.radius.as_deref(), Some("120.5"));
    assert_eq!(s.beh_flag, BehFlag::Sens);
    assert_eq!(s.ablaze_ttl, 101);

    let mut sp = inst();
    let r = sp.apply_ids_row("path*vo*tex******Spawn,80.0");
    assert!(r.add_lt);
    assert_eq!(r.radius.as_deref(), Some("80.0"));
    assert_eq!(sp.beh_flag, BehFlag::Spawner);
    assert_eq!(sp.ablaze_ttl, 101);
}

#[test]
fn plus_prefix_marks_special_and_fires_callback() {
    let mut o = inst();
    let mut bumps = 0;
    let r = o.apply_ids_row("path*vo*tex******+Break,X,5000,Normal");
    if r.special {
        bumps += 1;
    }
    assert!(r.add_lt);
    assert_eq!(o.beh_flag, BehFlag::Break);
    assert_ne!(o.object_state & OBJECT_STATE_SPECIAL, 0);
    assert_eq!(bumps, 1);
}

#[test]
fn invlogic_sets_trace_invisible_when_one() {
    let mut o = inst();
    o.apply_ids_row("path*vo*tex********1");
    assert_ne!(o.object_state & OBJECT_STATE_TRACE_INVISIBLE, 0);
}

#[test]
fn portret_photo_toggle_cycles_through_long_and_short_timers() {
    let mut o = inst();
    let r = o.apply_ids_row("path*vo*tex******AnimP");
    assert!(!r.add_lt);
    assert_eq!(o.beh_flag, BehFlag::Portret);
    assert!(r.draw_photo);
    let (lo, hi) = MapObject::first_photo_range();
    assert_eq!((lo, hi), (1000, 2000));
    o.start_photo((lo + hi) / 2);
    assert!(o.photo_time >= 1000 && o.photo_time <= 2000);
    assert_eq!(o.photo, 0);

    let seed_time = o.photo_time + 1;
    let (lo, hi) = o.takt(seed_time).expect("the wait is over");
    assert!(100 <= lo && hi <= 200);
    o.toggle_photo(lo);
    assert_eq!(o.photo, 1, "photo flips on timer expiry");
    assert!(
        (100..=200).contains(&o.photo_time),
        "post-first-toggle timer must land in 100..=200, got {}",
        o.photo_time,
    );
    assert_ne!(o.rchange & MR_GRAPH, 0, "the picture is stale");

    o.rchange &= !MR_GRAPH;
    let next = o.photo_time + 1;
    let (lo, hi) = o.takt(next).expect("the wait is over");
    assert!(3000 <= lo && hi <= 5000);
    o.toggle_photo(hi);
    assert_eq!(o.photo, 0);
    assert!(
        (3000..=5000).contains(&o.photo_time),
        "post-second-toggle timer must land in 3000..=5000, got {}",
        o.photo_time,
    );
    assert!(o.takt(10).is_none(), "the next wait is running");
}

fn field() -> Field {
    let still = Fling {
        pos: ORIGIN,
        velocity: ORIGIN,
        ttl: 0,
        dp: 0,
        dy: 0,
        dr: 0,
    };
    Field {
        times: BuildTimes {
            robot_ms: 1,
            turret_ms: 1,
        },
        building_damages: Vec::new(),
        cannon_damages: Vec::new(),
        difficulty: Difficulty {
            k_damage_enemy_to_player: 1000,
            k_friendly_fire: 1000,
        },
        now: 0,
        wreck: Scatter {
            basis_pos: ORIGIN,
            basis_ttl: 0,
            turret: still,
            shaft: still,
        },
        structure: Structure {
            chassis: vec![0, 10, 20, 30],
            hull: vec![0, 100, 200],
            head: vec![0, 5],
        },
        produced: Vec::new(),
        leaving: Vec::new(),
        robot_hits: Vec::new(),
        photos: Vec::new(),
        struck: Vec::new(),
    }
}

fn scenery(o: &GameObject) -> &MapObject {
    match o {
        GameObject::MapObject(m) => m,
        _ => panic!("not scenery"),
    }
}

fn scenery_mut(o: &mut GameObject) -> &mut MapObject {
    match o {
        GameObject::MapObject(m) => m,
        _ => panic!("not scenery"),
    }
}

fn at(x: f32) -> Pos3 {
    Pos3 {
        x: x.to_bits(),
        y: 0,
        z: 0,
    }
}

fn run(objs: &mut Objects<GameObject>, ms: i32) {
    let mut env = field();
    for _ in 0..ms / 10 {
        let mut walk = objs.begin_logic();
        while let Some((id, mut o)) = objs.next_logic(&mut walk, 10, &mut env) {
            let me = scenery_mut(&mut o);
            let reach = f32::from_bits(me.sens_radius);
            let x = f32::from_bits(me.core.geo_center.x);
            me.logic_takt(10, objs, ONE_CELL, &|o: &GameObject| {
                (f32::from_bits(scenery(o).core.geo_center.x) - x).abs() < reach
            });
            objs.put_obj(id, o);
        }
    }
}

#[test]
fn sens_logic_takt_transitions_on_nearby_robot() {
    let mut objs = Objects::new();
    let mut sensor = inst();
    let r = sensor.apply_ids_row("path*vo*tex******Sens,50.0");
    sensor.sens_radius = r.radius.unwrap().parse::<f32>().unwrap().to_bits();
    assert_eq!(sensor.beh_flag, BehFlag::Sens);
    assert_eq!(f32::from_bits(sensor.sens_radius), 50.0);
    assert_eq!(sensor.prev_state_robots_in_radius, -1);
    let sensor_id = objs.spawn(GameObject::MapObject(sensor));
    scenery_mut(objs.get_mut(sensor_id).unwrap()).self_id = Some(sensor_id);
    objs.add_lt(sensor_id);

    let mut robot = inst();
    robot.core.obj_type = ObjectType::RobotAi;
    robot.core.geo_center = at(30.0);
    let robot_id = objs.spawn(GameObject::MapObject(robot));

    run(&mut objs, 210);
    assert_eq!(
        scenery(objs.get(sensor_id).unwrap()).prev_state_robots_in_radius,
        1,
        "sensor detected the robot and transitioned to state=1"
    );

    scenery_mut(objs.get_mut(robot_id).unwrap()).core.geo_center = at(200.0);
    run(&mut objs, 210);
    assert_eq!(
        scenery(objs.get(sensor_id).unwrap()).prev_state_robots_in_radius,
        0,
        "sensor falls back to idle after robot leaves the radius"
    );
}

#[test]
fn unknown_behaviour_keyword_falls_back_to_static() {
    let mut o = inst();
    let r = o.apply_ids_row("path*vo*tex******Gibberish,foo,bar");
    assert_eq!(o.beh_flag, BehFlag::Static);
    assert!(!r.add_lt);
}

#[test]
fn rebuilding_clears_what_was_asked_for() {
    let mut o = inst();
    assert!(o.r_need(MR_MATRIX | MR_GRAPH));
    assert_eq!(o.rchange & (MR_MATRIX | MR_GRAPH), 0);
    assert!(!o.r_need(MR_MATRIX));
}
