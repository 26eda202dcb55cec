use matrix_game::cmap::Cmap;
use matrix_game::common::{
    Pos3, RobotUnitKind, CELLFLAG_BRIDGE, CELLFLAG_FLAT, CELLFLAG_LAND, CELLFLAG_WATER,
};
use matrix_game::common::{Weapon, WeaponDamage};
use matrix_game::game_object::{find_row, DamageRow, Field, GameObject};
use matrix_game::map::{BuildingInstance, GameMap, Ground, ObjectHeight, UnitPlane};
use matrix_game::map_prepare::InshoreColumns;
use matrix_game::map_static::{
    is_building, is_cannon, is_flyer, is_map_object, is_robot, Hit, ObjectCore, Objects,
};
use matrix_game::object_building::{BaseState, BuildTimes, Building, ChassisKind, BASE_FLOOR_MS};
use matrix_game::object_cannon::{Cannon, Difficulty, Fling, Scatter};
use matrix_game::object_robot::Structure;
use matrix_game::placements::{
    attach_cannons, load_buildings, load_effects, load_objects, load_robots, parse_object_shadow,
    parse_robot_units, BuildingColumns, CannonRecord, EffectColumns, ObjectColumns, RobotColumns,
};
use matrix_game::properties::{influence, parse_side_ai_info, parse_side_res_info};
use matrix_game::sound::{SndEvent, SndHandle, SoundLayer};
use matrix_game::weapon_matrix::{weapon_matrix_from_vo, Bone};

fn strings(v: &[&str]) -> Vec<String> {
    v.iter().map(|s| s.to_string()).collect()
}

fn le(v: &[i32]) -> Vec<u8> {
    v.iter().flat_map(|x| x.to_le_bytes()).collect()
}

fn lef(v: &[f32]) -> Vec<u8> {
    v.iter().flat_map(|x| x.to_le_bytes()).collect()
}

fn bits(v: f32) -> u32 {
    v.to_bits()
}

fn points(rows: &[(i32, f32, u8)]) -> Vec<u8> {
    let mut v = Vec::new();
    for (move_idx, z, flags) in rows {
        v.extend(move_idx.to_le_bytes());
        v.extend(z.to_le_bytes());
        v.extend([0, 0, 0, *flags]);
    }
    v
}

fn cmap(w: usize, h: usize, rows: &[(i32, f32, u8)]) -> Cmap {
    Cmap {
        property_names: Some(strings(&["SizeInUnitsX", "SizeInUnitsY"])),
        property_values: Some(vec![w.to_string(), h.to_string()]),
        points: Some(points(rows)),
        move_data: Vec::new(),
        bridges: Vec::new(),
        roads: None,
        inshores: None,
        effects: None,
        strings: Vec::new(),
        objects: None,
        buildings: None,
        cannons: None,
        robots: None,
    }
}

// ── Terrain ─────────────────────────────────────────────────────────────

#[test]
fn move_cells_are_spread_over_the_cell() {
    let mut c = cmap(1, 1, &[(1, 0.0, 0), (9, 0.0, 0), (0, 0.0, 0), (0, 0.0, 0)]);
    let mut data = vec![0u8; 64];
    for i in 0..4 {
        data.extend(le(&[10 + i, 20 + i, 30 + i, 40 + i]));
    }
    c.move_data = data;
    let m = GameMap::from_cmap(&c).unwrap();
    let zone = |x, y| m.move_cell(x, y).unwrap().zone;
    assert_eq!([zone(0, 0), zone(1, 0), zone(0, 1), zone(1, 1)], [10, 11, 12, 13]);
    let cell = m.move_cell(1, 1).unwrap();
    assert_eq!((cell.stop, cell.sphere, cell.zubchik), (23, 33, 43));
}

#[test]
fn move_cells_without_data_are_clear() {
    let c = cmap(1, 1, &[(-1, 0.0, 0); 4]);
    let m = GameMap::from_cmap(&c).unwrap();
    assert_eq!(m.move_cell(0, 0).unwrap().stop, 0);
}

#[test]
fn sloped_cells_keep_their_corners() {
    let c = cmap(1, 1, &[(0, 1.0, CELLFLAG_LAND | CELLFLAG_FLAT), (0, 2.0, 0), (0, 4.0, 0), (0, 3.0, 0)]);
    let m = GameMap::from_cmap(&c).unwrap();
    assert_eq!(m.unit_flags(0, 0), Some(CELLFLAG_LAND));
    assert_eq!(
        m.ground(0, 0),
        Ground::Plane(UnitPlane::Corners {
            z0: bits(1.0),
            z1: bits(2.0),
            z2: bits(3.0),
            z3: bits(4.0)
        })
    );
    assert_eq!(m.group_bounds[0].min_z, bits(1.0));
    assert_eq!(m.group_bounds[0].max_z, bits(4.0));
}

#[test]
fn bridges_cover_water() {
    let mut c = cmap(2, 1, &[(0, -5.0, CELLFLAG_WATER); 6]);
    let mut rec = le(&[0, 0, 2, 2]);
    rec.extend(lef(&[7.0, 7.0, 7.0, 7.0]));
    let mut off = le(&[0, 0, 9, 9]);
    off.extend(lef(&[1.0]));
    c.bridges = vec![vec![1, 2, 3], off, rec];
    let m = GameMap::from_cmap(&c).unwrap();
    let f = m.unit_flags(0, 0).unwrap();
    assert_ne!(f & CELLFLAG_BRIDGE, 0);
    assert_ne!(f & CELLFLAG_FLAT, 0);
    assert_eq!(m.ground(0, 0), Ground::Plane(UnitPlane::Flat { z: bits(7.0) }));
    assert_eq!(m.ground(1, 0), Ground::Nothing);
    assert_eq!(m.point(1, 1).z, bits(7.0));
    assert_eq!(m.point(2, 1).z, bits(-5.0));
    assert!(!m.water_cell_at(0, 0));
    assert!(m.water_cell_at(1, 0));
}

#[test]
fn waves_start_where_the_columns_say() {
    let mut c = cmap(1, 1, &[(0, 0.0, 0); 4]);
    let col = |v: &[f32]| vec![lef(v)];
    c.inshores = Some(InshoreColumns {
        x: col(&[1.0, 2.0]),
        y: col(&[3.0, 4.0]),
        nx: col(&[5.0]),
        ny: col(&[6.0, 7.0]),
    });
    let m = GameMap::from_cmap(&c).unwrap();
    assert_eq!(m.inshore_prespawns.len(), 1);
    assert_eq!(m.inshore_prespawns[0].len(), 1);
    assert_eq!(m.inshore_prespawns[0][0].pos, (bits(1.0), bits(3.0)));
    assert_eq!(m.inshore_prespawns[0][0].dir, (bits(5.0), bits(6.0)));
}

// ── Placements ──────────────────────────────────────────────────────────

#[test]
fn object_heights_and_shadows() {
    let mut shadow = le(&[1, 0, 0, 0, 2, 6]);
    for (x, y) in [(1u16, 2u16), (3, 0)] {
        shadow.extend(x.to_le_bytes());
        shadow.extend(y.to_le_bytes());
        shadow.extend(lef(&[0.25, 0.5]));
    }
    for i in [0u16, 1, 1] {
        shadow.extend(i.to_le_bytes());
    }
    shadow.extend(lef(&[1.0, 2.0, 3.0, 4.0, 5.0]));
    let s = parse_object_shadow(&shadow, 3, 2).unwrap();
    assert_eq!((s.vertices[0].px, s.vertices[0].py), (1, 2));
    assert_eq!(s.vertices[1].uv, (bits(0.25), bits(0.5)));
    assert_eq!(s.indices, vec![0, 1, 1]);
    assert_eq!(s.camera_pos, (bits(1.0), bits(2.0), bits(3.0)));
    assert_eq!(s.dimensions, (bits(4.0), bits(5.0)));
    assert!(parse_object_shadow(&shadow, 2, 2).is_none());
    assert!(parse_object_shadow(&shadow[..shadow.len() - 1].to_vec(), 3, 2).is_none());

    let c = ObjectColumns {
        x: lef(&[1.0, 2.0, 3.0]),
        y: lef(&[1.0, 2.0, 3.0]),
        scale: lef(&[]),
        kind: vec![],
        angle_z: vec![],
        angle_x: None,
        angle_y: Some(lef(&[0.5])),
        height: Some(lef(&[9.0])),
        z: Some(lef(&[1.0, 8.0])),
        shadow: Some(vec![shadow, vec![]]),
    };
    let o = load_objects(&c, 3, 2);
    assert_eq!(o[0].height, ObjectHeight::AboveGround(bits(9.0)));
    assert_eq!(o[1].height, ObjectHeight::At(bits(8.0)));
    assert_eq!(o[2].height, ObjectHeight::At(bits(0.0)));
    assert_eq!(o[0].scale, bits(1.0));
    assert_eq!((o[0].angle_y, o[1].angle_y), (bits(0.5), 0));
    assert!(o[0].shadow.is_some() && o[1].shadow.is_none() && o[2].shadow.is_none());
}

#[test]
fn ruins_are_no_buildings() {
    let c = BuildingColumns {
        x: lef(&[1.0, 2.0, 3.0]),
        y: lef(&[4.0, 5.0, 6.0]),
        side: vec![1, 255],
        kind: vec![0, 3],
        shadow: vec![2],
        shadow_size: le(&[]),
        angle: vec![1, 2],
    };
    let (b, r) = load_buildings(&c);
    assert_eq!((b.len(), r.len()), (1, 1));
    assert_eq!((b[0].side, b[0].kind, b[0].shadow_kind, b[0].shadow_size), (1, 0, 2, 128));
    assert_eq!((r[0].kind, r[0].angle, r[0].x), (3, 2, bits(2.0)));
}

fn building(side: u8) -> BuildingInstance {
    BuildingInstance {
        x: 0,
        y: 0,
        angle: 0,
        side,
        kind: 0,
        shadow_kind: 0,
        shadow_size: 128,
        turrets_places_cnt: 0,
        turret_places: Vec::new(),
    }
}

fn record(prop: i32, d2: &[f32]) -> CannonRecord {
    CannonRecord {
        x: 1,
        y: 2,
        angle: 3,
        kind: 4,
        side: 9,
        add_h: 0,
        prop,
        coord: (5, 6),
        d2: d2.iter().map(|d| d.to_bits()).collect(),
    }
}

#[test]
fn cannons_go_to_the_nearest_building_with_room() {
    let mut b = vec![building(1), building(2)];
    let far = 600.0f32 * 600.0;
    let recs = vec![
        record(0, &[1.0, 1.0]),
        record(1, &[9.0, 4.0]),
        record(2, &[4.0, 4.0]),
        record(1, &[far, far]),
        record(1, &[9.0, 4.0]),
        record(1, &[9.0, 4.0]),
        record(1, &[9.0, 4.0]),
        record(1, &[9.0, 4.0]),
    ];
    let out = attach_cannons(&recs, &mut b);
    let got: Vec<_> = out.iter().map(|c| (c.side, c.parent_building, c.parent_slot)).collect();
    assert_eq!(
        got,
        vec![
            (9, None, -1),
            (2, Some(1), 0),
            (1, Some(0), 0),
            (9, None, -1),
            (2, Some(1), 1),
            (2, Some(1), 2),
            (2, Some(1), 3),
            (1, Some(0), 1),
        ]
    );
    let props: Vec<i32> = out.iter().map(|c| c.prop).collect();
    assert_eq!(props, vec![0, 1, 2, 2, 1, 1, 1, 1]);
    assert!(out[0].is_cannon() && !out[2].is_cannon() && !out[3].is_cannon());
    assert_eq!((b[0].turrets_places_cnt, b[1].turrets_places_cnt), (2, 4));
    assert_eq!(b[0].turret_places[0].cannon_type, -1);
    assert_eq!(b[0].turret_places[1].cannon_type, 4);
    assert_eq!(b[1].turret_places[0].coord, (5, 6));
}

#[test]
fn robots_are_put_together_from_tokens() {
    let p = parse_robot_units("1,3, 1.5|2,7|2, x|3,2||4,1|9,9|5");
    assert_eq!(p.chassis_kind, RobotUnitKind(3));
    assert_eq!(p.angle.as_deref(), Some("1.5"));
    assert_eq!(p.armor_kind, RobotUnitKind(2));
    assert_eq!(p.head_kind, RobotUnitKind(1));
    assert_eq!(p.weapons[0], RobotUnitKind(7));
    assert_eq!(p.weapons[1], RobotUnitKind(0));
    let many = parse_robot_units("2,1|2,2|2,3|2,4|2,5|2,6|2,7");
    assert_eq!(many.weapons[4], RobotUnitKind(5));

    let r = load_robots(&RobotColumns {
        x: lef(&[1.0, 2.0]),
        y: lef(&[1.0, 2.0]),
        side: vec![3],
        shadow: vec![],
        shadow_size: le(&[]),
        group: le(&[]),
        units: strings(&["1,2"]),
    });
    assert_eq!(r.len(), 2);
    assert_eq!((r[0].side, r[0].shadow_size, r[0].group), (3, 128, -1));
    assert_eq!(r[0].parts.chassis_kind, RobotUnitKind(2));
    assert_eq!(r[1].side, 0);
    let teams = load_robots(&RobotColumns {
        x: lef(&[0.0; 5]),
        y: lef(&[0.0; 5]),
        side: vec![],
        shadow: vec![],
        shadow_size: vec![],
        group: le(&[0, 1, 3, 4, 7]),
        units: vec![],
    });
    let got: Vec<i32> = teams.iter().map(|r| r.group).collect();
    assert_eq!(got, vec![-1, 1, 3, -1, -1]);
}

#[test]
fn effects_with_a_text_are_kept() {
    let c = EffectColumns {
        x: lef(&[1.0, 2.0]),
        y: lef(&[1.0, 2.0]),
        z: lef(&[1.0, 2.0]),
        kind: le(&[1, 7]),
    };
    let e = load_effects(&c, &strings(&["a", "b"]));
    assert_eq!(e.len(), 1);
    assert_eq!(e[0].spec, "b");
}

#[test]
fn side_descriptions() {
    let r = parse_side_res_info("2,1,2,3,4|3,5,6,7,8,1");
    assert_eq!(r.len(), 2);
    assert_eq!((r[0].side, r[0].res), (2, (1, 2, 3, 4)));
    assert_eq!(r[1].force_up, 1);
    let a = parse_side_ai_info("Red:A/1/B/2|Blue:C/3");
    assert_eq!(a.len(), 2);
    assert_eq!(a[0].name, "Red");
    assert_eq!(a[0].pairs[1], ("B".to_string(), "2".to_string()));
}

#[test]
fn influence_has_a_target_and_a_size() {
    let of = |v: f32| {
        let r = influence(v.to_bits());
        (f32::from_bits(r.amount), r.target)
    };
    assert_eq!(of(0.5), (0.5, 0xff_ffff));
    assert_eq!(of(-0.25), (0.25, 0));
    assert_eq!(of(3.0), (1.0, 0xff_ffff));
    assert_eq!(of(-3.0), (1.0, 0));
    assert_eq!(of(0.0), (0.0, 0));
}

#[test]
fn pylons_from_bone_names() {
    let bone = |id, name: &str| Bone {
        id,
        name: name.to_string(),
    };
    let m = weapon_matrix_from_vo(&vec![
        bone(25, "W,7,I"),
        bone(10, "W,1"),
        bone(22, " W , 1, 2"),
        bone(30, "Wx,1"),
        bone(21, "W"),
    ]);
    assert_eq!((m.cnt, m.common, m.extra), (3, 1, 1));
    let ids: Vec<i32> = m.list[..3].iter().map(|s| s.id).collect();
    assert_eq!(ids, vec![21, 22, 25]);
    assert_eq!(m.list[1].access_invert, 0b11);
    assert_eq!(m.list[2].access_invert, (1 << 6) | (1 << 31));
    assert!(m.is_extra_slot(2) && !m.is_extra_slot(1));
}

// ── Objects in an arena ─────────────────────────────────────────────────

fn field() -> Field {
    let zero = Pos3 { x: 0, y: 0, z: 0 };
    let still = Fling {
        pos: zero,
        velocity: zero,
        ttl: 0,
        dp: 0,
        dy: 0,
        dr: 0,
    };
    let rows = || {
        vec![DamageRow {
            weap: Weapon::Gun,
            row: WeaponDamage {
                damage: 30,
                mindamage: 0,
                friend_damage: 5,
            },
        }]
    };
    Field {
        times: BuildTimes {
            robot_ms: 100,
            turret_ms: 50,
        },
        building_damages: rows(),
        cannon_damages: rows(),
        difficulty: Difficulty {
            k_damage_enemy_to_player: 1000,
            k_friendly_fire: 1000,
        },
        now: 0,
        wreck: Scatter {
            basis_pos: zero,
            basis_ttl: 0,
            turret: still,
            shaft: still,
        },
        structure: Structure {
            chassis: vec![0, 10, 20, 30],
            hull: vec![0, 100, 200],
            head: vec![0, 5],
        },
        produced: Vec::new(),
        leaving: Vec::new(),
        robot_hits: Vec::new(),
        photos: Vec::new(),
        struck: Vec::new(),
    }
}

fn base(o: &GameObject) -> &Building {
    match o {
        GameObject::Building(b) => b,
        _ => panic!("not a building"),
    }
}

fn house(side: u8) -> Building {
    let zero = Pos3 { x: 0, y: 0, z: 0 };
    let cell = matrix_game::map_static::CellRect {
        x0: 0,
        y0: 0,
        x1: 0,
        y1: 0,
    };
    let mut b = Building::from_instance(&building(side), 0, zero, 0, cell);
    b.init_max_hitpoint(100);
    b
}

#[test]
fn buildings_take_turns_in_an_arena() {
    let mut objs = Objects::new();
    let mut env = field();
    let id = objs.spawn(GameObject::Building(house(2)));
    objs.add_lt(id);
    let Some(GameObject::Building(b)) = objs.get_mut(id) else {
        panic!("not a building")
    };
    b.self_id = Some(id);
    b.base_floor_progress = BASE_FLOOR_MS;
    b.close();
    assert!(b.queue_default_robot(ChassisKind::Wheel));
    for _ in 0..BASE_FLOOR_MS / 10 {
        objs.proceed_logic(10, &mut env);
    }
    assert_eq!(base(objs.get(id).unwrap()).state, BaseState::Closed);
    objs.proceed_logic(10, &mut env);
    assert_eq!(env.produced.len(), 1);
    let robot_id = env.produced[0];
    assert!(objs.in_lt(robot_id));
    assert_eq!(objs.len(), 2);
    match objs.get(robot_id) {
        Some(GameObject::Robot(r)) => {
            assert_eq!((r.side, r.base, r.self_id), (2, Some(id), Some(robot_id)));
            assert_eq!(r.chassis, ChassisKind::Wheel);
            assert_eq!((r.hit_point, r.hit_point_max), (120, 120));
            assert_eq!(r.team, 0);
        }
        _ => panic!("not a robot"),
    }
    assert_eq!(base(objs.get(id).unwrap()).state, BaseState::Opening);
    objs.graphic_takt(10, &mut env);
    assert_eq!(base(objs.get(id).unwrap()).hit_point, 100);
}

#[test]
fn hits_on_buildings_go_by_the_rows() {
    let mut objs = Objects::new();
    let mut env = field();
    let id = objs.spawn(GameObject::Building(house(2)));
    let zero = Pos3 { x: 0, y: 0, z: 0 };
    let hit = |weap, attacker_side| Hit {
        weap,
        pos: zero,
        dir: zero,
        attacker_side,
        attacker: None,
    };
    assert!(!objs.apply_damage(id, hit(Weapon::Gun, 1), "hit", &mut env));
    assert_eq!(base(objs.get(id).unwrap()).hit_point, 70);
    assert_eq!(objs.pending_sounds.len(), 1);
    objs.apply_damage(id, hit(Weapon::Other(5), 1), "", &mut env);
    assert_eq!(base(objs.get(id).unwrap()).hit_point, 70);
    assert_eq!(objs.pending_sounds.len(), 1);
    for _ in 0..2 {
        objs.apply_damage(id, hit(Weapon::Gun, 1), "", &mut env);
    }
    assert!(objs.apply_damage(id, hit(Weapon::Gun, 1), "", &mut env));
    assert_eq!(base(objs.get(id).unwrap()).state, BaseState::Dip);
    objs.remove(id);
    assert!(!objs.apply_damage(id, hit(Weapon::Gun, 1), "", &mut env));
    assert_eq!(find_row(&env.building_damages, Weapon::Repair).damage, 0);
}

#[test]
fn a_hit_cannon_is_noted_and_counted() {
    let mut objs = Objects::new();
    let mut env = field();
    let gun = Cannon::new(ObjectCore::default(), (0, 0), 0, 0, 2, 1, None, 0, Some(50_000));
    let id = objs.spawn(GameObject::Cannon(gun));
    let zero = Pos3 { x: 0, y: 0, z: 0 };
    let hit = Hit {
        weap: Weapon::Gun,
        pos: zero,
        dir: zero,
        attacker_side: 3,
        attacker: None,
    };
    assert!(!objs.apply_damage(id, hit, "", &mut env));
    assert!(objs.apply_damage(id, hit, "", &mut env));
    assert_eq!(env.struck.len(), 2);
    assert!(env.struck[0].outcome.impact && env.struck[1].outcome.boom);
    assert_eq!(env.struck[1].id, id);
    assert_eq!(objs.side_stats[3].turret_kill, 1);
    objs.add_lt(id);
    let last = objs.spawn(GameObject::Building(house(1)));
    objs.add_lt(last);
    let mut walk = objs.begin_logic();
    let (out, gun) = objs.next_logic(&mut walk, 10, &mut env).unwrap();
    assert_eq!((out, walk.at), (id, 1));
    assert!(matches!(&gun, GameObject::Cannon(c) if c.dip_units.len() == 3));
    assert!(objs.is_checked_out(id));
    objs.put_obj(id, gun);
    assert!(objs.next_logic(&mut walk, 10, &mut env).is_none());
    assert_eq!(walk.at, 2);
}

#[test]
fn new_robots_go_to_the_smallest_team() {
    let mut objs = Objects::new();
    let mut env = field();
    let id = objs.spawn(GameObject::Building(house(2)));
    objs.add_lt(id);
    let mut teams = Vec::new();
    for _ in 0..3 {
        let Some(GameObject::Building(b)) = objs.get_mut(id) else {
            panic!("not a building")
        };
        b.self_id = Some(id);
        b.state = BaseState::Closed;
        assert!(b.queue_default_robot(ChassisKind::Track));
        let mut walk = objs.begin_logic();
        while let Some((other, o)) = objs.next_logic(&mut walk, 100, &mut env) {
            objs.put_obj(other, o);
        }
        if let Some(GameObject::Robot(r)) = objs.get(*env.produced.last().unwrap()) {
            teams.push(r.team);
        }
    }
    // One in the first team leaves the other two tied, and a tie goes to the first.
    assert_eq!(teams, vec![0, 0, 0]);
    let hit = Hit {
        weap: Weapon::Gun,
        pos: Pos3 { x: 0, y: 0, z: 0 },
        dir: Pos3 { x: 0, y: 0, z: 0 },
        attacker_side: 3,
        attacker: None,
    };
    assert!(!objs.apply_damage(env.produced[0], hit, "", &mut env));
    assert_eq!(env.robot_hits.len(), 1);
}

#[test]
fn classes_of_objects() {
    let b = house(1);
    assert!(is_building(&b));
    assert!(!is_robot(&b) && !is_cannon(&b) && !is_flyer(&b) && !is_map_object(&b));
}

#[test]
fn sounds_with_handles() {
    let mut objs: Objects<Building> = Objects::new();
    let h = SndHandle { id: 7 };
    let at = Pos3 { x: 1, y: 1, z: 1 };
    objs.queue_snd_layer("a", SoundLayer::All);
    objs.queue_snd_play_at("b", at, SoundLayer::All, Some(h));
    objs.queue_snd_follow(h, "c", at, SoundLayer::All);
    objs.queue_snd_move(h, "d", at);
    objs.queue_snd_stop(h);
    objs.queue_snd_at_skip("e", at);
    assert_eq!(objs.pending_sounds.len(), 6);
    assert!(matches!(&objs.pending_sounds[4], SndEvent::Stop { handle } if *handle == h));
    assert!(matches!(&objs.pending_sounds[3], SndEvent::ChangePos { key, .. } if key == "d"));
}
