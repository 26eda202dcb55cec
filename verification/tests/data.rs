use matrix_game::anim::{
    build_per_surface_frame_ranges, AnimState, VoAnimFrame, VoAnimation, VoFrame, VoSurfaceMesh,
};
use matrix_game::bytes::{read_i32_array, read_i32_le, read_u32_array, signed, unsigned};
use matrix_game::cmap::{Cmap, CmapError};
use matrix_game::common::{
    RobotUnitKind, CELLFLAG_FLAT, CELLFLAG_LAND, CELLFLAG_WATER, MAX_WEAPON_CNT,
};
use matrix_game::float_bits;
use matrix_game::map::{pack_color, GameMap, Ground, MoveCell, NormalRule, UnitPlane};
use matrix_game::map_prepare::{load_road_network, Roads, RoadsError};
use matrix_game::placements::{
    load_cannon_rows, load_objects, load_robots, parse_object_shadow, parse_robot_units,
    CannonColumns, ObjectColumns, RobotColumns,
};
use matrix_game::properties::{
    find_property_int, macro_candidates, parse_macro_texture, parse_side_ai_info, parse_side_res_info, slashed,
    PropertyError,
};
use matrix_game::session::{
    current_elapsed_ms, full_auto, map_name, map_name_is_terron, portrets_visible, set_full_auto,
    set_map_name, set_portrets_in_position, show_portrets, MapScope, Session,
};
use matrix_game::side::{side_color_minimap_rgb, side_color_rgb, side_color_u32};
use matrix_game::text::{parse_i32, split, split_once, splitn, trim};
use matrix_game::weapon_matrix::{
    default_weapon_matrix, set_weapon_matrix_for, weapon_matrices_slot, weapon_matrix_from_vo,
    Bone, Unit, WeaponMatrix, WeaponMatrixSlot, WEAPON_BOMB,
};

fn strings(v: &[&str]) -> Vec<String> {
    v.iter().map(|s| s.to_string()).collect()
}

fn le(v: &[u32]) -> Vec<u8> {
    v.iter().flat_map(|x| x.to_le_bytes()).collect()
}

fn lef(v: &[f32]) -> Vec<u8> {
    v.iter().flat_map(|x| x.to_le_bytes()).collect()
}

// ── Text and bytes ──────────────────────────────────────────────────────

#[test]
fn texts_are_cut_like_the_standard_ones() {
    for s in ["", " a ", "\t\n x y \r", "a", "  ", "\u{a0}z\u{2003}"] {
        assert_eq!(trim(s), s.trim());
    }
    for s in ["", "a,b", ",", "a,,b,", "abc"] {
        assert_eq!(split(s, ','), s.split(',').collect::<Vec<_>>());
        assert_eq!(split_once(s, ','), s.split_once(','));
        for n in 0..4 {
            assert_eq!(splitn(s, ',', n), s.splitn(n, ',').collect::<Vec<_>>());
        }
    }
    for s in [
        "0", "-1", "+7", "2147483647", "2147483648", "-2147483648", "-2147483649", "", "-", "1x",
        "00012", " 1",
    ] {
        assert_eq!(parse_i32(s), s.parse::<i32>().ok(), "{}", s);
    }
}

#[test]
fn numbers_in_bytes() {
    assert_eq!(read_u32_array(&[1, 0, 0, 0, 255, 255, 255, 255, 9]), vec![1, u32::MAX]);
    assert_eq!(read_i32_array(&[254, 255, 255, 255]), vec![-2]);
    let mut off = 1;
    assert_eq!(read_i32_le(&[0, 5, 0, 0, 0, 1], &mut off), Some(5));
    assert_eq!(off, 5);
    assert_eq!(read_i32_le(&[0, 5, 0, 0, 0, 1], &mut off), None);
    assert_eq!(off, 5);
    assert_eq!(signed(unsigned(-77)), -77);
}

#[test]
fn comparison_of_patterns_is_that_of_numbers() {
    let vs = [
        0.0f32, -0.0, 1.0, -1.0, 1.5, 1e-20, -1e20, f32::INFINITY, f32::NEG_INFINITY, f32::NAN,
    ];
    for a in vs {
        for b in vs {
            let (x, y) = (a.to_bits(), b.to_bits());
            assert_eq!(float_bits::lt(x, y), a < b);
            assert_eq!(float_bits::le(x, y), a <= b);
            assert_eq!(float_bits::eq(x, y), a == b);
            let (mn, mx) = (
                f32::from_bits(float_bits::min(x, y)),
                f32::from_bits(float_bits::max(x, y)),
            );
            assert!(mn == a.min(b) || (mn.is_nan() && a.min(b).is_nan()));
            assert!(mx == a.max(b) || (mx.is_nan() && a.max(b).is_nan()));
        }
    }
}

// ── Properties ──────────────────────────────────────────────────────────

#[test]
fn properties_by_name() {
    let names = strings(&["A", "B", "A"]);
    let values = strings(&[" 12 ", "x", "13"]);
    assert_eq!(find_property_int(&names, &values, "A"), Ok(12));
    assert_eq!(
        find_property_int(&names, &values, "B"),
        Err(PropertyError::NotANumber)
    );
    assert_eq!(
        find_property_int(&names, &values, "C"),
        Err(PropertyError::Missing)
    );
}

#[test]
fn side_texts() {
    let r = parse_side_res_info("1,10,20,30,40,5");
    assert_eq!(r.len(), 1);
    assert_eq!(r[0].side, 1);
    assert_eq!(r[0].res, (10, 20, 30, 40));
    assert_eq!(r[0].force_up, 5);
    assert!(parse_side_ai_info("").is_empty());
    assert_eq!(slashed("a\\b/c"), "a/b/c");
}

#[test]
fn macro_texture_path_and_size() {
    assert!(parse_macro_texture("").path.is_none());
    let m = parse_macro_texture("Matrix\\Map\\macro?x");
    assert_eq!(m.path.as_deref(), Some("Matrix/Map/macro"));
}

// ── Maps ────────────────────────────────────────────────────────────────

fn point(z: f32, flags: u8) -> Vec<u8> {
    let mut v = 0u32.to_le_bytes().to_vec();
    v.extend(z.to_le_bytes());
    v.extend([30, 20, 10, flags]);
    v
}

fn flat_points(w: usize, h: usize, z: f32, flags: u8) -> Vec<u8> {
    (0..(w + 1) * (h + 1)).flat_map(|_| point(z, flags)).collect()
}

fn cmap(w: &str, h: &str, points: Vec<u8>) -> Cmap {
    Cmap {
        property_names: Some(strings(&["SizeInUnitsX", "SizeInUnitsY"])),
        property_values: Some(strings(&[w, h])),
        points: Some(points),
        move_data: Vec::new(),
        bridges: Vec::new(),
        roads: None,
        inshores: None,
        effects: None,
        strings: Vec::new(),
        objects: None,
        buildings: None,
        cannons: None,
        robots: None,
    }
}

#[test]
fn flat_map_loads() {
    let m = GameMap::from_cmap(&cmap("3", "2", flat_points(3, 2, 7.5, CELLFLAG_LAND))).unwrap();
    assert_eq!((m.size_x, m.size_y), (3, 2));
    assert_eq!((m.size_move_x, m.size_move_y), (6, 4));
    assert_eq!(m.points.len(), 12);
    assert_eq!(f32::from_bits(m.point(3, 2).z), 7.5);
    assert_eq!((m.point(0, 0).r, m.point(0, 0).g, m.point(0, 0).b), (10, 20, 30));
    let flags = m.unit_flags(2, 1).unwrap();
    assert_ne!(flags & CELLFLAG_FLAT, 0);
    assert_eq!(flags & CELLFLAG_WATER, 0);
    assert!(m.unit_flags(3, 1).is_none());
    assert!(m.unit_flags(-1, 0).is_none());
    assert_eq!(
        m.ground(0, 0),
        Ground::Plane(UnitPlane::Flat {
            z: 7.5f32.to_bits()
        })
    );
    assert_eq!(m.ground(9, 0), Ground::Nothing);
    assert_eq!(m.normal_rule(9, 9, false), NormalRule::Up);
    assert_eq!((m.group_w, m.group_h), (1, 1));
    assert_eq!(f32::from_bits(m.group_max_z_land_at(0, 0)), 7.5);
    assert_eq!(m.group_max_z_land_at(1, 0), 0);
    assert_eq!(f32::from_bits(m.min_z), 7.5);
    assert!(m.is_passable_size(0, 0, 0, 1));
    assert!(!m.is_passable_size(-1, 0, 0, 1));
    assert!(m.move_cell(6, 0).is_none());
}

#[test]
fn refused_maps() {
    let err = |c: Cmap| GameMap::from_cmap(&c).err().unwrap();
    let mut c = cmap("1", "1", flat_points(1, 1, 0.0, 0));
    c.property_names = None;
    assert_eq!(err(c), CmapError::MissingPropertyNames);
    let mut c = cmap("1", "1", flat_points(1, 1, 0.0, 0));
    c.property_values = None;
    assert_eq!(err(c), CmapError::MissingPropertyValues);
    assert_eq!(
        err(cmap("x", "1", Vec::new())),
        CmapError::SizeX(PropertyError::NotANumber)
    );
    let mut c = cmap("1", "1", Vec::new());
    c.property_names = Some(strings(&["SizeInUnitsX"]));
    assert_eq!(err(c), CmapError::SizeY(PropertyError::Missing));
    let mut c = cmap("1", "1", Vec::new());
    c.points = None;
    assert_eq!(err(c), CmapError::MissingPoints);
    assert_eq!(
        err(cmap("1", "1", vec![0; 47])),
        CmapError::PointsTooSmall { len: 47 }
    );
    let mut c = cmap("1", "1", flat_points(1, 1, 0.0, 0));
    c.roads = Some(vec![1, 2]);
    assert_eq!(err(c), CmapError::Roads(RoadsError::TooSmall { len: 2 }));
    let mut c = cmap("1", "1", flat_points(1, 1, 0.0, 0));
    c.roads = Some(vec![26, 0, 0, 0]);
    assert_eq!(err(c), CmapError::Roads(RoadsError::Version { found: 26 }));
}

#[test]
fn road_networks() {
    assert_eq!(load_road_network(&None), Ok(Roads::Missing));
    assert_eq!(load_road_network(&Some(vec![])), Ok(Roads::Missing));
    assert_eq!(load_road_network(&Some(vec![27, 0, 0, 0, 5])), Ok(Roads::Present));
}

#[test]
fn move_cells_by_chassis_and_size() {
    let mut c = MoveCell::default();
    c.stop = MoveCell::stop_mask(2, 3);
    assert_eq!(c.stop, 1 << (2 + 12));
    assert!(c.is_impassable_for(2, 3));
    assert!(!c.is_impassable_for(2, 2));
    assert!(!c.is_impassable_for(1, 3));
    assert_eq!(c.get_type(2), 0xff);
}

#[test]
fn colours_are_packed_and_held() {
    assert_eq!(pack_color(1, 2, 3), 0x010203);
    assert_eq!(pack_color(-5, 300, 0), 0x00ff00);
}

// ── Placements ──────────────────────────────────────────────────────────

#[test]
fn objects_from_columns() {
    let c = ObjectColumns {
        x: lef(&[1.0, 2.0]),
        y: lef(&[3.0, 4.0, 5.0]),
        scale: lef(&[1.0, 1.0]),
        kind: le(&[7, 8]),
        angle_z: lef(&[0.0, 0.5]),
        angle_x: None,
        angle_y: None,
        height: None,
        z: None,
        shadow: None,
    };
    let o = load_objects(&c, 10, 10);
    assert_eq!(o.len(), 2);
    assert_eq!(o[1].type_id, 8);
    assert_eq!(f32::from_bits(o[1].y), 4.0);
    assert!(o[0].shadow.is_none());
}

#[test]
fn cannon_rows_fill_in_what_is_missing() {
    let c = CannonColumns {
        x: lef(&[1.0]),
        y: lef(&[2.0]),
        side: None,
        kind: Some(vec![3]),
        angle: None,
        add_h: None,
        prop: None,
    };
    let r = load_cannon_rows(&c);
    assert_eq!(r.len(), 1);
    assert_eq!(r[0].kind, 3);
    assert_eq!(f32::from_bits(r[0].x), 1.0);
}

#[test]
fn robots_from_columns() {
    let c = RobotColumns {
        x: lef(&[1.0]),
        y: lef(&[2.0]),
        side: vec![2],
        shadow: vec![1],
        shadow_size: le(&[64]),
        group: le(&[0]),
        units: strings(&[""]),
    };
    let r = load_robots(&c);
    assert_eq!(r.len(), 1);
    assert_eq!(r[0].side, 2);
    assert_eq!(r[0].parts.chassis_kind, RobotUnitKind(0));
    assert_eq!(parse_robot_units("").weapons, [RobotUnitKind(0); MAX_WEAPON_CNT]);
}

#[test]
fn short_shadow_records_are_refused() {
    assert!(parse_object_shadow(&vec![], 4, 4).is_none());
    assert!(parse_object_shadow(&vec![1, 2, 3], 4, 4).is_none());
}

// ── Pylons ──────────────────────────────────────────────────────────────

#[test]
fn weapon_matrices_by_armour() {
    let mut t = weapon_matrices_slot();
    let mut m = WeaponMatrix::default();
    m.cnt = 2;
    set_weapon_matrix_for(&mut t, RobotUnitKind(3), m);
    assert_eq!(default_weapon_matrix(&t, RobotUnitKind(3)).cnt, 2);
    assert_eq!(default_weapon_matrix(&t, RobotUnitKind(2)).cnt, 0);
    assert_eq!(default_weapon_matrix(&t, RobotUnitKind(0)).cnt, 0);
    set_weapon_matrix_for(&mut t, RobotUnitKind(7), m);
    assert_eq!(default_weapon_matrix(&t, RobotUnitKind(7)).cnt, 0);
}

#[test]
fn model_without_pylons_has_none() {
    let m = weapon_matrix_from_vo(&vec![Bone {
        id: 1,
        name: "spine".to_string(),
    }]);
    assert_eq!((m.cnt, m.common, m.extra), (0, 0, 0));
    let none = [Unit {
        kind: RobotUnitKind(0),
    }; MAX_WEAPON_CNT];
    assert!(none[0].is_empty());
    assert_eq!(m.find_pylon_for(RobotUnitKind(1), &none), None);
}

#[test]
fn ordinary_weapons_take_the_first_ordinary_pylon() {
    let mut m = WeaponMatrix::default();
    m.cnt = 2;
    m.common = 2;
    m.list[0] = WeaponMatrixSlot {
        id: 1,
        access_invert: 0,
    };
    m.list[1] = WeaponMatrixSlot {
        id: 2,
        access_invert: 0,
    };
    let none = Unit {
        kind: RobotUnitKind(0),
    };
    let mut have = [none; MAX_WEAPON_CNT];
    assert_eq!(m.find_pylon_for(RobotUnitKind(1), &have), Some(0));
    have[0] = Unit {
        kind: RobotUnitKind(1),
    };
    assert_eq!(m.find_pylon_for(RobotUnitKind(1), &have), Some(1));
    assert!(!m.is_extra_slot(0));
}

#[test]
fn macro_textures_to_try() {
    let named = parse_macro_texture("Matrix\\Macrotexture\\05?SIM80");
    assert_eq!(macro_candidates(&named), vec!["Matrix/Macrotexture/05", "macrotexture"]);
    let none = parse_macro_texture("?");
    assert_eq!(macro_candidates(&none), vec!["macrotexture"]);
}

#[test]
fn heavy_weapons_take_an_empty_heavy_pylon() {
    let mut m = WeaponMatrix::default();
    m.cnt = 2;
    m.list[1].access_invert = 1 << 6;
    let bomb = RobotUnitKind(WEAPON_BOMB);
    let mut have = [Unit {
        kind: RobotUnitKind(0),
    }; MAX_WEAPON_CNT];
    assert_eq!(m.find_pylon_for(bomb, &have), Some(1));
    have[1].kind = bomb;
    assert_eq!(m.find_pylon_for(bomb, &have), None);
    // Heavy pylons beyond the weapon places count as empty.
    m.cnt = 6;
    m.list[5].access_invert = 1 << 6;
    assert_eq!(m.find_pylon_for(bomb, &have), Some(5));
}

// ── Animation ───────────────────────────────────────────────────────────

fn frame(time_ms: i32, frame_index: usize) -> VoAnimFrame {
    VoAnimFrame {
        time_ms,
        frame_index,
    }
}

#[test]
fn animation_takes_the_steps_that_are_due() {
    let mut a = AnimState::new(vec![VoAnimation {
        frames: vec![frame(100, 4), frame(50, 9), frame(50, 2)],
    }]);
    assert_eq!(a.current_anim_frame_count(), 3);
    assert_eq!(a.vo_frame, 4);
    assert!(!a.takt(50));
    assert!(a.takt(60));
    assert_eq!(a.vo_frame, 9);
    assert_eq!(a.anim_frame_time(1), 50);
    assert_eq!(a.anim_frame_index(2), 2);
}

#[test]
fn animation_tells_when_the_frame_changes() {
    let mut a = AnimState::new(vec![VoAnimation {
        frames: vec![frame(10, 3), frame(10, 3)],
    }]);
    assert!(!a.takt(11));
    assert_eq!((a.frame_slot, a.vo_frame), (1, 3));
}

#[test]
fn animation_adds_its_turns_up() {
    let start = || {
        AnimState::new(vec![VoAnimation {
            frames: vec![frame(100, 4), frame(50, 9), frame(30, 2)],
        }])
    };
    let (mut split, mut whole) = (start(), start());
    split.takt(120);
    split.takt(140);
    whole.takt(260);
    assert_eq!(split.vo_frame, whole.vo_frame);
    let mut once = AnimState::new(vec![VoAnimation {
        frames: vec![frame(-10, 1), frame(10, 7)],
    }]);
    for _ in 0..5 {
        once.takt(1500);
    }
    assert_eq!(once.vo_frame, 7);
}

fn surface(t: Option<&str>, indices: Vec<u32>) -> VoSurfaceMesh {
    VoSurfaceMesh {
        texture_ref: t.map(|s| s.to_string()),
        indices,
    }
}

#[test]
fn surfaces_over_all_frames() {
    let frames = vec![
        VoFrame {
            surfaces: vec![surface(Some("a"), vec![0, 1, 2]), surface(Some("b"), vec![3, 4, 5])],
        },
        VoFrame {
            surfaces: vec![surface(Some("b"), vec![6, 7, 8, 9, 10, 11])],
        },
    ];
    let r = build_per_surface_frame_ranges(&frames);
    assert_eq!(r.len(), 2);
    assert_eq!(r[0].texture_ref.as_deref(), Some("a"));
    assert_eq!(r[0].frame_ranges, vec![(0, 3), (0, 0)]);
    assert_eq!(r[1].concat_indices, vec![3, 4, 5, 6, 7, 8, 9, 10, 11]);
    assert_eq!(r[1].frame_ranges, vec![(0, 3), (3, 6)]);
}

#[test]
fn a_range_covers_all_of_a_frame() {
    let frames = vec![
        VoFrame {
            surfaces: vec![
                surface(Some("a"), vec![1]),
                surface(Some("b"), vec![2]),
                surface(Some("a"), vec![3, 4]),
            ],
        },
        VoFrame {
            surfaces: vec![surface(Some("a"), vec![5])],
        },
    ];
    let r = build_per_surface_frame_ranges(&frames);
    assert_eq!(r[0].concat_indices, vec![1, 3, 4, 5]);
    assert_eq!(r[0].frame_ranges, vec![(0, 3), (3, 1)]);
    assert_eq!(r[1].frame_ranges, vec![(0, 1), (0, 0)]);
}

// ── Session and sides ───────────────────────────────────────────────────

#[test]
fn portraits_stay_uncovered_until_the_next_map() {
    let mut s = Session::new();
    set_map_name(&mut s, "Map of TerRon base");
    assert_eq!(map_name(&s), "Map of TerRon base");
    assert!(map_name_is_terron(&s));
    assert!(!portrets_visible(&s));
    set_portrets_in_position(&mut s, true);
    assert!(portrets_visible(&s));
    show_portrets(&mut s);
    set_portrets_in_position(&mut s, false);
    assert!(portrets_visible(&s));
    set_map_name(&mut s, "training");
    assert!(!portrets_visible(&s));
    assert!(!map_name_is_terron(&s));
}

#[test]
fn clock_runs_in_a_scope() {
    let mut s = Session::new();
    let scope = MapScope::enter(&mut s, 1234);
    assert_eq!(current_elapsed_ms(&s), 1234);
    assert!(s.map_in_scope);
    scope.leave(&mut s);
    assert!(!s.map_in_scope);
    assert_eq!(current_elapsed_ms(&s), 0);
    set_full_auto(&mut s, true);
    assert!(full_auto(&s));
}

#[test]
fn colours_of_sides() {
    assert_eq!(side_color_rgb(2), (142, 0, 0));
    assert_eq!(side_color_u32(2), 0x8e0000);
    assert_eq!(side_color_minimap_rgb(3), (0, 0, 255));
    assert_eq!(side_color_rgb(77), (128, 128, 128));
}
