use matrix_game::anim::{AnimState, VoAnimFrame, VoAnimation};
use matrix_game::arena::ObjectType;
use matrix_game::cmap::Cmap;
use matrix_game::common::{
    TRACE_ALL, TRACE_LANDSCAPE, TRACE_OBJECT, TRACE_ROBOT, TRACE_WATER,
};
use matrix_game::draw_plan::{
    lit_channel, minimap_stages, overlay_visible, relight, render_stages, skipped, LitRect, Lum,
    PointCoord, Present, Rgb, Stage,
};
use matrix_game::map::GameMap;
use matrix_game::map_group::{
    build_bottom_cpu_batches, build_water_alpha_image, parse_group, water_alpha,
    water_bearing_groups, ShoreHeight,
};
use matrix_game::map_static::Objects;
use matrix_game::map_trace::{
    cell_hit, trace_ending, triangle_hit, CellCorners, Crossing, GridLine, Spot, TraceEnd,
    TraceLine, TraceStop,
};
use matrix_game::mesh_plan::{
    BaseFloor,
    KindMeshes,
    MAX_CANNON_INSTANCES,
    MaterialChoice,
    ModelInfo,
    SeenCannon,
    ShadowKind,
    ShadowPart,
    advance_anims,
    anim_slots,
    building_material,
    cannons_of_kind,
    directory_of,
    drawn_surfaces,
    first_frame_indices,
    frame_range,
    group_by_key,
    marker_kind,
    pack_cannons,
    part_counts,
    piece_shown,
    pool_shadow_parts,
    retain_drawn,
    scenery_material,
    shadow_texture_size,
    sub_unit_offset,
    sync_building_animation,
};
use matrix_game::object_building::{BuildingType, BASE_FLOOR_MS};
use matrix_game::object_cannon::CannonDipPart;
use matrix_game::sky::{
    build_skybox_vertices, face_config_keys, gradient_top, parse_face, reflection_path,
    resolve_sky_faces,
};
use matrix_game::terrain_fill::{
    batch_use, cell_window, corner_height, fill_atlas, fill_holes, fill_sets, inside, lower_floor,
    nearest_tile, parse_surface, quad_indices, record_tile, sample_window, surface_vertex,
    top_heights, BatchUse, Coverage, Edges, FillInput, FillKind, Tile, UsedVertex,
};
use std::cell::RefCell;

fn bits(v: f32) -> u32 {
    v.to_bits()
}

fn strings(v: &[&str]) -> Vec<String> {
    v.iter().map(|s| s.to_string()).collect()
}

/// A map of points with heights and flags, row after row.
fn map_of(w: usize, h: usize, pts: &[(f32, u8)]) -> GameMap {
    assert_eq!(pts.len(), (w + 1) * (h + 1));
    let mut points = Vec::new();
    for (z, flags) in pts {
        points.extend(0u32.to_le_bytes());
        points.extend(z.to_le_bytes());
        points.extend([30, 20, 10, *flags]);
    }
    let c = Cmap {
        property_names: Some(strings(&["SizeInUnitsX", "SizeInUnitsY"])),
        property_values: Some(vec![w.to_string(), h.to_string()]),
        points: Some(points),
        move_data: Vec::new(),
        bridges: Vec::new(),
        roads: None,
        inshores: None,
        effects: None,
        strings: Vec::new(),
        objects: None,
        buildings: None,
        cannons: None,
        robots: None,
    };
    GameMap::from_cmap(&c).unwrap()
}

const LAND: u8 = matrix_game::common::CELLFLAG_LAND;
const WATER: u8 = matrix_game::common::CELLFLAG_WATER;
const DOWN: u8 = matrix_game::common::CELLFLAG_DOWN;

// ── Traces ──────────────────────────────────────────────────────────────

fn crossing(det: f32, u: f32, v: f32, t: f32) -> Crossing {
    Crossing {
        det: bits(det),
        u: bits(u),
        v: bits(v),
        uv: bits(u + v),
        t: bits(t),
    }
}

#[test]
fn triangles_are_hit_from_the_front_only() {
    assert_eq!(triangle_hit(crossing(1.0, 0.2, 0.3, 5.0)), Some(bits(5.0)));
    assert_eq!(triangle_hit(crossing(-1.0, 0.2, 0.3, 5.0)), None);
    assert_eq!(triangle_hit(crossing(0.00005, 0.2, 0.3, 5.0)), None);
    assert_eq!(triangle_hit(crossing(1.0, -0.1, 0.3, 5.0)), None);
    assert_eq!(triangle_hit(crossing(1.0, 0.2, -0.3, 5.0)), None);
    assert_eq!(triangle_hit(crossing(1.0, 0.8, 0.3, 5.0)), None);
    assert_eq!(triangle_hit(crossing(1.0, 0.2, 0.3, -5.0)), None);
    let (miss, hit) = (crossing(-1.0, 0.2, 0.3, 1.0), crossing(1.0, 0.2, 0.3, 7.0));
    assert_eq!(cell_hit(miss, hit), Some(bits(7.0)));
    assert_eq!(cell_hit(hit, crossing(1.0, 0.2, 0.3, 1.0)), Some(bits(7.0)));
}

fn line(ex: i32, ey: i32, tx: &[f32], ty: &[f32]) -> GridLine {
    GridLine {
        cx: 0,
        cy: 0,
        ex,
        ey,
        grows_x: ex >= 0,
        grows_y: ey >= 0,
        tx: tx.iter().map(|v| bits(*v)).collect(),
        ty: ty.iter().map(|v| bits(*v)).collect(),
    }
}

#[test]
fn cells_are_visited_from_the_start_on() {
    let seen = RefCell::new(Vec::new());
    let miss = |x: i32, y: i32| -> Option<u32> {
        seen.borrow_mut().push((x, y));
        None
    };
    let l = line(2, -1, &[0.5, 1.5, 2.5, 3.5], &[1.0, 9.0, 9.0, 9.0]);
    assert_eq!(l.trace_landscape(bits(10.0), &miss), None);
    assert_eq!(seen.borrow().clone(), vec![(0, 0), (1, 0), (1, -1), (2, -1)]);

    let at = |x: i32, _y: i32| -> Option<u32> {
        if x == 1 {
            Some(bits(0.7))
        } else {
            None
        }
    };
    assert_eq!(l.trace_landscape(bits(10.0), &at), Some(bits(0.7)));
    assert_eq!(l.trace_landscape(bits(0.6), &at), None);
}

fn trace_line(start_z: f32, end_z: f32) -> TraceLine {
    TraceLine {
        len: bits(100.0),
        start_z: bits(start_z),
        end_z: bits(end_z),
        slope: bits(0.5),
        sea_x: 1,
        sea_y: 0,
    }
}

fn spot(z: f32, x: i32) -> Spot {
    Spot {
        z: bits(z),
        x,
        y: 0,
    }
}

#[test]
fn nearest_thing_ends_a_trace() {
    // The left cell is land, the right one water.
    let map = map_of(
        2,
        1,
        &[(5.0, LAND), (-9.0, WATER), (-9.0, WATER), (5.0, LAND), (-9.0, WATER), (-9.0, WATER)],
    );
    let wet = map.water_cell_at(1, 0);
    assert!(wet);
    assert!(!map.water_cell_at(0, 0));
    let mut objs: Objects<u8> = Objects::new();
    let id = objs.arena.spawn(0, ObjectType::RobotAi);
    let l = trace_line(50.0, 20.0);
    let obj = Some((id, bits(10.0)));
    let land = Some((bits(20.0), spot(3.0, 0)));
    let end = |mask, l, obj, land| trace_ending(&map, mask, l, obj, land);
    assert_eq!(
        end(TRACE_ALL, l, obj, land),
        (TraceStop::Object(id), TraceEnd::Along(bits(10.0)))
    );
    assert_eq!(
        end(TRACE_ALL, l, Some((id, bits(30.0))), land),
        (TraceStop::Landscape, TraceEnd::Along(bits(20.0)))
    );
    // Beyond the end of the line there is nothing.
    assert_eq!(
        end(TRACE_ROBOT, l, Some((id, bits(130.0))), land),
        (TraceStop::Nothing, TraceEnd::End)
    );
    assert_eq!(end(TRACE_OBJECT, l, None, land), (TraceStop::Nothing, TraceEnd::End));
    // The bed of the sea is covered by its surface; a dry basin is not.
    let down = trace_line(50.0, -20.0);
    assert_eq!(
        end(TRACE_ALL, down, None, Some((bits(90.0), spot(-9.0, 1)))),
        (TraceStop::Water, TraceEnd::Sea)
    );
    assert_eq!(
        end(TRACE_ALL, down, None, Some((bits(90.0), spot(-9.0, 0)))),
        (TraceStop::Landscape, TraceEnd::Along(bits(90.0)))
    );
    assert_eq!(
        end(TRACE_LANDSCAPE, down, None, Some((bits(90.0), spot(-9.0, 1)))),
        (TraceStop::Landscape, TraceEnd::Along(bits(90.0)))
    );
    assert_eq!(end(TRACE_WATER, l, None, None), (TraceStop::Nothing, TraceEnd::End));
    let mut short = down;
    short.len = bits(0.0);
    assert_eq!(end(TRACE_ALL, short, obj, land), (TraceStop::Nothing, TraceEnd::End));
    assert_eq!(TraceStop::Object(id).object(), Some(id));
    assert_eq!(TraceStop::Water.object(), None);
}

// ── Groups ──────────────────────────────────────────────────────────────

fn group(gx: u16, gy: u16, geoms: &[(u32, Vec<u16>)], verts: &[[u16; 4]]) -> Vec<u8> {
    let mut v = Vec::new();
    v.extend(gx.to_le_bytes());
    v.extend(gy.to_le_bytes());
    v.extend((geoms.len() as u32).to_le_bytes());
    for (t, idx) in geoms {
        v.extend(t.to_le_bytes());
        v.extend((2 * idx.len() as u32).to_le_bytes());
        for i in idx {
            v.extend(i.to_le_bytes());
        }
    }
    v.extend((8 * verts.len() as u32).to_le_bytes());
    for p in verts {
        for c in p {
            v.extend(c.to_le_bytes());
        }
    }
    v
}

fn flat(w: usize, h: usize) -> GameMap {
    map_of(w, h, &vec![(1.0, LAND); (w + 1) * (h + 1)])
}

#[test]
fn group_data_is_read() {
    let raw = group(3, 4, &[(7, vec![0, 1, 2])], &[[0, 0, 5, 6], [1, 0, 7, 8], [0, 1, 9, 9]]);
    let g = parse_group(&raw).unwrap();
    assert_eq!((g.gx, g.gy), (3, 4));
    assert_eq!(g.geoms[0].texture, 7);
    assert_eq!(g.geoms[0].indices, vec![0, 1, 2]);
    assert_eq!(g.vertices[1].tx, 7);
    assert!(parse_group(&raw[..20]).is_none());
    assert!(parse_group(&[1, 2]).is_none());
    // Vertices that are cut off are left out.
    assert_eq!(parse_group(&raw[..raw.len() - 3]).unwrap().vertices.len(), 2);
}

#[test]
fn triangles_are_merged_by_texture() {
    let map = flat(2, 2);
    let v = [[0u16, 0, 1, 2], [1, 0, 3, 4], [0, 1, 5, 6]];
    let a = group(0, 0, &[(7, vec![0, 1, 2]), (9, vec![2, 1, 0])], &v);
    let b = group(0, 0, &[(7, vec![1, 1, 2])], &v[..2]);
    let bs = build_bottom_cpu_batches(&map, &vec![a, vec![1], b]);
    assert_eq!(bs.len(), 2);
    assert_eq!(bs[0].texture, 7);
    assert_eq!(bs[0].vertices.len(), 5);
    assert_eq!(bs[0].indices, vec![0, 1, 2, 4, 4, 5]);
    assert_eq!(bs[1].texture, 9);
    assert_eq!(bs[1].indices, vec![2, 1, 0]);
    assert_eq!(batch_use(&bs[0], 8), BatchUse::Opaque(7));
    assert_eq!(batch_use(&bs[0], 7), BatchUse::Skip);
    assert_eq!(batch_use(&bs[0], 0), BatchUse::Skip);
    let hole = build_bottom_cpu_batches(&map, &vec![group(0, 0, &[(u32::MAX, vec![0])], &v)]);
    assert_eq!(batch_use(&hole[0], 1), BatchUse::DepthOnly);
    let empty = build_bottom_cpu_batches(&map, &vec![group(0, 0, &[(0, vec![])], &v)]);
    assert_eq!(batch_use(&empty[0], 1), BatchUse::Skip);
}

#[test]
fn points_among_sunken_ones_are_sunk() {
    let map = map_of(2, 2, &vec![(1.0, DOWN); 9]);
    assert!(map.sunk(1, 1));
    assert!(!map.sunk(0, 1));
    assert!(!map.sunk(2, 1));
    assert!(!flat(2, 2).sunk(1, 1));
    let bs = build_bottom_cpu_batches(&map, &vec![group(0, 0, &[(0, vec![0])], &[[1, 1, 0, 0]])]);
    assert!(bs[0].vertices[0].down);
}

#[test]
fn groups_below_the_sea() {
    let mut pts = vec![(1.0, LAND); 13 * 2];
    pts[12] = (-1.0, LAND);
    let map = map_of(12, 1, &pts);
    let raws = vec![group(0, 0, &[], &[]), group(10, 0, &[], &[]), vec![0], group(40, 0, &[], &[])];
    assert_eq!(water_bearing_groups(&map, &raws), vec![(10, 0)]);
}

#[test]
fn picture_of_the_water() {
    assert_eq!(water_alpha(bits(-30.0), 9), 255);
    assert_eq!(water_alpha(bits(0.0), 9), 0);
    assert_eq!(water_alpha(bits(-10.0), 9), 9);
    let samples = vec![
        (bits(-30.0), 1),
        (bits(0.0), 2),
        (bits(-5.0), 3),
        (bits(-6.0), 4),
    ];
    let img = build_water_alpha_image(2, &samples);
    assert_eq!(img.into_pixels(), vec![255, 0, 3, 4]);
    assert!(build_water_alpha_image(0, &vec![]).into_pixels().is_empty());
}

#[test]
fn heights_for_the_shore() {
    let map = flat(2, 1);
    assert_eq!(map.sample_height_for_water(0, 0), ShoreHeight::Ground);
    assert_eq!(map.sample_height_for_water(5, 0), ShoreHeight::Ground);
    let z = bits(1.0);
    assert_eq!(
        map.cell_corners(1, 0),
        Some(CellCorners {
            z00: z,
            z10: z,
            z01: z,
            z11: z
        })
    );
    assert_eq!(map.cell_corners(2, 0), None);
}

// ── Filling ─────────────────────────────────────────────────────────────

fn e(v: f32) -> Edges {
    Edges {
        e0: bits(v),
        e1: bits(v),
        e2: bits(v),
    }
}

#[test]
fn coverage_needs_nearly_all_samples() {
    assert!(inside(e(1.0)) && inside(e(-1.0)) && inside(e(0.0)));
    assert!(!inside(Edges {
        e0: bits(1.0),
        e1: bits(-1.0),
        e2: bits(1.0)
    }));
    let mut c = Coverage::new(2, 1);
    let w = sample_window(-5, 3, 0, 2, 2, 1);
    assert_eq!((w.x0, w.x1, w.y0, w.y1), (0, 4, 0, 3));
    c.mark(w, &vec![e(1.0); 12]);
    assert!(!c.covered(0, 0));
    let last = sample_window(0, 1, 3, 99, 2, 1);
    assert_eq!((last.y0, last.y1), (3, 4));
    c.mark(last, &vec![e(-1.0); 2]);
    assert!(c.covered(0, 0));
    assert!(!c.covered(1, 0));
}

fn tile(texture: u32, u0: f32, u1: f32) -> Tile {
    Tile {
        texture,
        u0: bits(u0),
        v0: bits(0.0),
        u1: bits(u1),
        v1: bits(1.0),
    }
}

#[test]
fn tiles_grow_with_their_own_texture() {
    let mut t = vec![None; 4];
    record_tile(&mut t, 2, 2, 1, 0, tile(3, 0.5, 0.6));
    record_tile(&mut t, 2, 2, 1, 0, tile(3, 0.4, 0.55));
    record_tile(&mut t, 2, 2, 1, 0, tile(4, 0.0, 1.0));
    record_tile(&mut t, 2, 2, -1, 0, tile(4, 0.0, 1.0));
    record_tile(&mut t, 2, 2, 0, 2, tile(4, 0.0, 1.0));
    assert_eq!(t, vec![None, Some(tile(3, 0.4, 0.6)), None, None]);
}

#[test]
fn nearest_tile_goes_ring_by_ring() {
    let mut t = vec![None; 25 * 25];
    assert_eq!(nearest_tile(&t, 25, 25, 12, 12), None);
    t[12 * 25 + 12] = Some(tile(1, 0.0, 1.0));
    assert_eq!(nearest_tile(&t, 25, 25, 12, 12), None);
    t[12 * 25 + 24] = Some(tile(2, 0.0, 1.0));
    assert_eq!(nearest_tile(&t, 25, 25, 12, 12), None);
    t[22 * 25 + 12] = Some(tile(3, 0.0, 1.0));
    assert_eq!(nearest_tile(&t, 25, 25, 12, 12), Some(tile(3, 0.0, 1.0)));
    t[13 * 25 + 13] = Some(tile(4, 0.0, 1.0));
    t[13 * 25 + 11] = Some(tile(5, 0.0, 1.0));
    assert_eq!(nearest_tile(&t, 25, 25, 12, 12), Some(tile(5, 0.0, 1.0)));
    t[11 * 25 + 13] = Some(tile(6, 0.0, 1.0));
    assert_eq!(nearest_tile(&t, 25, 25, 12, 12), Some(tile(6, 0.0, 1.0)));
}

#[test]
fn greatest_heights_at_points() {
    let v = |x, y, z: f32| UsedVertex { x, y, z: bits(z) };
    let t = top_heights(&vec![v(0, 0, 1.0), v(1, 1, 2.0), v(0, 0, 5.0), v(0, 0, 3.0), v(9, 0, 8.0)], 1, 1);
    assert_eq!(t, vec![Some(bits(5.0)), None, None, Some(bits(2.0))]);
}

fn surface(vert_size: usize, verts: &[[f32; 3]], idx: &[u16]) -> Vec<u8> {
    let mut v = vec![0u8; 32];
    v[12..16].copy_from_slice(&(verts.len() as u32).to_le_bytes());
    v[16..20].copy_from_slice(&(2 * idx.len() as u32).to_le_bytes());
    v[24..28].copy_from_slice(&10.0f32.to_le_bytes());
    v[28..32].copy_from_slice(&20.0f32.to_le_bytes());
    for p in verts {
        for c in p {
            v.extend(c.to_le_bytes());
        }
        v.extend(vec![0u8; vert_size - 12]);
    }
    for i in idx {
        v.extend(i.to_le_bytes());
    }
    v
}

#[test]
fn surfaces_are_strips_of_triangles() {
    let verts = [[0.0, 0.0, 1.0], [1.0, 0.0, 2.0], [0.0, 1.0, 3.0]];
    let raw = surface(24, &verts, &[0, 1, 2, 2, 1, 7, 0]);
    let s = parse_surface(&raw, 24).unwrap();
    assert_eq!((f32::from_bits(s.disp_x), f32::from_bits(s.disp_y)), (10.0, 20.0));
    let t: Vec<_> = s.triangles.iter().map(|t| (t.a, t.b, t.c)).collect();
    assert_eq!(t, vec![(0, 1, 2)]);
    assert_eq!(f32::from_bits(surface_vertex(&raw, 24, 2).z), 3.0);
    assert!(parse_surface(&raw, 32).is_none());
    assert!(parse_surface(&raw[..31], 24).is_none());
    assert!(parse_surface(&surface(24, &verts, &[]), 24).unwrap().triangles.is_empty());
}

#[test]
fn lowest_surface_over_cells() {
    let mut floor = vec![None; 4];
    let w = cell_window(-3, 2, 0, 1, 2, 2);
    assert_eq!((w.x0, w.x1, w.y0, w.y1), (0, 2, 0, 1));
    lower_floor(&mut floor, 2, 2, w, &vec![e(1.0), e(1.0)], bits(5.0));
    let one = Edges {
        e0: bits(1.0),
        e1: bits(-1.0),
        e2: bits(1.0),
    };
    lower_floor(&mut floor, 2, 2, w, &vec![e(1.0), one], bits(3.0));
    lower_floor(&mut floor, 2, 2, w, &vec![e(1.0), e(1.0)], bits(9.0));
    assert_eq!(floor, vec![Some(bits(3.0)), Some(bits(5.0)), None, None]);
}

#[test]
fn holes_are_filled() {
    assert_eq!(corner_height(Some(7), Some(3), 1), 7);
    assert_eq!(corner_height(None, Some(bits(2.0)), bits(5.0)), bits(2.0));
    assert_eq!(corner_height(None, None, bits(5.0)), bits(5.0));

    let map = flat(3, 1);
    let t = tile(4, 0.0, 1.0);
    let mut input = FillInput {
        covered: vec![true, false, false],
        pits: vec![false, true, false],
        tiles: vec![Some(t), None, None],
        caps: vec![None, None, Some(bits(0.5))],
        tops: vec![None; 8],
    };
    input.tops[2] = Some(bits(9.0));
    let fs = fill_holes(&map, &input);
    assert_eq!(fs.len(), 2);
    assert_eq!((fs[0].x, fs[0].kind), (1, FillKind::Pit));
    assert_eq!(fs[0].corners.z10, bits(1.0));
    assert_eq!((fs[1].x, fs[1].kind), (2, FillKind::Tiled(t)));
    assert_eq!(fs[1].corners.z00, bits(9.0));
    assert_eq!(fs[1].corners.z11, bits(0.5));

    let sets = fill_sets(&fs);
    assert_eq!(sets.len(), 2);
    assert_eq!((sets[0].texture, sets[0].fillers.clone()), (None, vec![0]));
    assert_eq!((sets[1].texture, sets[1].fillers.clone()), (Some(4), vec![1]));
    assert_eq!(fill_atlas(Some(4), 5), Some(4));
    assert_eq!(fill_atlas(Some(4), 4), None);
    assert_eq!(fill_atlas(None, 4), None);
    assert_eq!(quad_indices(8), [8, 9, 10, 10, 9, 11]);
}

// ── Frames ──────────────────────────────────────────────────────────────

const ALL: Present = Present {
    depth_only: true,
    overlays: true,
    gloss: true,
    objects: true,
    robots: true,
    buildings: true,
    cannons: true,
    slot_markers: true,
    water: true,
};

#[test]
fn stages_in_order() {
    let all = render_stages("", ALL);
    assert_eq!(
        all,
        vec![
            Stage::Sky,
            Stage::Bottom,
            Stage::DepthOnly,
            Stage::Overlays,
            Stage::Gloss,
            Stage::Objects,
            Stage::Robots,
            Stage::Buildings,
            Stage::Cannons,
            Stage::SlotMarkers,
            Stage::PointLights,
            Stage::Water,
            Stage::Shadows,
        ]
    );
    let some = render_stages("water,objects", ALL);
    assert!(!some.contains(&Stage::Water) && !some.contains(&Stage::Objects));
    assert_eq!(some.len(), 11);
    assert!(skipped("a,b", "b"));
    assert!(!skipped("ab", "b"));
    let mut p = ALL;
    p.gloss = false;
    assert_eq!(
        minimap_stages(p),
        vec![Stage::Bottom, Stage::DepthOnly, Stage::Overlays, Stage::Water]
    );
}

#[test]
fn surfaces_without_a_group_are_always_seen() {
    assert!(overlay_visible(&vec![], &vec![]));
    assert!(overlay_visible(&vec![5, 1], &vec![false, true]));
    assert!(!overlay_visible(&vec![5, 0], &vec![false, true]));
}

#[test]
fn light_changes_a_window_of_points() {
    assert_eq!(lit_channel(250, 20), 255);
    assert_eq!(lit_channel(5, -20), 0);
    assert_eq!(lit_channel(5, 2), 7);
    let map = flat(2, 1);
    let p = |x, y| PointCoord { x, y };
    let ps = vec![p(0, 0), p(1, 0), p(2, 1), p(1, 1)];
    let lum = Lum { r: 1, g: 2, b: 3 };
    let old = Rgb { r: 0, g: 0, b: 0 };
    let mut colors = vec![old; 4];
    let rect = LitRect {
        x0: 1,
        y0: 0,
        x1: 1,
        y1: 1,
    };
    let span = relight(&map, &ps, &vec![lum; 4], rect, &mut colors);
    assert_eq!(span, Some((1, 3)));
    let lit = Rgb {
        r: 11,
        g: 22,
        b: 33,
    };
    assert_eq!(colors, vec![old, lit, old, lit]);
    let none = LitRect {
        x0: 7,
        y0: 0,
        x1: 9,
        y1: 1,
    };
    assert_eq!(relight(&map, &ps, &vec![lum; 4], none, &mut colors), None);
}

// ── Sky ─────────────────────────────────────────────────────────────────

#[test]
fn walls_of_the_sky() {
    let f = parse_face(" Matrix\\Sky\\a , 1, 2.5,3 ,4, 5");
    assert_eq!(f.texture, "Matrix/Sky/a");
    assert_eq!(f.uv, strings(&["1", "2.5", "3", "4, 5"]));
    let fs = resolve_sky_faces(&vec![Some("x".to_string()), None]);
    assert_eq!(fs[0].texture, "x");
    assert_eq!(fs[1].texture, "");
    assert!(fs[1].uv.is_empty());
    assert_eq!(face_config_keys(), ["Fore", "Right", "Back", "Left"]);
    let v = build_skybox_vertices();
    assert_eq!(v.len(), 24);
    assert_eq!((v[6].face, v[6].right, v[6].bottom), (1, false, false));
    assert_eq!((v[23].face, v[23].right, v[23].bottom), (3, true, true));
}

#[test]
fn horizon_and_reflection() {
    assert_eq!(gradient_top(false, bits(0.5)), bits(1.0));
    assert_eq!(gradient_top(true, bits(0.5)), bits(0.5));
    assert_eq!(gradient_top(false, bits(1.5)), bits(1.5));
    assert_eq!(reflection_path(None), "Matrix/Textures/reflection");
    assert_eq!(reflection_path(Some("  ")), "Matrix/Textures/reflection");
    assert_eq!(reflection_path(Some(" a\\b ")), "a/b");
}

// ── Meshes ──────────────────────────────────────────────────────────────

#[test]
fn groups_by_ascending_key() {
    let g = group_by_key(&vec![5, 2, 5, 9, 2]);
    let got: Vec<_> = g.iter().map(|g| (g.key, g.members.clone())).collect();
    assert_eq!(got, vec![(2, vec![1, 4]), (5, vec![0, 2]), (9, vec![3])]);
    assert!(group_by_key(&vec![]).is_empty());
}

#[test]
fn moving_models_get_a_clock_each() {
    let m = |frames, animations| Some(ModelInfo { frames, animations });
    let (slots, n) = anim_slots(&vec![m(2, 1), m(1, 1), None, m(3, 0), m(4, 2)]);
    assert_eq!(slots, vec![Some(0), None, None, None, Some(1)]);
    assert_eq!(n, 2);
    let mut anims = vec![AnimState::new(vec![VoAnimation {
        frames: vec![
            VoAnimFrame {
                time_ms: 10,
                frame_index: 3,
            },
            VoAnimFrame {
                time_ms: 10,
                frame_index: 6,
            },
        ],
    }])];
    advance_anims(&mut anims, 0);
    assert_eq!(anims[0].vo_frame, 3);
    advance_anims(&mut anims, 12);
    assert_eq!(anims[0].vo_frame, 6);
}

#[test]
fn frames_and_directories() {
    let r = vec![(1, 2), (3, 0)];
    assert_eq!(frame_range(&r, 0), Some((1, 2)));
    assert_eq!(frame_range(&r, 1), None);
    assert_eq!(frame_range(&r, 2), None);
    assert_eq!(first_frame_indices(&vec![7, 8, 9, 10], &r), vec![8, 9]);
    assert!(first_frame_indices(&vec![7], &vec![]).is_empty());
    assert_eq!(directory_of("a/b/c.vo").as_deref(), Some("a/b/"));
    assert_eq!(directory_of("c.vo"), None);
}

#[test]
fn floor_of_a_base_moves_its_parts() {
    let o = |u, p| {
        let o = sub_unit_offset(u, p);
        (
            o.x as f32 / BASE_FLOOR_MS as f32,
            o.z as f32 / BASE_FLOOR_MS as f32,
        )
    };
    assert_eq!(o(1, 0), (0.0, -66.0));
    assert_eq!(o(1, BASE_FLOOR_MS), (0.0, -3.0));
    assert_eq!(o(2, BASE_FLOOR_MS / 2), (25.0, 0.0));
    assert_eq!(o(3, BASE_FLOOR_MS), (-25.0, 0.0));
    assert_eq!(o(4, BASE_FLOOR_MS), (0.0, 0.0));

    let bases = vec![
        BaseFloor {
            x: 1,
            y: 1,
            progress: 0,
        },
        BaseFloor {
            x: 1,
            y: 1,
            progress: BASE_FLOOR_MS,
        },
    ];
    let places = vec![(1, 1), (2, 2)];
    let v = sync_building_animation(&bases, BuildingType::Base, Some(1), &places).unwrap();
    assert_eq!(v[0], sub_unit_offset(1, BASE_FLOOR_MS));
    assert_eq!(v[1], sub_unit_offset(1, 0));
    assert!(sync_building_animation(&bases, BuildingType::Titan, Some(1), &places).is_none());
    assert!(sync_building_animation(&bases, BuildingType::Base, Some(4), &places).is_none());
    assert!(sync_building_animation(&bases, BuildingType::Base, None, &places).is_none());
    assert!(sync_building_animation(&vec![], BuildingType::Base, Some(1), &places).is_none());
}

#[test]
fn cannons_are_packed_until_the_buffer_is_full() {
    let c = |kind, wreck| SeenCannon { kind, wreck };
    let cs = vec![c(1, false), c(2, false), c(1, true), c(1, false), c(9, false)];
    assert_eq!(cannons_of_kind(&cs, 0), vec![0, 3]);
    let counts = part_counts(&cs, Some(2));
    assert_eq!(counts, vec![2, 2, 0, 1]);

    let pieces = vec![(0, CannonDipPart::Basis), (3, CannonDipPart::Shaft)];
    let d = pack_cannons(&counts, 3, &pieces, MAX_CANNON_INSTANCES);
    let runs: Vec<_> = d.draws.iter().map(|r| (r.kind, r.part, r.offset, r.count)).collect();
    assert_eq!(
        runs,
        vec![
            (0, 0, 0, 2),
            (0, 1, 2, 2),
            (0, 2, 4, 2),
            (1, 0, 6, 2),
            (1, 1, 8, 2),
            (1, 2, 10, 2),
            (3, 0, 12, 1),
            (3, 1, 13, 1),
            (3, 2, 14, 1),
        ]
    );
    assert_eq!(d.markers, Some((15, 3)));
    assert_eq!(d.pieces[1].slot, 19);

    // The first run that does not fit ends the runs; the rest is filled up.
    let d = pack_cannons(&counts, 1, &pieces, 8);
    assert_eq!(d.draws.len(), 4);
    assert_eq!(d.markers, None);
    assert!(d.pieces.is_empty());
    let d = pack_cannons(&counts, 1, &pieces, 9);
    assert_eq!(d.draws.len(), 4);
    assert_eq!(d.markers, Some((8, 1)));
    let d = pack_cannons(&vec![], 0, &pieces, 1);
    assert_eq!(d.pieces.len(), 1);
}

#[test]
fn meshes_of_cannons() {
    let m = |b, t, s| KindMeshes {
        basis: b,
        turret: t,
        shaft: s,
    };
    assert_eq!(marker_kind(&vec![m(false, false, false), m(false, true, false)]), Some(1));
    assert_eq!(marker_kind(&vec![m(false, false, false)]), None);
    assert!(piece_shown(bits(1.0)));
    assert!(!piece_shown(bits(0.0)));
    let parts = vec![
        ShadowPart {
            vertices: 3,
            surfaces: vec![vec![0, 1, 2]],
        },
        ShadowPart {
            vertices: 2,
            surfaces: vec![vec![0, 1], vec![1]],
        },
    ];
    assert_eq!(
        pool_shadow_parts(&parts),
        vec![vec![0, 1, 2], vec![3, 4], vec![4]]
    );
}

#[test]
fn textures_of_drawn_objects_are_kept() {
    let mut objs: Objects<u8> = Objects::new();
    let a = objs.arena.spawn(0, ObjectType::Cannon);
    let b = objs.arena.spawn(0, ObjectType::Cannon);
    assert_eq!(retain_drawn(&vec![a, b], &vec![b]), vec![b]);
    assert!(retain_drawn(&vec![a], &vec![]).is_empty());
}

#[test]
fn materials_and_shadows() {
    assert_eq!(building_material(true, true), MaterialChoice::Unit);
    assert_eq!(building_material(false, true), MaterialChoice::SurfaceWithUnit);
    assert_eq!(building_material(false, false), MaterialChoice::Unit);
    assert_eq!(scenery_material(1), MaterialChoice::Unit);
    assert_eq!(scenery_material(2), MaterialChoice::UnitWithSurface);
    assert_eq!(shadow_texture_size(ShadowKind::ProjectedStatic, 8), Some(32));
    assert_eq!(shadow_texture_size(ShadowKind::ProjectedDynamic, 64), Some(64));
    assert_eq!(shadow_texture_size(ShadowKind::Stencil, 64), None);
    assert_eq!(drawn_surfaces(&vec![3, 0, 6]), vec![0, 2]);
}
