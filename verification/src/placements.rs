//! Reading what stands on a map at the start: scenery, buildings, cannons,
//! robots and ambient effects.
use crate::bytes::{
    get_u16, get_u32, i32_array, i32_at, law_column_is_read_back, law_read_gives_back_write,
    law_sign, le_all, le_bytes, read_f32_array, read_i32_array, read_i32_le, read_u32_array,
    to_signed, u16_at, u32_array, u32_at,
};
use crate::common::{RobotUnitKind, MAX_WEAPON_CNT};
use crate::float_bits;
use crate::map::{
    BuildingInstance, CannonInstance, ObjectHeight, ObjectInstance, ObjectShadow,
    ObjectShadowVertex, RuinInstance, TurretPlaceCmap,
};
use crate::map_prepare::min_int;
use crate::properties::{field_int, rows};
use crate::text::{parse_i32, split, split_spec, trim, trim_spec, views};
use vstd::prelude::*;

verus! {

/// The entry of a column, or a default beyond its end.
pub open spec fn or_default<A>(s: Seq<A>, i: int, d: A) -> A {
    if 0 <= i < s.len() {
        s[i]
    } else {
        d
    }
}

fn at_u32(v: &Vec<u32>, i: usize, d: u32) -> (r: u32)
    ensures
        r == or_default(v@, i as int, d),
{
    if i < v.len() {
        v[i]
    } else {
        d
    }
}

fn at_i32(v: &Vec<i32>, i: usize, d: i32) -> (r: i32)
    ensures
        r == or_default(v@, i as int, d),
{
    if i < v.len() {
        v[i]
    } else {
        d
    }
}

fn at_u8(v: &Vec<u8>, i: usize, d: u8) -> (r: u8)
    ensures
        r == or_default(v@, i as int, d),
{
    if i < v.len() {
        v[i]
    } else {
        d
    }
}

fn less(a: usize, b: usize) -> (r: usize)
    ensures
        r == min_int(a as int, b as int),
{
    if a <= b {
        a
    } else {
        b
    }
}

// ── Shadows ─────────────────────────────────────────────────────────────
/// The counts in the head of a shadow record, and where its vertices start.
pub struct ShadowHead {
    pub vertices: int,
    pub index_bytes: int,
    pub start: int,
}

/// The head of a shadow record: a list of groups to skip, two unused numbers,
/// and the counts. `None` where the record ends too early, a count is negative,
/// or what the counts announce is not there.
pub open spec fn shadow_head(s: Seq<u8>) -> Option<ShadowHead> {
    if s.len() < 4 || i32_at(s, 0) < 0 {
        None
    } else {
        let p = 4 + 4 * i32_at(s, 0);
        if p + 16 > s.len() {
            None
        } else {
            let vertices = i32_at(s, p + 8);
            let index_bytes = i32_at(s, p + 12);
            if vertices < 0 || index_bytes < 0 || p + 16 + 12 * vertices + index_bytes + 20
                > s.len() {
                None
            } else {
                Some(
                    ShadowHead {
                        vertices: vertices as int,
                        index_bytes: index_bytes as int,
                        start: p + 16,
                    },
                )
            }
        }
    }
}

pub open spec fn shadow_vertex(s: Seq<u8>, off: int) -> ObjectShadowVertex {
    ObjectShadowVertex {
        px: u16_at(s, off),
        py: u16_at(s, off + 2),
        uv: (u32_at(s, off + 4), u32_at(s, off + 8)),
    }
}

/// Vertex `i` of those that start at `start`.
pub open spec fn nth_vertex(s: Seq<u8>, start: int, i: int) -> ObjectShadowVertex {
    shadow_vertex(s, start + 12 * i)
}

/// The first `n` vertices.
pub open spec fn shadow_vertices(s: Seq<u8>, start: int, n: int) -> Seq<ObjectShadowVertex> {
    Seq::new(n as nat, |i: int| nth_vertex(s, start, i))
}

/// The first `n` indices.
pub open spec fn shadow_indices(s: Seq<u8>, start: int, n: int) -> Seq<u32> {
    Seq::new(n as nat, |i: int| u16_at(s, start + 2 * i) as u32)
}

/// A shadow record is sound when its head is, and every vertex lies on the map.
pub open spec fn shadow_ok(s: Seq<u8>, size_x: int, size_y: int) -> bool {
    shadow_head(s) is Some && vertices_on_map(
        s,
        (shadow_head(s)->0).start,
        (shadow_head(s)->0).vertices,
        size_x,
        size_y,
    )
}

pub open spec fn vertices_on_map(s: Seq<u8>, start: int, n: int, size_x: int, size_y: int) -> bool {
    forall|i: int|
        0 <= i < n ==> (#[trigger] nth_vertex(s, start, i)).px <= size_x && nth_vertex(
            s,
            start,
            i,
        ).py <= size_y
}

/// A shadow is read from the record `s`.
pub open spec fn reads_shadow(s: Seq<u8>, sh: ObjectShadow) -> bool {
    match shadow_head(s) {
        None => false,
        Some(h) => {
            let after_v = h.start + 12 * h.vertices;
            let n = h.index_bytes / 2;
            let cam = after_v + 2 * n;
            &&& sh.vertices@ == shadow_vertices(s, h.start, h.vertices)
            &&& sh.indices@ == shadow_indices(s, after_v, n)
            &&& sh.camera_pos == (u32_at(s, cam), u32_at(s, cam + 4), u32_at(s, cam + 8))
            &&& sh.dimensions == (u32_at(s, cam + 12), u32_at(s, cam + 16))
        },
    }
}

fn read_shadow_head(bytes: &[u8]) -> (r: Option<(usize, usize, usize)>)
    ensures
        match r {
            Some(h) => shadow_head(bytes@) == Some(
                ShadowHead { vertices: h.0 as int, index_bytes: h.1 as int, start: h.2 as int },
            ),
            None => shadow_head(bytes@) is None,
        },
{
    let len = bytes.len();
    let mut off: usize = 0;
    let groups = match read_i32_le(bytes, &mut off) {
        Some(v) => v,
        None => {
            return None;
        },
    };
    if groups < 0 || (groups as usize) > (len - 4) / 4 {
        return None;
    }
    off = off + 4 * (groups as usize);
    if len - off < 16 {
        return None;
    }
    let _min_x = read_i32_le(bytes, &mut off);
    let _min_y = read_i32_le(bytes, &mut off);
    let vertices = match read_i32_le(bytes, &mut off) {
        Some(v) => v,
        None => {
            return None;
        },
    };
    let index_bytes = match read_i32_le(bytes, &mut off) {
        Some(v) => v,
        None => {
            return None;
        },
    };
    if vertices < 0 || index_bytes < 0 {
        return None;
    }
    let need: u64 = 12 * (vertices as u64) + index_bytes as u64 + 20;
    if ((len - off) as u64) < need {
        return None;
    }
    Some((vertices as usize, index_bytes as usize, off))
}

/// Read a baked shadow. `None` for a record that is not sound.
pub fn parse_object_shadow(buf: &Vec<u8>, size_x: usize, size_y: usize) -> (r: Option<ObjectShadow>)
    ensures
        match r {
            Some(sh) => shadow_ok(buf@, size_x as int, size_y as int) && reads_shadow(buf@, sh),
            None => !shadow_ok(buf@, size_x as int, size_y as int),
        },
{
    let bytes = buf.as_slice();
    let len = buf.len();
    let (nv, ib, start) = match read_shadow_head(bytes) {
        Some(h) => h,
        None => {
            return None;
        },
    };
    let ghost h = shadow_head(buf@)->0;
    let mut vertices: Vec<ObjectShadowVertex> = Vec::new();
    let mut off: usize = start;
    let mut i: usize = 0;
    while i < nv
        invariant
            bytes@ == buf@,
            len == buf@.len(),
            shadow_head(buf@) == Some(h),
            h.vertices == nv,
            h.index_bytes == ib,
            h.start == start,
            start + 12 * nv + ib + 20 <= len,
            i <= nv,
            off == start + 12 * i,
            vertices@ =~= shadow_vertices(buf@, start as int, nv as int).take(i as int),
            vertices_on_map(buf@, start as int, i as int, size_x as int, size_y as int),
        decreases nv - i,
    {
        let v = ObjectShadowVertex {
            px: get_u16(bytes, off),
            py: get_u16(bytes, off + 2),
            uv: (get_u32(bytes, off + 4), get_u32(bytes, off + 8)),
        };
        assert(v == nth_vertex(buf@, start as int, i as int));
        if v.px as usize > size_x || v.py as usize > size_y {
            return None;
        }
        vertices.push(v);
        off = off + 12;
        i = i + 1;
    }
    let ni = ib / 2;
    let after_v = off;
    let mut indices: Vec<u32> = Vec::new();
    let mut j: usize = 0;
    while j < ni
        invariant
            bytes@ == buf@,
            len == buf@.len(),
            after_v + ib + 20 <= len,
            ni == ib / 2,
            j <= ni,
            off == after_v + 2 * j,
            indices@ =~= shadow_indices(buf@, after_v as int, ni as int).take(j as int),
        decreases ni - j,
    {
        indices.push(get_u16(bytes, off) as u32);
        off = off + 2;
        j = j + 1;
    }
    assert(vertices@ =~= shadow_vertices(buf@, start as int, nv as int));
    assert(indices@ =~= shadow_indices(buf@, after_v as int, ni as int));
    Some(
        ObjectShadow {
            vertices,
            indices,
            camera_pos: (get_u32(bytes, off), get_u32(bytes, off + 4), get_u32(bytes, off + 8)),
            dimensions: (get_u32(bytes, off + 12), get_u32(bytes, off + 16)),
        },
    )
}

// ── Scenery ─────────────────────────────────────────────────────────────
/// The scenery columns.
pub struct ObjectColumns {
    pub x: Vec<u8>,
    pub y: Vec<u8>,
    pub scale: Vec<u8>,
    pub kind: Vec<u8>,
    pub angle_z: Vec<u8>,
    pub angle_x: Option<Vec<u8>>,
    pub angle_y: Option<Vec<u8>>,
    pub height: Option<Vec<u8>>,
    pub z: Option<Vec<u8>>,
    pub shadow: Option<Vec<Vec<u8>>>,
}

/// An optional column of real numbers; a missing one is empty.
pub open spec fn reals(c: Option<Vec<u8>>) -> Seq<u32> {
    match c {
        Some(b) => u32_array(b@),
        None => Seq::empty(),
    }
}

fn read_reals(c: &Option<Vec<u8>>) -> (r: Vec<u32>)
    ensures
        r@ == reals(*c),
{
    match c {
        Some(b) => read_f32_array(b.as_slice()),
        None => Vec::new(),
    }
}

/// A height above ground goes before a height of its own; without either the
/// object stands at zero.
pub open spec fn height_of(c: ObjectColumns, i: int) -> ObjectHeight {
    let h = reals(c.height);
    let z = reals(c.z);
    if i < h.len() {
        ObjectHeight::AboveGround(h[i])
    } else if i < z.len() {
        ObjectHeight::At(z[i])
    } else {
        ObjectHeight::At(float_bits::ZERO)
    }
}

/// The shadow record of object `i`, if it has one.
pub open spec fn shadow_record(c: ObjectColumns, i: int) -> Option<Seq<u8>> {
    match c.shadow {
        Some(v) => if i < v@.len() {
            Some(v@[i]@)
        } else {
            None
        },
        None => None,
    }
}

/// Object `o` is row `i` of the columns.
pub open spec fn reads_object(
    c: ObjectColumns,
    i: int,
    size_x: int,
    size_y: int,
    o: ObjectInstance,
) -> bool {
    &&& o.x == u32_array(c.x@)[i]
    &&& o.y == u32_array(c.y@)[i]
    &&& o.height == height_of(c, i)
    &&& o.angle_z == or_default(u32_array(c.angle_z@), i, float_bits::ZERO)
    &&& o.angle_x == or_default(reals(c.angle_x), i, float_bits::ZERO)
    &&& o.angle_y == or_default(reals(c.angle_y), i, float_bits::ZERO)
    &&& o.scale == or_default(u32_array(c.scale@), i, float_bits::ONE)
    &&& o.type_id == or_default(u32_array(c.kind@), i, 0)
    &&& match o.shadow {
        Some(sh) => shadow_record(c, i) matches Some(s) && shadow_ok(s, size_x, size_y)
            && reads_shadow(s, sh),
        None => shadow_record(c, i) matches Some(s) ==> !shadow_ok(s, size_x, size_y),
    }
}

/// Read the scenery: one object for every pair of coordinates.
pub fn load_objects(c: &ObjectColumns, size_x: usize, size_y: usize) -> (r: Vec<ObjectInstance>)
    ensures
        r@.len() == min_int((c.x@.len() / 4) as int, (c.y@.len() / 4) as int),
        forall|i: int|
            0 <= i < r@.len() ==> reads_object(
                *c,
                i,
                size_x as int,
                size_y as int,
                #[trigger] r@[i],
            ),
{
    let xs = read_f32_array(c.x.as_slice());
    let ys = read_f32_array(c.y.as_slice());
    let n = less(xs.len(), ys.len());
    let scales = read_f32_array(c.scale.as_slice());
    let angles_z = read_f32_array(c.angle_z.as_slice());
    let types = read_u32_array(c.kind.as_slice());
    let angles_x = read_reals(&c.angle_x);
    let angles_y = read_reals(&c.angle_y);
    let heights = read_reals(&c.height);
    let zs = read_reals(&c.z);
    let mut r: Vec<ObjectInstance> = Vec::new();
    let mut i: usize = 0;
    while i < n
        invariant
            xs@ == u32_array(c.x@),
            ys@ == u32_array(c.y@),
            n <= xs@.len(),
            n <= ys@.len(),
            scales@ == u32_array(c.scale@),
            angles_z@ == u32_array(c.angle_z@),
            types@ == u32_array(c.kind@),
            angles_x@ == reals(c.angle_x),
            angles_y@ == reals(c.angle_y),
            heights@ == reals(c.height),
            zs@ == reals(c.z),
            i <= n,
            r@.len() == i,
            forall|k: int|
                0 <= k < i ==> reads_object(
                    *c,
                    k,
                    size_x as int,
                    size_y as int,
                    #[trigger] r@[k],
                ),
        decreases n - i,
    {
        let height = if i < heights.len() {
            ObjectHeight::AboveGround(heights[i])
        } else if i < zs.len() {
            ObjectHeight::At(zs[i])
        } else {
            ObjectHeight::At(float_bits::ZERO)
        };
        let shadow = match &c.shadow {
            Some(v) => {
                if i < v.len() {
                    parse_object_shadow(&v[i], size_x, size_y)
                } else {
                    None
                }
            },
            None => None,
        };
        let o = ObjectInstance {
            x: xs[i],
            y: ys[i],
            height,
            angle_z: at_u32(&angles_z, i, float_bits::ZERO),
            angle_x: at_u32(&angles_x, i, float_bits::ZERO),
            angle_y: at_u32(&angles_y, i, float_bits::ZERO),
            scale: at_u32(&scales, i, float_bits::ONE),
            type_id: at_u32(&types, i, 0),
            shadow,
        };
        assert(reads_object(*c, i as int, size_x as int, size_y as int, o));
        r.push(o);
        i = i + 1;
    }
    r
}

// ── Buildings ───────────────────────────────────────────────────────────
/// The building columns.
pub struct BuildingColumns {
    pub x: Vec<u8>,
    pub y: Vec<u8>,
    pub side: Vec<u8>,
    pub kind: Vec<u8>,
    pub shadow: Vec<u8>,
    pub shadow_size: Vec<u8>,
    pub angle: Vec<u8>,
}

/// The side of a building that stands in ruins from the start.
pub const RUINED_SIDE: u8 = 255;

pub open spec fn building_count(c: BuildingColumns) -> int {
    min_int(min_int((c.x@.len() / 4) as int, (c.y@.len() / 4) as int), c.side@.len() as int)
}

/// Rows among the first `n` that stand, or that lie in ruins.
pub open spec fn rows_of(c: BuildingColumns, ruins: bool, n: int) -> Seq<int>
    decreases n,
{
    if n <= 0 {
        Seq::empty()
    } else if (c.side@[n - 1] == RUINED_SIDE) == ruins {
        rows_of(c, ruins, n - 1).push(n - 1)
    } else {
        rows_of(c, ruins, n - 1)
    }
}

/// Building `b` is row `i`; it has no turret places yet.
pub open spec fn reads_building(c: BuildingColumns, i: int, b: BuildingInstance) -> bool {
    &&& b.x == u32_array(c.x@)[i]
    &&& b.y == u32_array(c.y@)[i]
    &&& b.angle == or_default(c.angle@, i, 0)
    &&& b.side == c.side@[i]
    &&& b.kind == or_default(c.kind@, i, 0)
    &&& b.shadow_kind == or_default(c.shadow@, i, 0)
    &&& b.shadow_size == or_default(i32_array(c.shadow_size@), i, 128)
    &&& b.turrets_places_cnt == 0
    &&& b.turret_places@ == Seq::<TurretPlaceCmap>::empty()
}

pub open spec fn ruin_row(c: BuildingColumns, i: int) -> RuinInstance {
    RuinInstance {
        x: u32_array(c.x@)[i],
        y: u32_array(c.y@)[i],
        angle: or_default(c.angle@, i, 0) as i32,
        kind: or_default(c.kind@, i, 0) as i32,
    }
}

/// Read the buildings, in row order, and apart from them the ruins.
pub fn load_buildings(c: &BuildingColumns) -> (r: (Vec<BuildingInstance>, Vec<RuinInstance>))
    ensures
        ({
            let n = building_count(*c);
            let live = rows_of(*c, false, n);
            let dead = rows_of(*c, true, n);
            &&& r.0@.len() == live.len()
            &&& forall|k: int|
                0 <= k < live.len() ==> reads_building(*c, live[k], #[trigger] r.0@[k])
            &&& r.1@ == dead.map_values(|i: int| ruin_row(*c, i))
        }),
{
    let xs = read_f32_array(c.x.as_slice());
    let ys = read_f32_array(c.y.as_slice());
    let shszs = read_i32_array(c.shadow_size.as_slice());
    let n = less(less(xs.len(), ys.len()), c.side.len());
    let mut out: Vec<BuildingInstance> = Vec::new();
    let mut ruins: Vec<RuinInstance> = Vec::new();
    let mut i: usize = 0;
    assert(ruins@ =~= rows_of(*c, true, 0).map_values(|i: int| ruin_row(*c, i)));
    while i < n
        invariant
            xs@ == u32_array(c.x@),
            ys@ == u32_array(c.y@),
            shszs@ == i32_array(c.shadow_size@),
            n == building_count(*c),
            n <= xs@.len(),
            n <= ys@.len(),
            n <= c.side@.len(),
            i <= n,
            out@.len() == rows_of(*c, false, i as int).len(),
            forall|k: int|
                0 <= k < out@.len() ==> reads_building(
                    *c,
                    rows_of(*c, false, i as int)[k],
                    #[trigger] out@[k],
                ),
            ruins@ == rows_of(*c, true, i as int).map_values(|i: int| ruin_row(*c, i)),
        decreases n - i,
    {
        let side = c.side[i];
        let x = xs[i];
        let y = ys[i];
        let ghost before = out@;
        if side == RUINED_SIDE {
            ruins.push(
                RuinInstance {
                    x,
                    y,
                    angle: at_u8(&c.angle, i, 0) as i32,
                    kind: at_u8(&c.kind, i, 0) as i32,
                },
            );
            proof {
                assert(rows_of(*c, true, i + 1) == rows_of(*c, true, i as int).push(i as int));
                assert(ruins@ =~= rows_of(*c, true, i + 1).map_values(|i: int| ruin_row(*c, i)));
                assert(rows_of(*c, false, i + 1) == rows_of(*c, false, i as int));
            }
        } else {
            out.push(
                BuildingInstance {
                    x,
                    y,
                    angle: at_u8(&c.angle, i, 0),
                    side,
                    kind: at_u8(&c.kind, i, 0),
                    shadow_kind: at_u8(&c.shadow, i, 0),
                    shadow_size: at_i32(&shszs, i, 128),
                    turrets_places_cnt: 0,
                    turret_places: Vec::new(),
                },
            );
            proof {
                let rs = rows_of(*c, false, i + 1);
                assert(rs == rows_of(*c, false, i as int).push(i as int));
                assert(rows_of(*c, true, i + 1) == rows_of(*c, true, i as int));
                assert forall|k: int| 0 <= k < out@.len() implies reads_building(
                    *c,
                    rs[k],
                    #[trigger] out@[k],
                ) by {
                    if k < before.len() {
                        assert(out@[k] == before[k]);
                    }
                }
            }
        }
        i = i + 1;
    }
    (out, ruins)
}

// ── Cannons ─────────────────────────────────────────────────────────────
/// How many turret places a building can have.
pub const MAX_PLACES: i32 = 4;

/// Bit pattern of the square of the distance up to which a cannon belongs to a
/// building: five hundred.
pub const MAX_DIST_SQ: u32 = 0x4874_2400;

/// One cannon record, its columns filled up with defaults.
#[derive(Debug)]
pub struct CannonRecord {
    pub x: u32,
    pub y: u32,
    pub angle: u32,
    pub kind: u8,
    pub side: u8,
    pub add_h: u32,
    pub prop: i32,
    /// The move cell that the cannon stands in.
    pub coord: (i32, i32),
    /// Squared distance to every building, as bit patterns.
    pub d2: Vec<u32>,
}

/// The nearest building in reach that still has a place, among the first `n`:
/// the first of equally near ones. With it comes its squared distance.
pub open spec fn nearest_building(
    places: Seq<int>,
    d2: Seq<u32>,
    n: int,
) -> (Option<int>, u32)
    decreases n,
{
    if n <= 0 {
        (None, crate::map_prepare::INFINITY)
    } else {
        let best = nearest_building(places, d2, n - 1);
        let d = d2[n - 1];
        if places[n - 1] < MAX_PLACES && float_bits::lt_spec(d, best.1) && float_bits::lt_spec(
            d,
            MAX_DIST_SQ,
        ) {
            (Some(n - 1), d)
        } else {
            best
        }
    }
}

/// A building as far as cannons care: how many places it has, its side, and the
/// places.
pub struct PlacesView {
    pub count: int,
    pub side: u8,
    pub places: Seq<TurretPlaceCmap>,
}

pub open spec fn places_view(b: BuildingInstance) -> PlacesView {
    PlacesView {
        count: b.turrets_places_cnt as int,
        side: b.side,
        places: b.turret_places@,
    }
}

pub open spec fn all_places(b: Seq<BuildingInstance>) -> Seq<PlacesView> {
    Seq::new(b.len(), |i: int| places_view(b[i]))
}

pub open spec fn counts(b: Seq<PlacesView>) -> Seq<int> {
    Seq::new(b.len(), |i: int| b[i].count)
}

/// A record of a building's cannon, or of an empty place for one.
pub open spec fn wants_building(prop: i32) -> bool {
    prop == 1 || prop == 2
}

/// The building that a record goes to.
pub open spec fn home_of(r: CannonRecord, b: Seq<PlacesView>) -> Option<int> {
    if wants_building(r.prop) {
        nearest_building(counts(b), r.d2@, b.len() as int).0
    } else {
        None
    }
}

/// The buildings after a record: the home gets one more place, taken when the
/// record is a cannon, empty when it is a place.
pub open spec fn with_record(r: CannonRecord, b: Seq<PlacesView>) -> Seq<PlacesView> {
    match home_of(r, b) {
        Some(h) => b.update(
            h,
            PlacesView {
                count: b[h].count + 1,
                side: b[h].side,
                places: b[h].places.push(
                    TurretPlaceCmap {
                        coord: r.coord,
                        angle: r.angle,
                        cannon_type: if r.prop == 1 {
                            r.kind as i32
                        } else {
                            (-1) as i32
                        },
                    },
                ),
            },
        ),
        None => b,
    }
}

/// What a record comes to: where it is attached, and whose side it is on, which
/// is that of its building. A building's cannon that is out of reach of every
/// building comes to an empty place.
pub open spec fn cannon_of(r: CannonRecord, b: Seq<PlacesView>) -> CannonInstance {
    let home = home_of(r, b);
    CannonInstance {
        x: r.x,
        y: r.y,
        angle: r.angle,
        kind: r.kind,
        side: match home {
            Some(h) => b[h].side,
            None => r.side,
        },
        add_h: r.add_h,
        prop: if r.prop == 1 && home is None {
            2
        } else {
            r.prop
        },
        parent_building: match home {
            Some(h) => Some(h as usize),
            None => None,
        },
        parent_slot: match home {
            Some(h) => b[h].count as i32,
            None => (-1) as i32,
        },
    }
}

impl CannonInstance {
    /// A cannon stands there: the record is no empty place.
    pub fn is_cannon(&self) -> (b: bool)
        ensures
            b == (self.prop != 2),
    {
        self.prop != 2
    }
}

/// Buildings and records after the first `n` records.
pub open spec fn after_records(rs: Seq<CannonRecord>, b: Seq<PlacesView>, n: int) -> (
    Seq<PlacesView>,
    Seq<CannonInstance>,
)
    decreases n,
{
    if n <= 0 {
        (b, Seq::empty())
    } else {
        let s = after_records(rs, b, n - 1);
        (with_record(rs[n - 1], s.0), s.1.push(cannon_of(rs[n - 1], s.0)))
    }
}

/// What else a building is does not change.
pub open spec fn same_but_places(a: BuildingInstance, b: BuildingInstance) -> bool {
    &&& a.x == b.x
    &&& a.y == b.y
    &&& a.angle == b.angle
    &&& a.side == b.side
    &&& a.kind == b.kind
    &&& a.shadow_kind == b.shadow_kind
    &&& a.shadow_size == b.shadow_size
}

fn find_home(r: &CannonRecord, buildings: &Vec<BuildingInstance>) -> (h: Option<usize>)
    requires
        r.d2@.len() == buildings@.len(),
    ensures
        match h {
            Some(i) => i < buildings@.len() && buildings@[i as int].turrets_places_cnt < MAX_PLACES
                && nearest_building(
                counts(all_places(buildings@)),
                r.d2@,
                buildings@.len() as int,
            ).0 == Some(i as int),
            None => nearest_building(
                counts(all_places(buildings@)),
                r.d2@,
                buildings@.len() as int,
            ).0 is None,
        },
{
    let ghost cs = counts(all_places(buildings@));
    let mut best: Option<usize> = None;
    let mut best_d2: u32 = crate::map_prepare::INFINITY;
    let mut i: usize = 0;
    while i < buildings.len()
        invariant
            r.d2@.len() == buildings@.len(),
            cs == counts(all_places(buildings@)),
            i <= buildings@.len(),
            best_d2 == nearest_building(cs, r.d2@, i as int).1,
            match best {
                Some(k) => k < i && buildings@[k as int].turrets_places_cnt < MAX_PLACES
                    && nearest_building(cs, r.d2@, i as int).0 == Some(k as int),
                None => nearest_building(cs, r.d2@, i as int).0 is None,
            },
        decreases buildings.len() - i,
    {
        let d = r.d2[i];
        assert(cs[i as int] == buildings@[i as int].turrets_places_cnt);
        if buildings[i].turrets_places_cnt < MAX_PLACES && float_bits::lt(d, best_d2)
            && float_bits::lt(d, MAX_DIST_SQ) {
            best_d2 = d;
            best = Some(i);
        }
        i = i + 1;
    }
    best
}

/// Attach the cannons of a map: cannons and places go, record by record, to
/// the nearest building in reach that has a place left. One entry comes out for
/// each record, in order, whatever it is.
pub fn attach_cannons(recs: &Vec<CannonRecord>, buildings: &mut Vec<BuildingInstance>) -> (out: Vec<
    CannonInstance,
>)
    requires
        forall|i: int|
            0 <= i < recs@.len() ==> (#[trigger] recs@[i]).d2@.len() == old(buildings)@.len(),
    ensures
        final(buildings)@.len() == old(buildings)@.len(),
        forall|i: int|
            0 <= i < old(buildings)@.len() ==> same_but_places(
                old(buildings)@[i],
                #[trigger] final(buildings)@[i],
            ),
        (all_places(final(buildings)@), out@) == after_records(
            recs@,
            all_places(old(buildings)@),
            recs@.len() as int,
        ),
        out@.len() == recs@.len(),
{
    let ghost b0 = buildings@;
    let mut out: Vec<CannonInstance> = Vec::new();
    let mut i: usize = 0;
    while i < recs.len()
        invariant
            b0.len() == buildings@.len(),
            forall|k: int|
                0 <= k < recs@.len() ==> (#[trigger] recs@[k]).d2@.len() == b0.len(),
            i <= recs@.len(),
            out@.len() == i,
            forall|k: int| 0 <= k < b0.len() ==> same_but_places(b0[k], #[trigger] buildings@[k]),
            (all_places(buildings@), out@) == after_records(
                recs@,
                all_places(b0),
                i as int,
            ),
        decreases recs.len() - i,
    {
        let r = &recs[i];
        let ghost pre = all_places(buildings@);
        let ghost pre_b = buildings@;
        let mut parent_building: Option<usize> = None;
        let mut parent_slot: i32 = -1;
        let mut side = r.side;
        let mut prop = r.prop;
        if prop == 1 || prop == 2 {
            match find_home(r, buildings) {
                Some(h) => {
                    let cannon_type = if prop == 1 {
                        r.kind as i32
                    } else {
                        -1
                    };
                    assert(pre[h as int].count == buildings@[h as int].turrets_places_cnt);
                    parent_slot = buildings[h].turrets_places_cnt;
                    side = buildings[h].side;
                    parent_building = Some(h);
                    buildings[h].turret_places.push(
                        TurretPlaceCmap { coord: r.coord, angle: r.angle, cannon_type },
                    );
                    buildings[h].turrets_places_cnt = parent_slot + 1;
                    assert(all_places(buildings@) =~= with_record(*r, pre));
                },
                None => {
                    if prop == 1 {
                        prop = 2;
                    }
                },
            }
        }
        assert(all_places(buildings@) =~= with_record(*r, pre));
        assert(recs@[i as int] == *r);
        i = i + 1;
        out.push(
            CannonInstance {
                x: r.x,
                y: r.y,
                angle: r.angle,
                kind: r.kind,
                side,
                add_h: r.add_h,
                prop,
                parent_building,
                parent_slot,
            },
        );
    }
    out
}

/// No building ever gets more places than it can have, and it always has as many
/// as are counted.
pub proof fn law_places_bounded(rs: Seq<CannonRecord>, b: Seq<PlacesView>, n: int, i: int)
    requires
        forall|k: int|
            0 <= k < b.len() ==> (#[trigger] b[k]).count <= MAX_PLACES && b[k].count
                == b[k].places.len(),
        0 <= n <= rs.len(),
        forall|k: int| 0 <= k < rs.len() ==> (#[trigger] rs[k]).d2@.len() == b.len(),
        0 <= i < b.len(),
    ensures
        after_records(rs, b, n).0.len() == b.len(),
        after_records(rs, b, n).0[i].count <= MAX_PLACES,
        after_records(rs, b, n).0[i].count == after_records(rs, b, n).0[i].places.len(),
        after_records(rs, b, n).0[i].side == b[i].side,
    decreases n,
{
    if n > 0 {
        law_places_bounded(rs, b, n - 1, i);
        let s = after_records(rs, b, n - 1).0;
        lemma_nearest_has_place(counts(s), rs[n - 1].d2@, s.len() as int);
    }
}

proof fn lemma_nearest_has_place(places: Seq<int>, d2: Seq<u32>, n: int)
    requires
        n <= places.len(),
    ensures
        nearest_building(places, d2, n).0 matches Some(h) ==> 0 <= h < n && places[h] < MAX_PLACES,
    decreases n,
{
    if n > 0 {
        lemma_nearest_has_place(places, d2, n - 1);
    }
}

/// The cannon columns. All but the coordinates may be missing.
pub struct CannonColumns {
    pub x: Vec<u8>,
    pub y: Vec<u8>,
    pub side: Option<Vec<u8>>,
    pub kind: Option<Vec<u8>>,
    pub angle: Option<Vec<u8>>,
    pub add_h: Option<Vec<u8>>,
    pub prop: Option<Vec<u8>>,
}

/// One row of the cannon columns.
#[derive(Debug, Clone, Copy, PartialEq, Eq, Structural)]
pub struct CannonRow {
    pub x: u32,
    pub y: u32,
    pub angle: u32,
    pub kind: u8,
    pub side: u8,
    pub add_h: u32,
    pub prop: i32,
}

pub open spec fn byte_or(c: Option<Vec<u8>>, i: int, d: u8) -> u8 {
    match c {
        Some(b) => or_default(b@, i, d),
        None => d,
    }
}

fn byte_at(c: &Option<Vec<u8>>, i: usize, d: u8) -> (r: u8)
    ensures
        r == byte_or(*c, i as int, d),
{
    match c {
        Some(b) => at_u8(b, i, d),
        None => d,
    }
}

/// Row `i`: a missing column, or a short one, is filled up with side zero, kind
/// one, no turn, no lift, and a cannon on its own.
pub open spec fn cannon_row(c: CannonColumns, i: int) -> CannonRow {
    CannonRow {
        x: u32_array(c.x@)[i],
        y: u32_array(c.y@)[i],
        angle: or_default(reals(c.angle), i, float_bits::ZERO),
        kind: byte_or(c.kind, i, 1),
        side: byte_or(c.side, i, 0),
        add_h: or_default(reals(c.add_h), i, float_bits::ZERO),
        prop: match c.prop {
            Some(b) => or_default(i32_array(b@), i, 0),
            None => 0,
        },
    }
}

/// Read the cannon rows.
pub fn load_cannon_rows(c: &CannonColumns) -> (r: Vec<CannonRow>)
    ensures
        r@ == Seq::new(
            min_int((c.x@.len() / 4) as int, (c.y@.len() / 4) as int) as nat,
            |i: int| cannon_row(*c, i),
        ),
{
    let xs = read_f32_array(c.x.as_slice());
    let ys = read_f32_array(c.y.as_slice());
    let n = less(xs.len(), ys.len());
    let angles = read_reals(&c.angle);
    let add_h = read_reals(&c.add_h);
    let props = match &c.prop {
        Some(b) => read_i32_array(b.as_slice()),
        None => Vec::new(),
    };
    let ghost goal = Seq::new(
        min_int((c.x@.len() / 4) as int, (c.y@.len() / 4) as int) as nat,
        |i: int| cannon_row(*c, i),
    );
    let mut r: Vec<CannonRow> = Vec::new();
    let mut i: usize = 0;
    while i < n
        invariant
            xs@ == u32_array(c.x@),
            ys@ == u32_array(c.y@),
            n <= xs@.len(),
            n <= ys@.len(),
            n == goal.len(),
            goal == Seq::new(goal.len(), |i: int| cannon_row(*c, i)),
            angles@ == reals(c.angle),
            add_h@ == reals(c.add_h),
            props@ == match c.prop {
                Some(b) => i32_array(b@),
                None => Seq::empty(),
            },
            i <= n,
            r@ =~= goal.take(i as int),
        decreases n - i,
    {
        r.push(
            CannonRow {
                x: xs[i],
                y: ys[i],
                angle: at_u32(&angles, i, float_bits::ZERO),
                kind: byte_at(&c.kind, i, 1),
                side: byte_at(&c.side, i, 0),
                add_h: at_u32(&add_h, i, float_bits::ZERO),
                prop: at_i32(&props, i, 0),
            },
        );
        i = i + 1;
    }
    assert(r@ =~= goal);
    r
}

// ── Robots ──────────────────────────────────────────────────────────────
pub const MRT_CHASSIS: i32 = 1;

pub const MRT_WEAPON: i32 = 2;

pub const MRT_ARMOR: i32 = 3;

pub const MRT_HEAD: i32 = 4;

/// The parts of a robot as a map lists them.
#[derive(Debug)]
pub struct RobotParts {
    pub chassis_kind: RobotUnitKind,
    pub armor_kind: RobotUnitKind,
    pub head_kind: RobotUnitKind,
    pub weapons: [RobotUnitKind; MAX_WEAPON_CNT],
    /// How the robot is turned, as the text of a real number.
    pub angle: Option<String>,
}

/// The same, with the weapons seen so far.
pub struct PartsView {
    pub chassis: i32,
    pub armor: i32,
    pub head: i32,
    pub weapons: Seq<i32>,
    pub angle: Option<Seq<char>>,
}

/// No parts at all.
pub open spec fn no_parts() -> PartsView {
    PartsView { chassis: 0, armor: 0, head: 0, weapons: Seq::empty(), angle: None }
}

/// One more part: `type,kind`, and for a chassis perhaps an angle. A part with
/// a type but no kind is passed over, and so are weapons beyond the last slot.
pub open spec fn with_part(p: PartsView, token: Seq<char>) -> PartsView {
    let f = split_spec(token, ',');
    if token.len() == 0 || f.len() < 2 {
        p
    } else {
        let kind = field_int(f[1]);
        if field_int(f[0]) == MRT_CHASSIS {
            PartsView {
                chassis: kind,
                angle: if f.len() > 2 {
                    Some(trim_spec(f[2]))
                } else {
                    p.angle
                },
                ..p
            }
        } else if field_int(f[0]) == MRT_ARMOR {
            PartsView { armor: kind, ..p }
        } else if field_int(f[0]) == MRT_HEAD {
            PartsView { head: kind, ..p }
        } else if field_int(f[0]) == MRT_WEAPON && p.weapons.len() < MAX_WEAPON_CNT {
            PartsView { weapons: p.weapons.push(kind), ..p }
        } else {
            p
        }
    }
}

pub open spec fn parts_upto(tokens: Seq<Seq<char>>, n: int) -> PartsView
    decreases n,
{
    if n <= 0 {
        no_parts()
    } else {
        with_part(parts_upto(tokens, n - 1), tokens[n - 1])
    }
}

pub open spec fn parts_spec(s: Seq<char>) -> PartsView {
    parts_upto(split_spec(s, '|'), split_spec(s, '|').len() as int)
}

/// Weapon slot `i`: zero beyond the weapons listed.
pub open spec fn slot_kind(w: Seq<i32>, i: int) -> RobotUnitKind {
    RobotUnitKind(or_default(w, i, 0))
}

pub open spec fn is_parts(r: RobotParts, p: PartsView) -> bool {
    &&& r.chassis_kind == RobotUnitKind(p.chassis)
    &&& r.armor_kind == RobotUnitKind(p.armor)
    &&& r.head_kind == RobotUnitKind(p.head)
    &&& forall|i: int|
        0 <= i < MAX_WEAPON_CNT ==> (#[trigger] r.weapons@[i]) == slot_kind(p.weapons, i)
    &&& match r.angle {
        Some(a) => p.angle == Some(a@),
        None => p.angle is None,
    }
}

fn int_field(s: &str) -> (r: i32)
    ensures
        r == field_int(s@),
{
    match parse_i32(trim(s)) {
        Some(v) => v,
        None => 0,
    }
}

/// Read a list of parts, separated by bars.
pub fn parse_robot_units(s: &str) -> (r: RobotParts)
    ensures
        is_parts(r, parts_spec(s@)),
{
    let tokens = split(s, '|');
    let ghost ts = split_spec(s@, '|');
    let none = RobotUnitKind(0);
    let mut r = RobotParts {
        chassis_kind: none,
        armor_kind: none,
        head_kind: none,
        weapons: [none; MAX_WEAPON_CNT],
        angle: None,
    };
    let mut wi: usize = 0;
    let mut i: usize = 0;
    while i < tokens.len()
        invariant
            views(tokens@) == ts,
            i <= tokens@.len(),
            is_parts(r, parts_upto(ts, i as int)),
            wi == parts_upto(ts, i as int).weapons.len(),
            wi <= MAX_WEAPON_CNT,
        decreases tokens.len() - i,
    {
        let token = tokens[i];
        let ghost p = parts_upto(ts, i as int);
        assert(ts[i as int] == token@);
        i = i + 1;
        if token.unicode_len() == 0 {
            continue;
        }
        let f = split(token, ',');
        if f.len() < 2 {
            continue;
        }
        proof {
            assert(views(f@)[0] == f@[0]@);
            assert(views(f@)[1] == f@[1]@);
        }
        let ty = int_field(f[0]);
        let kind = int_field(f[1]);
        if ty == MRT_CHASSIS {
            r.chassis_kind = RobotUnitKind(kind);
            if f.len() > 2 {
                assert(views(f@)[2] == f@[2]@);
                r.angle = Some(trim(f[2]).to_string());
            }
        } else if ty == MRT_ARMOR {
            r.armor_kind = RobotUnitKind(kind);
        } else if ty == MRT_HEAD {
            r.head_kind = RobotUnitKind(kind);
        } else if ty == MRT_WEAPON {
            if wi < MAX_WEAPON_CNT {
                r.weapons[wi] = RobotUnitKind(kind);
                wi = wi + 1;
            }
        }
    }
    r
}

/// The robot columns.
pub struct RobotColumns {
    pub x: Vec<u8>,
    pub y: Vec<u8>,
    pub side: Vec<u8>,
    pub shadow: Vec<u8>,
    pub shadow_size: Vec<u8>,
    pub group: Vec<u8>,
    pub units: Vec<String>,
}

/// A robot that stands from the start.
#[derive(Debug)]
pub struct RobotInstance {
    pub x: u32,
    pub y: u32,
    pub side: u8,
    pub shadow: u8,
    pub shadow_size: i32,
    /// The team it starts in, from one to three; minus one for none.
    pub group: i32,
    pub parts: RobotParts,
}

/// A team as it is stored; what is no team reads as none.
pub open spec fn team_of(g: i32) -> i32 {
    if 1 <= g <= 3 {
        g
    } else {
        (-1) as i32
    }
}

fn team(g: i32) -> (t: i32)
    ensures
        t == team_of(g),
{
    if 1 <= g && g <= 3 {
        g
    } else {
        -1
    }
}

/// Robot `r` is row `i`.
pub open spec fn reads_robot(c: RobotColumns, i: int, r: RobotInstance) -> bool {
    &&& r.x == u32_array(c.x@)[i]
    &&& r.y == u32_array(c.y@)[i]
    &&& r.side == or_default(c.side@, i, 0)
    &&& r.shadow == or_default(c.shadow@, i, 0)
    &&& r.shadow_size == or_default(i32_array(c.shadow_size@), i, 128)
    &&& r.group == team_of(or_default(i32_array(c.group@), i, (-1) as i32))
    &&& is_parts(
        r.parts,
        if i < c.units@.len() {
            parts_spec(c.units@[i]@)
        } else {
            no_parts()
        },
    )
}

/// Read the robots: one for every pair of coordinates.
pub fn load_robots(c: &RobotColumns) -> (r: Vec<RobotInstance>)
    ensures
        r@.len() == min_int((c.x@.len() / 4) as int, (c.y@.len() / 4) as int),
        forall|i: int| 0 <= i < r@.len() ==> reads_robot(*c, i, #[trigger] r@[i]),
{
    let xs = read_f32_array(c.x.as_slice());
    let ys = read_f32_array(c.y.as_slice());
    let shszs = read_i32_array(c.shadow_size.as_slice());
    let groups = read_i32_array(c.group.as_slice());
    let n = less(xs.len(), ys.len());
    let mut r: Vec<RobotInstance> = Vec::new();
    let mut i: usize = 0;
    while i < n
        invariant
            xs@ == u32_array(c.x@),
            ys@ == u32_array(c.y@),
            shszs@ == i32_array(c.shadow_size@),
            groups@ == i32_array(c.group@),
            n <= xs@.len(),
            n <= ys@.len(),
            i <= n,
            r@.len() == i,
            forall|k: int| 0 <= k < i ==> reads_robot(*c, k, #[trigger] r@[k]),
        decreases n - i,
    {
        let parts = if i < c.units.len() {
            parse_robot_units(c.units[i].as_str())
        } else {
            let none = RobotUnitKind(0);
            RobotParts {
                chassis_kind: none,
                armor_kind: none,
                head_kind: none,
                weapons: [none; MAX_WEAPON_CNT],
                angle: None,
            }
        };
        let b = RobotInstance {
            x: xs[i],
            y: ys[i],
            side: at_u8(&c.side, i, 0),
            shadow: at_u8(&c.shadow, i, 0),
            shadow_size: at_i32(&shszs, i, 128),
            group: team(at_i32(&groups, i, -1)),
            parts,
        };
        assert(reads_robot(*c, i as int, b));
        r.push(b);
        i = i + 1;
    }
    r
}

// ── Effects ─────────────────────────────────────────────────────────────
/// The columns of the ambient effects.
pub struct EffectColumns {
    pub x: Vec<u8>,
    pub y: Vec<u8>,
    pub z: Vec<u8>,
    pub kind: Vec<u8>,
}

/// An ambient effect: where it is, and the text that describes it.
#[derive(Debug)]
pub struct EffectSpawner {
    pub pos: (u32, u32, u32),
    pub spec: String,
}

pub open spec fn effect_count(c: EffectColumns) -> int {
    min_int(
        min_int((c.x@.len() / 4) as int, (c.y@.len() / 4) as int),
        min_int((c.z@.len() / 4) as int, (c.kind@.len() / 4) as int),
    )
}

/// The rows among the first `n` whose text exists.
pub open spec fn effect_rows(c: EffectColumns, texts: int, n: int) -> Seq<int>
    decreases n,
{
    if n <= 0 {
        Seq::empty()
    } else if 0 <= i32_array(c.kind@)[n - 1] < texts {
        effect_rows(c, texts, n - 1).push(n - 1)
    } else {
        effect_rows(c, texts, n - 1)
    }
}

pub open spec fn reads_effect(
    c: EffectColumns,
    texts: Seq<Seq<char>>,
    i: int,
    e: EffectSpawner,
) -> bool {
    &&& e.pos == (u32_array(c.x@)[i], u32_array(c.y@)[i], u32_array(c.z@)[i])
    &&& e.spec@ == texts[i32_array(c.kind@)[i] as int]
}

/// Read the ambient effects; those that name no text are left out.
pub fn load_effects(c: &EffectColumns, texts: &Vec<String>) -> (r: Vec<EffectSpawner>)
    ensures
        ({
            let kept = effect_rows(*c, texts@.len() as int, effect_count(*c));
            &&& r@.len() == kept.len()
            &&& forall|k: int|
                0 <= k < kept.len() ==> reads_effect(*c, rows(texts@), kept[k], #[trigger] r@[k])
        }),
{
    let xs = read_f32_array(c.x.as_slice());
    let ys = read_f32_array(c.y.as_slice());
    let zs = read_f32_array(c.z.as_slice());
    let ts = read_i32_array(c.kind.as_slice());
    let n = less(less(xs.len(), ys.len()), less(zs.len(), ts.len()));
    let mut r: Vec<EffectSpawner> = Vec::new();
    let mut i: usize = 0;
    while i < n
        invariant
            xs@ == u32_array(c.x@),
            ys@ == u32_array(c.y@),
            zs@ == u32_array(c.z@),
            ts@ == i32_array(c.kind@),
            n == effect_count(*c),
            n <= xs@.len(),
            n <= ys@.len(),
            n <= zs@.len(),
            n <= ts@.len(),
            i <= n,
            r@.len() == effect_rows(*c, texts@.len() as int, i as int).len(),
            forall|k: int|
                0 <= k < r@.len() ==> reads_effect(
                    *c,
                    rows(texts@),
                    effect_rows(*c, texts@.len() as int, i as int)[k],
                    #[trigger] r@[k],
                ),
        decreases n - i,
    {
        let t = ts[i];
        let ghost before = r@;
        let ghost kept = effect_rows(*c, texts@.len() as int, i as int);
        if 0 <= t && (t as usize) < texts.len() {
            let e = EffectSpawner {
                pos: (xs[i], ys[i], zs[i]),
                spec: texts[t as usize].clone(),
            };
            assert(rows(texts@)[t as int] == texts@[t as int]@);
            r.push(e);
            proof {
                let now = effect_rows(*c, texts@.len() as int, i + 1);
                assert(now == kept.push(i as int));
                assert forall|k: int| 0 <= k < r@.len() implies reads_effect(
                    *c,
                    rows(texts@),
                    now[k],
                    #[trigger] r@[k],
                ) by {
                    if k < before.len() {
                        assert(r@[k] == before[k]);
                    }
                }
            }
        }
        i = i + 1;
    }
    r
}

// ── What is read is what was written ────────────────────────────────────
/// A column of written numbers.
pub open spec fn holds(b: Seq<u8>, v: Seq<u32>) -> bool {
    b == le_all(v)
}

proof fn lemma_holds(b: Seq<u8>, v: Seq<u32>)
    requires
        holds(b, v),
    ensures
        u32_array(b) == v,
        i32_array(b) == v.map_values(|u: u32| to_signed(u)),
        b.len() / 4 == v.len(),
{
    law_column_is_read_back(v, Seq::empty());
    assert(le_all(v) + Seq::<u8>::empty() =~= le_all(v));
    assert(u32_array(b).len() == b.len() / 4);
}

/// A placed object is read from its row: each number from its own column.
pub proof fn law_object_is_read(
    c: ObjectColumns,
    x: Seq<u32>,
    y: Seq<u32>,
    scale: Seq<u32>,
    kind: Seq<u32>,
    angles: (Seq<u32>, Seq<u32>, Seq<u32>),
    size_x: int,
    size_y: int,
    i: int,
    o: ObjectInstance,
)
    requires
        holds(c.x@, x),
        holds(c.y@, y),
        holds(c.scale@, scale),
        holds(c.kind@, kind),
        holds(c.angle_z@, angles.0),
        c.angle_x is Some && holds((c.angle_x->0)@, angles.1),
        c.angle_y is Some && holds((c.angle_y->0)@, angles.2),
        0 <= i < x.len() && i < y.len(),
        reads_object(c, i, size_x, size_y, o),
    ensures
        o.x == x[i],
        o.y == y[i],
        i < scale.len() ==> o.scale == scale[i],
        i >= scale.len() ==> o.scale == 0x3f80_0000,
        i < kind.len() ==> o.type_id == kind[i],
        i < angles.0.len() ==> o.angle_z == angles.0[i],
        i < angles.1.len() ==> o.angle_x == angles.1[i],
        i < angles.2.len() ==> o.angle_y == angles.2[i],
        i >= angles.0.len() ==> o.angle_z == 0,
        i >= angles.1.len() ==> o.angle_x == 0,
        i >= angles.2.len() ==> o.angle_y == 0,
{
    lemma_holds(c.x@, x);
    lemma_holds(c.y@, y);
    lemma_holds(c.scale@, scale);
    lemma_holds(c.kind@, kind);
    lemma_holds(c.angle_z@, angles.0);
    lemma_holds((c.angle_x->0)@, angles.1);
    lemma_holds((c.angle_y->0)@, angles.2);
}

/// A height above the ground counts before one above zero, and an object without
/// either stands at zero. An object has a shadow only if its record describes one
/// whose points all lie on the map.
pub proof fn law_object_height(
    c: ObjectColumns,
    h: Seq<u32>,
    z: Seq<u32>,
    size_x: int,
    size_y: int,
    i: int,
    o: ObjectInstance,
)
    requires
        0 <= i,
        c.height is Some ==> holds((c.height->0)@, h),
        c.height is None ==> h.len() == 0,
        c.z is Some ==> holds((c.z->0)@, z),
        c.z is None ==> z.len() == 0,
        reads_object(c, i, size_x, size_y, o),
    ensures
        i < h.len() ==> o.height == ObjectHeight::AboveGround(h[i]),
        i >= h.len() && i < z.len() ==> o.height == ObjectHeight::At(z[i]),
        i >= h.len() && i >= z.len() ==> o.height == ObjectHeight::At(0),
        c.shadow is None ==> o.shadow is None,
        o.shadow matches Some(sh) ==> forall|k: int|
            0 <= k < sh.vertices@.len() ==> (#[trigger] sh.vertices@[k]).px <= size_x
                && sh.vertices@[k].py <= size_y,
{
    if c.height is Some {
        lemma_holds((c.height->0)@, h);
    }
    if c.z is Some {
        lemma_holds((c.z->0)@, z);
    }
    if let Some(sh) = o.shadow {
        let s = shadow_record(c, i)->0;
        let head = shadow_head(s)->0;
        assert forall|k: int| 0 <= k < sh.vertices@.len() implies (#[trigger] sh.vertices@[k]).px
            <= size_x && sh.vertices@[k].py <= size_y by {
            assert(sh.vertices@[k] == nth_vertex(s, head.start, k));
        }
    }
}

/// The header of a shadow: a count of groups and the groups, a corner, the number
/// of vertices and the size of the indices. A record is refused when a count is
/// negative or what follows the header is too short for its counts.
pub proof fn law_shadow_header(
    groups: Seq<u8>,
    corner: (u32, u32),
    vertices: u32,
    index_bytes: u32,
    rest: Seq<u8>,
)
    requires
        groups.len() % 4 == 0,
        groups.len() / 4 <= i32::MAX,
    ensures
        ({
            let s = le_bytes((groups.len() / 4) as u32) + groups + le_bytes(corner.0) + le_bytes(
                corner.1,
            ) + le_bytes(vertices) + le_bytes(index_bytes) + rest;
            let fits = vertices <= i32::MAX && index_bytes <= i32::MAX && rest.len() >= 12 * vertices
                + index_bytes + 20;
            &&& shadow_head(s) is Some == fits
            &&& fits ==> shadow_head(s) == Some(
                ShadowHead {
                    vertices: vertices as int,
                    index_bytes: index_bytes as int,
                    start: s.len() - rest.len(),
                },
            )
        }),
{
    let n = (groups.len() / 4) as u32;
    let none = Seq::<u8>::empty();
    let (a, b, d, e) = (le_bytes(corner.0), le_bytes(corner.1), le_bytes(vertices), le_bytes(
        index_bytes,
    ));
    let s = le_bytes(n) + groups + a + b + d + e + rest;
    assert(s =~= none + le_bytes(n) + (groups + a + b + d + e + rest));
    law_read_gives_back_write(none, n, groups + a + b + d + e + rest);
    let p1 = le_bytes(n) + groups + a + b;
    assert(s =~= p1 + d + (e + rest));
    law_read_gives_back_write(p1, vertices, e + rest);
    let p2 = p1 + d;
    assert(s =~= p2 + e + rest);
    law_read_gives_back_write(p2, index_bytes, rest);
    law_read_gives_back_write(none, corner.0, none);
    law_read_gives_back_write(none, corner.1, none);
    law_sign(n);
    law_sign(vertices);
    law_sign(index_bytes);
}

/// Which rows of the building columns are buildings and which are ruins: the side
/// tells, every row is one of them, and both stay in order.
pub proof fn law_ruins_and_buildings(c: BuildingColumns, n: int, i: int)
    requires
        0 <= n <= c.side@.len(),
        0 <= i < n,
    ensures
        rows_of(c, true, n).contains(i) == (c.side@[i] == 255),
        rows_of(c, false, n).contains(i) == (c.side@[i] != 255),
        rows_of(c, true, n).len() + rows_of(c, false, n).len() == n,
        forall|a: int, b: int|
            0 <= a < b < rows_of(c, false, n).len() ==> #[trigger] rows_of(c, false, n)[a]
                < #[trigger] rows_of(c, false, n)[b],
        forall|a: int, b: int|
            0 <= a < b < rows_of(c, true, n).len() ==> #[trigger] rows_of(c, true, n)[a]
                < #[trigger] rows_of(c, true, n)[b],
{
    lemma_rows(c, true, n, i);
    lemma_rows(c, false, n, i);
    lemma_rows_sum(c, n);
}

proof fn lemma_rows(c: BuildingColumns, ruins: bool, n: int, i: int)
    requires
        0 <= n,
    ensures
        rows_of(c, ruins, n).contains(i) <==> 0 <= i < n && (c.side@[i] == 255) == ruins,
        forall|a: int|
            0 <= a < rows_of(c, ruins, n).len() ==> 0 <= #[trigger] rows_of(c, ruins, n)[a] < n,
        forall|a: int, b: int|
            0 <= a < b < rows_of(c, ruins, n).len() ==> #[trigger] rows_of(c, ruins, n)[a]
                < #[trigger] rows_of(c, ruins, n)[b],
    decreases n,
{
    if n > 0 {
        lemma_rows(c, ruins, n - 1, i);
        let p = rows_of(c, ruins, n - 1);
        let r = rows_of(c, ruins, n);
        if p.contains(i) {
            assert(r[p.index_of(i)] == i);
        }
        if r.contains(i) {
            let k = r.index_of(i);
            if k < p.len() {
                assert(p[k] == i);
            }
        }
        if i == n - 1 && (c.side@[i] == 255) == ruins {
            assert(r[r.len() - 1] == i);
        }
        assert forall|a: int| 0 <= a < r.len() implies 0 <= #[trigger] r[a] < n by {
            if a < p.len() {
                assert(r[a] == p[a]);
            }
        }
        assert forall|a: int, b: int| 0 <= a < b < r.len() implies #[trigger] r[a] < #[trigger] r[b] by {
            assert(r[a] == p[a]);
            if b < p.len() {
                assert(r[b] == p[b]);
            }
        }
    }
}

proof fn lemma_rows_sum(c: BuildingColumns, n: int)
    requires
        0 <= n,
    ensures
        rows_of(c, true, n).len() + rows_of(c, false, n).len() == n,
    decreases n,
{
    if n > 0 {
        lemma_rows_sum(c, n - 1);
    }
}

/// A building is read from its row: each number from its own column. It has no
/// turret places yet.
pub proof fn law_building_is_read(
    c: BuildingColumns,
    x: Seq<u32>,
    y: Seq<u32>,
    size: Seq<u32>,
    i: int,
    b: BuildingInstance,
)
    requires
        holds(c.x@, x),
        holds(c.y@, y),
        holds(c.shadow_size@, size),
        0 <= i < building_count(c),
        reads_building(c, i, b),
    ensures
        i < x.len() && i < y.len() && i < c.side@.len(),
        b.x == x[i],
        b.y == y[i],
        b.side == c.side@[i],
        i < c.angle@.len() ==> b.angle == c.angle@[i],
        i < c.kind@.len() ==> b.kind == c.kind@[i],
        i < c.shadow@.len() ==> b.shadow_kind == c.shadow@[i],
        i < size.len() ==> b.shadow_size == to_signed(size[i]),
        i >= size.len() ==> b.shadow_size == 128,
        i >= c.angle@.len() ==> b.angle == 0,
        i >= c.kind@.len() ==> b.kind == 0,
        b.turrets_places_cnt == 0,
        b.turret_places@.len() == 0,
        ruin_row(c, i).x == x[i],
        ruin_row(c, i).y == y[i],
        i < c.angle@.len() ==> ruin_row(c, i).angle == c.angle@[i],
        i < c.kind@.len() ==> ruin_row(c, i).kind == c.kind@[i],
{
    lemma_holds(c.x@, x);
    lemma_holds(c.y@, y);
    lemma_holds(c.shadow_size@, size);
}

/// A cannon's row is read from its columns; a missing column has its default.
pub proof fn law_cannon_row_is_read(c: CannonColumns, x: Seq<u32>, y: Seq<u32>, i: int)
    requires
        holds(c.x@, x),
        holds(c.y@, y),
        0 <= i < x.len(),
        i < y.len(),
    ensures
        ({
            let r = cannon_row(c, i);
            &&& r.x == x[i] && r.y == y[i]
            &&& c.angle is None ==> r.angle == 0
            &&& c.kind is None ==> r.kind == 1
            &&& c.side is None ==> r.side == 0
            &&& c.add_h is None ==> r.add_h == 0
            &&& c.prop is None ==> r.prop == 0
            &&& c.kind is Some && i < (c.kind->0)@.len() ==> r.kind == (c.kind->0)@[i]
            &&& c.side is Some && i < (c.side->0)@.len() ==> r.side == (c.side->0)@[i]
            &&& forall|v: Seq<u32>|
                c.angle is Some && #[trigger] holds((c.angle->0)@, v) && i < v.len() ==> r.angle
                    == v[i]
            &&& forall|v: Seq<u32>|
                c.add_h is Some && #[trigger] holds((c.add_h->0)@, v) && i < v.len() ==> r.add_h
                    == v[i]
            &&& forall|v: Seq<u32>|
                c.prop is Some && #[trigger] holds((c.prop->0)@, v) && i < v.len() ==> r.prop
                    == to_signed(v[i])
        }),
{
    lemma_holds(c.x@, x);
    lemma_holds(c.y@, y);
    let r = cannon_row(c, i);
    assert forall|v: Seq<u32>|
        c.angle is Some && #[trigger] holds((c.angle->0)@, v) && i < v.len() implies r.angle
        == v[i] by {
        lemma_holds((c.angle->0)@, v);
    }
    assert forall|v: Seq<u32>|
        c.add_h is Some && #[trigger] holds((c.add_h->0)@, v) && i < v.len() implies r.add_h
        == v[i] by {
        lemma_holds((c.add_h->0)@, v);
    }
    assert forall|v: Seq<u32>|
        c.prop is Some && #[trigger] holds((c.prop->0)@, v) && i < v.len() implies r.prop
        == to_signed(v[i]) by {
        lemma_holds((c.prop->0)@, v);
    }
}

/// Building `i` could take a cannon: it has fewer than four places, and lies
/// within five hundred of it.
pub open spec fn in_reach(places: Seq<int>, d2: Seq<u32>, i: int) -> bool {
    places[i] < 4 && float_bits::lt_spec(d2[i], 0x4874_2400)
}

/// A cannon goes to the nearest building that could take it, the first of equally
/// near ones, and to none only when none could.
pub proof fn law_home_is_nearest(places: Seq<int>, d2: Seq<u32>, n: int)
    requires
        0 <= n <= places.len(),
        n <= d2.len(),
    ensures
        match nearest_building(places, d2, n).0 {
            None => forall|i: int| 0 <= i < n ==> !#[trigger] in_reach(places, d2, i),
            Some(h) => {
                &&& 0 <= h < n
                &&& in_reach(places, d2, h)
                &&& nearest_building(places, d2, n).1 == d2[h]
                &&& forall|i: int|
                    0 <= i < n && #[trigger] in_reach(places, d2, i) ==> float_bits::le_spec(
                        d2[h],
                        d2[i],
                    )
                &&& forall|i: int|
                    0 <= i < h && #[trigger] in_reach(places, d2, i) ==> float_bits::lt_spec(
                        d2[h],
                        d2[i],
                    )
            },
        },
        nearest_building(places, d2, n).0 is None ==> nearest_building(places, d2, n).1
            == 0x7f80_0000,
    decreases n,
{
    if n > 0 {
        law_home_is_nearest(places, d2, n - 1);
        let best = nearest_building(places, d2, n - 1);
        let m = n - 1;
        if in_reach(places, d2, m) {
            if best.0 is Some {
                assert(in_reach(places, d2, best.0->0));
            }
        }
    }
}

/// A record for a building goes there as one more place, taken by the cannon or
/// empty, and takes the building's side; other buildings stay as they were. A
/// cannon on its own keeps its side and belongs to none. What a record says of
/// itself stays.
pub proof fn law_record_is_attached(r: CannonRecord, b: Seq<PlacesView>)
    requires
        r.d2@.len() == b.len(),
        forall|k: int| 0 <= k < b.len() ==> 0 <= (#[trigger] b[k]).count <= 4,
        b.len() <= usize::MAX,
    ensures
        ({
            let c = cannon_of(r, b);
            let w = with_record(r, b);
            &&& c.x == r.x && c.y == r.y && c.angle == r.angle && c.kind == r.kind && c.add_h
                == r.add_h
            &&& w.len() == b.len()
            &&& r.prop != 1 && r.prop != 2 ==> w == b && c.parent_building is None && c.side
                == r.side && c.prop == r.prop && c.parent_slot == -1
            &&& c.parent_building is None ==> w == b && c.side == r.side && c.parent_slot == -1
            &&& c.parent_building is None && r.prop == 1 ==> c.prop == 2
            &&& c.parent_building matches Some(h) ==> {
                &&& h < b.len()
                &&& r.prop == 1 || r.prop == 2
                &&& in_reach(counts(b), r.d2@, h as int)
                &&& c.prop == r.prop
                &&& c.side == b[h as int].side
                &&& c.parent_slot == b[h as int].count
                &&& w[h as int].count == b[h as int].count + 1
                &&& w[h as int].side == b[h as int].side
                &&& w[h as int].places == b[h as int].places.push(w[h as int].places.last())
                &&& w[h as int].places.last().coord == r.coord
                &&& w[h as int].places.last().angle == r.angle
                &&& w[h as int].places.last().cannon_type == (if r.prop == 1 {
                    r.kind as int
                } else {
                    -1
                })
                &&& forall|k: int| 0 <= k < b.len() && k != h ==> #[trigger] w[k] == b[k]
            }
        }),
{
    law_home_is_nearest(counts(b), r.d2@, b.len() as int);
}

/// Records are attached in order, one after the other: the entry of each is what
/// it comes to after those before it.
pub proof fn law_records_in_order(rs: Seq<CannonRecord>, b: Seq<PlacesView>, n: int, i: int)
    requires
        0 <= i < n <= rs.len(),
    ensures
        after_records(rs, b, n).1.len() == n,
        after_records(rs, b, n).1[i] == cannon_of(rs[i], after_records(rs, b, i).0),
        after_records(rs, b, 0).0 == b,
        after_records(rs, b, i + 1).0 == with_record(rs[i], after_records(rs, b, i).0),
    decreases n,
{
    if n > 1 {
        if i < n - 1 {
            law_records_in_order(rs, b, n - 1, i);
        } else {
            law_records_in_order(rs, b, n - 1, 0);
        }
    }
}

/// A robot is put together from its tokens in order. A token is a number for the
/// sort of part, a comma, and the number of the part: one for the chassis, whose
/// angle may follow, two for a weapon, three for the armour, four for the head. Up
/// to five weapons are taken, and everything else is passed over.
pub proof fn law_robot_from_tokens(p: PartsView, token: Seq<char>)
    ensures
        ({
            let f = split_spec(token, ',');
            let w = with_part(p, token);
            let sort = field_int(f[0]);
            &&& token.len() == 0 || f.len() < 2 ==> w == p
            &&& token.len() > 0 && f.len() >= 2 ==> {
                &&& sort == 1 ==> w.chassis == field_int(f[1]) && w.armor == p.armor && w.head
                    == p.head && w.weapons == p.weapons
                &&& sort == 1 && f.len() > 2 ==> w.angle == Some(trim_spec(f[2]))
                &&& sort == 1 && f.len() == 2 ==> w.angle == p.angle
                &&& sort == 2 && p.weapons.len() < 5 ==> w == (PartsView {
                    weapons: p.weapons.push(field_int(f[1])),
                    ..p
                })
                &&& sort == 2 && p.weapons.len() >= 5 ==> w == p
                &&& sort == 3 ==> w == (PartsView { armor: field_int(f[1]), ..p })
                &&& sort == 4 ==> w == (PartsView { head: field_int(f[1]), ..p })
                &&& sort < 1 || sort > 4 ==> w == p
            }
        }),
{
}

/// The tokens of a robot take effect one after the other.
pub proof fn law_tokens_in_order(tokens: Seq<Seq<char>>, n: int)
    requires
        0 <= n < tokens.len(),
    ensures
        parts_upto(tokens, 0) == no_parts(),
        parts_upto(tokens, n + 1) == with_part(parts_upto(tokens, n), tokens[n]),
        no_parts().chassis == 0 && no_parts().armor == 0 && no_parts().head == 0
            && no_parts().weapons.len() == 0 && no_parts().angle is None,
{
}

/// A robot is read from its row: each number from its own column. A team that is
/// none of the three reads as minus one.
pub proof fn law_robot_is_read(
    c: RobotColumns,
    x: Seq<u32>,
    y: Seq<u32>,
    size: Seq<u32>,
    group: Seq<u32>,
    i: int,
    r: RobotInstance,
)
    requires
        holds(c.x@, x),
        holds(c.y@, y),
        holds(c.shadow_size@, size),
        holds(c.group@, group),
        0 <= i < x.len(),
        i < y.len(),
        reads_robot(c, i, r),
    ensures
        r.x == x[i],
        r.y == y[i],
        i < c.side@.len() ==> r.side == c.side@[i],
        i < c.shadow@.len() ==> r.shadow == c.shadow@[i],
        i < size.len() ==> r.shadow_size == to_signed(size[i]),
        i >= size.len() ==> r.shadow_size == 128,
        r.group == 1 || r.group == 2 || r.group == 3 || r.group == -1,
        i < group.len() && (group[i] == 1 || group[i] == 2 || group[i] == 3) ==> r.group == group[i],
        i < group.len() && (group[i] == 0 || group[i] > 3) ==> r.group == -1,
        i >= group.len() ==> r.group == -1,
{
    lemma_holds(c.x@, x);
    lemma_holds(c.y@, y);
    lemma_holds(c.shadow_size@, size);
    lemma_holds(c.group@, group);
    if i < group.len() {
        law_sign(group[i]);
    }
}

/// An effect is kept when its text exists, in order, and is read from its row.
pub proof fn law_effect_is_read(
    c: EffectColumns,
    x: Seq<u32>,
    y: Seq<u32>,
    z: Seq<u32>,
    kind: Seq<u32>,
    texts: Seq<Seq<char>>,
    i: int,
)
    requires
        holds(c.x@, x),
        holds(c.y@, y),
        holds(c.z@, z),
        holds(c.kind@, kind),
        0 <= i < effect_count(c),
    ensures
        i < x.len() && i < y.len() && i < z.len() && i < kind.len(),
        effect_rows(c, texts.len() as int, effect_count(c)).contains(i) == (to_signed(kind[i]) >= 0
            && kind[i] < texts.len()),
        forall|e: EffectSpawner| #[trigger]
            reads_effect(c, texts, i, e) ==> e.pos == (x[i], y[i], z[i]) && (to_signed(kind[i]) >= 0
                ==> e.spec@ == texts[kind[i] as int]),
{
    lemma_holds(c.x@, x);
    lemma_holds(c.y@, y);
    lemma_holds(c.z@, z);
    lemma_holds(c.kind@, kind);
    law_sign(kind[i]);
    lemma_effect_rows(c, texts.len() as int, effect_count(c), i);
}

proof fn lemma_effect_rows(c: EffectColumns, texts: int, n: int, i: int)
    requires
        0 <= n,
    ensures
        effect_rows(c, texts, n).contains(i) <==> 0 <= i < n && 0 <= i32_array(c.kind@)[i] < texts,
    decreases n,
{
    if n > 0 {
        lemma_effect_rows(c, texts, n - 1, i);
        let p = effect_rows(c, texts, n - 1);
        let r = effect_rows(c, texts, n);
        if p.contains(i) {
            assert(r[p.index_of(i)] == i);
        }
        if r.contains(i) {
            let k = r.index_of(i);
            if k < p.len() {
                assert(p[k] == i);
            }
        }
        if i == n - 1 && 0 <= i32_array(c.kind@)[i] < texts {
            assert(r[r.len() - 1] == i);
        }
    }
}

/// A shadow's vertices, twelve bytes each, stand behind the head of its record,
/// then its indices, two bytes each, then where it is seen from and how large it
/// is.
pub proof fn law_shadow_is_read(s: Seq<u8>, sh: ObjectShadow, i: int)
    requires
        reads_shadow(s, sh),
    ensures
        shadow_head(s) is Some,
        ({
            let h = shadow_head(s)->0;
            let at = h.start + 12 * i;
            let cam = h.start + 12 * h.vertices + 2 * (h.index_bytes / 2);
            &&& sh.vertices@.len() == h.vertices
            &&& 0 <= i < h.vertices ==> sh.vertices@[i].px == u16_at(s, at) && sh.vertices@[i].py
                == u16_at(s, at + 2) && sh.vertices@[i].uv == (u32_at(s, at + 4), u32_at(s, at + 8))
            &&& sh.indices@.len() == h.index_bytes / 2
            &&& 0 <= i < h.index_bytes / 2 ==> sh.indices@[i] == u16_at(
                s,
                h.start + 12 * h.vertices + 2 * i,
            )
            &&& sh.camera_pos == (u32_at(s, cam), u32_at(s, cam + 4), u32_at(s, cam + 8))
            &&& sh.dimensions == (u32_at(s, cam + 12), u32_at(s, cam + 16))
        }),
{
}

/// A shadow is kept if all its vertices lie on points of the map, borders
/// included, and dropped if one does not.
pub proof fn law_shadow_on_map(s: Seq<u8>, size_x: int, size_y: int, i: int)
    requires
        shadow_head(s) is Some,
        0 <= i < (shadow_head(s)->0).vertices,
        ({
            let at = (shadow_head(s)->0).start + 12 * i;
            u16_at(s, at) > size_x || u16_at(s, at + 2) > size_y
        }),
    ensures
        !shadow_ok(s, size_x, size_y),
{
    let h = shadow_head(s)->0;
    assert(nth_vertex(s, h.start, i).px > size_x || nth_vertex(s, h.start, i).py > size_y);
}

/// A shadow whose vertices all lie on the map is kept.
pub proof fn law_good_shadow_is_kept(s: Seq<u8>, size_x: int, size_y: int)
    requires
        shadow_head(s) is Some,
        forall|i: int|
            0 <= i < (shadow_head(s)->0).vertices ==> u16_at(
                s,
                #[trigger] ((shadow_head(s)->0).start + 12 * i),
            ) <= size_x && u16_at(s, (shadow_head(s)->0).start + 12 * i + 2) <= size_y,
    ensures
        shadow_ok(s, size_x, size_y),
{
    let h = shadow_head(s)->0;
    assert forall|i: int| 0 <= i < h.vertices implies (#[trigger] nth_vertex(s, h.start, i)).px
        <= size_x && nth_vertex(s, h.start, i).py <= size_y by {
        assert(h.start + 12 * i == (shadow_head(s)->0).start + 12 * i);
    }
}

} // verus!
