//! What a trace through the map meets.
//!
//! Where a line crosses a triangle, a sphere or the borders of cells is computed
//! elsewhere and comes in as bit patterns. Here stands what follows from it:
//! which crossings count, in which order the cells are visited, and whether an
//! object, the land or the water ends the trace.
use crate::arena::ObjectId;
use crate::common::{
    CELLFLAG_BRIDGE, CELLFLAG_WATER, TRACE_ANYOBJECT, TRACE_LANDSCAPE, TRACE_WATER, WATER_LEVEL,
};
use crate::float_bits;
use crate::map::GameMap;
use crate::map_static::{CellRect, MapStatic, Objects};
use crate::search::{eligible, nearest, ray_candidates};
use crate::terrain_fill::point_corners;
use vstd::prelude::*;

verus! {

/// What stopped a trace.
#[derive(Debug, Clone, Copy, PartialEq, Eq, Structural)]
pub enum TraceStop {
    Nothing,
    Landscape,
    Water,
    Object(ObjectId),
}

impl TraceStop {
    /// The object that stopped the trace.
    pub fn object(self) -> (id: Option<ObjectId>)
        ensures
            id == match self {
                TraceStop::Object(i) => Some(i),
                _ => None,
            },
    {
        match self {
            TraceStop::Object(i) => Some(i),
            _ => None,
        }
    }
}

// ── Triangles and spheres ───────────────────────────────────────────────
/// Bit pattern of the least determinant that counts as a front face.
pub const FRONT_FACE: u32 = 0x38d1_b717;

/// Bit pattern of the length up to which a line has none.
pub const NO_LENGTH: u32 = 0x2edb_e6ff;

/// How a line crosses the plane of a triangle.
#[derive(Debug, Clone, Copy, PartialEq, Eq, Structural)]
pub struct Crossing {
    /// The determinant: positive where the line meets the front.
    pub det: u32,
    /// The place in the triangle, along its first and its second edge, and the
    /// sum of both.
    pub u: u32,
    pub v: u32,
    pub uv: u32,
    /// The distance along the line.
    pub t: u32,
}

/// The distance at which a line hits a triangle: from the front only, inside
/// the edges, and not behind its start.
pub open spec fn triangle_hit_spec(c: Crossing) -> Option<u32> {
    if float_bits::lt_spec(c.det, FRONT_FACE) || !(float_bits::le_spec(float_bits::ZERO, c.u)
        && float_bits::le_spec(c.u, float_bits::ONE)) || float_bits::lt_spec(c.v, float_bits::ZERO)
        || float_bits::lt_spec(float_bits::ONE, c.uv) || float_bits::lt_spec(
        c.t,
        float_bits::ZERO,
    ) {
        None
    } else {
        Some(c.t)
    }
}

pub fn triangle_hit(c: Crossing) -> (t: Option<u32>)
    ensures
        t == triangle_hit_spec(c),
{
    if float_bits::lt(c.det, FRONT_FACE) {
        return None;
    }
    if !(float_bits::le(float_bits::ZERO, c.u) && float_bits::le(c.u, float_bits::ONE)) {
        return None;
    }
    if float_bits::lt(c.v, float_bits::ZERO) || float_bits::lt(float_bits::ONE, c.uv) {
        return None;
    }
    if float_bits::lt(c.t, float_bits::ZERO) {
        None
    } else {
        Some(c.t)
    }
}

/// The distance at which a line hits one of the two triangles of a cell; the
/// first goes first.
pub fn cell_hit(first: Crossing, second: Crossing) -> (t: Option<u32>)
    ensures
        t == match triangle_hit_spec(first) {
            Some(a) => Some(a),
            None => triangle_hit_spec(second),
        },
{
    match triangle_hit(first) {
        Some(a) => Some(a),
        None => triangle_hit(second),
    }
}

/// The nearest distance, not behind the start, at which a line meets a sphere:
/// where it enters, or where it leaves when it starts inside. `disc` is the
/// discriminant, below zero for a line that misses.
pub open spec fn sphere_hit_spec(disc: u32, enter: u32, leave: u32) -> Option<u32> {
    if float_bits::lt_spec(disc, float_bits::ZERO) {
        None
    } else if float_bits::le_spec(float_bits::ZERO, enter) {
        Some(enter)
    } else if float_bits::le_spec(float_bits::ZERO, leave) {
        Some(leave)
    } else {
        None
    }
}

pub fn pick_sphere(disc: u32, enter: u32, leave: u32) -> (t: Option<u32>)
    ensures
        t == sphere_hit_spec(disc, enter, leave),
{
    if float_bits::lt(disc, float_bits::ZERO) {
        None
    } else if float_bits::le(float_bits::ZERO, enter) {
        Some(enter)
    } else if float_bits::le(float_bits::ZERO, leave) {
        Some(leave)
    } else {
        None
    }
}

/// The same for a sphere that may have no size, which nothing meets.
pub open spec fn ray_sphere_spec(radius: u32, disc: u32, enter: u32, leave: u32) -> Option<u32> {
    if float_bits::le_spec(radius, float_bits::ZERO) {
        None
    } else {
        sphere_hit_spec(disc, enter, leave)
    }
}

pub fn ray_sphere_pick(radius: u32, disc: u32, enter: u32, leave: u32) -> (t: Option<u32>)
    ensures
        t == ray_sphere_spec(radius, disc, enter, leave),
{
    if float_bits::le(radius, float_bits::ZERO) {
        return None;
    }
    pick_sphere(disc, enter, leave)
}

/// A sphere that has a size is met at the same distance by either test, and
/// that distance is not behind the start. No root that is not behind it is
/// nearer, where the roots are in order.
pub proof fn law_sphere_picks_agree(
    radius: u32,
    disc: u32,
    enter: u32,
    leave: u32,
    picked: Option<u32>,
    ray: Option<u32>,
)
    requires
        picked == sphere_hit_spec(disc, enter, leave),
        ray == ray_sphere_spec(radius, disc, enter, leave),
        float_bits::lt_spec(float_bits::ZERO, radius),
    ensures
        picked == ray,
        picked matches Some(t) ==> float_bits::le_spec(float_bits::ZERO, t) && (t == enter || t
            == leave),
        picked matches Some(t) ==> (float_bits::le_spec(float_bits::ZERO, enter)
            ==> float_bits::le_spec(t, enter)),
        picked matches Some(t) ==> (float_bits::le_spec(enter, leave) && float_bits::le_spec(
            float_bits::ZERO,
            leave,
        ) ==> float_bits::le_spec(t, leave)),
{
}

// ── Cells ───────────────────────────────────────────────────────────────
/// The heights of the four corners of a cell.
#[derive(Debug, Clone, Copy, PartialEq, Eq, Structural)]
pub struct CellCorners {
    pub z00: u32,
    pub z10: u32,
    pub z01: u32,
    pub z11: u32,
}

impl GameMap {
    /// The corners of a cell, for a trace through it; `None` off the map.
    pub fn cell_corners(&self, x: i32, y: i32) -> (c: Option<CellCorners>)
        requires
            self.wf(),
        ensures
            c == if self.on_map(x as int, y as int) {
                Some(
                    CellCorners {
                        z00: self.spec_point(x as int, y as int).z,
                        z10: self.spec_point(x + 1, y as int).z,
                        z01: self.spec_point(x as int, y + 1).z,
                        z11: self.spec_point(x + 1, y + 1).z,
                    },
                )
            } else {
                None
            },
            c is Some ==> c->0 == point_corners(*self, x as int, y as int),
    {
        if !self.contains_cell(x, y) {
            return None;
        }
        let xu = x as usize;
        let yu = y as usize;
        Some(
            CellCorners {
                z00: self.point(xu, yu).z,
                z10: self.point(xu + 1, yu).z,
                z01: self.point(xu, yu + 1).z,
                z11: self.point(xu + 1, yu + 1).z,
            },
        )
    }

    /// Open water, not under a bridge.
    pub open spec fn is_open_water(&self, x: int, y: int) -> bool {
        self.on_map(x, y) && self.spec_unit(x, y).flags & CELLFLAG_WATER != 0 && self.spec_unit(
            x,
            y,
        ).flags & CELLFLAG_BRIDGE == 0
    }

    /// Is there open water in the cell?
    pub fn water_cell_at(&self, x: i32, y: i32) -> (b: bool)
        requires
            self.wf(),
        ensures
            b == self.is_open_water(x as int, y as int),
    {
        match self.unit_flags(x, y) {
            Some(f) => f & CELLFLAG_WATER != 0 && f & CELLFLAG_BRIDGE == 0,
            None => false,
        }
    }
}

/// Where a line goes in the grid of cells.
#[derive(Debug)]
pub struct GridLine {
    /// The first cell.
    pub cx: i32,
    pub cy: i32,
    /// The last cell.
    pub ex: i32,
    pub ey: i32,
    /// Whether each coordinate grows along the line.
    pub grows_x: bool,
    pub grows_y: bool,
    /// The distances at which the line crosses the borders of columns and of
    /// rows, one after the other.
    pub tx: Vec<u32>,
    pub ty: Vec<u32>,
}

pub open spec fn dist(a: i32, b: i32) -> int {
    if a <= b {
        b - a
    } else {
        a - b
    }
}

impl GridLine {
    /// How many cells a line passes at most.
    pub open spec fn budget(&self) -> int {
        dist(self.cx, self.ex) + dist(self.cy, self.ey) + 1
    }

    /// How many columns and rows were crossed after `k` steps. The nearer
    /// border is next, a row before a column when they are equally near.
    pub open spec fn crossed(&self, k: int) -> (int, int)
        decreases k,
    {
        if k <= 0 {
            (0, 0)
        } else {
            let (i, j) = self.crossed(k - 1);
            if float_bits::lt_spec(self.tx@[i], self.ty@[j]) {
                (i + 1, j)
            } else {
                (i, j + 1)
            }
        }
    }

    pub open spec fn cell_x(&self, k: int) -> int {
        if self.grows_x {
            self.cx + self.crossed(k).0
        } else {
            self.cx - self.crossed(k).0
        }
    }

    pub open spec fn cell_y(&self, k: int) -> int {
        if self.grows_y {
            self.cy + self.crossed(k).1
        } else {
            self.cy - self.crossed(k).1
        }
    }

    /// Enough crossings are given, and no cell on the way leaves the range of
    /// cell numbers.
    pub open spec fn wf(&self) -> bool {
        &&& self.budget() <= i32::MAX
        &&& self.tx@.len() >= self.budget()
        &&& self.ty@.len() >= self.budget()
        &&& i32::MIN <= self.cx - self.budget()
        &&& self.cx + self.budget() <= i32::MAX
        &&& i32::MIN <= self.cy - self.budget()
        &&& self.cy + self.budget() <= i32::MAX
    }

    /// With these answers of the cells on the way, one after the other, the trace
    /// ends with `t`: all are none but the last, and where that is none too the
    /// line has come to its end.
    pub open spec fn traced(&self, hits: Seq<Option<u32>>, max_t: u32, t: Option<u32>) -> bool {
        &&& 1 <= hits.len() <= self.budget()
        &&& forall|k: int| #![trigger hits[k]] 0 <= k < hits.len() - 1 ==> hits[k] is None
        &&& hits.last() is None ==> hits.len() == self.budget()
        &&& t == first_hit(hits, max_t)
    }

    /// The first hit along the line, cell by cell from its start. `hit` gives
    /// the distance at which the line hits the ground of a cell. A first hit
    /// beyond `max_t` is none, and none can follow it.
    pub fn trace_landscape<F: Fn(i32, i32) -> Option<u32>>(&self, max_t: u32, hit: &F) -> (t:
        Option<u32>)
        requires
            self.wf(),
            forall|x: i32, y: i32| call_requires(*hit, (x, y)),
        ensures
            exists|hits: Seq<Option<u32>>|
                {
                    &&& #[trigger] self.traced(hits, max_t, t)
                    &&& forall|k: int|
                        #![trigger hits[k]]
                        0 <= k < hits.len() ==> call_ensures(
                            *hit,
                            (self.cell_x(k) as i32, self.cell_y(k) as i32),
                            hits[k],
                        )
                },
    {
        let dx: i64 = if self.cx <= self.ex {
            self.ex as i64 - self.cx as i64
        } else {
            self.cx as i64 - self.ex as i64
        };
        let dy: i64 = if self.cy <= self.ey {
            self.ey as i64 - self.cy as i64
        } else {
            self.cy as i64 - self.ey as i64
        };
        let mut remaining: i64 = dx + dy + 1;
        let mut cx: i32 = self.cx;
        let mut cy: i32 = self.cy;
        let mut i: usize = 0;
        let mut j: usize = 0;
        let ghost mut hits: Seq<Option<u32>> = Seq::empty();
        while remaining > 1
            invariant
                self.wf(),
                forall|x: i32, y: i32| call_requires(*hit, (x, y)),
                1 <= remaining <= self.budget(),
                hits.len() == self.budget() - remaining,
                (i as int, j as int) == self.crossed(hits.len() as int),
                i + j == hits.len(),
                cx == self.cell_x(hits.len() as int),
                cy == self.cell_y(hits.len() as int),
                forall|k: int|
                    #![trigger hits[k]]
                    0 <= k < hits.len() ==> hits[k] is None && call_ensures(
                        *hit,
                        (self.cell_x(k) as i32, self.cell_y(k) as i32),
                        hits[k],
                    ),
            decreases remaining,
        {
            let h = hit(cx, cy);
            let ghost before = hits;
            proof {
                hits = hits.push(h);
                assert(forall|k: int| 0 <= k < before.len() ==> hits[k] == before[k]);
            }
            match h {
                Some(t) => {
                    let r = if float_bits::le(t, max_t) {
                        Some(t)
                    } else {
                        None
                    };
                    assert(self.traced(hits, max_t, r));
                    return r;
                },
                None => {},
            }
            if float_bits::lt(self.tx[i], self.ty[j]) {
                cx = if self.grows_x {
                    cx + 1
                } else {
                    cx - 1
                };
                i = i + 1;
            } else {
                cy = if self.grows_y {
                    cy + 1
                } else {
                    cy - 1
                };
                j = j + 1;
            }
            remaining = remaining - 1;
        }
        let h = hit(cx, cy);
        proof {
            let before = hits;
            hits = hits.push(h);
            assert(forall|k: int| 0 <= k < before.len() ==> hits[k] == before[k]);
        }
        let r = match h {
            Some(t) => if float_bits::le(t, max_t) {
                Some(t)
            } else {
                None
            },
            None => None,
        };
        assert(self.traced(hits, max_t, r));
        r
    }
}

/// The last of the answers, if it is a hit within the length.
pub open spec fn first_hit(hits: Seq<Option<u32>>, max_t: u32) -> Option<u32> {
    match hits.last() {
        Some(t) => if float_bits::le_spec(t, max_t) {
            Some(t)
        } else {
            None
        },
        None => None,
    }
}

/// Each step of a line through the grid goes to a neighbouring cell, in the
/// direction of the line.
pub proof fn law_steps_to_neighbours(l: GridLine, k: int)
    requires
        l.wf(),
        0 <= k < l.budget() - 1,
    ensures
        ({
            let (x0, y0) = (l.cell_x(k), l.cell_y(k));
            let (x1, y1) = (l.cell_x(k + 1), l.cell_y(k + 1));
            ||| y1 == y0 && x1 == (if l.grows_x {
                x0 + 1
            } else {
                x0 - 1
            })
            ||| x1 == x0 && y1 == (if l.grows_y {
                y0 + 1
            } else {
                y0 - 1
            })
        }),
{
}

// ── The trace ───────────────────────────────────────────────────────────
/// A point of a line, by its height, and the cell below it.
#[derive(Debug, Clone, Copy, PartialEq, Eq, Structural)]
pub struct Spot {
    pub z: u32,
    pub x: i32,
    pub y: i32,
}

/// The line of a trace.
#[derive(Debug, Clone, Copy, PartialEq, Eq, Structural)]
pub struct TraceLine {
    pub len: u32,
    pub start_z: u32,
    pub end_z: u32,
    /// How steep it is: the size of the vertical part of its direction.
    pub slope: u32,
    /// The cell over which it crosses the height of the sea.
    pub sea_x: i32,
    pub sea_y: i32,
}

/// Where a trace ended.
#[derive(Debug, Clone, Copy, PartialEq, Eq, Structural)]
pub enum TraceEnd {
    /// At the end of the line.
    End,
    /// At this distance along it.
    Along(u32),
    /// Where it crosses the height of the sea.
    Sea,
}

/// The line crosses the height of the sea from one side to the other.
pub open spec fn crosses_sea(l: TraceLine) -> bool {
    &&& float_bits::lt_spec(l.start_z, WATER_LEVEL) || float_bits::lt_spec(l.end_z, WATER_LEVEL)
    &&& float_bits::le_spec(WATER_LEVEL, l.start_z) || float_bits::le_spec(WATER_LEVEL, l.end_z)
    &&& float_bits::lt_spec(NO_LENGTH, l.slope)
}

/// The object that a trace for `mask` meets on the line.
pub open spec fn met_object(mask: u32, len: u32, obj: Option<(ObjectId, u32)>) -> Option<(ObjectId, u32)> {
    match obj {
        Some(o) => if mask & TRACE_ANYOBJECT != 0 && float_bits::le_spec(o.1, len) {
            Some(o)
        } else {
            None
        },
        None => None,
    }
}

/// Land stops a trace above the sea, and below it where no open water covers
/// it or water is not looked for.
pub open spec fn land_stops(map: GameMap, mask: u32, s: Spot) -> bool {
    float_bits::lt_spec(WATER_LEVEL, s.z) || !(mask & TRACE_WATER != 0 && map.is_open_water(
        s.x as int,
        s.y as int,
    ))
}

/// The nearest of object and land ends a trace, an object before land that is
/// equally near. Failing these, open water where the line crosses its surface.
pub open spec fn ending(
    map: GameMap,
    mask: u32,
    l: TraceLine,
    obj: Option<(ObjectId, u32)>,
    land: Option<(u32, Spot)>,
) -> (TraceStop, TraceEnd) {
    let object = met_object(mask, l.len, obj);
    let ground = if mask & TRACE_LANDSCAPE != 0 {
        land
    } else {
        None
    };
    if float_bits::le_spec(l.len, NO_LENGTH) {
        (TraceStop::Nothing, TraceEnd::End)
    } else if object is Some && (ground is None || float_bits::le_spec(
        (object->0).1,
        (ground->0).0,
    )) {
        (TraceStop::Object((object->0).0), TraceEnd::Along((object->0).1))
    } else if ground is Some && land_stops(map, mask, (ground->0).1) {
        (TraceStop::Landscape, TraceEnd::Along((ground->0).0))
    } else if mask & TRACE_WATER != 0 && crosses_sea(l) && map.is_open_water(
        l.sea_x as int,
        l.sea_y as int,
    ) {
        (TraceStop::Water, TraceEnd::Sea)
    } else {
        (TraceStop::Nothing, TraceEnd::End)
    }
}

/// Where a trace ends, from what it meets: the nearest object, and the first
/// land.
pub fn trace_ending(
    map: &GameMap,
    mask: u32,
    l: TraceLine,
    obj: Option<(ObjectId, u32)>,
    land: Option<(u32, Spot)>,
) -> (r: (TraceStop, TraceEnd))
    requires
        map.wf(),
    ensures
        r == ending(*map, mask, l, obj, land),
{
    if float_bits::le(l.len, NO_LENGTH) {
        return (TraceStop::Nothing, TraceEnd::End);
    }
    let mut object: Option<(ObjectId, u32)> = None;
    match obj {
        Some((id, t)) => {
            if mask & TRACE_ANYOBJECT != 0 && float_bits::le(t, l.len) {
                object = Some((id, t));
            }
        },
        None => {},
    }
    let ground = if mask & TRACE_LANDSCAPE != 0 {
        land
    } else {
        None
    };
    match (object, ground) {
        (Some((id, to)), None) => {
            return (TraceStop::Object(id), TraceEnd::Along(to));
        },
        (Some((id, to)), Some((tl, s))) => {
            if float_bits::le(to, tl) {
                return (TraceStop::Object(id), TraceEnd::Along(to));
            }
            if float_bits::lt(WATER_LEVEL, s.z) || !(mask & TRACE_WATER != 0 && map.water_cell_at(
                s.x,
                s.y,
            )) {
                return (TraceStop::Landscape, TraceEnd::Along(tl));
            }
        },
        (None, Some((tl, s))) => {
            if float_bits::lt(WATER_LEVEL, s.z) || !(mask & TRACE_WATER != 0 && map.water_cell_at(
                s.x,
                s.y,
            )) {
                return (TraceStop::Landscape, TraceEnd::Along(tl));
            }
        },
        (None, None) => {},
    }
    if mask & TRACE_WATER != 0 {
        let below = float_bits::lt(l.start_z, WATER_LEVEL) || float_bits::lt(
            l.end_z,
            WATER_LEVEL,
        );
        let above = float_bits::le(WATER_LEVEL, l.start_z) || float_bits::le(
            WATER_LEVEL,
            l.end_z,
        );
        if below && above && float_bits::lt(NO_LENGTH, l.slope) && map.water_cell_at(
            l.sea_x,
            l.sea_y,
        ) {
            return (TraceStop::Water, TraceEnd::Sea);
        }
    }
    (TraceStop::Nothing, TraceEnd::End)
}

/// Trace a line through objects, land and water. `cells` are those that the line
/// passes, `pick` gives the distance at which it meets an object, and `land` is
/// the first land on it.
pub fn trace<T: MapStatic, P: Fn(&T) -> Option<u32>>(
    map: &GameMap,
    objs: &Objects<T>,
    cells: CellRect,
    mask: u32,
    skip: Option<ObjectId>,
    l: TraceLine,
    land: Option<(u32, Spot)>,
    pick: &P,
) -> (r: (TraceStop, TraceEnd))
    requires
        map.wf(),
        objs.wf(),
        forall|o: T| call_requires(*pick, (&o,)),
    ensures
        exists|ts: Seq<Option<u32>>|
            #![trigger nearest(ray_candidates(objs@.arena, cells, mask), ts, ts.len() as int)]
            {
                let v = objs@.arena;
                let cands = ray_candidates(v, cells, mask);
                &&& ts.len() == cands.len()
                &&& forall|i: int|
                    #![trigger ts[i]]
                    0 <= i < ts.len() ==> if eligible(v, cands[i], mask, skip) {
                        call_ensures(*pick, (&v.get(cands[i])->0,), ts[i])
                    } else {
                        ts[i] is None
                    }
                &&& r == ending(*map, mask, l, nearest(cands, ts, ts.len() as int), land)
            },
{
    let obj = objs.pick_object_within(cells, mask, skip, pick);
    trace_ending(map, mask, l, obj, land)
}

// ── Laws ────────────────────────────────────────────────────────────────
/// A trace is stopped only by what it looks for.
pub proof fn law_mask_is_kept(
    map: GameMap,
    mask: u32,
    l: TraceLine,
    obj: Option<(ObjectId, u32)>,
    land: Option<(u32, Spot)>,
)
    ensures
        ending(map, mask, l, obj, land).0 is Object ==> mask & TRACE_ANYOBJECT != 0,
        ending(map, mask, l, obj, land).0 is Landscape ==> mask & TRACE_LANDSCAPE != 0,
        ending(map, mask, l, obj, land).0 is Water ==> mask & TRACE_WATER != 0,
{
}

/// A trace stops at water only where its line crosses the surface over open
/// water.
pub proof fn law_water_stops_at_water(
    map: GameMap,
    mask: u32,
    l: TraceLine,
    obj: Option<(ObjectId, u32)>,
    land: Option<(u32, Spot)>,
)
    requires
        ending(map, mask, l, obj, land).0 is Water,
    ensures
        crosses_sea(l),
        map.is_open_water(l.sea_x as int, l.sea_y as int),
{
}

/// Dry ground below the height of the sea stops a trace like any other ground.
pub proof fn law_dry_basin_is_ground(
    map: GameMap,
    mask: u32,
    l: TraceLine,
    land: (u32, Spot),
)
    requires
        mask & TRACE_LANDSCAPE != 0,
        !float_bits::le_spec(l.len, NO_LENGTH),
        !map.is_open_water(land.1.x as int, land.1.y as int),
    ensures
        ending(map, mask, l, None, Some(land)) == (
            TraceStop::Landscape,
            TraceEnd::Along(land.0),
        ),
{
}

/// The cells that a line visits are those that it passes through. After `k` steps
/// it has crossed `i` columns and `j` rows, and no border that it has crossed
/// lies beyond one that it has not: `tx` and `ty` tell how far along the line the
/// borders lie.
pub proof fn law_cells_lie_on_line(l: GridLine, k: int)
    requires
        l.wf(),
        0 <= k < l.budget(),
        forall|a: int, b: int|
            0 <= a <= b < l.tx@.len() ==> float_bits::le_spec(
                #[trigger] l.tx@[a],
                #[trigger] l.tx@[b],
            ),
        forall|a: int, b: int|
            0 <= a <= b < l.ty@.len() ==> float_bits::le_spec(
                #[trigger] l.ty@[a],
                #[trigger] l.ty@[b],
            ),
    ensures
        ({
            let i = if l.grows_x {
                l.cell_x(k) - l.cx
            } else {
                l.cx - l.cell_x(k)
            };
            let j = if l.grows_y {
                l.cell_y(k) - l.cy
            } else {
                l.cy - l.cell_y(k)
            };
            &&& 0 <= i
            &&& 0 <= j
            &&& i + j == k
            &&& forall|a: int, b: int|
                0 <= a < i && j <= b < l.ty@.len() ==> float_bits::lt_spec(
                    #[trigger] l.tx@[a],
                    #[trigger] l.ty@[b],
                )
            &&& forall|a: int, b: int|
                i <= a < l.tx@.len() && 0 <= b < j ==> float_bits::le_spec(
                    #[trigger] l.ty@[b],
                    #[trigger] l.tx@[a],
                )
        }),
    decreases k,
{
    if k > 0 {
        law_cells_lie_on_line(l, k - 1);
        let (i, j) = l.crossed(k - 1);
        assert(float_bits::le_spec(l.tx@[i], l.tx@[i]));
        assert(float_bits::le_spec(l.ty@[j], l.ty@[j]));
        let (i2, j2) = l.crossed(k);
        assert forall|a: int, b: int| 0 <= a < i2 && j2 <= b < l.ty@.len() implies
            float_bits::lt_spec(#[trigger] l.tx@[a], #[trigger] l.ty@[b]) by {
            assert(float_bits::le_spec(l.ty@[j], l.ty@[b]));
            if a >= i {
                assert(a == i);
            }
        }
        assert forall|a: int, b: int| i2 <= a < l.tx@.len() && 0 <= b < j2 implies
            float_bits::le_spec(#[trigger] l.ty@[b], #[trigger] l.tx@[a]) by {
            assert(float_bits::le_spec(l.tx@[i], l.tx@[a]));
            if b >= j {
                assert(b == j);
            }
        }
    }
}

/// A line that crosses no row stays in its row and visits the columns one after
/// the other; a line that crosses no column does the same the other way.
pub proof fn law_straight_line(l: GridLine, k: int)
    requires
        l.wf(),
        0 <= k < l.budget(),
    ensures
        (forall|a: int, b: int|
            0 <= a < l.tx@.len() && 0 <= b < l.ty@.len() ==> float_bits::lt_spec(
                #[trigger] l.tx@[a],
                #[trigger] l.ty@[b],
            )) ==> l.cell_y(k) == l.cy && l.cell_x(k) == (if l.grows_x {
            l.cx + k
        } else {
            l.cx - k
        }),
        (forall|a: int, b: int|
            0 <= a < l.tx@.len() && 0 <= b < l.ty@.len() ==> float_bits::le_spec(
                #[trigger] l.ty@[b],
                #[trigger] l.tx@[a],
            )) ==> l.cell_x(k) == l.cx && l.cell_y(k) == (if l.grows_y {
            l.cy + k
        } else {
            l.cy - k
        }),
    decreases k,
{
    if k > 0 {
        law_straight_line(l, k - 1);
        lemma_crossed_sum(l, k - 1);
        let (i, j) = l.crossed(k - 1);
        let (x, y) = (l.tx@[i], l.ty@[j]);
        assert(float_bits::lt_spec(x, y) || !float_bits::lt_spec(x, y));
    }
}

proof fn lemma_crossed_sum(l: GridLine, k: int)
    requires
        0 <= k,
    ensures
        l.crossed(k).0 >= 0,
        l.crossed(k).1 >= 0,
        l.crossed(k).0 + l.crossed(k).1 == k,
    decreases k,
{
    if k > 0 {
        lemma_crossed_sum(l, k - 1);
    }
}

/// A line whose end lies in cell `(ex, ey)` comes to that cell with its last
/// step: every border before the end lies before every border behind it.
pub proof fn law_line_reaches_its_end(l: GridLine)
    requires
        l.wf(),
        l.grows_x == (l.ex >= l.cx),
        l.grows_y == (l.ey >= l.cy),
        forall|a: int, b: int|
            0 <= a <= b < l.tx@.len() ==> float_bits::le_spec(
                #[trigger] l.tx@[a],
                #[trigger] l.tx@[b],
            ),
        forall|a: int, b: int|
            0 <= a <= b < l.ty@.len() ==> float_bits::le_spec(
                #[trigger] l.ty@[a],
                #[trigger] l.ty@[b],
            ),
        ({
            let dx = if l.ex >= l.cx {
                l.ex - l.cx
            } else {
                l.cx - l.ex
            };
            let dy = if l.ey >= l.cy {
                l.ey - l.cy
            } else {
                l.cy - l.ey
            };
            &&& forall|a: int, b: int|
                0 <= a < dx && dy <= b < l.ty@.len() ==> float_bits::lt_spec(
                    #[trigger] l.tx@[a],
                    #[trigger] l.ty@[b],
                )
            &&& forall|a: int, b: int|
                dx <= a < l.tx@.len() && 0 <= b < dy ==> float_bits::le_spec(
                    #[trigger] l.ty@[b],
                    #[trigger] l.tx@[a],
                )
        }),
    ensures
        l.budget() - 1 >= 0,
        l.cell_x(l.budget() - 1) == l.ex,
        l.cell_y(l.budget() - 1) == l.ey,
{
    let k = l.budget() - 1;
    law_cells_lie_on_line(l, k);
    let (dx, dy) = (dist(l.cx, l.ex), dist(l.cy, l.ey));
    let (i, j) = l.crossed(k);
    if i > dx {
        assert(float_bits::lt_spec(l.tx@[dx], l.ty@[j]));
        assert(float_bits::le_spec(l.ty@[j], l.tx@[dx]));
    }
    if i < dx {
        assert(float_bits::le_spec(l.ty@[dy], l.tx@[i]));
        assert(float_bits::lt_spec(l.tx@[i], l.ty@[dy]));
    }
}

/// A trace over land finds the ground of the first visited cell in which the line
/// meets any: if it lies within the length, that is the result, and otherwise
/// there is none. `ground` is what the line meets in each cell.
pub proof fn law_first_hill_stops_line(
    l: GridLine,
    ground: spec_fn(int, int) -> Option<u32>,
    hits: Seq<Option<u32>>,
    max_t: u32,
    t: Option<u32>,
    k: int,
)
    requires
        l.wf(),
        l.traced(hits, max_t, t),
        forall|i: int|
            0 <= i < hits.len() ==> #[trigger] hits[i] == ground(l.cell_x(i), l.cell_y(i)),
        0 <= k < l.budget(),
    ensures
        // the first cell with ground decides
        (ground(l.cell_x(k), l.cell_y(k)) is Some && forall|i: int|
            0 <= i < k ==> ground(#[trigger] l.cell_x(i), l.cell_y(i)) is None) ==> t == (
        if float_bits::le_spec(ground(l.cell_x(k), l.cell_y(k))->0, max_t) {
            ground(l.cell_x(k), l.cell_y(k))
        } else {
            None
        }),
        // without ground on the way there is no hit
        (forall|i: int| 0 <= i < l.budget() ==> ground(#[trigger] l.cell_x(i), l.cell_y(i)) is None)
            ==> t is None,
        // a hit is the ground of a visited cell, within the length
        t is Some ==> float_bits::le_spec(t->0, max_t) && exists|i: int|
            0 <= i < l.budget() && ground(#[trigger] l.cell_x(i), l.cell_y(i)) == t,
{
    let n = hits.len() - 1;
    assert(hits[n] == hits.last());
    assert(hits[n] == ground(l.cell_x(n), l.cell_y(n)));
    if ground(l.cell_x(k), l.cell_y(k)) is Some {
        if k < n {
            assert(hits[k] is None);
        }
        if forall|i: int| 0 <= i < k ==> ground(#[trigger] l.cell_x(i), l.cell_y(i)) is None {
            if n < k {
                assert(ground(l.cell_x(n), l.cell_y(n)) is None);
            }
        }
    }
}

/// What lies first along a line stops a trace. An object that the trace looks for
/// stops it unless land that it looks for lies nearer; dry land that it looks for
/// stops it unless an object lies at least as near. Either way the trace ends
/// where the line meets it.
pub proof fn law_nearest_stops_trace(
    map: GameMap,
    mask: u32,
    l: TraceLine,
    obj: Option<(ObjectId, u32)>,
    land: Option<(u32, Spot)>,
)
    requires
        !float_bits::le_spec(l.len, NO_LENGTH),
    ensures
        ({
            let r = ending(map, mask, l, obj, land);
            let meets_object = obj is Some && mask & TRACE_ANYOBJECT != 0 && float_bits::le_spec(
                (obj->0).1,
                l.len,
            );
            let meets_land = land is Some && mask & TRACE_LANDSCAPE != 0;
            let wet = meets_land && mask & TRACE_WATER != 0 && !float_bits::lt_spec(
                0xc000_0000,
                (land->0).1.z,
            ) && map.is_open_water((land->0).1.x as int, (land->0).1.y as int);
            &&& meets_object && !meets_land ==> r == (
                TraceStop::Object((obj->0).0),
                TraceEnd::Along((obj->0).1),
            )
            &&& meets_object && meets_land && float_bits::le_spec((obj->0).1, (land->0).0) ==> r
                == (TraceStop::Object((obj->0).0), TraceEnd::Along((obj->0).1))
            &&& meets_object && meets_land && float_bits::lt_spec((land->0).0, (obj->0).1) && !wet
                ==> r == (TraceStop::Landscape, TraceEnd::Along((land->0).0))
            &&& !meets_object && meets_land && !wet ==> r == (
                TraceStop::Landscape,
                TraceEnd::Along((land->0).0),
            )
            &&& !meets_object && (!meets_land || wet) ==> r == (TraceStop::Nothing, TraceEnd::End)
                || r == (TraceStop::Water, TraceEnd::Sea)
        }),
{
}

/// A trace that meets neither object nor dry land is stopped by the sea exactly
/// where its line goes through the surface over open water, from above or from
/// below; a line that stays on one side of the surface is not.
pub proof fn law_sea_stops_trace(map: GameMap, mask: u32, l: TraceLine)
    requires
        !float_bits::le_spec(l.len, NO_LENGTH),
        mask & TRACE_WATER != 0,
    ensures
        ({
            let r = ending(map, mask, l, None, None);
            let sea = 0xc000_0000u32;
            let through = (float_bits::le_spec(sea, l.start_z) && float_bits::lt_spec(l.end_z, sea))
                || (float_bits::lt_spec(l.start_z, sea) && float_bits::le_spec(sea, l.end_z));
            &&& through && float_bits::lt_spec(NO_LENGTH, l.slope) && map.is_open_water(
                l.sea_x as int,
                l.sea_y as int,
            ) ==> r == (TraceStop::Water, TraceEnd::Sea)
            &&& !map.is_open_water(l.sea_x as int, l.sea_y as int) ==> r == (
                TraceStop::Nothing,
                TraceEnd::End,
            )
            &&& float_bits::le_spec(sea, l.start_z) && float_bits::le_spec(sea, l.end_z) ==> r == (
                TraceStop::Nothing,
                TraceEnd::End,
            )
            &&& float_bits::lt_spec(l.start_z, sea) && float_bits::lt_spec(l.end_z, sea) ==> r == (
                TraceStop::Nothing,
                TraceEnd::End,
            )
        }),
{
}

/// A line without length meets nothing.
pub proof fn law_no_length_meets_nothing(
    map: GameMap,
    mask: u32,
    l: TraceLine,
    obj: Option<(ObjectId, u32)>,
    land: Option<(u32, Spot)>,
)
    requires
        float_bits::le_spec(l.len, float_bits::ZERO),
    ensures
        ending(map, mask, l, obj, land) == (TraceStop::Nothing, TraceEnd::End),
{
}

/// Open water is a cell of the map with water in it and no bridge over it.
pub proof fn law_open_water(map: GameMap, x: int, y: int)
    ensures
        map.is_open_water(x, y) ==> 0 <= x < map.size_x && 0 <= y < map.size_y,
        0 <= x < map.size_x && 0 <= y < map.size_y ==> {
            let f = map.units@[y * map.size_x + x].flags;
            &&& f & CELLFLAG_BRIDGE != 0 ==> !map.is_open_water(x, y)
            &&& f & CELLFLAG_WATER == 0 ==> !map.is_open_water(x, y)
            &&& f & CELLFLAG_WATER != 0 && f & CELLFLAG_BRIDGE == 0 ==> map.is_open_water(x, y)
        },
{
}

/// A line hits a triangle where its plane is crossed from the front, not behind
/// the start, at a place whose parts along the two edges are not negative and
/// come to one at most; the hit is at that distance.
pub proof fn law_hits_inside_triangle(c: Crossing)
    requires
        !float_bits::is_nan_spec(c.det),
        !float_bits::is_nan_spec(c.v),
        !float_bits::is_nan_spec(c.uv),
        !float_bits::is_nan_spec(c.t),
    ensures
        triangle_hit_spec(c) is Some <==> {
            &&& float_bits::le_spec(FRONT_FACE, c.det)
            &&& float_bits::le_spec(float_bits::ZERO, c.u)
            &&& float_bits::le_spec(c.u, float_bits::ONE)
            &&& float_bits::le_spec(float_bits::ZERO, c.v)
            &&& float_bits::le_spec(c.uv, float_bits::ONE)
            &&& float_bits::le_spec(float_bits::ZERO, c.t)
        },
        triangle_hit_spec(c) is Some ==> triangle_hit_spec(c) == Some(c.t),
{
}

/// A line that misses a sphere, or has it behind it, does not hit it; one that
/// starts inside hits where it leaves.
pub proof fn law_hits_sphere(disc: u32, enter: u32, leave: u32)
    ensures
        float_bits::lt_spec(disc, float_bits::ZERO) ==> sphere_hit_spec(disc, enter, leave) is None,
        float_bits::lt_spec(enter, float_bits::ZERO) && float_bits::lt_spec(leave, float_bits::ZERO)
            ==> sphere_hit_spec(disc, enter, leave) is None,
        float_bits::le_spec(float_bits::ZERO, disc) && float_bits::le_spec(float_bits::ZERO, enter)
            ==> sphere_hit_spec(disc, enter, leave) == Some(enter),
        float_bits::le_spec(float_bits::ZERO, disc) && float_bits::lt_spec(enter, float_bits::ZERO)
            && float_bits::le_spec(float_bits::ZERO, leave) ==> sphere_hit_spec(disc, enter, leave)
            == Some(leave),
        ray_sphere_spec(float_bits::ZERO, disc, enter, leave) is None,
{
}

} // verus!
