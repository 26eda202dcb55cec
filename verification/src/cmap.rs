//! A whole map file: its columns, and the map that they make.
use crate::float_bits;
use crate::map::{groups_over, CompilePoint, GameMap, MapUnit};
use crate::map_prepare::{
    bridged, buffers, column_of, compute_group_bounds, compute_group_max_z_land, compute_units,
    group_bounds_of, group_tops_of, inshore_of, law_extremes_are_attained, load_bridges, load_inshore_prespawns,
    load_move_cells, load_road_network, lowest, move_cells_of, points_of, read_points, units_of,
    InshoreColumns, Roads, RoadsError, POINT_SIZE, ROADS_VERSION,
};
use crate::bytes::u32_at;
use crate::placements::{
    building_count, cannon_row, effect_count, effect_rows, load_buildings, load_cannon_rows,
    load_effects, load_objects, load_robots, reads_building, reads_effect, reads_object,
    reads_robot, ruin_row, rows_of, BuildingColumns, CannonColumns, EffectColumns, ObjectColumns,
    RobotColumns,
};
use crate::map_prepare::min_int;
use crate::properties::{find_property_int, int_property, load_properties, rows, PropertyError};
use vstd::prelude::*;

verus! {

/// The columns of a map file. A column that the file lacks is `None`.
pub struct Cmap {
    pub property_names: Option<Vec<String>>,
    pub property_values: Option<Vec<String>>,
    pub points: Option<Vec<u8>>,
    /// Empty when missing.
    pub move_data: Vec<u8>,
    /// Empty when missing.
    pub bridges: Vec<Vec<u8>>,
    pub roads: Option<Vec<u8>>,
    pub inshores: Option<InshoreColumns>,
    pub effects: Option<EffectColumns>,
    pub strings: Vec<String>,
    pub objects: Option<ObjectColumns>,
    pub buildings: Option<BuildingColumns>,
    pub cannons: Option<CannonColumns>,
    pub robots: Option<RobotColumns>,
}

/// Why a map file is refused.
#[derive(Debug, Clone, Copy, PartialEq, Eq, Structural)]
pub enum CmapError {
    MissingPropertyNames,
    MissingPropertyValues,
    SizeX(PropertyError),
    SizeY(PropertyError),
    MissingPoints,
    /// Fewer points than the size asks for.
    PointsTooSmall { len: usize },
    Roads(RoadsError),
}

impl Cmap {
    pub open spec fn names(self) -> Seq<Seq<char>> {
        rows(self.property_names->0@)
    }

    pub open spec fn values(self) -> Seq<Seq<char>> {
        rows(self.property_values->0@)
    }

    pub open spec fn size_x(self) -> Result<i32, PropertyError> {
        int_property(self.names(), self.values(), "SizeInUnitsX"@)
    }

    pub open spec fn size_y(self) -> Result<i32, PropertyError> {
        int_property(self.names(), self.values(), "SizeInUnitsY"@)
    }

    /// There is a point record for every corner of every cell.
    pub open spec fn has_points(self) -> bool {
        let sx = self.size_x()->Ok_0;
        let sy = self.size_y()->Ok_0;
        &&& sx >= 0
        &&& sy >= 0
        &&& self.points->0@.len() >= (sx + 1) * (sy + 1) * POINT_SIZE
    }

    pub open spec fn roads_error(self) -> Option<RoadsError> {
        match self.roads {
            None => None,
            Some(d) => if d@.len() == 0 {
                None
            } else if d@.len() < 4 {
                Some(RoadsError::TooSmall { len: d@.len() as usize })
            } else if u32_at(d@, 0) != ROADS_VERSION {
                Some(RoadsError::Version { found: u32_at(d@, 0) })
            } else {
                None
            },
        }
    }

    /// What is wrong with a map file, the first thing that is found.
    pub open spec fn error(self) -> Option<CmapError> {
        if self.property_names is None {
            Some(CmapError::MissingPropertyNames)
        } else if self.property_values is None {
            Some(CmapError::MissingPropertyValues)
        } else if self.size_x() is Err {
            Some(CmapError::SizeX(self.size_x()->Err_0))
        } else if self.size_y() is Err {
            Some(CmapError::SizeY(self.size_y()->Err_0))
        } else if self.points is None {
            Some(CmapError::MissingPoints)
        } else if !self.has_points() {
            Some(CmapError::PointsTooSmall { len: self.points->0@.len() as usize })
        } else {
            match self.roads_error() {
                Some(e) => Some(CmapError::Roads(e)),
                None => None,
            }
        }
    }

    /// The points and cells, bridges put down.
    pub open spec fn terrain(self) -> (Seq<CompilePoint>, Seq<MapUnit>) {
        let sx = self.size_x()->Ok_0 as int;
        let sy = self.size_y()->Ok_0 as int;
        let points = points_of(self.points->0@, (sx + 1) * (sy + 1));
        bridged(
            buffers(self.bridges@),
            points,
            units_of(points, sx, sy),
            sx,
            sy,
            self.bridges@.len() as int,
        )
    }

    /// The heights of all points.
    pub open spec fn heights(self) -> Seq<u32> {
        Seq::new(self.terrain().0.len(), |i: int| self.terrain().0[i].z)
    }

    /// Map `m` has the size and the terrain of the file.
    pub open spec fn reads_terrain(self, m: GameMap) -> bool {
        let sx = self.size_x()->Ok_0 as int;
        let sy = self.size_y()->Ok_0 as int;
        &&& m.size_x == sx
        &&& m.size_y == sy
        &&& m.points@ == self.terrain().0
        &&& m.units@ == self.terrain().1
        &&& m.move_cells@ == move_cells_of(
            self.move_data@,
            points_of(self.points->0@, (sx + 1) * (sy + 1)),
            sx,
            sy,
        )
        &&& m.group_max_z_land@ == group_tops_of(m.points@, m.units@, sx, sy)
        &&& m.group_bounds@ == group_bounds_of(m.points@, sx, sy)
        &&& m.min_z == lowest(self.heights(), self.heights().len() as int)
        &&& m.roads == if self.roads matches Some(d) && d@.len() > 0 {
            Roads::Present
        } else {
            Roads::Missing
        }
    }

    /// Map `m` has the placements of the file.
    pub open spec fn reads_placements(self, m: GameMap) -> bool {
        &&& match self.objects {
            Some(c) => m.objects@.len() == min_int(
                (c.x@.len() / 4) as int,
                (c.y@.len() / 4) as int,
            ) && forall|i: int|
                0 <= i < m.objects@.len() ==> reads_object(
                    c,
                    i,
                    m.size_x as int,
                    m.size_y as int,
                    #[trigger] m.objects@[i],
                ),
            None => m.objects@.len() == 0,
        }
        &&& match self.buildings {
            Some(c) => {
                let live = rows_of(c, false, building_count(c));
                &&& m.buildings@.len() == live.len()
                &&& forall|k: int|
                    0 <= k < live.len() ==> reads_building(c, live[k], #[trigger] m.buildings@[k])
                &&& m.ruins@ == rows_of(c, true, building_count(c)).map_values(
                    |i: int| ruin_row(c, i),
                )
            },
            None => m.buildings@.len() == 0 && m.ruins@.len() == 0,
        }
        &&& match self.cannons {
            Some(c) => m.cannon_rows@ == Seq::new(
                min_int((c.x@.len() / 4) as int, (c.y@.len() / 4) as int) as nat,
                |i: int| cannon_row(c, i),
            ),
            None => m.cannon_rows@.len() == 0,
        }
        &&& match self.robots {
            Some(c) => m.robots@.len() == min_int(
                (c.x@.len() / 4) as int,
                (c.y@.len() / 4) as int,
            ) && forall|i: int|
                0 <= i < m.robots@.len() ==> reads_robot(c, i, #[trigger] m.robots@[i]),
            None => m.robots@.len() == 0,
        }
        &&& match self.effects {
            Some(c) => {
                let kept = effect_rows(c, self.strings@.len() as int, effect_count(c));
                &&& m.effect_spawners@.len() == kept.len()
                &&& forall|k: int|
                    0 <= k < kept.len() ==> reads_effect(
                        c,
                        rows(self.strings@),
                        kept[k],
                        #[trigger] m.effect_spawners@[k],
                    )
            },
            None => m.effect_spawners@.len() == 0,
        }
    }

    /// Map `m` has the shoreline of the file.
    pub open spec fn reads_shore(self, m: GameMap) -> bool {
        let total = groups_over(m.size_x as int) * groups_over(m.size_y as int);
        &&& m.inshore_prespawns@.len() == total
        &&& forall|i: int|
            0 <= i < total ==> (#[trigger] m.inshore_prespawns@[i])@ == match self.inshores {
                Some(c) => if m.props.disable_inshore || c.x@.len() < total {
                    Seq::empty()
                } else {
                    inshore_of(
                        column_of(c.x@, i),
                        column_of(c.y@, i),
                        column_of(c.nx@, i),
                        column_of(c.ny@, i),
                    )
                },
                None => Seq::empty(),
            }
    }
}

fn lowest_point(points: &Vec<CompilePoint>) -> (m: u32)
    ensures
        m == lowest(
            Seq::new(points@.len(), |i: int| points@[i].z),
            points@.len() as int,
        ),
{
    let ghost zs = Seq::new(points@.len(), |i: int| points@[i].z);
    let mut m: u32 = crate::map_prepare::INFINITY;
    let mut i: usize = 0;
    while i < points.len()
        invariant
            zs == Seq::new(points@.len(), |i: int| points@[i].z),
            i <= points@.len(),
            m == lowest(zs, i as int),
        decreases points.len() - i,
    {
        if float_bits::lt(points[i].z, m) {
            m = points[i].z;
        }
        i = i + 1;
    }
    m
}

/// The number of points of a map, where the data has them.
fn point_count(sx: i32, sy: i32, len: usize) -> (n: Option<usize>)
    ensures
        match n {
            Some(k) => sx >= 0 && sy >= 0 && k == (sx + 1) * (sy + 1) && k * POINT_SIZE <= len,
            None => sx < 0 || sy < 0 || (sx + 1) * (sy + 1) * POINT_SIZE > len,
        },
{
    if sx < 0 || sy < 0 {
        return None;
    }
    let a: u128 = sx as u128 + 1;
    let b: u128 = sy as u128 + 1;
    proof {
        assert(0 <= a * b <= 0x8000_0000 * 0x8000_0000) by (nonlinear_arith)
            requires
                0 <= a <= 0x8000_0000,
                0 <= b <= 0x8000_0000,
        ;
    }
    let k: u128 = a * b;
    if k * 12 <= len as u128 {
        Some(k as usize)
    } else {
        None
    }
}

impl GameMap {
    /// Load a map from its file columns.
    pub fn from_cmap(c: &Cmap) -> (r: Result<GameMap, CmapError>)
        ensures
            match r {
                Err(e) => c.error() == Some(e),
                Ok(m) => {
                    &&& c.error() is None
                    &&& m.wf()
                    &&& m.props.reads(c.names(), c.values())
                    &&& c.reads_terrain(m)
                    &&& c.reads_placements(m)
                    &&& c.reads_shore(m)
                },
            },
    {
        let names = match &c.property_names {
            Some(n) => n,
            None => {
                return Err(CmapError::MissingPropertyNames);
            },
        };
        let values = match &c.property_values {
            Some(v) => v,
            None => {
                return Err(CmapError::MissingPropertyValues);
            },
        };
        let sx = match find_property_int(names, values, "SizeInUnitsX") {
            Ok(v) => v,
            Err(e) => {
                return Err(CmapError::SizeX(e));
            },
        };
        let sy = match find_property_int(names, values, "SizeInUnitsY") {
            Ok(v) => v,
            Err(e) => {
                return Err(CmapError::SizeY(e));
            },
        };
        let data = match &c.points {
            Some(d) => d,
            None => {
                return Err(CmapError::MissingPoints);
            },
        };
        let n = match point_count(sx, sy, data.len()) {
            Some(n) => n,
            None => {
                return Err(CmapError::PointsTooSmall { len: data.len() });
            },
        };
        let roads = match load_road_network(&c.roads) {
            Ok(r) => r,
            Err(e) => {
                return Err(CmapError::Roads(e));
            },
        };
        let props = load_properties(names, values);
        let size_x = sx as usize;
        let size_y = sy as usize;
        let mut points = read_points(data, n);
        let ghost points0 = points@;
        let mut units = compute_units(&points, size_x, size_y);
        let move_cells = load_move_cells(&c.move_data, &points, size_x, size_y);
        proof {
            assert(size_x * size_y >= 0) by (nonlinear_arith)
                requires
                    size_x >= 0,
                    size_y >= 0,
            ;
            assert((2 * size_x) * (2 * size_y) >= 0) by (nonlinear_arith)
                requires
                    size_x >= 0,
                    size_y >= 0,
            ;
        }
        load_bridges(&c.bridges, &mut points, &mut units, size_x, size_y);
        let objects = match &c.objects {
            Some(o) => load_objects(o, size_x, size_y),
            None => Vec::new(),
        };
        let (buildings, ruins) = match &c.buildings {
            Some(b) => load_buildings(b),
            None => (Vec::new(), Vec::new()),
        };
        let cannon_rows = match &c.cannons {
            Some(k) => load_cannon_rows(k),
            None => Vec::new(),
        };
        let robots = match &c.robots {
            Some(b) => load_robots(b),
            None => Vec::new(),
        };
        let effect_spawners = match &c.effects {
            Some(e) => load_effects(e, &c.strings),
            None => Vec::new(),
        };
        let (group_max_z_land, group_w, group_h) = compute_group_max_z_land(
            &points,
            &units,
            size_x,
            size_y,
        );
        let group_bounds = compute_group_bounds(&points, size_x, size_y);
        proof {
            assert(group_w * group_h >= 0) by (nonlinear_arith)
                requires
                    group_w >= 0,
                    group_h >= 0,
            ;
        }
        let min_z = lowest_point(&points);
        let inshore_prespawns = load_inshore_prespawns(
            &c.inshores,
            group_max_z_land.len(),
            props.disable_inshore,
        );
        assert(c.heights() =~= Seq::new(points@.len(), |i: int| points@[i].z));
        Ok(
            GameMap {
                size_x,
                size_y,
                points,
                units,
                move_cells,
                size_move_x: 2 * size_x,
                size_move_y: 2 * size_y,
                group_max_z_land,
                group_w,
                group_h,
                group_bounds,
                min_z,
                props,
                objects,
                buildings,
                ruins,
                cannon_rows,
                robots,
                effect_spawners,
                inshore_prespawns,
                roads,
            },
        )
    }
}

// ── Laws ────────────────────────────────────────────────────────────────
/// A map file is taken if it has its properties, its size and enough points, and
/// roads of the known version where it has any.
pub proof fn law_good_file(c: Cmap)
    ensures
        c.error() is None <==> {
            &&& c.property_names is Some
            &&& c.property_values is Some
            &&& c.size_x() is Ok
            &&& c.size_y() is Ok
            &&& c.points is Some
            &&& c.size_x()->Ok_0 >= 0
            &&& c.size_y()->Ok_0 >= 0
            &&& 12 * ((c.size_x()->Ok_0 + 1) * (c.size_y()->Ok_0 + 1)) <= c.points->0@.len()
            &&& c.roads is Some && c.roads->0@.len() > 0 ==> c.roads->0@.len() >= 4 && u32_at(
                c.roads->0@,
                0,
            ) == 27
        },
{
}

/// Of several faults the file's first is reported: its properties before its
/// size, its size before its points, its points before its roads.
pub proof fn law_first_fault(c: Cmap)
    ensures
        c.property_names is None ==> c.error() == Some(CmapError::MissingPropertyNames),
        c.property_names is Some && c.property_values is None ==> c.error() == Some(
            CmapError::MissingPropertyValues,
        ),
        c.error() is Some && c.error()->0 is SizeX ==> c.size_x() == Err::<i32, PropertyError>(
            c.error()->0->SizeX_0,
        ),
        c.error() is Some && c.error()->0 is SizeY ==> c.size_x() is Ok && c.size_y() == Err::<
            i32,
            PropertyError,
        >(c.error()->0->SizeY_0),
        c.error() == Some(CmapError::MissingPoints) ==> c.size_x() is Ok && c.size_y() is Ok
            && c.points is None,
        c.error() is Some && c.error()->0 is PointsTooSmall ==> c.points is Some
            && c.error()->0->len == c.points->0@.len() as usize,
        c.error() is Some && c.error()->0 is Roads ==> c.points is Some && c.has_points(),
{
}

/// A file without bridges gives the points as they stand in it, and cells that
/// go through them.
pub proof fn law_map_without_bridges(c: Cmap, m: GameMap)
    requires
        c.reads_terrain(m),
        c.bridges@.len() == 0,
    ensures
        m.points@ == points_of(c.points->0@, (m.size_x + 1) * (m.size_y + 1)),
        m.units@ == units_of(m.points@, m.size_x as int, m.size_y as int),
        m.size_x == c.size_x()->Ok_0 && m.size_y == c.size_y()->Ok_0,
{
}

/// No point of the map lies below its lowest one.
pub proof fn law_lowest_point(c: Cmap, m: GameMap, i: int)
    requires
        c.reads_terrain(m),
        0 <= i < m.points@.len(),
        !float_bits::is_nan_spec(m.points@[i].z),
    ensures
        float_bits::le_spec(m.min_z, m.points@[i].z),
        exists|k: int|
            0 <= k < m.points@.len() && (#[trigger] m.points@[k]).z == m.min_z || m.min_z
                == 0x7f80_0000,
{
    let zs = c.heights();
    lemma_lowest(zs, zs.len() as int, i);
    law_extremes_are_attained(zs, zs.len() as int);
    if m.min_z != 0x7f80_0000 {
        let k = choose|k: int| 0 <= k < zs.len() && #[trigger] zs[k] == m.min_z;
        assert(m.points@[k].z == m.min_z);
    } else {
        assert(0 <= i < m.points@.len() && (m.points@[i]).z == m.min_z || m.min_z == 0x7f80_0000);
    }
}

proof fn lemma_lowest(zs: Seq<u32>, n: int, i: int)
    requires
        0 <= i < n <= zs.len(),
        !float_bits::is_nan_spec(zs[i]),
    ensures
        float_bits::le_spec(lowest(zs, n), zs[i]),
    decreases n,
{
    lemma_lowest_is_number(zs, n - 1);
    if i < n - 1 {
        lemma_lowest(zs, n - 1, i);
    }
}

proof fn lemma_lowest_is_number(zs: Seq<u32>, n: int)
    requires
        n <= zs.len(),
    ensures
        !float_bits::is_nan_spec(lowest(zs, n)),
    decreases n,
{
    if n > 0 {
        lemma_lowest_is_number(zs, n - 1);
    }
}

/// A column that the file lacks places nothing.
pub proof fn law_missing_columns(c: Cmap, m: GameMap)
    requires
        c.reads_placements(m),
    ensures
        c.objects is None ==> m.objects@.len() == 0,
        c.buildings is None ==> m.buildings@.len() == 0 && m.ruins@.len() == 0,
        c.cannons is None ==> m.cannon_rows@.len() == 0,
        c.robots is None ==> m.robots@.len() == 0,
        c.effects is None ==> m.effect_spawners@.len() == 0,
{
}

/// As many objects, cannons and robots are placed as have both coordinates, four
/// bytes to each.
pub proof fn law_placed_counts(c: Cmap, m: GameMap, n: int)
    requires
        c.reads_placements(m),
        0 <= n,
    ensures
        c.objects is Some ==> (n < m.objects@.len() <==> 4 * n + 4 <= c.objects->0.x@.len() && 4 * n
            + 4 <= c.objects->0.y@.len()),
        c.cannons is Some ==> (n < m.cannon_rows@.len() <==> 4 * n + 4 <= c.cannons->0.x@.len() && 4
            * n + 4 <= c.cannons->0.y@.len()),
        c.robots is Some ==> (n < m.robots@.len() <==> 4 * n + 4 <= c.robots->0.x@.len() && 4 * n + 4
            <= c.robots->0.y@.len()),
{
}

/// The shore has waves only where the file has them for every group and the map
/// does not switch them off.
pub proof fn law_shore(c: Cmap, m: GameMap, i: int)
    requires
        c.reads_shore(m),
        0 <= i < m.inshore_prespawns@.len(),
        (m.inshore_prespawns@[i])@.len() > 0,
    ensures
        c.inshores is Some,
        !m.props.disable_inshore,
        c.inshores->0.x@.len() >= m.inshore_prespawns@.len(),
{
}

} // verus!
