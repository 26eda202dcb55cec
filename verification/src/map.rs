//! The loaded map: heights, cells, movement grid, groups and placements.
//!
//! Heights and coordinates are single-precision numbers kept as bit patterns.
use crate::common::{
    CELLFLAG_BRIDGE, CELLFLAG_FLAT, CELLFLAG_WATER, MAP_GROUP_SIZE,
};
use crate::float_bits;
use crate::map_prepare::Roads;
use crate::placements::{CannonRow, EffectSpawner, RobotInstance};
use crate::properties::MapProperties;
use vstd::prelude::*;

verus! {

/// One point of the height map.
#[derive(Debug, Clone, Copy, PartialEq, Eq, Structural)]
pub struct CompilePoint {
    pub move_idx: i32,
    pub z: u32,
    pub b: u8,
    pub g: u8,
    pub r: u8,
    pub flags: u8,
}

/// The surface normal at a point.
#[derive(Debug, Clone, Copy, PartialEq, Eq, Structural)]
pub struct PointNormal {
    pub x: u32,
    pub y: u32,
    pub z: u32,
}

/// What one fine cell means for movement. A `stop` bit says that a chassis
/// kind cannot stand there with a footprint of some size.
#[derive(Debug, Clone, Copy, PartialEq, Eq, Structural)]
pub struct MoveCell {
    pub zone: i32,
    pub sphere: u32,
    pub zubchik: u32,
    pub stop: u32,
}

impl Default for MoveCell {
    fn default() -> (c: MoveCell)
        ensures
            c == no_cell(),
    {
        MoveCell { zone: 0, sphere: 0, zubchik: 0, stop: 0 }
    }
}

pub open spec fn no_cell() -> MoveCell {
    MoveCell { zone: 0, sphere: 0, zubchik: 0, stop: 0 }
}

/// The `stop` bit of chassis kind `nsh` with a footprint of `size` cells
/// square: sizes are six bits apart.
pub open spec fn stop_bit(nsh: int, size: int) -> u32 {
    (1u32 << (nsh as u32)) << ((6 * (size - 1)) as u32)
}

/// Whether the bit of chassis kind `nsh` is set for a corner of the cell;
/// corners are eight bits apart.
pub open spec fn corner_set(bits: u32, nsh: int, corner: int) -> bool {
    bits & ((1u32 << (nsh as u32)) << ((8 * corner) as u32)) != 0
}

/// `v` where `b` holds.
pub open spec fn one_if(b: bool, v: int) -> int {
    if b {
        v
    } else {
        0
    }
}

/// The corner bits in one byte, the sphere corners low, the triangular ones
/// high.
pub open spec fn corner_byte(c: MoveCell, nsh: int) -> int {
    one_if(corner_set(c.sphere, nsh, 0), 1) + one_if(corner_set(c.sphere, nsh, 1), 2) + one_if(
        corner_set(c.sphere, nsh, 2),
        4,
    ) + one_if(corner_set(c.sphere, nsh, 3), 8) + one_if(corner_set(c.zubchik, nsh, 0), 16)
        + one_if(corner_set(c.zubchik, nsh, 1), 32) + one_if(corner_set(c.zubchik, nsh, 2), 64)
        + one_if(corner_set(c.zubchik, nsh, 3), 128)
}

impl MoveCell {
    pub fn stop_mask(nsh: usize, size: i32) -> (m: u32)
        requires
            nsh < 32,
            1 <= size <= 5,
        ensures
            m == stop_bit(nsh as int, size as int),
    {
        (1u32 << (nsh as u32)) << ((6 * (size - 1)) as u32)
    }

    /// Is a footprint of `size` cells square blocked for the chassis kind?
    pub fn is_impassable_for(&self, nsh: usize, size: i32) -> (b: bool)
        requires
            nsh < 32,
            1 <= size <= 5,
        ensures
            b == (self.stop & stop_bit(nsh as int, size as int) != 0),
    {
        (self.stop & Self::stop_mask(nsh, size)) != 0
    }

    /// The corners of a blocked cell; `0xff` when the cell is passable.
    pub fn get_type(&self, nsh: usize) -> (t: u8)
        requires
            nsh < 32,
        ensures
            t == if self.stop & (1u32 << (nsh as u32)) == 0 {
                0xff
            } else {
                corner_byte(*self, nsh as int)
            },
    {
        let bit = 1u32 << (nsh as u32);
        if (self.stop & bit) == 0 {
            return 0xff;
        }
        proof {
            assert(bit << 0u32 == bit) by (bit_vector);
        }
        let mut rv: u8 = 0;
        if (self.sphere & bit) != 0 {
            rv = rv + 1;
        }
        if (self.sphere & (bit << 8u32)) != 0 {
            rv = rv + 2;
        }
        if (self.sphere & (bit << 16u32)) != 0 {
            rv = rv + 4;
        }
        if (self.sphere & (bit << 24u32)) != 0 {
            rv = rv + 8;
        }
        if (self.zubchik & bit) != 0 {
            rv = rv + 16;
        }
        if (self.zubchik & (bit << 8u32)) != 0 {
            rv = rv + 32;
        }
        if (self.zubchik & (bit << 16u32)) != 0 {
            rv = rv + 64;
        }
        if (self.zubchik & (bit << 24u32)) != 0 {
            rv = rv + 128;
        }
        rv
    }
}

/// The shape of the ground in a cell.
#[derive(Debug, Clone, Copy, PartialEq, Eq, Structural)]
pub enum UnitPlane {
    /// All four corners at one height.
    Flat { z: u32 },
    /// Two triangles over the corner heights, clockwise from the near left.
    Corners { z0: u32, z1: u32, z2: u32, z3: u32 },
}

/// One cell of the map.
#[derive(Debug, Clone, Copy, PartialEq, Eq, Structural)]
pub struct MapUnit {
    pub flags: u8,
    pub plane: UnitPlane,
}

/// Lowest and highest point of a map group.
#[derive(Debug, Clone, Copy, PartialEq, Eq, Structural)]
pub struct GroupBounds {
    pub min_z: u32,
    pub max_z: u32,
}

/// Where a shoreline wave starts, and towards which side the land lies.
#[derive(Debug, Clone, Copy, PartialEq, Eq)]
pub struct InshorePreSpawn {
    pub pos: (u32, u32),
    pub dir: (u32, u32),
}

/// How high an object stands.
#[derive(Debug, Clone, Copy, PartialEq, Eq, Structural)]
pub enum ObjectHeight {
    /// This much above the mean of the corners around it.
    AboveGround(u32),
    /// At this height.
    At(u32),
}

/// A scenery placement.
#[derive(Debug)]
pub struct ObjectInstance {
    pub x: u32,
    pub y: u32,
    pub height: ObjectHeight,
    pub angle_z: u32,
    pub angle_x: u32,
    pub angle_y: u32,
    pub scale: u32,
    pub type_id: u32,
    pub shadow: Option<ObjectShadow>,
}

/// The baked ground shadow of a scenery object.
#[derive(Debug)]
pub struct ObjectShadow {
    pub vertices: Vec<ObjectShadowVertex>,
    pub indices: Vec<u32>,
    pub camera_pos: (u32, u32, u32),
    pub dimensions: (u32, u32),
}

/// A shadow vertex: the height map point that it lies on, and where the texture
/// is sampled.
#[derive(Debug, Clone, Copy, PartialEq, Eq)]
pub struct ObjectShadowVertex {
    pub px: u16,
    pub py: u16,
    pub uv: (u32, u32),
}

/// A ruin that stands from the start.
#[derive(Debug, Clone, Copy, PartialEq, Eq, Structural)]
pub struct RuinInstance {
    pub x: u32,
    pub y: u32,
    pub angle: i32,
    pub kind: i32,
}

/// A building that stands from the start.
#[derive(Debug)]
pub struct BuildingInstance {
    pub x: u32,
    pub y: u32,
    /// Quarter turns.
    pub angle: u8,
    pub side: u8,
    pub kind: u8,
    pub shadow_kind: u8,
    pub shadow_size: i32,
    /// How many turret places the building has.
    pub turrets_places_cnt: i32,
    pub turret_places: Vec<TurretPlaceCmap>,
}

/// A cannon, or a place for one, that a map starts with.
#[derive(Debug, Clone, Copy, PartialEq, Eq, Structural)]
pub struct CannonInstance {
    pub x: u32,
    pub y: u32,
    pub angle: u32,
    pub kind: u8,
    pub side: u8,
    pub add_h: u32,
    /// Zero for a cannon on its own, one for a cannon of a building, two for
    /// an empty place.
    pub prop: i32,
    pub parent_building: Option<usize>,
    pub parent_slot: i32,
}

/// A turret place of a building, in move cells.
#[derive(Debug, Clone, Copy, PartialEq, Eq)]
pub struct TurretPlaceCmap {
    pub coord: (i32, i32),
    pub angle: u32,
    /// Minus one while the place is empty.
    pub cannon_type: i32,
}

// ── The map ─────────────────────────────────────────────────────────────
/// What the library keeps of a loaded map.
#[derive(Debug)]
pub struct GameMap {
    pub size_x: usize,
    pub size_y: usize,
    pub points: Vec<CompilePoint>,
    pub units: Vec<MapUnit>,
    pub move_cells: Vec<MoveCell>,
    pub size_move_x: usize,
    pub size_move_y: usize,
    /// Highest land of each group, never below zero.
    pub group_max_z_land: Vec<u32>,
    pub group_w: usize,
    pub group_h: usize,
    pub group_bounds: Vec<GroupBounds>,
    pub min_z: u32,
    pub props: MapProperties,
    pub objects: Vec<ObjectInstance>,
    pub buildings: Vec<BuildingInstance>,
    pub ruins: Vec<RuinInstance>,
    /// The cannon rows as they stand in the file.
    pub cannon_rows: Vec<CannonRow>,
    pub robots: Vec<RobotInstance>,
    pub effect_spawners: Vec<EffectSpawner>,
    /// Shoreline wave starts of each group.
    pub inshore_prespawns: Vec<Vec<InshorePreSpawn>>,
    pub roads: Roads,
}

/// How many groups of cells cover `n` cells.
pub open spec fn groups_over(n: int) -> int {
    (n + MAP_GROUP_SIZE - 1) / (MAP_GROUP_SIZE as int)
}

/// What the ground under a world position is.
#[derive(Debug, Clone, Copy, PartialEq, Eq, Structural)]
pub enum Ground {
    /// Off the map, or open water.
    Nothing,
    /// A plane.
    Plane(UnitPlane),
}

/// How the surface normal at a position is found.
#[derive(Debug, Clone, Copy, PartialEq, Eq, Structural)]
pub enum NormalRule {
    /// Straight up.
    Up,
    /// From the slope of the bridge deck.
    Deck,
    /// Between the normals of the four corners.
    Corners,
}

impl GameMap {
    /// All tables have the sizes that the map's size asks for.
    pub open spec fn wf(&self) -> bool {
        &&& self.size_x <= i32::MAX
        &&& self.size_y <= i32::MAX
        &&& self.points@.len() == (self.size_x + 1) * (self.size_y + 1)
        &&& self.units@.len() == self.size_x * self.size_y
        &&& self.size_move_x == 2 * self.size_x
        &&& self.size_move_y == 2 * self.size_y
        &&& self.move_cells@.len() == self.size_move_x * self.size_move_y
        &&& self.group_w == groups_over(self.size_x as int)
        &&& self.group_h == groups_over(self.size_y as int)
        &&& self.group_max_z_land@.len() == self.group_w * self.group_h
        &&& self.group_bounds@.len() == self.group_w * self.group_h
    }

    pub open spec fn spec_point(&self, x: int, y: int) -> CompilePoint {
        self.points@[y * (self.size_x + 1) + x]
    }

    pub open spec fn spec_unit(&self, x: int, y: int) -> MapUnit {
        self.units@[y * self.size_x + x]
    }

    pub open spec fn on_map(&self, x: int, y: int) -> bool {
        0 <= x < self.size_x && 0 <= y < self.size_y
    }

    /// The move cell at a position, where there is one.
    pub open spec fn spec_move_cell(&self, mx: int, my: int) -> Option<MoveCell> {
        if 0 <= mx < self.size_move_x && 0 <= my < self.size_move_y {
            Some(self.move_cells@[my * self.size_move_x + mx])
        } else {
            None
        }
    }

    pub fn point(&self, x: usize, y: usize) -> (p: &CompilePoint)
        requires
            self.wf(),
            x <= self.size_x,
            y <= self.size_y,
        ensures
            *p == self.spec_point(x as int, y as int),
    {
        proof {
            lemma_cell_index(x as int, y as int, self.size_x + 1, self.size_y + 1);
        }
        &self.points[cell_index(x, y, self.size_x + 1, self.points.len())]
    }

    pub fn unit(&self, x: usize, y: usize) -> (u: &MapUnit)
        requires
            self.wf(),
            x < self.size_x,
            y < self.size_y,
        ensures
            *u == self.spec_unit(x as int, y as int),
    {
        proof {
            lemma_cell_index(x as int, y as int, self.size_x as int, self.size_y as int);
        }
        &self.units[cell_index(x, y, self.size_x, self.units.len())]
    }

    /// The flags of a cell; `None` off the map.
    pub fn unit_flags(&self, x: i32, y: i32) -> (f: Option<u8>)
        requires
            self.wf(),
        ensures
            f == if self.on_map(x as int, y as int) {
                Some(self.spec_unit(x as int, y as int).flags)
            } else {
                None
            },
    {
        if x < 0 || y < 0 {
            return None;
        }
        if x as usize >= self.size_x || y as usize >= self.size_y {
            return None;
        }
        Some(self.unit(x as usize, y as usize).flags)
    }

    pub fn move_cell(&self, mx: i32, my: i32) -> (c: Option<&MoveCell>)
        requires
            self.wf(),
        ensures
            match c {
                Some(m) => self.spec_move_cell(mx as int, my as int) == Some(*m),
                None => self.spec_move_cell(mx as int, my as int) is None,
            },
    {
        if mx < 0 || my < 0 {
            return None;
        }
        let x = mx as usize;
        let y = my as usize;
        if x >= self.size_move_x || y >= self.size_move_y {
            return None;
        }
        proof {
            lemma_cell_index(x as int, y as int, self.size_move_x as int, self.size_move_y as int);
        }
        Some(&self.move_cells[cell_index(x, y, self.size_move_x, self.move_cells.len())])
    }

    /// Can a robot of the chassis kind stand here with a footprint of `size`
    /// cells square? Nothing stands off the grid.
    pub fn is_passable_size(&self, mx: i32, my: i32, chassis_kind: usize, size: i32) -> (b: bool)
        requires
            self.wf(),
            chassis_kind < 32,
            1 <= size <= 5,
        ensures
            b == match self.spec_move_cell(mx as int, my as int) {
                Some(c) => c.stop & stop_bit(chassis_kind as int, size as int) == 0,
                None => false,
            },
    {
        match self.move_cell(mx, my) {
            Some(c) => !c.is_impassable_for(chassis_kind, size),
            None => false,
        }
    }

    /// Does the cell lie on the map?
    pub fn contains_cell(&self, x: i32, y: i32) -> (b: bool)
        requires
            self.wf(),
        ensures
            b == self.on_map(x as int, y as int),
    {
        x >= 0 && y >= 0 && (x as usize) < self.size_x && (y as usize) < self.size_y
    }

    pub open spec fn ground_spec(&self, x: int, y: int) -> Ground {
        if !self.on_map(x, y) {
            Ground::Nothing
        } else {
            let u = self.spec_unit(x, y);
            if u.flags & CELLFLAG_BRIDGE == 0 && u.flags & CELLFLAG_WATER != 0 {
                Ground::Nothing
            } else {
                Ground::Plane(u.plane)
            }
        }
    }

    /// The ground in a cell. Open water has none; a bridge over it has.
    pub fn ground(&self, x: i32, y: i32) -> (g: Ground)
        requires
            self.wf(),
        ensures
            g == self.ground_spec(x as int, y as int),
    {
        if !self.contains_cell(x, y) {
            return Ground::Nothing;
        }
        let u = self.unit(x as usize, y as usize);
        if u.flags & CELLFLAG_BRIDGE == 0 && u.flags & CELLFLAG_WATER != 0 {
            return Ground::Nothing;
        }
        Ground::Plane(u.plane)
    }

    /// Some corner of the cell lies below sea level.
    pub open spec fn dips(&self, x: int, y: int) -> bool {
        float_bits::lt_spec(self.spec_point(x, y).z, float_bits::ZERO) || float_bits::lt_spec(
            self.spec_point(x + 1, y).z,
            float_bits::ZERO,
        ) || float_bits::lt_spec(self.spec_point(x, y + 1).z, float_bits::ZERO)
            || float_bits::lt_spec(self.spec_point(x + 1, y + 1).z, float_bits::ZERO)
    }

    pub open spec fn normal_rule_spec(&self, x: int, y: int, check_water: bool) -> NormalRule {
        if !self.on_map(x, y) {
            NormalRule::Up
        } else {
            let u = self.spec_unit(x, y);
            if u.flags & CELLFLAG_FLAT != 0 {
                NormalRule::Up
            } else if u.flags & CELLFLAG_BRIDGE != 0 {
                NormalRule::Deck
            } else if u.flags & CELLFLAG_WATER != 0 || (check_water && self.dips(x, y)) {
                NormalRule::Up
            } else {
                NormalRule::Corners
            }
        }
    }

    /// How the normal in a cell is found. With `check_water`, shore cells that
    /// dip below sea level count as level.
    pub fn normal_rule(&self, x: i32, y: i32, check_water: bool) -> (r: NormalRule)
        requires
            self.wf(),
        ensures
            r == self.normal_rule_spec(x as int, y as int, check_water),
    {
        if !self.contains_cell(x, y) {
            return NormalRule::Up;
        }
        let ux = x as usize;
        let uy = y as usize;
        let u = self.unit(ux, uy);
        if u.flags & CELLFLAG_FLAT != 0 {
            return NormalRule::Up;
        }
        if u.flags & CELLFLAG_BRIDGE != 0 {
            return NormalRule::Deck;
        }
        if u.flags & CELLFLAG_WATER != 0 {
            return NormalRule::Up;
        }
        if check_water {
            if float_bits::lt(self.point(ux, uy).z, float_bits::ZERO) || float_bits::lt(
                self.point(ux + 1, uy).z,
                float_bits::ZERO,
            ) || float_bits::lt(self.point(ux, uy + 1).z, float_bits::ZERO) || float_bits::lt(
                self.point(ux + 1, uy + 1).z,
                float_bits::ZERO,
            ) {
                return NormalRule::Up;
            }
        }
        NormalRule::Corners
    }

    /// The four corner points whose colours are blended over a cell; `None`
    /// where the object ambient colour is used: off the map and on open water.
    pub fn color_corners(&self, x: i32, y: i32) -> (r: Option<
        (CompilePoint, CompilePoint, CompilePoint, CompilePoint),
    >)
        requires
            self.wf(),
        ensures
            r == if self.ground_spec(x as int, y as int) == Ground::Nothing {
                None
            } else {
                Some(
                    (
                        self.spec_point(x as int, y as int),
                        self.spec_point(x + 1, y as int),
                        self.spec_point(x as int, y + 1),
                        self.spec_point(x + 1, y + 1),
                    ),
                )
            },
    {
        match self.ground(x, y) {
            Ground::Nothing => None,
            Ground::Plane(_) => {
                let ux = x as usize;
                let uy = y as usize;
                Some(
                    (
                        *self.point(ux, uy),
                        *self.point(ux + 1, uy),
                        *self.point(ux, uy + 1),
                        *self.point(ux + 1, uy + 1),
                    ),
                )
            },
        }
    }

    pub open spec fn group_z_spec(&self, gx: int, gy: int) -> u32 {
        if 0 <= gx < self.group_w && 0 <= gy < self.group_h {
            self.group_max_z_land@[gy * self.group_w + gx]
        } else {
            float_bits::ZERO
        }
    }

    /// The highest land of a group; zero off the map.
    pub fn group_max_z_land_at(&self, gx: i32, gy: i32) -> (z: u32)
        requires
            self.wf(),
        ensures
            z == self.group_z_spec(gx as int, gy as int),
    {
        if gx < 0 || gy < 0 || gx as usize >= self.group_w || gy as usize >= self.group_h {
            return float_bits::ZERO;
        }
        proof {
            lemma_cell_index(gx as int, gy as int, self.group_w as int, self.group_h as int);
        }
        self.group_max_z_land[cell_index(
            gx as usize,
            gy as usize,
            self.group_w,
            self.group_max_z_land.len(),
        )]
    }

    /// One sample for the camera height: the group's highest land held between
    /// the base heights, when those leave room, and below the ceiling.
    pub fn group_z_sample(&self, gx: i32, gy: i32, lo: u32, hi: u32, ceiling: u32) -> (z: u32)
        requires
            self.wf(),
        ensures
            z == sample_spec(
                self.group_z_spec(gx as int, gy as int),
                0 <= gx < self.group_w && 0 <= gy < self.group_h,
                lo,
                hi,
                ceiling,
            ),
    {
        if gx < 0 || gy < 0 || gx as usize >= self.group_w || gy as usize >= self.group_h {
            return float_bits::ZERO;
        }
        let mut v = self.group_max_z_land_at(gx, gy);
        if float_bits::lt(lo, hi) {
            if float_bits::lt(v, lo) {
                v = lo;
            } else if float_bits::lt(hi, v) {
                v = hi;
            }
        }
        if float_bits::is_nan(v) || float_bits::lt(ceiling, v) {
            ceiling
        } else {
            v
        }
    }

    /// The heights of those corners of a cell that lie on the map.
    pub fn corner_heights(&self, px: i32, py: i32) -> (zs: Vec<u32>)
        requires
            self.wf(),
        ensures
            zs@ == self.corner_z(px as int, py as int) + self.corner_z(px + 1, py as int)
                + self.corner_z(px as int, py + 1) + self.corner_z(px + 1, py + 1),
    {
        let mut zs: Vec<u32> = Vec::new();
        let x = px as i64;
        let y = py as i64;
        self.push_corner(x, y, &mut zs);
        self.push_corner(x + 1, y, &mut zs);
        self.push_corner(x, y + 1, &mut zs);
        self.push_corner(x + 1, y + 1, &mut zs);
        assert(Seq::<u32>::empty() + self.corner_z(px as int, py as int) =~= self.corner_z(
            px as int,
            py as int,
        ));
        zs
    }

    /// The height of a point, or nothing off the map.
    pub open spec fn corner_z(&self, x: int, y: int) -> Seq<u32> {
        if 0 <= x <= self.size_x && 0 <= y <= self.size_y {
            seq![self.spec_point(x, y).z]
        } else {
            Seq::empty()
        }
    }

    fn push_corner(&self, x: i64, y: i64, zs: &mut Vec<u32>)
        requires
            self.wf(),
        ensures
            final(zs)@ == old(zs)@ + self.corner_z(x as int, y as int),
    {
        if 0 <= x && 0 <= y && x <= self.size_x as i64 && y <= self.size_y as i64 {
            let ghost before = zs@;
            zs.push(self.point(x as usize, y as usize).z);
            assert(zs@ =~= before + self.corner_z(x as int, y as int));
        } else {
            assert(zs@ + Seq::<u32>::empty() =~= zs@);
        }
    }
}

/// A group height as the camera uses it.
pub open spec fn sample_spec(z: u32, on_map: bool, lo: u32, hi: u32, ceiling: u32) -> u32 {
    if !on_map {
        float_bits::ZERO
    } else {
        let v = if float_bits::lt_spec(lo, hi) && float_bits::lt_spec(z, lo) {
            lo
        } else if float_bits::lt_spec(lo, hi) && float_bits::lt_spec(hi, z) {
            hi
        } else {
            z
        };
        if float_bits::is_nan_spec(v) || float_bits::lt_spec(ceiling, v) {
            ceiling
        } else {
            v
        }
    }
}

/// A channel value held to a byte.
pub open spec fn channel(v: int) -> int {
    if v < 0 {
        0
    } else if v > 255 {
        255
    } else {
        v
    }
}

fn clamp_channel(v: i32) -> (r: u32)
    ensures
        r == channel(v as int),
        r <= 255,
{
    if v < 0 {
        0
    } else if v > 255 {
        255
    } else {
        v as u32
    }
}

/// Three channel values in one word, red highest.
pub fn pack_color(r: i32, g: i32, b: i32) -> (c: u32)
    ensures
        c == 0x1_0000 * channel(r as int) + 0x100 * channel(g as int) + channel(b as int),
{
    let r = clamp_channel(r);
    let g = clamp_channel(g);
    let b = clamp_channel(b);
    0x1_0000 * r + 0x100 * g + b
}

/// The place of a cell in a table that is `w` wide and `len` long.
pub fn cell_index(x: usize, y: usize, w: usize, len: usize) -> (i: usize)
    requires
        x < w,
        (y + 1) * w <= len,
    ensures
        i == y * w + x,
        i < len,
{
    proof {
        assert((y + 1) * w == y * w + w && y * w >= 0) by (nonlinear_arith)
            requires
                0 <= y,
                0 <= w,
        ;
    }
    y * w + x
}

/// A cell within `w` by `h` has its place within the `w * h` of the table.
pub proof fn lemma_cell_index(x: int, y: int, w: int, h: int)
    requires
        0 <= x < w,
        0 <= y < h,
    ensures
        0 <= y * w + x < w * h,
        (y + 1) * w <= w * h,
{
    assert(y * w + x < w * h && y * w >= 0 && (y + 1) * w <= w * h) by (nonlinear_arith)
        requires
            0 <= x < w,
            0 <= y < h,
    ;
}

// ── Laws ────────────────────────────────────────────────────────────────
/// Every chassis kind has a bit of its own for every footprint size.
pub proof fn law_stop_bits_apart(n1: int, s1: int, n2: int, s2: int)
    requires
        0 <= n1 < 6,
        0 <= n2 < 6,
        1 <= s1 <= 5,
        1 <= s2 <= 5,
        n1 != n2 || s1 != s2,
    ensures
        stop_bit(n1, s1) != 0,
        stop_bit(n1, s1) & stop_bit(n2, s2) == 0,
{
    let a = n1 as u32;
    let b = n2 as u32;
    let p = (6 * (s1 - 1)) as u32;
    let q = (6 * (s2 - 1)) as u32;
    assert(((1u32 << a) << p) != 0 && (((1u32 << a) << p) & ((1u32 << b) << q)) == 0) by (bit_vector)
        requires
            a < 6,
            b < 6,
            p == 0 || p == 6 || p == 12 || p == 18 || p == 24,
            q == 0 || q == 6 || q == 12 || q == 18 || q == 24,
            a != b || p != q,
    ;
}

/// A cell that blocks nothing is passable for every chassis at every size.
pub proof fn law_clear_cell_is_passable(c: MoveCell, nsh: int, size: int)
    requires
        c.stop == 0,
    ensures
        c.stop & stop_bit(nsh, size) == 0,
{
    let m = stop_bit(nsh, size);
    assert(0u32 & m == 0) by (bit_vector);
}

/// The ground of a cell is its plane; there is none off the map and under open
/// water, but there is on a bridge.
pub proof fn law_ground(m: GameMap, x: int, y: int)
    ensures
        x < 0 || y < 0 || x >= m.size_x || y >= m.size_y ==> m.ground_spec(x, y) == Ground::Nothing,
        0 <= x < m.size_x && 0 <= y < m.size_y ==> {
            let u = m.units@[y * m.size_x + x];
            &&& u.flags & CELLFLAG_WATER == 0 ==> m.ground_spec(x, y) == Ground::Plane(u.plane)
            &&& u.flags & CELLFLAG_BRIDGE != 0 ==> m.ground_spec(x, y) == Ground::Plane(u.plane)
            &&& u.flags & CELLFLAG_WATER != 0 && u.flags & CELLFLAG_BRIDGE == 0 ==> m.ground_spec(
                x,
                y,
            ) == Ground::Nothing
        },
{
}

/// The normal is straight up off the map, on flat cells, over water that no bridge
/// covers, and, where shores are flattened, wherever a corner lies below the sea;
/// on a sloped bridge it is that of the deck, elsewhere that of the corners.
pub proof fn law_normals(m: GameMap, x: int, y: int, check_water: bool)
    requires
        0 <= x < m.size_x,
        0 <= y < m.size_y,
    ensures
        ({
            let f = m.units@[y * m.size_x + x].flags;
            let w = m.size_x + 1;
            let low = |px: int, py: int|
                float_bits::lt_spec(m.points@[py * w + px].z, float_bits::ZERO);
            let wet = low(x, y) || low(x + 1, y) || low(x, y + 1) || low(x + 1, y + 1);
            let r = m.normal_rule_spec(x, y, check_water);
            &&& f & CELLFLAG_FLAT != 0 ==> r == NormalRule::Up
            &&& f & CELLFLAG_FLAT == 0 && f & CELLFLAG_BRIDGE != 0 ==> r == NormalRule::Deck
            &&& f & CELLFLAG_FLAT == 0 && f & CELLFLAG_BRIDGE == 0 && f & CELLFLAG_WATER != 0 ==> r
                == NormalRule::Up
            &&& f & CELLFLAG_FLAT == 0 && f & CELLFLAG_BRIDGE == 0 && f & CELLFLAG_WATER == 0 ==> r
                == if check_water && wet {
                NormalRule::Up
            } else {
                NormalRule::Corners
            }
        }),
{
}

/// A cell of the movement grid exists inside the grid only, and is the one of its
/// row and column.
pub proof fn law_move_cells_are_found(m: GameMap, mx: int, my: int)
    requires
        m.wf(),
    ensures
        mx < 0 || my < 0 || mx >= 2 * m.size_x || my >= 2 * m.size_y ==> m.spec_move_cell(mx, my)
            is None,
        0 <= mx < 2 * m.size_x && 0 <= my < 2 * m.size_y ==> m.spec_move_cell(mx, my) == Some(
            m.move_cells@[my * (2 * m.size_x) + mx],
        ),
{
}

/// The bit of a chassis kind and a footprint: six bits for each size, from the
/// smallest on.
pub proof fn law_stop_bit(nsh: int, size: int)
    requires
        0 <= nsh < 6,
        1 <= size <= 5,
    ensures
        stop_bit(nsh, 1) == 1u32 << (nsh as u32),
        size < 5 ==> stop_bit(nsh, size + 1) == stop_bit(nsh, size) << 6u32,
{
    let (n, s) = (nsh as u32, (6 * (size - 1)) as u32);
    assert((1u32 << n) << 0u32 == 1u32 << n) by (bit_vector);
    if size < 5 {
        let t = (6 * size) as u32;
        assert((1u32 << n) << t == ((1u32 << n) << s) << 6u32) by (bit_vector)
            requires
                n < 6,
                s <= 18,
                t == s + 6,
        ;
    }
}

/// The corners of a blocked cell: one bit for each, the round ones low, the others
/// high, and all eight together where the chassis is blocked at all of them.
pub proof fn law_corner_bits(c: MoveCell, nsh: int)
    requires
        0 <= nsh < 8,
    ensures
        0 <= corner_byte(c, nsh) <= 255,
        (corner_byte(c, nsh) % 2 == 1) == corner_set(c.sphere, nsh, 0),
        (corner_byte(c, nsh) / 2 % 2 == 1) == corner_set(c.sphere, nsh, 1),
        (corner_byte(c, nsh) / 4 % 2 == 1) == corner_set(c.sphere, nsh, 2),
        (corner_byte(c, nsh) / 8 % 2 == 1) == corner_set(c.sphere, nsh, 3),
        (corner_byte(c, nsh) / 16 % 2 == 1) == corner_set(c.zubchik, nsh, 0),
        (corner_byte(c, nsh) / 32 % 2 == 1) == corner_set(c.zubchik, nsh, 1),
        (corner_byte(c, nsh) / 64 % 2 == 1) == corner_set(c.zubchik, nsh, 2),
        (corner_byte(c, nsh) / 128 % 2 == 1) == corner_set(c.zubchik, nsh, 3),
{
}

/// Colours are packed red, green, blue, each held between nothing and 255.
pub proof fn law_channels(v: int)
    ensures
        0 <= v <= 255 ==> channel(v) == v,
        v < 0 ==> channel(v) == 0,
        v > 255 ==> channel(v) == 255,
{
}

/// The top of a group for the camera: held between the bounds where these are in
/// order, then below the ceiling; nothing off the map.
pub proof fn law_group_sample(z: u32, lo: u32, hi: u32, ceiling: u32)
    requires
        !float_bits::is_nan_spec(z),
        !float_bits::is_nan_spec(ceiling),
    ensures
        sample_spec(z, false, lo, hi, ceiling) == 0,
        float_bits::le_spec(sample_spec(z, true, lo, hi, ceiling), ceiling),
        float_bits::lt_spec(lo, hi) && float_bits::lt_spec(hi, ceiling) ==> float_bits::le_spec(
            lo,
            sample_spec(z, true, lo, hi, ceiling),
        ) && float_bits::le_spec(sample_spec(z, true, lo, hi, ceiling), hi),
        float_bits::lt_spec(lo, hi) && float_bits::le_spec(lo, z) && float_bits::le_spec(z, hi)
            && float_bits::le_spec(z, ceiling) ==> sample_spec(z, true, lo, hi, ceiling) == z,
        !float_bits::lt_spec(lo, hi) && float_bits::le_spec(z, ceiling) ==> sample_spec(
            z,
            true,
            lo,
            hi,
            ceiling,
        ) == z,
{
}

/// The bit of a chassis kind for a corner of the cell is the kind's bit in that
/// corner's byte.
pub proof fn law_corner_bytes(bits: u32, nsh: u32, corner: u32)
    requires
        nsh < 8,
        corner < 4,
    ensures
        corner_set(bits, nsh as int, corner as int) <==> ((bits >> ((8 * corner) as u32)) >> nsh) & 1
            == 1,
{
    let k = (8 * corner) as u32;
    assert((bits & ((1u32 << nsh) << k) != 0) == (((bits >> k) >> nsh) & 1 == 1)) by (bit_vector)
        requires
            nsh < 8,
            k == 0 || k == 8 || k == 16 || k == 24,
    ;
}

/// A corner that lies on the map gives its height and any other gives none;
/// groups off the map count as lying at sea level.
pub proof fn law_heights_on_map(m: GameMap, x: int, y: int)
    ensures
        0 <= x <= m.size_x && 0 <= y <= m.size_y ==> m.corner_z(x, y).len() == 1 && m.corner_z(
            x,
            y,
        )[0] == m.points@[y * (m.size_x + 1) + x].z,
        x < 0 || y < 0 || x > m.size_x || y > m.size_y ==> m.corner_z(x, y).len() == 0,
        0 <= x < m.group_w && 0 <= y < m.group_h ==> m.group_z_spec(x, y) == m.group_max_z_land@[y
            * m.group_w + x],
        x < 0 || y < 0 || x >= m.group_w || y >= m.group_h ==> m.group_z_spec(x, y) == 0,
        forall|w: bool|
            x < 0 || y < 0 || x >= m.size_x || y >= m.size_y ==> #[trigger] m.normal_rule_spec(
                x,
                y,
                w,
            ) == NormalRule::Up,
{
}

} // verus!
