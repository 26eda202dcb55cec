//! Robots as a building hands them out.
use crate::arena::ObjectId;
use crate::common::{held, hold, Pos3, RobotUnitKind};
use crate::float_bits;
use crate::map_static::{CellRect, MapStatic, ObjectCore, ObjectStatus, ObjectType, MR_ALL};
use crate::object_building::{
    chassis_from_kind, chassis_of, Building, ChassisKind, RobotConfig,
};
use vstd::prelude::*;

verus! {

/// One robot.
#[derive(Debug)]
pub struct Robot {
    pub core: ObjectCore,
    pub rchange: u32,
    pub object_state: u32,
    pub ablaze_ttl: i32,
    pub shorted_ttl: i32,
    pub side: i32,
    pub chassis: ChassisKind,
    pub config: RobotConfig,
    /// One of the three teams of its side.
    pub team: i32,
    pub hit_point: i32,
    pub hit_point_max: i32,
    /// The base that it rises from, and how that base is turned, in quarters.
    pub base: Option<ObjectId>,
    pub base_angle: i32,
    /// It stands: its animation is the idle one.
    pub stands: bool,
    /// It is destroyed.
    pub dip: bool,
    /// The handle of this robot.
    pub self_id: Option<ObjectId>,
}

/// How much each kind of part holds out.
#[derive(Debug)]
pub struct Structure {
    pub chassis: Vec<i32>,
    pub hull: Vec<i32>,
    pub head: Vec<i32>,
}

/// What the table says of a kind; nothing of a kind that it does not list.
pub open spec fn listed(t: Seq<i32>, k: RobotUnitKind) -> i32 {
    if 0 <= k.0 < t.len() {
        t[k.0 as int]
    } else {
        0
    }
}

fn look_up(t: &Vec<i32>, k: RobotUnitKind) -> (v: i32)
    ensures
        v == listed(t@, k),
{
    if k.0 >= 0 && (k.0 as usize) < t.len() {
        t[k.0 as usize]
    } else {
        0
    }
}

/// The hit points of a robot: what its chassis, its armour and its head hold out
/// together.
pub open spec fn hit_points_of(c: RobotConfig, s: Structure) -> i32 {
    let hp = held(
        listed(s.chassis@, c.chassis) + listed(s.hull@, c.hull) + listed(s.head@, c.head),
    );
    if hp > 0 {
        hp
    } else {
        0
    }
}

/// A chassis that is none is a track.
pub open spec fn chassis_or_track(k: RobotUnitKind) -> ChassisKind {
    match chassis_of(k) {
        Some(c) => c,
        None => ChassisKind::Track,
    }
}

/// Robot `r`, with the handle `id`, is what building `b` hands out for its side
/// and a team.
pub open spec fn is_finished(
    r: Robot,
    b: Building,
    config: RobotConfig,
    side: i32,
    team: i32,
    s: Structure,
    id: ObjectId,
) -> bool {
    &&& r.core.obj_type == ObjectType::RobotAi
    &&& r.core.geo_center == (Pos3 { x: b.pos.0, y: b.pos.1, z: b.build_z })
    &&& r.core.radius == float_bits::ZERO
    &&& r.core.cells == b.core.cells
    &&& r.rchange == MR_ALL
    &&& r.object_state == 0
    &&& r.ablaze_ttl == 0
    &&& r.shorted_ttl == 0
    &&& r.side == side
    &&& r.chassis == chassis_or_track(config.chassis)
    &&& r.config == config
    &&& r.team == team
    &&& r.hit_point == hit_points_of(config, s)
    &&& r.hit_point_max == r.hit_point
    &&& r.base == b.self_id
    &&& r.base_angle == b.angle
    &&& !r.stands
    &&& !r.dip
    &&& r.self_id == Some(id)
}

impl Robot {
    /// A robot on the platform of its building.
    pub fn finished(
        b: &Building,
        config: RobotConfig,
        side: i32,
        team: i32,
        s: &Structure,
        id: ObjectId,
    ) -> (r: Robot)
        ensures
            is_finished(r, *b, config, side, team, *s, id),
    {
        let mut core = ObjectCore::default();
        core.obj_type = ObjectType::RobotAi;
        core.geo_center = Pos3 { x: b.pos.0, y: b.pos.1, z: b.build_z };
        core.cells = b.core.cells;
        let sum = hold(
            look_up(&s.chassis, config.chassis) as i64 + look_up(&s.hull, config.hull) as i64
                + look_up(&s.head, config.head) as i64,
        );
        let hp: i32 = if sum > 0 {
            sum
        } else {
            0
        };
        let chassis = match chassis_from_kind(config.chassis) {
            Some(c) => c,
            None => ChassisKind::Track,
        };
        Robot {
            core,
            rchange: MR_ALL,
            object_state: 0,
            ablaze_ttl: 0,
            shorted_ttl: 0,
            side,
            chassis,
            config,
            team,
            hit_point: hp,
            hit_point_max: hp,
            base: b.self_id,
            base_angle: b.angle,
            stands: false,
            dip: false,
            self_id: Some(id),
        }
    }
}

impl MapStatic for Robot {
    open spec fn status(&self) -> ObjectStatus {
        ObjectStatus {
            obj_type: self.core.obj_type,
            rchange: self.rchange,
            object_state: self.object_state,
            ablaze_ttl: self.ablaze_ttl,
            shorted_ttl: self.shorted_ttl,
        }
    }

    open spec fn with_status(&self, s: ObjectStatus) -> Robot {
        Robot {
            core: ObjectCore { obj_type: s.obj_type, ..self.core },
            rchange: s.rchange,
            object_state: s.object_state,
            ablaze_ttl: s.ablaze_ttl,
            shorted_ttl: s.shorted_ttl,
            ..*self
        }
    }

    /// A wreck is no longer found by traces and searches.
    open spec fn live(&self) -> bool {
        !self.dip
    }

    open spec fn cell_rect(&self) -> CellRect {
        self.core.cells
    }

    fn obj_type(&self) -> ObjectType {
        self.core.obj_type
    }

    fn rchange(&self) -> u32 {
        self.rchange
    }

    fn rchange_set(&mut self, bits: u32) {
        self.rchange = self.rchange | bits;
    }

    fn rchange_clear(&mut self, bits: u32) {
        self.rchange = self.rchange & !bits;
    }

    fn object_state(&self) -> u32 {
        self.object_state
    }

    fn object_state_set(&mut self, bits: u32) {
        self.object_state = self.object_state | bits;
    }

    fn object_state_clear(&mut self, bits: u32) {
        self.object_state = self.object_state & !bits;
    }

    fn ablaze_ttl(&self) -> i32 {
        self.ablaze_ttl
    }

    fn set_ablaze_ttl(&mut self, ttl: i32) {
        self.ablaze_ttl = ttl;
    }

    fn shorted_ttl(&self) -> i32 {
        self.shorted_ttl
    }

    fn set_shorted_ttl(&mut self, ttl: i32) {
        self.shorted_ttl = ttl;
    }

    fn is_live(&self) -> bool {
        !self.dip
    }

    fn cells(&self) -> CellRect {
        self.core.cells
    }
}

// ── Laws ────────────────────────────────────────────────────────────────
/// A robot starts whole, with the points of its chassis, hull and head together;
/// a part that no table knows adds none.
pub proof fn law_parts_add_up(r: Robot, b: Building, c: RobotConfig, side: i32, team: i32, s: Structure, id: ObjectId)
    requires
        is_finished(r, b, c, side, team, s, id),
        0 <= c.chassis.0 < s.chassis@.len(),
        0 <= c.hull.0 < s.hull@.len(),
        0 <= c.head.0 < s.head@.len(),
        s.chassis@[c.chassis.0 as int] >= 0,
        s.hull@[c.hull.0 as int] >= 0,
        s.head@[c.head.0 as int] >= 0,
        s.chassis@[c.chassis.0 as int] + s.hull@[c.hull.0 as int] + s.head@[c.head.0 as int]
            <= i32::MAX,
    ensures
        r.hit_point == s.chassis@[c.chassis.0 as int] + s.hull@[c.hull.0 as int]
            + s.head@[c.head.0 as int],
        r.hit_point_max == r.hit_point,
{
}

/// A part that its table does not have gives no points.
pub proof fn law_unknown_part_gives_nothing(t: Seq<i32>, k: RobotUnitKind)
    ensures
        k.0 < 0 || k.0 >= t.len() ==> listed(t, k) == 0,
        0 <= k.0 < t.len() ==> listed(t, k) == t[k.0 as int],
{
}

/// No robot has less than no points.
pub proof fn law_points_not_negative(c: RobotConfig, s: Structure)
    ensures
        hit_points_of(c, s) >= 0,
        listed(s.chassis@, c.chassis) + listed(s.hull@, c.hull) + listed(s.head@, c.head) <= 0
            ==> hit_points_of(c, s) == 0,
{
}

/// A robot leaves the building where the building stands, belongs to it and to
/// the side that ordered it, and has the order's parts; it is alive, unharmed
/// and not yet shown.
pub proof fn law_finished_robot(
    r: Robot,
    b: Building,
    c: RobotConfig,
    side: i32,
    team: i32,
    s: Structure,
    id: ObjectId,
)
    requires
        is_finished(r, b, c, side, team, s, id),
    ensures
        r.core.geo_center.x == b.pos.0 && r.core.geo_center.y == b.pos.1 && r.core.geo_center.z
            == b.build_z,
        r.core.cells == b.core.cells,
        r.core.obj_type == ObjectType::RobotAi,
        r.base == b.self_id && r.base_angle == b.angle,
        r.side == side && r.team == team && r.config == c && r.self_id == Some(id),
        r.object_state == 0 && r.ablaze_ttl == 0 && r.shorted_ttl == 0,
        r.live() && !r.stands,
        r.hit_point == r.hit_point_max,
        r.rchange == MR_ALL,
        c.chassis.0 < 1 || c.chassis.0 > 5 ==> r.chassis == ChassisKind::Track,
        1 <= c.chassis.0 <= 5 ==> crate::object_building::chassis_number(r.chassis)
            == c.chassis.0,
{
}

} // verus!
