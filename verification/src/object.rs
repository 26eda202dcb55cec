//! Scenery objects: how their table row sets them up, and what they do in
//! their turns.
use crate::arena::{ArenaView, ObjectId};
use crate::bytes::{signed, to_signed};
use crate::common::{held, hold, Pos3, TRACE_ROBOT};
use crate::float_bits;
use crate::map::ObjectInstance;
use crate::map_static::{
    CellRect, MapStatic, ObjectCore, ObjectStatus, ObjectType, Objects, MR_ALL, MR_GRAPH,
    MR_MATRIX, MR_SHADOW_PROJ_GEOM, MR_SHADOW_PROJ_TEX, OBJECT_STATE_SPECIAL,
    OBJECT_STATE_TRACE_INVISIBLE,
};
use crate::properties::same_text;
use crate::search::is_any_in_range;
use crate::text::{split, split_spec, views};
use vstd::prelude::*;

verus! {

/// Field of a table row that holds the behaviour.
pub const OTP_BEHAVIOUR: usize = 8;

/// Field of a table row that says whether traces pass the object.
pub const OTP_INVLOGIC: usize = 10;

/// First wait of a sensor, in milliseconds.
pub const SENS_FIRST_MS: i32 = 101;

/// Later waits of a sensor, in milliseconds.
pub const SENS_PERIOD_MS: i32 = 107;

/// What an object does besides standing there.
#[derive(Debug, Clone, Copy, PartialEq, Eq, Structural)]
pub enum BehFlag {
    Static,
    Burn,
    Break,
    Anim,
    Sens,
    Spawner,
    Terron,
    Portret,
}

/// One scenery object.
#[derive(Debug)]
pub struct MapObject {
    pub core: ObjectCore,
    pub rchange: u32,
    pub object_state: u32,
    pub ablaze_ttl: i32,
    pub shorted_ttl: i32,
    /// The placement, as single-precision bit patterns.
    pub angle_z: u32,
    pub angle_x: u32,
    pub angle_y: u32,
    pub scale: u32,
    pub tex_bias: u32,
    pub type_id: i32,
    pub uid: i32,
    pub beh_flag: BehFlag,
    /// Which of its two pictures a portrait shows.
    pub photo: i32,
    /// Milliseconds until it changes.
    pub photo_time: i32,
    /// Minus one before the first look, then whether robots were near.
    pub prev_state_robots_in_radius: i32,
    /// How far a sensor sees, as a bit pattern.
    pub sens_radius: u32,
    /// The handle of this object.
    pub self_id: Option<ObjectId>,
}

/// Bit pattern of the least scale.
pub const LEAST_SCALE: u32 = 0x38d1_b717;

/// Bit pattern of minus one, the texture bias of an object that sets none.
pub const NO_TEX_BIAS: u32 = 0xbf80_0000;

/// What setting up an object asks of the caller.
#[derive(Debug)]
pub struct Setup {
    /// The object is to be enrolled for logic turns.
    pub add_lt: bool,
    /// The object counts towards the end of the mission.
    pub special: bool,
    /// A portrait's first wait is to be drawn.
    pub draw_photo: bool,
    /// The text of a sensor's range.
    pub radius: Option<String>,
}

/// Field `i` of a text; empty beyond the last.
pub open spec fn field(s: Seq<char>, i: int, sep: char) -> Seq<char> {
    let f = split_spec(s, sep);
    if 0 <= i < f.len() {
        f[i]
    } else {
        Seq::empty()
    }
}

fn str_par<'a>(s: &'a str, i: usize, sep: char) -> (r: &'a str)
    ensures
        r@ == field(s@, i as int, sep),
{
    let f = split(s, sep);
    if i < f.len() {
        assert(views(f@)[i as int] == f@[i as int]@);
        f[i]
    } else {
        let none: &'static str = "";
        proof {
            reveal_strlit("");
            assert(none@ =~= Seq::<char>::empty());
        }
        none
    }
}

pub open spec fn starts_with(s: Seq<char>, p: Seq<char>) -> bool {
    s.len() >= p.len() && s.take(p.len() as int) == p
}

fn compare_first(s: &str, p: &str) -> (b: bool)
    ensures
        b == starts_with(s@, p@),
{
    let n = p.unicode_len();
    if s.unicode_len() < n {
        return false;
    }
    let head = s.substring_char(0, n);
    assert(head@ =~= s@.take(n as int));
    same_text(head, p)
}

/// The behaviour field, without the mark of a special object.
pub open spec fn behaviour(row: Seq<char>) -> Seq<char> {
    let b = field(row, OTP_BEHAVIOUR as int, '*');
    if is_special_row(row) {
        b.subrange(1, b.len() as int)
    } else {
        b
    }
}

/// The behaviour field is marked as that of a special object.
pub open spec fn is_special_row(row: Seq<char>) -> bool {
    let b = field(row, OTP_BEHAVIOUR as int, '*');
    b.len() > 0 && b[0] == '+'
}

/// The behaviour that a keyword asks for; nothing known leaves the object
/// standing there.
pub open spec fn behaviour_flag(b: Seq<char>) -> BehFlag {
    if starts_with(b, "Burn"@) {
        BehFlag::Burn
    } else if starts_with(b, "Break"@) {
        if field(b, 3, ',') == "Terron"@ {
            BehFlag::Terron
        } else {
            BehFlag::Break
        }
    } else if starts_with(b, "Anim"@) {
        if b.len() > 4 && b[4] == 'P' {
            BehFlag::Portret
        } else {
            BehFlag::Anim
        }
    } else if starts_with(b, "Sens"@) {
        BehFlag::Sens
    } else if starts_with(b, "Spawn"@) {
        BehFlag::Spawner
    } else {
        BehFlag::Static
    }
}

/// Objects that take logic turns from the start. Burning ones are enrolled when
/// they are hit, and portraits change in their graphic turns.
pub open spec fn enrols(f: BehFlag) -> bool {
    f == BehFlag::Break || f == BehFlag::Terron || f == BehFlag::Anim || f == BehFlag::Sens || f
        == BehFlag::Spawner
}

/// Sensors and spawners look around.
pub open spec fn looks_around(f: BehFlag) -> bool {
    f == BehFlag::Sens || f == BehFlag::Spawner
}

/// The state bits after a table row was applied.
pub open spec fn row_state(state: u32, row: Seq<char>) -> u32 {
    let s = if split_spec(row, '*').len() > OTP_INVLOGIC {
        if field(row, OTP_INVLOGIC as int, '*') == "1"@ {
            state | OBJECT_STATE_TRACE_INVISIBLE
        } else {
            state & !OBJECT_STATE_TRACE_INVISIBLE
        }
    } else {
        state
    };
    if is_special_row(row) {
        s | OBJECT_STATE_SPECIAL
    } else {
        s
    }
}

impl MapObject {
    /// A placed object that only stands there, not scaled to nothing.
    /// `geo_center` is where it stands, on the ground of the map.
    pub fn from_instance(inst: &ObjectInstance, geo_center: Pos3, cells: CellRect) -> (o: MapObject)
        ensures
            o.core.obj_type == ObjectType::MapObject,
            o.core.geo_center == geo_center,
            o.core.radius == float_bits::ZERO,
            o.core.terrain_color == 0xffff_ffff,
            o.core.cells == cells,
            o.rchange == MR_ALL,
            o.object_state == 0,
            o.ablaze_ttl == 0,
            o.shorted_ttl == 0,
            o.angle_z == inst.angle_z,
            o.angle_x == inst.angle_x,
            o.angle_y == inst.angle_y,
            o.scale == float_bits::max_spec(inst.scale, LEAST_SCALE),
            o.tex_bias == NO_TEX_BIAS,
            o.type_id == to_signed(inst.type_id),
            o.uid == -1,
            o.beh_flag == BehFlag::Static,
            o.photo == 0,
            o.photo_time == 0,
            o.prev_state_robots_in_radius == 0,
            o.sens_radius == float_bits::ZERO,
            o.self_id is None,
    {
        let mut core = ObjectCore::default();
        core.obj_type = ObjectType::MapObject;
        core.geo_center = geo_center;
        core.cells = cells;
        MapObject {
            core,
            rchange: MR_ALL,
            object_state: 0,
            ablaze_ttl: 0,
            shorted_ttl: 0,
            angle_z: inst.angle_z,
            angle_x: inst.angle_x,
            angle_y: inst.angle_y,
            scale: float_bits::max(inst.scale, LEAST_SCALE),
            tex_bias: NO_TEX_BIAS,
            type_id: signed(inst.type_id),
            uid: -1,
            beh_flag: BehFlag::Static,
            photo: 0,
            photo_time: 0,
            prev_state_robots_in_radius: 0,
            sens_radius: float_bits::ZERO,
            self_id: None,
        }
    }

    /// Set the object up from its table row. Fields are separated by stars.
    pub fn apply_ids_row(&mut self, ids_row: &str) -> (r: Setup)
        ensures
            ({
                let b = behaviour(ids_row@);
                let f = behaviour_flag(b);
                &&& r.add_lt == enrols(f)
                &&& r.special == is_special_row(ids_row@)
                &&& r.draw_photo == (f == BehFlag::Portret)
                &&& match r.radius {
                    Some(t) => looks_around(f) && t@ == field(b, 1, ','),
                    None => !looks_around(f),
                }
                &&& *final(self) == (MapObject {
                    object_state: row_state(old(self).object_state, ids_row@),
                    beh_flag: if f == BehFlag::Static {
                        old(self).beh_flag
                    } else {
                        f
                    },
                    photo: if f == BehFlag::Portret {
                        0
                    } else {
                        old(self).photo
                    },
                    prev_state_robots_in_radius: if looks_around(f) {
                        (-1) as i32
                    } else {
                        old(self).prev_state_robots_in_radius
                    },
                    ablaze_ttl: if looks_around(f) {
                        SENS_FIRST_MS
                    } else {
                        old(self).ablaze_ttl
                    },
                    ..*old(self)
                })
            }),
    {
        let pcnt = split(ids_row, '*').len();
        assert(pcnt == split_spec(ids_row@, '*').len());
        if OTP_INVLOGIC < pcnt {
            if same_text(str_par(ids_row, OTP_INVLOGIC, '*'), "1") {
                self.object_state = self.object_state | OBJECT_STATE_TRACE_INVISIBLE;
            } else {
                self.object_state = self.object_state & !OBJECT_STATE_TRACE_INVISIBLE;
            }
        }
        let raw = str_par(ids_row, OTP_BEHAVIOUR, '*');
        let len = raw.unicode_len();
        let special = len > 0 && raw.get_char(0) == '+';
        let beh = if special {
            raw.substring_char(1, len)
        } else {
            raw
        };
        if special {
            self.object_state = self.object_state | OBJECT_STATE_SPECIAL;
        }
        assert(beh@ == behaviour(ids_row@));
        let mut r = Setup { add_lt: false, special, draw_photo: false, radius: None };
        if compare_first(beh, "Burn") {
            self.beh_flag = BehFlag::Burn;
        } else if compare_first(beh, "Break") {
            if same_text(str_par(beh, 3, ','), "Terron") {
                self.beh_flag = BehFlag::Terron;
            } else {
                self.beh_flag = BehFlag::Break;
            }
            r.add_lt = true;
        } else if compare_first(beh, "Anim") {
            if beh.unicode_len() > 4 && beh.get_char(4) == 'P' {
                self.beh_flag = BehFlag::Portret;
                self.photo = 0;
                r.draw_photo = true;
            } else {
                self.beh_flag = BehFlag::Anim;
                r.add_lt = true;
            }
        } else if compare_first(beh, "Sens") {
            self.beh_flag = BehFlag::Sens;
            self.prev_state_robots_in_radius = -1;
            self.ablaze_ttl = SENS_FIRST_MS;
            r.radius = Some(str_par(beh, 1, ',').to_string());
            r.add_lt = true;
        } else if compare_first(beh, "Spawn") {
            self.beh_flag = BehFlag::Spawner;
            self.prev_state_robots_in_radius = -1;
            self.ablaze_ttl = SENS_FIRST_MS;
            r.radius = Some(str_par(beh, 1, ',').to_string());
            r.add_lt = true;
        }
        r
    }

    /// The range from which a portrait's first wait is drawn.
    pub fn first_photo_range() -> (r: (i32, i32))
        ensures
            r == (1000i32, 2000i32),
    {
        (1000, 2000)
    }

    /// Give a portrait its first wait.
    pub fn start_photo(&mut self, drawn: i32)
        ensures
            *final(self) == (MapObject { photo_time: drawn, ..*old(self) }),
    {
        self.photo_time = drawn;
    }

    /// The graphic turn: a portrait's wait runs down. When it is over, the
    /// range from which the next one is drawn comes back, long for the picture
    /// that is shown now, short for the other.
    pub fn takt(&mut self, cms: i32) -> (r: Option<(i32, i32)>)
        ensures
            *final(self) == photo_waited(*old(self), cms),
            r == photo_due(*old(self), cms),
    {
        if self.beh_flag != BehFlag::Portret {
            return None;
        }
        self.photo_time = hold(self.photo_time as i64 - cms as i64);
        if self.photo_time < 0 {
            if self.photo != 0 {
                Some((3000, 5000))
            } else {
                Some((100, 200))
            }
        } else {
            None
        }
    }

    /// Turn a portrait over and give it the wait that was drawn.
    pub fn toggle_photo(&mut self, drawn: i32)
        ensures
            *final(self) == turned_over(*old(self), drawn),
    {
        self.photo_time = drawn;
        self.photo = self.photo ^ 1;
        self.rchange = self.rchange | MR_GRAPH;
    }

    /// The first half of a sensor's logic turn: its wait runs down. `true` when
    /// it is time to look around; the next wait is then already running.
    fn sens_takt(&mut self, ms: i32) -> (look: bool)
        ensures
            look == looks_now(*old(self), ms),
            *final(self) == if old(self).beh_flag == BehFlag::Sens {
                waited(*old(self), ms)
            } else {
                *old(self)
            },
    {
        if self.beh_flag != BehFlag::Sens {
            return false;
        }
        if self.prev_state_robots_in_radius < 0 {
            self.prev_state_robots_in_radius = 0;
        }
        let ghost left = held(self.ablaze_ttl - ms) as int;
        self.ablaze_ttl = hold(self.ablaze_ttl as i64 - ms as i64);
        if self.ablaze_ttl < 0 {
            let ghost frame = *self;
            while self.ablaze_ttl < 0
                invariant
                    i32::MIN <= self.ablaze_ttl < SENS_PERIOD_MS,
                    (self.ablaze_ttl as int) % (SENS_PERIOD_MS as int) == left % (SENS_PERIOD_MS as int),
                    *self == (MapObject { ablaze_ttl: self.ablaze_ttl, ..frame }),
                decreases SENS_PERIOD_MS - self.ablaze_ttl,
            {
                self.ablaze_ttl = self.ablaze_ttl + SENS_PERIOD_MS;
            }
            true
        } else {
            false
        }
    }

    /// The second half: what the sensor saw.
    fn sens_seen(&mut self, robot_nearby: bool)
        ensures
            *final(self) == saw(*old(self), robot_nearby),
    {
        if robot_nearby {
            if self.prev_state_robots_in_radius == 0 {
                self.prev_state_robots_in_radius = 1;
            }
        } else if self.prev_state_robots_in_radius != 0 {
            self.prev_state_robots_in_radius = 0;
        }
    }

    /// The logic turn: a sensor whose wait is over looks whether a robot is in
    /// its range. `c` are the cells around it.
    pub fn logic_takt<T: MapStatic, R: Fn(&T) -> bool>(
        &mut self,
        ms: i32,
        objs: &Objects<T>,
        c: CellRect,
        in_range: &R,
    )
        requires
            objs.wf(),
            forall|o: T| call_requires(*in_range, (&o,)),
        ensures
            sensed(*old(self), ms, objs@.arena, c, *in_range, *final(self)),
    {
        if self.sens_takt(ms) {
            let near = objs.any_object_in_radius(c, TRACE_ROBOT, None, in_range);
            self.sens_seen(near);
            assert(is_any_in_range(objs@.arena, c, TRACE_ROBOT, None, *in_range, near));
        }
    }

    /// Rebuild what is asked for and stale. `true` when the caller is to
    /// rebuild the object's matrix.
    pub fn r_need(&mut self, need: u32) -> (matrix: bool)
        ensures
            matrix == (need & old(self).rchange & MR_MATRIX != 0),
            *final(self) == (MapObject {
                rchange: needed(old(self).rchange, need),
                ..*old(self)
            }),
    {
        let matrix = need & self.rchange & MR_MATRIX != 0;
        if matrix {
            self.rchange = self.rchange & !MR_MATRIX;
        }
        if need & MR_GRAPH != 0 {
            self.rchange = self.rchange & !MR_GRAPH;
        }
        if need & MR_SHADOW_PROJ_GEOM != 0 {
            self.rchange = self.rchange & !MR_SHADOW_PROJ_GEOM;
        }
        if need & MR_SHADOW_PROJ_TEX != 0 {
            self.rchange = self.rchange & !MR_SHADOW_PROJ_TEX;
        }
        matrix
    }
}

pub open spec fn cleared_if(bits: u32, cond: bool, bit: u32) -> u32 {
    if cond {
        bits & !bit
    } else {
        bits
    }
}

/// The stale bits after a rebuild.
pub open spec fn needed(rchange: u32, need: u32) -> u32 {
    let a = cleared_if(rchange, need & rchange & MR_MATRIX != 0, MR_MATRIX);
    let b = cleared_if(a, need & MR_GRAPH != 0, MR_GRAPH);
    let c = cleared_if(b, need & MR_SHADOW_PROJ_GEOM != 0, MR_SHADOW_PROJ_GEOM);
    cleared_if(c, need & MR_SHADOW_PROJ_TEX != 0, MR_SHADOW_PROJ_TEX)
}

/// A rebuild clears exactly the bits that were asked for, of those that this
/// class of object has.
pub proof fn law_rebuild_clears_asked(rchange: u32, need: u32)
    ensures
        needed(rchange, need) == rchange & !(need & (MR_MATRIX | MR_GRAPH | MR_SHADOW_PROJ_GEOM
            | MR_SHADOW_PROJ_TEX)),
{
    let r = rchange;
    let n = need;
    let a = cleared_if(r, n & r & 2 != 0, 2);
    let b = cleared_if(a, n & 1 != 0, 1);
    let c = cleared_if(b, n & 0x40 != 0, 0x40);
    let d = cleared_if(c, n & 0x80 != 0, 0x80);
    assert(d == r & !(n & (2u32 | 1 | 0x40 | 0x80))) by (bit_vector)
        requires
            a == if n & r & 2 != 0 {
                r & !2u32
            } else {
                r
            },
            b == if n & 1 != 0 {
                a & !1u32
            } else {
                a
            },
            c == if n & 0x40 != 0 {
                b & !0x40u32
            } else {
                b
            },
            d == if n & 0x80 != 0 {
                c & !0x80u32
            } else {
                c
            },
    ;
}

/// A portrait after `cms`.
pub open spec fn photo_waited(o: MapObject, cms: i32) -> MapObject {
    if o.beh_flag == BehFlag::Portret {
        MapObject { photo_time: held(o.photo_time - cms), ..o }
    } else {
        o
    }
}

/// The range for a portrait's next wait, when this one is over after `cms`.
pub open spec fn photo_due(o: MapObject, cms: i32) -> Option<(i32, i32)> {
    if o.beh_flag == BehFlag::Portret && o.photo_time - cms < 0 {
        Some(
            if o.photo != 0 {
                (3000i32, 5000i32)
            } else {
                (100i32, 200i32)
            },
        )
    } else {
        None
    }
}

/// A sensor looks around in this turn: its wait is over.
pub open spec fn looks_now(o: MapObject, ms: i32) -> bool {
    o.beh_flag == BehFlag::Sens && o.ablaze_ttl - ms < 0
}

/// A sensor after `ms`: before its first look it is idle, and a wait that is
/// over is followed by the next.
pub open spec fn waited(o: MapObject, ms: i32) -> MapObject {
    let left = held(o.ablaze_ttl - ms) as int;
    MapObject {
        prev_state_robots_in_radius: if o.prev_state_robots_in_radius < 0 {
            0
        } else {
            o.prev_state_robots_in_radius
        },
        ablaze_ttl: if left < 0 {
            (left % (SENS_PERIOD_MS as int)) as i32
        } else {
            left as i32
        },
        ..o
    }
}

/// A sensor after a look.
pub open spec fn saw(o: MapObject, robot_nearby: bool) -> MapObject {
    MapObject {
        prev_state_robots_in_radius: if robot_nearby {
            if o.prev_state_robots_in_radius == 0 {
                1
            } else {
                o.prev_state_robots_in_radius
            }
        } else {
            0
        },
        ..o
    }
}

/// The logic turn takes object `o` to `p`: a sensor whose wait is over looks for
/// robots in its range.
pub open spec fn sensed<T: MapStatic, R: Fn(&T) -> bool>(
    o: MapObject,
    ms: i32,
    v: ArenaView<T>,
    c: CellRect,
    in_range: R,
    p: MapObject,
) -> bool {
    if o.beh_flag != BehFlag::Sens {
        p == o
    } else if looks_now(o, ms) {
        exists|near: bool| #[trigger]
            is_any_in_range(v, c, TRACE_ROBOT, None, in_range, near) && p == saw(
                waited(o, ms),
                near,
            )
    } else {
        p == waited(o, ms)
    }
}

/// A portrait that shows its other picture, with the wait that was drawn.
pub open spec fn turned_over(o: MapObject, drawn: i32) -> MapObject {
    MapObject { photo_time: drawn, photo: o.photo ^ 1, rchange: o.rchange | MR_GRAPH, ..o }
}

/// After a look a sensor is triggered exactly when it saw a robot, and its next
/// wait is shorter than a period.
pub proof fn law_sensor_follows_robots(o: MapObject, ms: i32, nearby: bool)
    requires
        -1 <= o.prev_state_robots_in_radius <= 1,
        o.ablaze_ttl - ms < 0,
    ensures
        saw(waited(o, ms), nearby).prev_state_robots_in_radius == if nearby {
            1int
        } else {
            0
        },
        0 <= waited(o, ms).ablaze_ttl < SENS_PERIOD_MS,
{
}

/// A portrait has two pictures: turned over twice it shows the first again.
pub proof fn law_two_pictures(o: MapObject, first: i32, second: i32)
    requires
        o.photo == 0 || o.photo == 1,
    ensures
        turned_over(o, first).photo == 1 - o.photo,
        turned_over(turned_over(o, first), second).photo == o.photo,
{
    assert(0i32 ^ 1 == 1 && 1i32 ^ 1 == 0) by (bit_vector);
}

impl MapStatic for MapObject {
    open spec fn status(&self) -> ObjectStatus {
        ObjectStatus {
            obj_type: self.core.obj_type,
            rchange: self.rchange,
            object_state: self.object_state,
            ablaze_ttl: self.ablaze_ttl,
            shorted_ttl: self.shorted_ttl,
        }
    }

    open spec fn with_status(&self, s: ObjectStatus) -> MapObject {
        MapObject {
            core: ObjectCore { obj_type: s.obj_type, ..self.core },
            rchange: s.rchange,
            object_state: s.object_state,
            ablaze_ttl: s.ablaze_ttl,
            shorted_ttl: s.shorted_ttl,
            ..*self
        }
    }

    open spec fn live(&self) -> bool {
        true
    }

    open spec fn cell_rect(&self) -> CellRect {
        self.core.cells
    }

    fn obj_type(&self) -> ObjectType {
        self.core.obj_type
    }

    fn rchange(&self) -> u32 {
        self.rchange
    }

    fn rchange_set(&mut self, bits: u32) {
        self.rchange = self.rchange | bits;
    }

    fn rchange_clear(&mut self, bits: u32) {
        self.rchange = self.rchange & !bits;
    }

    fn object_state(&self) -> u32 {
        self.object_state
    }

    fn object_state_set(&mut self, bits: u32) {
        self.object_state = self.object_state | bits;
    }

    fn object_state_clear(&mut self, bits: u32) {
        self.object_state = self.object_state & !bits;
    }

    fn ablaze_ttl(&self) -> i32 {
        self.ablaze_ttl
    }

    fn set_ablaze_ttl(&mut self, ttl: i32) {
        self.ablaze_ttl = ttl;
    }

    fn shorted_ttl(&self) -> i32 {
        self.shorted_ttl
    }

    fn set_shorted_ttl(&mut self, ttl: i32) {
        self.shorted_ttl = ttl;
    }

    fn is_live(&self) -> bool {
        true
    }

    fn cells(&self) -> CellRect {
        self.core.cells
    }
}

/// What an object does stands in the ninth field of its row: a word says which, a
/// plus before it makes the object special, and the words are told apart by how
/// they begin.
pub proof fn law_behaviour_words(fields: Seq<Seq<char>>, row: Seq<char>)
    requires
        split_spec(row, '*') == fields,
        fields.len() > 8,
    ensures
        fields[8].len() > 0 && fields[8][0] == '+' ==> is_special_row(row) && behaviour(row)
            == fields[8].subrange(1, fields[8].len() as int),
        fields[8].len() == 0 || fields[8][0] != '+' ==> !is_special_row(row) && behaviour(row)
            == fields[8],
        fields.len() > 10 && fields[10] == "1"@ && !is_special_row(row) ==> row_state(0, row)
            == OBJECT_STATE_TRACE_INVISIBLE,
        fields.len() > 10 && fields[10] != "1"@ && !is_special_row(row) ==> row_state(0, row) == 0,
        fields.len() <= 10 && !is_special_row(row) ==> row_state(0, row) == 0,
        fields.len() <= 10 && is_special_row(row) ==> row_state(0, row) == OBJECT_STATE_SPECIAL,
{
    let (i, p) = (OBJECT_STATE_TRACE_INVISIBLE, OBJECT_STATE_SPECIAL);
    assert(0u32 | i == i && 0u32 & !i == 0 && 0u32 | p == p) by (bit_vector);
}

/// Each word gives its own behaviour; a word that is none leaves an object that
/// only stands there.
pub proof fn law_each_word_its_behaviour(rest: Seq<char>)
    ensures
        behaviour_flag("Burn"@ + rest) == BehFlag::Burn,
        behaviour_flag("Break"@ + rest) == BehFlag::Break || behaviour_flag("Break"@ + rest)
            == BehFlag::Terron,
        (behaviour_flag("Break"@ + rest) == BehFlag::Terron) == (field("Break"@ + rest, 3, ',')
            == "Terron"@),
        rest.len() > 0 && rest[0] == 'P' ==> behaviour_flag("Anim"@ + rest) == BehFlag::Portret,
        rest.len() == 0 || rest[0] != 'P' ==> behaviour_flag("Anim"@ + rest) == BehFlag::Anim,
        behaviour_flag("Sens"@ + rest) == BehFlag::Sens,
        behaviour_flag("Spawn"@ + rest) == BehFlag::Spawner,
        behaviour_flag(Seq::empty()) == BehFlag::Static,
{
    reveal_strlit("Burn");
    reveal_strlit("Break");
    reveal_strlit("Anim");
    reveal_strlit("Sens");
    reveal_strlit("Spawn");
    let w = |p: Seq<char>| p + rest;
    assert(w("Burn"@).take(4) =~= "Burn"@);
    assert(w("Break"@).take(5) =~= "Break"@);
    assert(w("Anim"@).take(4) =~= "Anim"@);
    assert(w("Sens"@).take(4) =~= "Sens"@);
    assert(w("Spawn"@).take(5) =~= "Spawn"@);
    lemma_other_word(w("Break"@), "Burn"@, 1);
    lemma_other_word(w("Anim"@), "Burn"@, 0);
    lemma_other_word(w("Anim"@), "Break"@, 0);
    lemma_other_word(w("Sens"@), "Burn"@, 0);
    lemma_other_word(w("Sens"@), "Break"@, 0);
    lemma_other_word(w("Sens"@), "Anim"@, 0);
    lemma_other_word(w("Spawn"@), "Burn"@, 0);
    lemma_other_word(w("Spawn"@), "Break"@, 0);
    lemma_other_word(w("Spawn"@), "Anim"@, 0);
    lemma_other_word(w("Spawn"@), "Sens"@, 1);
}

proof fn lemma_other_word(s: Seq<char>, p: Seq<char>, i: int)
    requires
        0 <= i < p.len(),
        i < s.len(),
        s[i] != p[i],
    ensures
        !starts_with(s, p),
{
    if starts_with(s, p) {
        assert(s.take(p.len() as int)[i] == s[i]);
    }
}

/// Who takes logic turns from the start: everything that breaks, moves, senses or
/// spawns. What burns does so only once it is hit, and portraits have graphic
/// turns alone.
pub proof fn law_who_is_enrolled(f: BehFlag)
    ensures
        f == BehFlag::Static || f == BehFlag::Burn || f == BehFlag::Portret ==> !enrols(f),
        f == BehFlag::Break || f == BehFlag::Terron || f == BehFlag::Anim || f == BehFlag::Sens || f
            == BehFlag::Spawner ==> enrols(f),
        looks_around(f) == (f == BehFlag::Sens || f == BehFlag::Spawner),
{
}

/// A portrait's wait loses the time of each turn. When it is over a new one is
/// drawn: between three and five seconds while the back is shown, between a tenth
/// and a fifth of one for the mask.
pub proof fn law_portrait_waits(o: MapObject, cms: i32)
    requires
        0 <= o.photo_time,
        0 <= cms,
    ensures
        o.beh_flag != BehFlag::Portret ==> photo_waited(o, cms) == o && photo_due(o, cms) is None,
        o.beh_flag == BehFlag::Portret ==> {
            &&& photo_waited(o, cms).photo_time == o.photo_time - cms
            &&& photo_waited(o, cms).photo == o.photo
            &&& photo_due(o, cms) is Some == (cms > o.photo_time)
            &&& cms > o.photo_time && o.photo != 0 ==> photo_due(o, cms) == Some((3000i32, 5000i32))
            &&& cms > o.photo_time && o.photo == 0 ==> photo_due(o, cms) == Some((100i32, 200i32))
        },
{
}

/// A sensor's wait loses the time of each turn; the turn in which it is used up is
/// that of a look, and the next wait is what is left of whole periods of a hundred
/// and seven milliseconds.
pub proof fn law_sensor_waits(o: MapObject, a: i32, b: i32)
    requires
        o.beh_flag == BehFlag::Sens,
        0 <= o.ablaze_ttl,
        0 <= a,
        0 <= b,
        a + b <= i32::MAX,
    ensures
        looks_now(o, a) == (a > o.ablaze_ttl),
        a <= o.ablaze_ttl ==> waited(o, a).ablaze_ttl == o.ablaze_ttl - a,
        a > o.ablaze_ttl ==> 0 <= waited(o, a).ablaze_ttl < 107 && (waited(o, a).ablaze_ttl
            - (o.ablaze_ttl - a)) % 107 == 0,
        a <= o.ablaze_ttl ==> looks_now(waited(o, a), b) == looks_now(o, (a + b) as i32)
            && waited(waited(o, a), b) == waited(o, (a + b) as i32),
        waited(o, a).sens_radius == o.sens_radius,
        o.prev_state_robots_in_radius < 0 ==> waited(o, a).prev_state_robots_in_radius == 0,
        o.prev_state_robots_in_radius >= 0 ==> waited(o, a).prev_state_robots_in_radius
            == o.prev_state_robots_in_radius,
{
}

/// In the turn of a look a sensor is triggered when a robot is in its range and
/// idle when none is; in other turns it stays as it was. Other objects do nothing.
pub proof fn law_sensor_turn<T: MapStatic, R: Fn(&T) -> bool>(
    o: MapObject,
    ms: i32,
    v: ArenaView<T>,
    c: CellRect,
    in_range: R,
    p: MapObject,
)
    requires
        sensed(o, ms, v, c, in_range, p),
        0 <= o.prev_state_robots_in_radius <= 1,
    ensures
        o.beh_flag != BehFlag::Sens ==> p == o,
        o.beh_flag == BehFlag::Sens && !looks_now(o, ms) ==> p.prev_state_robots_in_radius
            == o.prev_state_robots_in_radius,
        o.beh_flag == BehFlag::Sens && looks_now(o, ms) ==> exists|near: bool| #[trigger]
            is_any_in_range(v, c, 4, None, in_range, near) && p.prev_state_robots_in_radius == (
            if near {
                1int
            } else {
                0
            }),
{
    if o.beh_flag == BehFlag::Sens && looks_now(o, ms) {
        let near = choose|near: bool| #[trigger]
            is_any_in_range(v, c, TRACE_ROBOT, None, in_range, near) && p == saw(
                waited(o, ms),
                near,
            );
        assert(is_any_in_range(v, c, 4, None, in_range, near));
    }
}

/// Scenery is always there, and takes up the cells it was given.
pub proof fn law_scenery_stays(o: MapObject)
    ensures
        o.live(),
        o.cell_rect() == o.core.cells,
        o.status().obj_type == o.core.obj_type && o.status().object_state == o.object_state
            && o.status().ablaze_ttl == o.ablaze_ttl && o.status().shorted_ttl == o.shorted_ttl
            && o.status().rchange == o.rchange,
{
}

} // verus!
