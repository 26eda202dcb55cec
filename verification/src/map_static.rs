//! The objects on the map: what every object answers, the shared arena, the
//! logic and graphic walks, searches and damage.
use crate::arena::{
    law_flush_removes_queued,
    law_walk_is_kept, law_walk_kept_on, live_count, walk_kept, Arena, ArenaView,
};
pub use crate::arena::{ObjectId, ObjectType};
use crate::common::{
    Pos3, Weapon, TRACE_BUILDING, TRACE_CANNON, TRACE_FLYER, TRACE_OBJECT, TRACE_ROBOT,
    TRACE_SKIP_INVISIBLE,
};
use crate::float_bits;
use crate::sound::{sound_views, Interrupt, SndEvent, SndHandle, SndView, SoundLayer};
use vstd::prelude::*;

verus! {

// ── Resource bits ───────────────────────────────────────────────────────
pub const MR_GRAPH: u32 = 0x0000_0001;

pub const MR_MATRIX: u32 = 0x0000_0002;

pub const MR_POS: u32 = 0x0000_0004;

pub const MR_ROTATE: u32 = 0x0000_0008;

pub const MR_SHADOW_STENCIL: u32 = 0x0000_0010;

pub const MR_SHADOW_PROJ_GEOM: u32 = 0x0000_0040;

pub const MR_SHADOW_PROJ_TEX: u32 = 0x0000_0080;

pub const MR_MINIMAP: u32 = 0x0000_0100;

pub const MR_ALL: u32 = 0xffff_ffff;

// ── State bits ──────────────────────────────────────────────────────────
// The low ones are shared; each class has its own from bit ten on.
pub const OBJECT_STATE_ABLAZE: u32 = 0x0000_0001;

pub const OBJECT_STATE_SHORTED: u32 = 0x0000_0002;

pub const OBJECT_STATE_INVISIBLE: u32 = 0x0000_0004;

pub const OBJECT_STATE_INTERFACE: u32 = 0x0000_0008;

pub const OBJECT_STATE_INVULNERABLE: u32 = 0x0000_0008;

pub const OBJECT_STATE_SHADOW_SPECIAL: u32 = 0x0000_0010;

pub const OBJECT_STATE_TRACE_INVISIBLE: u32 = 0x0000_0020;

pub const OBJECT_STATE_DIP: u32 = 0x0000_0040;

// Scenery.
pub const OBJECT_STATE_BURNED: u32 = 0x0000_0400;

pub const OBJECT_STATE_EXPLOSIVE: u32 = 0x0000_0800;

pub const OBJECT_STATE_NORMALIZENORMALS: u32 = 0x0000_1000;

pub const OBJECT_STATE_SPECIAL: u32 = 0x0000_2000;

pub const OBJECT_STATE_TERRON_EXPL: u32 = 0x0000_4000;

pub const OBJECT_STATE_TERRON_EXPL1: u32 = 0x0000_8000;

pub const OBJECT_STATE_TERRON_EXPL2: u32 = 0x0001_0000;

// Robots.
/// Selected as part of the current group.
pub const ROBOT_FLAG_SGROUP: u32 = 0x0000_1000;

/// Selected for manual control.
pub const ROBOT_FLAG_SARCADE: u32 = 0x0000_2000;

/// The ground under the robot lies below the water level.
pub const ROBOT_FLAG_ONWATER: u32 = 0x0000_4000;

/// A collision pushed the robot aside this takt.
pub const ROBOT_FLAG_COLLISION: u32 = 0x0000_8000;

/// A base capture committed the robot; no manual control.
pub const ROBOT_FLAG_DISABLE_MANUAL: u32 = 0x0001_0000;

/// One-shot steering marks of manual control.
pub const ROBOT_FLAG_ROT_LEFT: u32 = 0x0002_0000;

pub const ROBOT_FLAG_ROT_RIGHT: u32 = 0x0004_0000;

/// Mark of the capture announcement scan.
pub const ROBOT_CAPTURE_INFORMED: u32 = 0x0040_0000;

// Buildings.
/// A resource tick just fired.
pub const OBJECT_STATE_BUILDING_NEW_INCOME: u32 = 0x0000_0400;

/// The door is open for a robot on its way out.
pub const OBJECT_STATE_BUILDING_SPAWNBOT: u32 = 0x0000_0800;

/// A robot of another side is capturing the base.
pub const OBJECT_STATE_BUILDING_CAPTURE_IN_PROGRESS: u32 = 0x0000_1000;

// ── Objects ─────────────────────────────────────────────────────────────
/// The part of an object's state that the arena's drivers read and write.
pub struct ObjectStatus {
    pub obj_type: ObjectType,
    pub rchange: u32,
    pub object_state: u32,
    pub ablaze_ttl: i32,
    pub shorted_ttl: i32,
}

/// An inclusive range of cells of the scenery grid.
#[derive(Debug, Clone, Copy, PartialEq, Eq, Structural)]
pub struct CellRect {
    pub x0: i32,
    pub y0: i32,
    pub x1: i32,
    pub y1: i32,
}

impl CellRect {
    pub open spec fn has(self, gx: int, gy: int) -> bool {
        self.x0 <= gx <= self.x1 && self.y0 <= gy <= self.y1
    }
}

impl CellRect {
    /// The single cell at the origin.
    pub open spec fn origin() -> CellRect {
        CellRect { x0: 0, y0: 0, x1: 0, y1: 0 }
    }
}

/// What the arena knows of an object's place: its bounding sphere, as bit
/// patterns, and the grid cells that the sphere touches.
#[derive(Debug, Clone, Copy, PartialEq, Eq, Structural)]
pub struct ObjectCore {
    pub radius: u32,
    pub geo_center: Pos3,
    pub obj_type: ObjectType,
    pub terrain_color: u32,
    pub cells: CellRect,
}

impl Default for ObjectCore {
    fn default() -> (c: ObjectCore)
        ensures
            c.radius == float_bits::ZERO,
            c.geo_center == (Pos3 {
                x: float_bits::ZERO,
                y: float_bits::ZERO,
                z: float_bits::ZERO,
            }),
            c.obj_type == ObjectType::Empty,
            c.terrain_color == 0xffff_ffff,
            c.cells == CellRect::origin(),
    {
        ObjectCore {
            radius: float_bits::ZERO,
            geo_center: Pos3 { x: float_bits::ZERO, y: float_bits::ZERO, z: float_bits::ZERO },
            obj_type: ObjectType::Empty,
            terrain_color: 0xffff_ffff,
            cells: CellRect { x0: 0, y0: 0, x1: 0, y1: 0 },
        }
    }
}

/// What every map object answers.
pub trait MapStatic: Sized {
    spec fn status(&self) -> ObjectStatus;

    /// The same object with another status.
    spec fn with_status(&self, s: ObjectStatus) -> Self;

    /// Not destroyed.
    spec fn live(&self) -> bool;

    /// The grid cells that the bounding sphere touches.
    spec fn cell_rect(&self) -> CellRect;

    fn obj_type(&self) -> (t: ObjectType)
        ensures
            t == self.status().obj_type,
    ;

    fn rchange(&self) -> (b: u32)
        ensures
            b == self.status().rchange,
    ;

    fn rchange_set(&mut self, bits: u32)
        ensures
            ({
                let s = ObjectStatus {
                    rchange: old(self).status().rchange | bits,
                    ..old(self).status()
                };
                *final(self) == old(self).with_status(s) && final(self).status() == s
            }),
    ;

    fn rchange_clear(&mut self, bits: u32)
        ensures
            ({
                let s = ObjectStatus {
                    rchange: old(self).status().rchange & !bits,
                    ..old(self).status()
                };
                *final(self) == old(self).with_status(s) && final(self).status() == s
            }),
    ;

    fn object_state(&self) -> (b: u32)
        ensures
            b == self.status().object_state,
    ;

    fn object_state_set(&mut self, bits: u32)
        ensures
            ({
                let s = ObjectStatus {
                    object_state: old(self).status().object_state | bits,
                    ..old(self).status()
                };
                *final(self) == old(self).with_status(s) && final(self).status() == s
            }),
    ;

    fn object_state_clear(&mut self, bits: u32)
        ensures
            ({
                let s = ObjectStatus {
                    object_state: old(self).status().object_state & !bits,
                    ..old(self).status()
                };
                *final(self) == old(self).with_status(s) && final(self).status() == s
            }),
    ;

    fn ablaze_ttl(&self) -> (t: i32)
        ensures
            t == self.status().ablaze_ttl,
    ;

    fn set_ablaze_ttl(&mut self, ttl: i32)
        ensures
            ({
                let s = ObjectStatus { ablaze_ttl: ttl, ..old(self).status() };
                *final(self) == old(self).with_status(s) && final(self).status() == s
            }),
    ;

    fn shorted_ttl(&self) -> (t: i32)
        ensures
            t == self.status().shorted_ttl,
    ;

    fn set_shorted_ttl(&mut self, ttl: i32)
        ensures
            ({
                let s = ObjectStatus { shorted_ttl: ttl, ..old(self).status() };
                *final(self) == old(self).with_status(s) && final(self).status() == s
            }),
    ;

    fn is_live(&self) -> (b: bool)
        ensures
            b == self.live(),
    ;

    fn cells(&self) -> (c: CellRect)
        ensures
            c == self.cell_rect(),
    ;
}

pub fn is_robot<T: MapStatic>(obj: &T) -> (b: bool)
    ensures
        b == (obj.status().obj_type == ObjectType::RobotAi),
{
    obj.obj_type() == ObjectType::RobotAi
}

pub fn is_building<T: MapStatic>(obj: &T) -> (b: bool)
    ensures
        b == (obj.status().obj_type == ObjectType::Building),
{
    obj.obj_type() == ObjectType::Building
}

pub fn is_cannon<T: MapStatic>(obj: &T) -> (b: bool)
    ensures
        b == (obj.status().obj_type == ObjectType::Cannon),
{
    obj.obj_type() == ObjectType::Cannon
}

pub fn is_flyer<T: MapStatic>(obj: &T) -> (b: bool)
    ensures
        b == (obj.status().obj_type == ObjectType::Flyer),
{
    obj.obj_type() == ObjectType::Flyer
}

pub fn is_map_object<T: MapStatic>(obj: &T) -> (b: bool)
    ensures
        b == (obj.status().obj_type == ObjectType::MapObject),
{
    obj.obj_type() == ObjectType::MapObject
}

/// The mask bit that asks for objects of a class.
pub open spec fn trace_bit(t: ObjectType) -> u32 {
    match t {
        ObjectType::RobotAi => TRACE_ROBOT,
        ObjectType::Cannon => TRACE_CANNON,
        ObjectType::Building => TRACE_BUILDING,
        ObjectType::MapObject => TRACE_OBJECT,
        ObjectType::Flyer => TRACE_FLYER,
        ObjectType::Empty => 0,
    }
}

/// A live object fits a mask that asks for its class, unless the mask passes
/// over invisible objects and the object is one.
pub open spec fn fits(s: ObjectStatus, live: bool, mask: u32) -> bool {
    &&& live
    &&& !(mask & TRACE_SKIP_INVISIBLE != 0 && s.object_state & OBJECT_STATE_TRACE_INVISIBLE != 0)
    &&& s.obj_type != ObjectType::Empty
    &&& mask & trace_bit(s.obj_type) != 0
}

pub fn fit_to_mask<T: MapStatic>(obj: &T, mask: u32) -> (b: bool)
    ensures
        b == fits(obj.status(), obj.live(), mask),
{
    if mask & TRACE_SKIP_INVISIBLE != 0 && obj.object_state() & OBJECT_STATE_TRACE_INVISIBLE != 0 {
        return false;
    }
    if !obj.is_live() {
        return false;
    }
    match obj.obj_type() {
        ObjectType::RobotAi => mask & TRACE_ROBOT != 0,
        ObjectType::Cannon => mask & TRACE_CANNON != 0,
        ObjectType::Building => mask & TRACE_BUILDING != 0,
        ObjectType::MapObject => mask & TRACE_OBJECT != 0,
        ObjectType::Flyer => mask & TRACE_FLYER != 0,
        ObjectType::Empty => false,
    }
}

/// What a search callback answers: go on, or stop.
#[derive(Debug, Clone, Copy, PartialEq, Eq, Structural)]
pub enum Control {
    Continue,
    Break,
}

/// Which special-object death happened.
#[derive(Debug, Clone, Copy, PartialEq, Eq, Structural)]
pub enum SpecialDeathKind {
    /// A breakable or animated target.
    Target,
    /// The terron's explosion is over.
    Terron,
}

/// The kill and build counters of one side.
#[derive(Debug, Clone, Copy, PartialEq, Eq, Structural)]
pub struct SideStats {
    pub robot_build: i32,
    pub robot_kill: i32,
    pub turret_build: i32,
    pub turret_kill: i32,
    pub building_kill: i32,
}

impl Default for SideStats {
    fn default() -> (s: SideStats)
        ensures
            s == no_stats(),
    {
        SideStats {
            robot_build: 0,
            robot_kill: 0,
            turret_build: 0,
            turret_kill: 0,
            building_kill: 0,
        }
    }
}

/// One hit by a weapon.
#[derive(Debug, Clone, Copy, PartialEq, Eq, Structural)]
pub struct Hit {
    pub weap: Weapon,
    pub pos: Pos3,
    pub dir: Pos3,
    pub attacker_side: i32,
    pub attacker: Option<ObjectId>,
}

/// An object that takes turns. While it does, it is checked out of the arena
/// that it is handed.
pub trait Takt: MapStatic {
    /// What the turns need from outside: randomness, the terrain, the clock.
    type Env;

    /// What a logic takt does to the object, the environment and the arena.
    spec fn logic_takt_rel(
        pre: Self,
        cms: i32,
        env: Self::Env,
        objs: ObjectsView<Self>,
        post: Self,
        env2: Self::Env,
        objs2: ObjectsView<Self>,
    ) -> bool;

    /// What a graphic takt does.
    spec fn takt_rel(
        pre: Self,
        cms: i32,
        env: Self::Env,
        objs: ObjectsView<Self>,
        post: Self,
        env2: Self::Env,
        objs2: ObjectsView<Self>,
    ) -> bool;

    /// What a hit does.
    spec fn damage_rel(
        pre: Self,
        hit: Hit,
        id: ObjectId,
        env: Self::Env,
        objs: ObjectsView<Self>,
        post: Self,
        gone: bool,
        env2: Self::Env,
        objs2: ObjectsView<Self>,
    ) -> bool;

    /// The robot back in its standing animation.
    spec fn standing(&self) -> Self;

    /// The object's logic turn needs more than the environment knows, and is
    /// taken by the caller of a walk in steps.
    spec fn asking(&self) -> bool;

    fn asks(&self) -> (b: bool)
        ensures
            b == self.asking(),
    ;

    fn logic_takt(&mut self, cms: i32, env: &mut Self::Env, objs: &mut Objects<Self>)
        requires
            old(objs).wf(),
        ensures
            final(objs).wf(),
            walk_kept(old(objs)@.arena, final(objs)@.arena),
            Self::logic_takt_rel(
                *old(self),
                cms,
                *old(env),
                old(objs)@,
                *final(self),
                *final(env),
                final(objs)@,
            ),
    ;

    fn takt(&mut self, cms: i32, env: &mut Self::Env, objs: &mut Objects<Self>)
        requires
            old(objs).wf(),
        ensures
            final(objs).wf(),
            Self::takt_rel(
                *old(self),
                cms,
                *old(env),
                old(objs)@,
                *final(self),
                *final(env),
                final(objs)@,
            ),
    ;

    /// `true` when the object was destroyed, or was already.
    fn damage(
        &mut self,
        hit: Hit,
        id: ObjectId,
        env: &mut Self::Env,
        objs: &mut Objects<Self>,
    ) -> (gone: bool)
        requires
            old(objs).wf(),
        ensures
            final(objs).wf(),
            Self::damage_rel(
                *old(self),
                hit,
                id,
                *old(env),
                old(objs)@,
                *final(self),
                gone,
                *final(env),
                final(objs)@,
            ),
    ;

    /// Called on a robot when its short circuit wears off. Its timers and state
    /// bits stay as they are.
    fn switch_animation_stay(&mut self)
        ensures
            *final(self) == old(self).standing(),
            final(self).status() == old(self).status(),
    ;
}

/// The arena with the queues around it, as the contracts see them.
#[verifier::ext_equal]
pub struct ObjectsView<T> {
    pub arena: ArenaView<T>,
    pub arcaded: Option<ObjectId>,
    pub stats: Seq<SideStats>,
    pub sounds: Seq<SndView>,
}

impl<T> ObjectsView<T> {
    pub open spec fn with_arena(self, arena: ArenaView<T>) -> ObjectsView<T> {
        ObjectsView { arena, ..self }
    }

    /// With one more sound queued.
    pub open spec fn with_sound(self, e: SndView) -> ObjectsView<T> {
        ObjectsView { sounds: self.sounds.push(e), ..self }
    }
}

/// All map objects, and the queues that they fill while they take their turns.
pub struct Objects<T> {
    pub arena: Arena<T>,
    /// The object under manual control, which the logic walk passes over.
    pub arcaded_object: Option<ObjectId>,
    /// Counters by side.
    pub side_stats: [SideStats; 9],
    /// Sounds to be played.
    pub pending_sounds: Vec<SndEvent>,
}

impl<T> Objects<T> {
    pub open spec fn view(&self) -> ObjectsView<T> {
        ObjectsView {
            arena: self.arena@,
            arcaded: self.arcaded_object,
            stats: self.side_stats@,
            sounds: sound_views(self.pending_sounds@),
        }
    }

    pub open spec fn wf(&self) -> bool {
        self.arena.wf()
    }
}

impl<T> Objects<T> {
    pub fn new() -> (objs: Objects<T>)
        ensures
            objs.wf(),
            objs@ == (ObjectsView::<T> {
                arena: ArenaView::empty(),
                arcaded: None,
                stats: Seq::new(9, |i: int| no_stats()),
                sounds: Seq::empty(),
            }),
    {
        let zero = SideStats {
            robot_build: 0,
            robot_kill: 0,
            turret_build: 0,
            turret_kill: 0,
            building_kill: 0,
        };
        let objs = Objects {
            arena: Arena::new(),
            arcaded_object: None,
            side_stats: [zero, zero, zero, zero, zero, zero, zero, zero, zero],
            pending_sounds: Vec::new(),
        };
        assert(objs@.stats =~= Seq::new(9, |i: int| no_stats()));
        assert(objs@.sounds =~= Seq::<SndView>::empty());
        objs
    }

    /// Queue a removal for the end of the running walk.
    pub fn remove_deferred(&mut self, id: ObjectId)
        requires
            old(self).wf(),
        ensures
            final(self).wf(),
            final(self)@ == old(self)@.with_arena(
                (ArenaView { removals: old(self)@.arena.removals.push(id), ..old(self)@.arena }),
            ),
    {
        self.arena.remove_deferred(id);
    }

    /// Apply the queued removals, last queued first.
    pub fn flush_removals(&mut self)
        requires
            old(self).wf(),
        ensures
            final(self).wf(),
            final(self)@ == old(self)@.with_arena(old(self)@.arena.flush()),
    {
        self.arena.flush_removals();
    }

    /// Change a side's counters; sides without counters are passed over.
    pub fn inc_side_stat<F: FnOnce(SideStats) -> SideStats>(&mut self, side: i32, f: F)
        requires
            old(self).wf(),
            0 <= side < 9 ==> call_requires(f, (old(self).side_stats@[side as int],)),
        ensures
            final(self).wf(),
            0 <= side < 9 ==> call_ensures(
                f,
                (old(self).side_stats@[side as int],),
                final(self).side_stats@[side as int],
            ) && final(self)@ == (ObjectsView {
                stats: old(self)@.stats.update(side as int, final(self).side_stats@[side as int]),
                ..old(self)@
            }),
            !(0 <= side < 9) ==> final(self)@ == old(self)@,
    {
        if 0 <= side && side < 9 {
            let i = side as usize;
            let s = self.side_stats[i];
            self.side_stats[i] = f(s);
        }
    }

    fn queue(&mut self, e: SndEvent)
        requires
            old(self).wf(),
        ensures
            final(self).wf(),
            final(self)@ == old(self)@.with_sound(e@),
    {
        let ghost pre = *self;
        self.pending_sounds.push(e);
        assert(sound_views(self.pending_sounds@) =~= sound_views(pre.pending_sounds@).push(e@));
    }

    /// A sound without a place, on all layers.
    pub fn queue_snd(&mut self, name: &str)
        requires
            old(self).wf(),
        ensures
            final(self).wf(),
            final(self)@ == old(self)@.with_sound(
                (SndView::Play { key: name@, layer: SoundLayer::All }),
            ),
    {
        self.queue_snd_layer(name, SoundLayer::All);
    }

    /// A sound without a place, on one layer.
    pub fn queue_snd_layer(&mut self, name: &str, layer: SoundLayer)
        requires
            old(self).wf(),
        ensures
            final(self).wf(),
            final(self)@ == old(self)@.with_sound((SndView::Play { key: name@, layer })),
    {
        self.queue(SndEvent::Play { key: name.to_string(), layer });
    }

    /// A sound at a place; it restarts one that plays in the same cell.
    pub fn queue_snd_at(&mut self, name: &str, pos: Pos3)
        requires
            old(self).wf(),
        ensures
            final(self).wf(),
            final(self)@ == old(self)@.with_sound(
                (SndView::Add {
                    key: name@,
                    pos,
                    layer: SoundLayer::All,
                    ifl: Interrupt::Interrupt,
                }),
            ),
    {
        self.queue(
            SndEvent::Add {
                key: name.to_string(),
                pos,
                layer: SoundLayer::All,
                ifl: Interrupt::Interrupt,
            },
        );
    }

    /// A sound at a place; one that plays in the same cell goes on.
    pub fn queue_snd_at_skip(&mut self, name: &str, pos: Pos3)
        requires
            old(self).wf(),
        ensures
            final(self).wf(),
            final(self)@ == old(self)@.with_sound(
                (SndView::Add { key: name@, pos, layer: SoundLayer::All, ifl: Interrupt::Skip }),
            ),
    {
        self.queue(
            SndEvent::Add {
                key: name.to_string(),
                pos,
                layer: SoundLayer::All,
                ifl: Interrupt::Skip,
            },
        );
    }

    /// A sound at a place at once, under a handle if one is given.
    pub fn queue_snd_play_at(
        &mut self,
        name: &str,
        pos: Pos3,
        layer: SoundLayer,
        handle: Option<SndHandle>,
    )
        requires
            old(self).wf(),
        ensures
            final(self).wf(),
            final(self)@ == old(self)@.with_sound(
                (SndView::PlayAt { key: name@, pos, layer, handle }),
            ),
    {
        self.queue(SndEvent::PlayAt { key: name.to_string(), pos, layer, handle });
    }

    /// Keep a looped sound going under its handle.
    pub fn queue_snd_follow(&mut self, handle: SndHandle, name: &str, pos: Pos3, layer: SoundLayer)
        requires
            old(self).wf(),
        ensures
            final(self).wf(),
            final(self)@ == old(self)@.with_sound(
                (SndView::PlayHandle { handle, key: name@, pos, layer }),
            ),
    {
        self.queue(SndEvent::PlayHandle { handle, key: name.to_string(), pos, layer });
    }

    /// Move a sound.
    pub fn queue_snd_move(&mut self, handle: SndHandle, name: &str, pos: Pos3)
        requires
            old(self).wf(),
        ensures
            final(self).wf(),
            final(self)@ == old(self)@.with_sound(
                (SndView::ChangePos { handle, key: name@, pos }),
            ),
    {
        self.queue(SndEvent::ChangePos { handle, key: name.to_string(), pos });
    }

    /// Stop a sound.
    pub fn queue_snd_stop(&mut self, handle: SndHandle)
        requires
            old(self).wf(),
        ensures
            final(self).wf(),
            final(self)@ == old(self)@.with_sound((SndView::Stop { handle })),
    {
        self.queue(SndEvent::Stop { handle });
    }

    /// Set the music volume.
    pub fn queue_music_volume(&mut self, vol: u32)
        requires
            old(self).wf(),
        ensures
            final(self).wf(),
            final(self)@ == old(self)@.with_sound(SndView::MusicVolume(vol)),
    {
        self.queue(SndEvent::MusicVolume(vol));
    }

    /// Destroy an object. Does nothing when it is gone or checked out.
    pub fn remove(&mut self, id: ObjectId)
        requires
            old(self).wf(),
        ensures
            final(self).wf(),
            final(self)@ == old(self)@.with_arena(old(self)@.arena.remove(id)),
    {
        self.arena.remove(id);
    }

    /// Handles of all robots, buildings, cannons and flyers.
    pub fn iter_units(&self) -> (ids: Vec<ObjectId>)
        ensures
            ids@ == self@.arena.units,
    {
        self.arena.iter_units()
    }

    /// Handles of all scenery objects.
    pub fn iter_mapobjects(&self) -> (ids: Vec<ObjectId>)
        ensures
            ids@ == self@.arena.mapobjects,
    {
        self.arena.iter_mapobjects()
    }

    /// Is the object behind the handle present?
    pub fn is_valid(&self, id: ObjectId) -> (b: bool)
        ensures
            b == self@.arena.is_valid(id),
    {
        self.arena.is_valid(id)
    }

    /// Is the object alive, but checked out by a running takt?
    pub fn is_checked_out(&self, id: ObjectId) -> (b: bool)
        ensures
            b == (self@.arena.gen_matches(id) && !self@.arena.is_valid(id)),
    {
        self.arena.is_checked_out(id)
    }

    /// How many objects there are, checked out or not.
    pub fn len(&self) -> (n: usize)
        requires
            self.wf(),
        ensures
            n == live_count(self@.arena.slots),
    {
        self.arena.len()
    }

    pub fn is_empty(&self) -> (b: bool)
        requires
            self.wf(),
        ensures
            b == (live_count(self@.arena.slots) == 0),
    {
        self.arena.is_empty()
    }

    /// The object behind a handle, if it is present.
    pub fn get(&self, id: ObjectId) -> (r: Option<&T>)
        ensures
            match r {
                Some(o) => self@.arena.get(id) == Some(*o),
                None => self@.arena.get(id) is None,
            },
    {
        self.arena.get(id)
    }

    /// The object behind a handle, to be changed in place.
    pub fn get_mut(&mut self, id: ObjectId) -> (r: Option<&mut T>)
        requires
            old(self).wf(),
        ensures
            final(self).wf(),
            match r {
                Some(o) => {
                    &&& old(self)@.arena.get(id) == Some(*o)
                    &&& final(self)@ == old(self)@.with_arena(
                        old(self)@.arena.with_obj(id, Some(*final(o))),
                    )
                },
                None => old(self)@.arena.get(id) is None && final(self)@ == old(self)@,
            },
    {
        self.arena.get_mut(id)
    }

    /// Call `f` on every present object, in slot order.
    pub fn for_each_live<F: Fn(ObjectId, &T)>(&self, f: &F)
        requires
            self.wf(),
            forall|id: ObjectId, o: T|
                self@.arena.get(id) == Some(o) ==> call_requires(*f, (id, &o)),
        ensures
            forall|i: int|
                #![trigger self@.arena.slots[i]]
                0 <= i < self@.arena.slots.len() && self@.arena.slots[i].obj is Some
                    ==> call_ensures(
                    *f,
                    (self@.arena.id_of(i), &self@.arena.slots[i].obj->0),
                    (),
                ),
    {
        self.arena.for_each_live(f);
    }

    /// Is the object on the logic list?
    pub fn in_lt(&self, id: ObjectId) -> (b: bool)
        requires
            self.wf(),
        ensures
            b == self@.arena.in_lt(id),
    {
        self.arena.in_lt(id)
    }

    /// Append the object to the logic list, unless it is on it already.
    pub fn add_lt(&mut self, id: ObjectId)
        requires
            old(self).wf(),
        ensures
            final(self).wf(),
            final(self)@ == old(self)@.with_arena(old(self)@.arena.add_lt(id)),
    {
        self.arena.add_lt(id);
    }

    /// Take the object off the logic list, if it is on it.
    pub fn del_lt(&mut self, id: ObjectId)
        requires
            old(self).wf(),
        ensures
            final(self).wf(),
            final(self)@ == old(self)@.with_arena(old(self)@.arena.del_lt(id)),
    {
        self.arena.del_lt(id);
    }

    /// Check an object out of its slot. To be paired with [`Self::put_obj`].
    pub fn take_obj(&mut self, id: ObjectId) -> (r: Option<T>)
        requires
            old(self).wf(),
        ensures
            final(self).wf(),
            r == old(self)@.arena.get(id),
            final(self)@ == old(self)@.with_arena(old(self)@.arena.take(id)),
    {
        self.arena.take_obj(id)
    }

    /// Put a checked-out object back.
    pub fn put_obj(&mut self, id: ObjectId, obj: T)
        requires
            old(self).wf(),
        ensures
            final(self).wf(),
            final(self)@ == old(self)@.with_arena(old(self)@.arena.put(id, obj)),
    {
        self.arena.put_obj(id, obj);
    }

    /// The logic list, head first.
    pub fn iter_logic(&self) -> (ids: Vec<ObjectId>)
        requires
            self.wf(),
        ensures
            ids@ == self@.arena.lt,
    {
        self.arena.iter_logic()
    }

    /// Every present object, in slot order.
    pub fn iter_live(&self) -> (ids: Vec<ObjectId>)
        requires
            self.wf(),
        ensures
            ids@ == self@.arena.live_ids(),
    {
        self.arena.iter_live()
    }
}

impl<T: MapStatic> Objects<T> {
    /// Insert an object and return its handle. It takes no logic turns until
    /// it is enrolled.
    pub fn spawn(&mut self, obj: T) -> (id: ObjectId)
        requires
            old(self).wf(),
            old(self)@.arena.free.len() > 0 || old(self)@.arena.slots.len() <= u32::MAX,
        ensures
            final(self).wf(),
            id == old(self)@.arena.next_id(),
            final(self)@ == old(self)@.with_arena(
                old(self)@.arena.spawn(obj, obj.status().obj_type),
            ),
    {
        let kind = obj.obj_type();
        self.arena.spawn(obj, kind)
    }
}

/// Counters at the start of a game.
pub open spec fn no_stats() -> SideStats {
    SideStats { robot_build: 0, robot_kill: 0, turret_build: 0, turret_kill: 0, building_kill: 0 }
}

/// The time left after `ms` more, never below zero.
pub open spec fn ttl_after(ttl: i32, ms: i32) -> i32 {
    let d = ttl - ms;
    if d <= 0 {
        0
    } else if d > i32::MAX {
        i32::MAX
    } else {
        d as i32
    }
}

fn count_down(ttl: i32, ms: i32) -> (r: i32)
    ensures
        r == ttl_after(ttl, ms),
{
    let d: i64 = ttl as i64 - ms as i64;
    if d <= 0 {
        0
    } else if d > 0x7fff_ffff {
        0x7fff_ffff
    } else {
        d as i32
    }
}

/// The burn timer after `ms`: it counts down while the object burns, and the
/// fire goes out when it runs out.
pub open spec fn burned_down(s: ObjectStatus, ms: i32) -> ObjectStatus {
    if s.object_state & OBJECT_STATE_ABLAZE != 0 {
        let ttl = ttl_after(s.ablaze_ttl, ms);
        ObjectStatus {
            ablaze_ttl: ttl,
            object_state: if ttl == 0 {
                s.object_state & !OBJECT_STATE_ABLAZE
            } else {
                s.object_state
            },
            ..s
        }
    } else {
        s
    }
}

/// The short-circuit timer after `ms`, in the same way.
pub open spec fn discharged(s: ObjectStatus, ms: i32) -> ObjectStatus {
    if s.object_state & OBJECT_STATE_SHORTED != 0 {
        let ttl = ttl_after(s.shorted_ttl, ms);
        ObjectStatus {
            shorted_ttl: ttl,
            object_state: if ttl == 0 {
                s.object_state & !OBJECT_STATE_SHORTED
            } else {
                s.object_state
            },
            ..s
        }
    } else {
        s
    }
}

/// The object `o`, in status `s`, after `ms` of burning.
pub open spec fn burned_obj<T: MapStatic>(o: T, s: ObjectStatus, ms: i32) -> T {
    if s.object_state & OBJECT_STATE_ABLAZE != 0 {
        let ttl = ttl_after(s.ablaze_ttl, ms);
        let o1 = o.with_status(ObjectStatus { ablaze_ttl: ttl, ..s });
        if ttl == 0 {
            o1.with_status(burned_down(s, ms))
        } else {
            o1
        }
    } else {
        o
    }
}

/// The object `o`, in status `s`, after `ms` of its short circuit.
pub open spec fn discharged_obj<T: Takt>(o: T, s: ObjectStatus, ms: i32) -> T {
    if s.object_state & OBJECT_STATE_SHORTED != 0 {
        let ttl = ttl_after(s.shorted_ttl, ms);
        let o1 = o.with_status(ObjectStatus { shorted_ttl: ttl, ..s });
        if ttl == 0 {
            let o2 = o1.with_status(discharged(s, ms));
            if s.obj_type == ObjectType::RobotAi {
                o2.standing()
            } else {
                o2
            }
        } else {
            o1
        }
    } else {
        o
    }
}

/// The object as its logic takt finds it: both timers counted down.
pub open spec fn decayed<T: Takt>(o: T, ms: i32) -> T {
    discharged_obj(burned_obj(o, o.status(), ms), burned_down(o.status(), ms), ms)
}

fn decay_timers<T: Takt>(obj: &mut T, ms: i32)
    ensures
        *final(obj) == decayed(*old(obj), ms),
        final(obj).status() == discharged(burned_down(old(obj).status(), ms), ms),
{
    if obj.object_state() & OBJECT_STATE_ABLAZE != 0 {
        let ttl = count_down(obj.ablaze_ttl(), ms);
        obj.set_ablaze_ttl(ttl);
        if ttl == 0 {
            obj.object_state_clear(OBJECT_STATE_ABLAZE);
        }
    }
    if obj.object_state() & OBJECT_STATE_SHORTED != 0 {
        let ttl = count_down(obj.shorted_ttl(), ms);
        obj.set_shorted_ttl(ttl);
        if ttl == 0 {
            obj.object_state_clear(OBJECT_STATE_SHORTED);
            if obj.obj_type() == ObjectType::RobotAi {
                obj.switch_animation_stay();
            }
        }
    }
}

/// One logic turn of `id`: its timers run down, it takes its takt outside the
/// arena, and it is put back unless it was removed meanwhile. Nothing happens
/// when the object is gone or already out. It comes to its takt in its old
/// status but for the timers.
pub open spec fn logic_turn<T: Takt>(
    a: ObjectsView<T>,
    ea: T::Env,
    id: ObjectId,
    ms: i32,
    b: ObjectsView<T>,
    eb: T::Env,
) -> bool {
    match a.arena.get(id) {
        None => b == a && eb == ea,
        Some(o) => exists|o2: T, m: ObjectsView<T>|
            #![trigger m.arena.put(id, o2)]
            {
                &&& decayed(o, ms).status() == discharged(burned_down(o.status(), ms), ms)
                &&& T::logic_takt_rel(
                    decayed(o, ms),
                    ms,
                    ea,
                    a.with_arena(a.arena.take(id)),
                    o2,
                    eb,
                    m,
                )
                &&& b == m.with_arena(m.arena.put(id, o2))
                &&& walk_kept(a.arena, b.arena)
            },
    }
}

/// One graphic turn of `id`, in the same way; no timer runs.
pub open spec fn graphic_turn<T: Takt>(
    a: ObjectsView<T>,
    ea: T::Env,
    id: ObjectId,
    cms: i32,
    b: ObjectsView<T>,
    eb: T::Env,
) -> bool {
    match a.arena.get(id) {
        None => b == a && eb == ea,
        Some(o) => exists|o2: T, m: ObjectsView<T>|
            #![trigger m.arena.put(id, o2)]
            {
                &&& T::takt_rel(o, cms, ea, a.with_arena(a.arena.take(id)), o2, eb, m)
                &&& b == m.with_arena(m.arena.put(id, o2))
            },
    }
}

/// Give one object its logic turn.
pub fn static_takt<T: Takt>(objs: &mut Objects<T>, id: ObjectId, ms: i32, env: &mut T::Env)
    requires
        old(objs).wf(),
    ensures
        final(objs).wf(),
        logic_turn(old(objs)@, *old(env), id, ms, final(objs)@, *final(env)),
{
    let ghost pre = *objs;
    match objs.arena.take_obj(id) {
        Some(mut boxed) => {
            decay_timers(&mut boxed, ms);
            assert(objs@ =~= pre@.with_arena(pre@.arena.take(id)));
            boxed.logic_takt(ms, env, objs);
            let ghost m = objs@;
            let ghost o2 = boxed;
            proof {
                pre.arena.lemma_wf();
                objs.arena.lemma_wf();
                law_walk_is_kept(pre@.arena, id, o2, ObjectType::Empty);
                law_walk_is_kept(m.arena, id, o2, ObjectType::Empty);
                law_walk_kept_on(pre@.arena, pre@.arena.take(id), m.arena);
                law_walk_kept_on(pre@.arena, m.arena, m.arena.put(id, o2));
            }
            objs.arena.put_obj(id, boxed);
            assert(objs@ =~= m.with_arena(m.arena.put(id, o2)));
        },
        None => {
            assert(objs@.arena.slots =~= pre@.arena.slots);
            assert(objs@ =~= pre@);
        },
    }
}

/// A point of a walk or a pass.
pub struct WalkPoint<T: Takt> {
    pub objs: ObjectsView<T>,
    pub env: T::Env,
}

/// It is the turn of `id`: it is on the list, and has been since the walk began,
/// and it is not under manual control.
pub open spec fn turn_due<T>(v: ObjectsView<T>, id: ObjectId) -> bool {
    v.arena.in_lt(id) && !v.arena.fresh.contains(id) && v.arcaded != Some(id)
}

/// From one point of the walk to the next: object `id` takes its turn if it is
/// due.
pub open spec fn walk_step<T: Takt>(
    a: WalkPoint<T>,
    b: WalkPoint<T>,
    id: ObjectId,
    ms: i32,
) -> bool {
    &&& a.objs.arena.wf()
    &&& if turn_due(a.objs, id) {
        logic_turn(a.objs, a.env, id, ms, b.objs, b.env)
    } else {
        b == a
    }
}

/// The points of a walk over `ids`.
pub open spec fn is_walk<T: Takt>(tr: Seq<WalkPoint<T>>, ids: Seq<ObjectId>, ms: i32) -> bool {
    &&& tr.len() == ids.len() + 1
    &&& forall|i: int|
        #![trigger tr[i]]
        0 <= i < ids.len() ==> walk_step(tr[i], tr[i + 1], ids[i], ms)
}

/// The walk is over, and the removals that were queued are applied.
pub open spec fn walk_over<T>(v: ObjectsView<T>) -> ObjectsView<T> {
    v.with_arena(v.arena.end_walk().flush())
}

/// A walk in steps: the list as it was at the start, and how far it has come.
#[derive(Debug)]
pub struct Walk {
    pub ids: Vec<ObjectId>,
    pub at: usize,
}

/// The object is present, and its turn is the caller's.
pub open spec fn asks_in<T: Takt>(v: ObjectsView<T>, id: ObjectId) -> bool {
    v.arena.get(id) is Some && v.arena.get(id)->0.asking()
}

/// No turn of this part of a walk was the caller's.
pub open spec fn nobody_asks<T: Takt>(tr: Seq<WalkPoint<T>>, ids: Seq<ObjectId>) -> bool {
    forall|k: int|
        #![trigger tr[k]]
        0 <= k < ids.len() ==> !(turn_due(tr[k].objs, ids[k]) && asks_in(tr[k].objs, ids[k]))
}

/// The walk went on over the objects from `from` to `stop`, all of which took
/// their turns themselves.
pub open spec fn went_on<T: Takt>(
    tr: Seq<WalkPoint<T>>,
    ids: Seq<ObjectId>,
    from: int,
    stop: int,
    ms: i32,
) -> bool {
    &&& from <= stop <= ids.len()
    &&& is_walk(tr, ids.subrange(from, stop), ms)
    &&& nobody_asks(tr, ids.subrange(from, stop))
}

/// Object `id` is in its turn, which is the caller's, and comes out as `o` with
/// its timers counted down.
pub open spec fn handed_out<T: Takt>(v: ObjectsView<T>, id: ObjectId, ms: i32, o: T) -> bool {
    &&& turn_due(v, id)
    &&& asks_in(v, id)
    &&& o == decayed(v.arena.get(id)->0, ms)
    &&& o.status() == discharged(burned_down(v.arena.get(id)->0.status(), ms), ms)
}

proof fn lemma_walk_on<T: Takt>(
    tr: Seq<WalkPoint<T>>,
    ids: Seq<ObjectId>,
    i: int,
    b: WalkPoint<T>,
    ms: i32,
)
    requires
        0 <= i < ids.len(),
        is_walk(tr, ids.take(i), ms),
        walk_step(tr.last(), b, ids[i], ms),
    ensures
        is_walk(tr.push(b), ids.take(i + 1), ms),
{
    let tr2 = tr.push(b);
    let ids2 = ids.take(i + 1);
    assert forall|k: int| #![trigger tr2[k]] 0 <= k < ids2.len() implies walk_step(
        tr2[k],
        tr2[k + 1],
        ids2[k],
        ms,
    ) by {
        if k < i {
            assert(walk_step(tr[k], tr[k + 1], ids.take(i)[k], ms));
        }
    }
}

/// The points of a graphic pass over `ids`.
pub open spec fn is_pass<T: Takt>(tr: Seq<WalkPoint<T>>, ids: Seq<ObjectId>, cms: i32) -> bool {
    &&& tr.len() == ids.len() + 1
    &&& forall|i: int|
        #![trigger tr[i]]
        0 <= i < ids.len() ==> graphic_turn(
            tr[i].objs,
            tr[i].env,
            ids[i],
            cms,
            tr[i + 1].objs,
            tr[i + 1].env,
        )
}

impl<T: Takt> Objects<T> {
    /// Is it the turn of this object?
    fn is_due(&self, id: ObjectId) -> (b: bool)
        requires
            self.wf(),
        ensures
            b == turn_due(self@, id),
    {
        self.arena.in_lt(id) && !self.arena.is_fresh(id) && self.arcaded_object != Some(id)
    }

    /// Walk the logic list as it is at the start, and give every object that has
    /// stayed on it its turn. An object may leave the list, or take others off
    /// it, in its own turn; who is enrolled meanwhile, be it again, waits for the
    /// next walk. Removals that were queued are applied at the end.
    pub fn proceed_logic(&mut self, takts: i32, env: &mut T::Env)
        requires
            old(self).wf(),
        ensures
            final(self).wf(),
            exists|tr: Seq<WalkPoint<T>>|
                {
                    &&& #[trigger] is_walk(tr, old(self)@.arena.lt, takts)
                    &&& tr[0].objs == old(self)@.with_arena(old(self)@.arena.begin_walk())
                    &&& tr[0].env == *old(env)
                    &&& final(self)@ == walk_over(tr.last().objs)
                    &&& *final(env) == tr.last().env
                },
    {
        let ids = self.arena.iter_logic();
        let ghost lt = self@.arena.lt;
        let ghost pre = self@;
        self.arena.begin_walk();
        assert(self@ =~= pre.with_arena(pre.arena.begin_walk()));
        let ghost mut tr: Seq<WalkPoint<T>> = seq![WalkPoint { objs: self@, env: *env }];
        let ghost old_objs = self@;
        let ghost old_env = *env;
        let mut i: usize = 0;
        while i < ids.len()
            invariant
                self.wf(),
                i <= ids@.len(),
                is_walk(tr, ids@.take(i as int), takts),
                tr[0].objs == old_objs,
                tr[0].env == old_env,
                tr.last().objs == self@,
                tr.last().env == *env,
            decreases ids.len() - i,
        {
            let id = ids[i];
            let ghost a = tr.last();
            proof {
                self.arena.lemma_wf();
            }
            if self.is_due(id) {
                static_takt(self, id, takts, env);
            }
            proof {
                let b = WalkPoint { objs: self@, env: *env };
                lemma_walk_on(tr, ids@, i as int, b, takts);
                tr = tr.push(b);
            }
            i = i + 1;
        }
        let ghost last = tr.last();
        self.finish_walk();
        proof {
            assert(ids@.take(i as int) =~= ids@);
            assert(is_walk(tr, lt, takts));
        }
    }

    /// End the walk and apply the removals that were queued.
    fn finish_walk(&mut self)
        requires
            old(self).wf(),
        ensures
            final(self).wf(),
            final(self)@ == walk_over(old(self)@),
    {
        let ghost pre = self@;
        self.arena.end_walk();
        self.arena.flush_removals();
        assert(self@ =~= walk_over(pre));
    }

    /// Begin a walk in steps, for objects whose turns are taken by the caller.
    pub fn begin_logic(&mut self) -> (w: Walk)
        requires
            old(self).wf(),
        ensures
            final(self).wf(),
            w.ids@ == old(self)@.arena.lt,
            w.at == 0,
            final(self)@ == old(self)@.with_arena(old(self)@.arena.begin_walk()),
    {
        let ids = self.arena.iter_logic();
        let ghost pre = self@;
        self.arena.begin_walk();
        assert(self@ =~= pre.with_arena(pre.arena.begin_walk()));
        Walk { ids, at: 0 }
    }

    /// Go on with a walk. Objects take their turns in order, up to one whose turn
    /// the caller has to take: it is handed out, its timers counted down, and is
    /// to be put back before the walk goes on. Nothing comes when the walk is
    /// over; the removals that were queued are then applied.
    pub fn next_logic(&mut self, w: &mut Walk, takts: i32, env: &mut T::Env) -> (r: Option<
        (ObjectId, T),
    >)
        requires
            old(self).wf(),
            old(w).at <= old(w).ids@.len(),
        ensures
            final(self).wf(),
            final(w).ids@ == old(w).ids@,
            old(w).at <= final(w).at <= old(w).ids@.len(),
            exists|tr: Seq<WalkPoint<T>>, stop: int|
                {
                    let v = tr.last().objs;
                    &&& #[trigger] went_on(tr, old(w).ids@, old(w).at as int, stop, takts)
                    &&& stop == if r is Some {
                        final(w).at - 1
                    } else {
                        final(w).at as int
                    }
                    &&& tr[0].objs == old(self)@
                    &&& tr[0].env == *old(env)
                    &&& *final(env) == tr.last().env
                    &&& match r {
                        Some(x) => {
                            &&& x.0 == old(w).ids@[stop]
                            &&& handed_out(v, x.0, takts, x.1)
                            &&& final(self)@ == v.with_arena(v.arena.take(x.0))
                        },
                        None => {
                            &&& final(w).at == old(w).ids@.len()
                            &&& final(self)@ == walk_over(v)
                        },
                    }
                },
    {
        let ghost ids = w.ids@;
        let ghost from = w.at as int;
        let ghost mut tr: Seq<WalkPoint<T>> = seq![WalkPoint { objs: self@, env: *env }];
        let ghost old_objs = self@;
        let ghost old_env = *env;
        assert(ids.subrange(from, from) =~= Seq::<ObjectId>::empty());
        while w.at < w.ids.len()
            invariant
                self.wf(),
                w.ids@ == ids,
                0 <= from <= w.at <= ids.len(),
                ids == old(w).ids@,
                from == old(w).at,
                old_objs == old(self)@,
                old_env == *old(env),
                tr.len() > 0,
                is_walk(tr, ids.subrange(from, w.at as int), takts),
                nobody_asks(tr, ids.subrange(from, w.at as int)),
                tr[0].objs == old_objs,
                tr[0].env == old_env,
                tr.last().objs == self@,
                tr.last().env == *env,
            decreases w.ids.len() - w.at,
        {
            let id = w.ids[w.at];
            proof {
                self.arena.lemma_wf();
            }
            let due = self.is_due(id);
            let asks = match self.arena.get(id) {
                Some(o) => o.asks(),
                None => false,
            };
            if due && asks {
                let ghost pre = self@;
                match self.arena.take_obj(id) {
                    Some(mut o) => {
                        decay_timers(&mut o, takts);
                        assert(self@ =~= pre.with_arena(pre.arena.take(id)));
                        w.at = w.at + 1;
                        assert(went_on(tr, ids, from, w.at - 1, takts));
                        return Some((id, o));
                    },
                    None => {
                        assert(false);
                    },
                }
            }
            if due {
                static_takt(self, id, takts, env);
            }
            proof {
                let b = WalkPoint { objs: self@, env: *env };
                let part = ids.subrange(from, ids.len() as int);
                let n = w.at - from;
                assert(part.take(n) =~= ids.subrange(from, w.at as int));
                assert(part.take(n + 1) =~= ids.subrange(from, w.at + 1));
                lemma_walk_on(tr, part, n, b, takts);
                let tr2 = tr.push(b);
                let ids2 = ids.subrange(from, w.at + 1);
                assert forall|k: int| #![trigger tr2[k]] 0 <= k < ids2.len() implies !(turn_due(
                    tr2[k].objs,
                    ids2[k],
                ) && asks_in(tr2[k].objs, ids2[k])) by {
                    if k < n {
                        assert(tr[k] == tr2[k]);
                        assert(ids.subrange(from, w.at as int)[k] == ids2[k]);
                    }
                }
                tr = tr2;
            }
            w.at = w.at + 1;
        }
        assert(went_on(tr, ids, from, w.at as int, takts));
        self.finish_walk();
        None
    }

    /// Give every present object its graphic turn, in slot order. Objects that
    /// appear during the pass wait for the next one.
    pub fn graphic_takt(&mut self, cms: i32, env: &mut T::Env)
        requires
            old(self).wf(),
        ensures
            final(self).wf(),
            exists|tr: Seq<WalkPoint<T>>|
                {
                    &&& #[trigger] is_pass(tr, old(self)@.arena.live_ids(), cms)
                    &&& tr[0].objs == old(self)@
                    &&& tr[0].env == *old(env)
                    &&& final(self)@ == tr.last().objs
                    &&& *final(env) == tr.last().env
                },
    {
        let ids = self.arena.iter_live();
        let ghost mut tr: Seq<WalkPoint<T>> = seq![
            WalkPoint { objs: self@, env: *env },
        ];
        let ghost old_objs = self@;
        let ghost old_env = *env;
        let mut i: usize = 0;
        while i < ids.len()
            invariant
                self.wf(),
                i <= ids@.len(),
                is_pass(tr, ids@.take(i as int), cms),
                tr[0].objs == old_objs,
                tr[0].env == old_env,
                tr.last().objs == self@,
                tr.last().env == *env,
            decreases ids.len() - i,
        {
            let id = ids[i];
            let ghost pre = *self;
            let ghost a = tr.last();
            match self.arena.take_obj(id) {
                Some(mut boxed) => {
                    assert(self@ =~= pre@.with_arena(pre@.arena.take(id)));
                    boxed.takt(cms, env, self);
                    let ghost m = self@;
                    let ghost o2 = boxed;
                    self.arena.put_obj(id, boxed);
                    assert(self@ =~= m.with_arena(m.arena.put(id, o2)));
                },
                None => {
                    assert(self@.arena.slots =~= pre@.arena.slots);
                    assert(self@ =~= pre@);
                },
            }
            proof {
                let b = WalkPoint { objs: self@, env: *env };
                assert(graphic_turn(a.objs, a.env, id, cms, b.objs, b.env));
                let tr2 = tr.push(b);
                let ids2 = ids@.take(i + 1);
                assert forall|k: int|
                    #![trigger tr2[k]]
                    0 <= k < ids2.len() implies graphic_turn(
                    tr2[k].objs,
                    tr2[k].env,
                    ids2[k],
                    cms,
                    tr2[k + 1].objs,
                    tr2[k + 1].env,
                ) by {
                    if k < i {
                        assert(graphic_turn(
                            tr[k].objs,
                            tr[k].env,
                            ids@.take(i as int)[k],
                            cms,
                            tr[k + 1].objs,
                            tr[k + 1].env,
                        ));
                    }
                }
                tr = tr2;
            }
            i = i + 1;
        }
        proof {
            assert(ids@.take(i as int) =~= ids@);
            assert(is_pass(tr, old_objs.arena.live_ids(), cms));
        }
    }
}

// ── Laws ────────────────────────────────────────────────────────────────
/// The walk goes by the list as it was at the start: its turns are those of the
/// enrolled objects in list order, at most one for each.
pub proof fn law_walk_in_list_order<T: Takt>(tr: Seq<WalkPoint<T>>, ms: i32, i: int, j: int)
    requires
        tr.len() > 0,
        tr[0].objs.arena.wf(),
        is_walk(tr, tr[0].objs.arena.lt, ms),
        0 <= i < j < tr[0].objs.arena.lt.len(),
    ensures
        walk_step(tr[i], tr[i + 1], tr[0].objs.arena.lt[i], ms),
        tr[0].objs.arena.lt[i] != tr[0].objs.arena.lt[j],
{
}

/// A turn is only ever taken by an object that is on the list at that moment;
/// one that was taken off it before its turn is passed over, and nothing
/// happens in its place.
pub proof fn law_walk_visits_enrolled<T: Takt>(
    tr: Seq<WalkPoint<T>>,
    ids: Seq<ObjectId>,
    ms: i32,
    i: int,
)
    requires
        is_walk(tr, ids, ms),
        0 <= i < ids.len(),
    ensures
        tr[i].objs.arena.in_lt(ids[i]) ==> tr[i].objs.arena.gen_matches(ids[i]),
        !tr[i].objs.arena.in_lt(ids[i]) ==> tr[i + 1] == tr[i],
{
    assert(walk_step(tr[i], tr[i + 1], ids[i], ms));
    let v = tr[i].objs.arena;
    if v.in_lt(ids[i]) {
        assert(v.gen_matches(v.lt[v.lt.index_of(ids[i])]));
    }
}

/// An object that is off the list at any moment of a walk takes no turn in the
/// rest of it, whether it is enrolled meanwhile or not: in its place nothing
/// happens. This holds of newcomers and of those that left and came back.
pub proof fn law_newcomer_waits<T: Takt>(
    tr: Seq<WalkPoint<T>>,
    ids: Seq<ObjectId>,
    ms: i32,
    id: ObjectId,
    i: int,
    j: int,
)
    requires
        is_walk(tr, ids, ms),
        tr[0].objs.arena.walking,
        0 <= i <= j < tr.len(),
        !tr[i].objs.arena.in_lt(id) || tr[i].objs.arena.fresh.contains(id),
    ensures
        !turn_due(tr[j].objs, id),
        j < ids.len() && ids[j] == id ==> tr[j + 1] == tr[j],
{
    lemma_still_walking(tr, ids, ms, i);
    lemma_stays_fresh(tr, ids, ms, id, i, j);
    if j < ids.len() {
        assert(walk_step(tr[j], tr[j + 1], ids[j], ms));
    }
}

/// Every object that is on the list when a walk begins has its place in the walk,
/// at which it takes its turn if it is due.
pub proof fn law_enrolled_is_visited<T: Takt>(tr: Seq<WalkPoint<T>>, ms: i32, id: ObjectId)
    requires
        tr.len() > 0,
        is_walk(tr, tr[0].objs.arena.lt, ms),
        tr[0].objs.arena.in_lt(id),
    ensures
        exists|i: int|
            {
                &&& 0 <= i < tr[0].objs.arena.lt.len()
                &&& tr[0].objs.arena.lt[i] == id
                &&& #[trigger] walk_step(tr[i], tr[i + 1], id, ms)
            },
{
    let i = tr[0].objs.arena.lt.index_of(id);
    assert(walk_step(tr[i], tr[i + 1], tr[0].objs.arena.lt[i], ms));
}

proof fn lemma_still_walking<T: Takt>(
    tr: Seq<WalkPoint<T>>,
    ids: Seq<ObjectId>,
    ms: i32,
    i: int,
)
    requires
        is_walk(tr, ids, ms),
        tr[0].objs.arena.walking,
        0 <= i < tr.len(),
    ensures
        tr[i].objs.arena.walking,
    decreases i,
{
    if i > 0 {
        lemma_still_walking(tr, ids, ms, i - 1);
        assert(walk_step(tr[i - 1], tr[i - 1 + 1], ids[i - 1], ms));
    }
}

proof fn lemma_stays_fresh<T: Takt>(
    tr: Seq<WalkPoint<T>>,
    ids: Seq<ObjectId>,
    ms: i32,
    id: ObjectId,
    i: int,
    j: int,
)
    requires
        is_walk(tr, ids, ms),
        0 <= i <= j < tr.len(),
        tr[i].objs.arena.walking,
        !tr[i].objs.arena.in_lt(id) || tr[i].objs.arena.fresh.contains(id),
    ensures
        tr[j].objs.arena.walking,
        !tr[j].objs.arena.in_lt(id) || tr[j].objs.arena.fresh.contains(id),
    decreases j - i,
{
    if i < j {
        lemma_stays_fresh(tr, ids, ms, id, i, j - 1);
        assert(walk_step(tr[j - 1], tr[j - 1 + 1], ids[j - 1], ms));
        let (a, b) = (tr[j - 1].objs.arena, tr[j].objs.arena);
        assert(walk_kept(a, b));
        if b.lt.contains(id) && !a.lt.contains(id) {
            assert(b.fresh.contains(id));
        }
    }
}

/// The object under manual control takes no turn, and nothing happens in its
/// place.
pub proof fn law_arcaded_is_skipped<T: Takt>(
    a: WalkPoint<T>,
    b: WalkPoint<T>,
    id: ObjectId,
    ms: i32,
)
    requires
        walk_step(a, b, id, ms),
        a.objs.arcaded == Some(id),
    ensures
        b == a,
{
}

/// The burn timer never goes below zero, and the fire goes out exactly when the
/// time is used up.
pub proof fn law_fire_goes_out_on_time(s: ObjectStatus, ms: i32)
    requires
        s.object_state & OBJECT_STATE_ABLAZE != 0,
    ensures
        burned_down(s, ms).ablaze_ttl >= 0,
        (burned_down(s, ms).object_state & OBJECT_STATE_ABLAZE == 0) == (s.ablaze_ttl <= ms),
        burned_down(s, ms).object_state | OBJECT_STATE_ABLAZE == s.object_state,
        burned_down(s, ms).shorted_ttl == s.shorted_ttl,
{
    let b = s.object_state;
    assert((b & !1u32) & 1 == 0 && ((b & 1 != 0) ==> (b & !1u32) | 1 == b && b | 1 == b))
        by (bit_vector);
}

/// The short circuit wears off in the same way.
pub proof fn law_short_wears_off_on_time(s: ObjectStatus, ms: i32)
    requires
        s.object_state & OBJECT_STATE_SHORTED != 0,
    ensures
        discharged(s, ms).shorted_ttl >= 0,
        (discharged(s, ms).object_state & OBJECT_STATE_SHORTED == 0) == (s.shorted_ttl <= ms),
        discharged(s, ms).object_state | OBJECT_STATE_SHORTED == s.object_state,
        discharged(s, ms).ablaze_ttl == s.ablaze_ttl,
{
    let b = s.object_state;
    assert((b & !2u32) & 2 == 0 && ((b & 2 != 0) ==> (b & !2u32) | 2 == b && b | 2 == b))
        by (bit_vector);
}

/// The timers of an object lose the time of the turn while their bit is set, and
/// end at zero; a timer whose bit is clear stands still. Everything else about the
/// status stays, and two turns take as much as one of their length.
pub proof fn law_timers_count_down(s: ObjectStatus, a: i32, b: i32)
    requires
        0 <= s.ablaze_ttl,
        0 <= s.shorted_ttl,
        0 <= a,
        0 <= b,
        a + b <= i32::MAX,
    ensures
        ({
            let f = burned_down(s, a);
            let d = discharged(s, a);
            &&& s.object_state & 1 != 0 ==> f.ablaze_ttl == (if a < s.ablaze_ttl {
                s.ablaze_ttl - a
            } else {
                0
            })
            &&& s.object_state & 2 != 0 ==> d.shorted_ttl == (if a < s.shorted_ttl {
                s.shorted_ttl - a
            } else {
                0
            })
            &&& s.object_state & 1 == 0 ==> f == s
            &&& s.object_state & 2 == 0 ==> d == s
            &&& f.obj_type == s.obj_type && f.rchange == s.rchange && f.shorted_ttl == s.shorted_ttl
            &&& d.obj_type == s.obj_type && d.rchange == s.rchange && d.ablaze_ttl == s.ablaze_ttl
            &&& s.object_state & 1 != 0 && a < s.ablaze_ttl ==> burned_down(f, b) == burned_down(
                s,
                (a + b) as i32,
            )
            &&& s.object_state & 2 != 0 && a < s.shorted_ttl ==> discharged(d, b) == discharged(
                s,
                (a + b) as i32,
            )
        }),
{
}

/// The object that takes a logic turn is back in its slot after it, as the turn
/// has left it, unless it was removed meanwhile. It came to its turn with its
/// timers counted down, and was not to be found during it.
pub proof fn law_turn_puts_object_back<T: Takt>(
    a: ObjectsView<T>,
    ea: T::Env,
    id: ObjectId,
    ms: i32,
    b: ObjectsView<T>,
    eb: T::Env,
)
    requires
        logic_turn(a, ea, id, ms, b, eb),
    ensures
        a.arena.get(id) is None ==> b == a && eb == ea,
        a.arena.get(id) matches Some(o) ==> exists|o2: T, m: ObjectsView<T>|
            {
                &&& #[trigger] T::logic_takt_rel(
                    decayed(o, ms),
                    ms,
                    ea,
                    a.with_arena(a.arena.take(id)),
                    o2,
                    eb,
                    m,
                )
                &&& a.arena.take(id).get(id) is None
                &&& m.arena.gen_matches(id) && m.arena.get(id) is None ==> b.arena.get(id) == Some(
                    o2,
                )
                &&& !m.arena.gen_matches(id) ==> b == m
                &&& b.stats == m.stats && b.sounds == m.sounds && b.arcaded == m.arcaded
            },
{
    if let Some(o) = a.arena.get(id) {
        let (o2, m) = choose|o2: T, m: ObjectsView<T>|
            #![trigger m.arena.put(id, o2)]
            {
                &&& T::logic_takt_rel(
                    decayed(o, ms),
                    ms,
                    ea,
                    a.with_arena(a.arena.take(id)),
                    o2,
                    eb,
                    m,
                )
                &&& b == m.with_arena(m.arena.put(id, o2))
                &&& walk_kept(a.arena, b.arena)
            };
        assert(T::logic_takt_rel(
            decayed(o, ms),
            ms,
            ea,
            a.with_arena(a.arena.take(id)),
            o2,
            eb,
            m,
        ));
    }
}

/// The same of a graphic turn, which no timer runs in.
pub proof fn law_graphic_turn_puts_object_back<T: Takt>(
    a: ObjectsView<T>,
    ea: T::Env,
    id: ObjectId,
    cms: i32,
    b: ObjectsView<T>,
    eb: T::Env,
)
    requires
        graphic_turn(a, ea, id, cms, b, eb),
    ensures
        a.arena.get(id) is None ==> b == a && eb == ea,
        a.arena.get(id) matches Some(o) ==> exists|o2: T, m: ObjectsView<T>|
            {
                &&& #[trigger] T::takt_rel(
                    o,
                    cms,
                    ea,
                    a.with_arena(a.arena.take(id)),
                    o2,
                    eb,
                    m,
                )
                &&& m.arena.gen_matches(id) && m.arena.get(id) is None ==> b.arena.get(id) == Some(
                    o2,
                )
                &&& !m.arena.gen_matches(id) ==> b == m
            },
{
    if let Some(o) = a.arena.get(id) {
        let (o2, m) = choose|o2: T, m: ObjectsView<T>|
            #![trigger m.arena.put(id, o2)]
            {
                &&& T::takt_rel(o, cms, ea, a.with_arena(a.arena.take(id)), o2, eb, m)
                &&& b == m.with_arena(m.arena.put(id, o2))
            };
        assert(T::takt_rel(o, cms, ea, a.with_arena(a.arena.take(id)), o2, eb, m));
    }
}

/// An enrolled object whose turn comes, and that is not under manual control nor
/// new to the list, takes it: the step is its logic turn.
pub proof fn law_due_object_takes_its_turn<T: Takt>(
    a: WalkPoint<T>,
    b: WalkPoint<T>,
    id: ObjectId,
    ms: i32,
)
    requires
        walk_step(a, b, id, ms),
    ensures
        a.objs.arena.lt.contains(id) && !a.objs.arena.fresh.contains(id) && a.objs.arcaded != Some(
            id,
        ) ==> logic_turn(a.objs, a.env, id, ms, b.objs, b.env),
        !a.objs.arena.lt.contains(id) ==> b == a,
        a.objs.arena.fresh.contains(id) ==> b == a,
        a.objs.arcaded == Some(id) ==> b == a,
{
}

/// Every class of objects is asked for by its own bit.
pub proof fn law_classes_have_bits(s: ObjectStatus, live: bool, mask: u32)
    requires
        s.object_state == 0,
    ensures
        !live ==> !fits(s, live, mask),
        s.obj_type == ObjectType::RobotAi ==> fits(s, live, mask) == (live && mask & 4 != 0),
        s.obj_type == ObjectType::Building ==> fits(s, live, mask) == (live && mask & 8 != 0),
        s.obj_type == ObjectType::MapObject ==> fits(s, live, mask) == (live && mask & 0x10 != 0),
        s.obj_type == ObjectType::Cannon ==> fits(s, live, mask) == (live && mask & 0x20 != 0),
        s.obj_type == ObjectType::Flyer ==> fits(s, live, mask) == (live && mask & 0x40 != 0),
        s.obj_type == ObjectType::Empty ==> !fits(s, live, mask),
{
    assert(0u32 & OBJECT_STATE_TRACE_INVISIBLE == 0) by (bit_vector);
}

/// An object is handed out on its turn: it is on the list, did not come to it
/// in this walk, is not the one under the player's hand, and asks for the world
/// around it.
pub proof fn law_handed_out_on_its_turn<T: Takt>(v: ObjectsView<T>, id: ObjectId, ms: i32, o: T)
    requires
        handed_out(v, id, ms, o),
    ensures
        v.arena.lt.contains(id),
        !v.arena.fresh.contains(id),
        v.arcaded != Some(id),
        v.arena.get(id) is Some,
        v.arena.get(id)->0.asking(),
        o == decayed(v.arena.get(id)->0, ms),
{
}

/// On the way to the object that is handed out nobody who asks was passed over,
/// and everybody else took their own turn, in the order of the list.
pub proof fn law_nobody_passed_over<T: Takt>(
    tr: Seq<WalkPoint<T>>,
    ids: Seq<ObjectId>,
    from: int,
    stop: int,
    ms: i32,
    k: int,
)
    requires
        0 <= from,
        went_on(tr, ids, from, stop, ms),
        from <= k < stop,
    ensures
        walk_step(tr[k - from], tr[k - from + 1], ids[k], ms),
        turn_due(tr[k - from].objs, ids[k]) && tr[k - from].objs.arena.get(ids[k]) is Some
            ==> !tr[k - from].objs.arena.get(ids[k])->0.asking(),
{
    let part = ids.subrange(from, stop);
    assert(part[k - from] == ids[k]);
    assert(tr[k - from] == tr[k - from]);
}

/// A walk ends with nobody new on the list and with everything removed that was
/// queued for it.
pub proof fn law_walk_ends<T>(v: ObjectsView<T>)
    requires
        v.arena.wf(),
    ensures
        walk_over(v).arena.removals.len() == 0,
        walk_over(v).stats == v.stats && walk_over(v).sounds == v.sounds,
        forall|id: ObjectId| #[trigger]
            v.arena.removals.contains(id) && v.arena.is_valid(id) ==> !walk_over(
                v,
            ).arena.gen_matches(id),
{
    let w = v.arena.end_walk();
    assert(w.wf());
    assert forall|id: ObjectId| #[trigger]
        v.arena.removals.contains(id) && v.arena.is_valid(id) implies !walk_over(
        v,
    ).arena.gen_matches(id) by {
        law_flush_removes_queued(w, id);
    }
    law_flush_removes_queued(w, ObjectId::at(0, 0));
}

/// Every object of a pass takes its turn to be shown, one after the other.
pub proof fn law_pass_shows_all<T: Takt>(tr: Seq<WalkPoint<T>>, ids: Seq<ObjectId>, cms: i32, i: int)
    requires
        is_pass(tr, ids, cms),
        0 <= i < ids.len(),
    ensures
        tr.len() == ids.len() + 1,
        graphic_turn(tr[i].objs, tr[i].env, ids[i], cms, tr[i + 1].objs, tr[i + 1].env),
{
    assert(tr[i] == tr[i]);
}

} // verus!
