//! Buildings: the build queue, the turret places, the base floor, and damage.
//!
//! Hit points are whole numbers. The height of the base floor is counted in
//! milliseconds of its way up.
use crate::arena::ObjectId;
use crate::common::{
    held, hold, Pos3, RobotUnitKind, Weapon, WeaponDamage, HITPOINT_SHOW_TIME_MS, MAX_WEAPON_CNT,
    PLAYER_SIDE,
};
use crate::map::{BuildingInstance, TurretPlaceCmap};
use crate::map_static::{
    CellRect, MapStatic, ObjectCore, ObjectStatus, ObjectType, MR_ALL, MR_GRAPH, MR_MATRIX,
    MR_MINIMAP, MR_SHADOW_PROJ_GEOM, MR_SHADOW_PROJ_TEX, MR_SHADOW_STENCIL,
    OBJECT_STATE_BUILDING_SPAWNBOT,
};
use crate::text::digit_char;
use vstd::prelude::*;

verus! {

/// The armour of a robot that has no other.
pub const ARMOR_PASSIVE: i32 = 1;

/// What a building makes.
#[derive(Debug, Clone, Copy, PartialEq, Eq, Structural)]
pub enum BuildingType {
    Base,
    Titan,
    Plasma,
    Electronic,
    Energy,
    Repair,
}

pub open spec fn building_type(v: int) -> Option<BuildingType> {
    if v == 0 {
        Some(BuildingType::Base)
    } else if v == 1 {
        Some(BuildingType::Titan)
    } else if v == 2 {
        Some(BuildingType::Plasma)
    } else if v == 3 {
        Some(BuildingType::Electronic)
    } else if v == 4 {
        Some(BuildingType::Energy)
    } else if v == 5 {
        Some(BuildingType::Repair)
    } else {
        None
    }
}

impl BuildingType {
    pub fn from_u8(v: u8) -> (t: Option<BuildingType>)
        ensures
            t == building_type(v as int),
    {
        match v {
            0 => Some(BuildingType::Base),
            1 => Some(BuildingType::Titan),
            2 => Some(BuildingType::Plasma),
            3 => Some(BuildingType::Electronic),
            4 => Some(BuildingType::Energy),
            5 => Some(BuildingType::Repair),
            _ => None,
        }
    }
}

/// Where a building stands between shut and destroyed.
#[derive(Debug, Clone, Copy, PartialEq, Eq, Structural)]
pub enum BaseState {
    Closed,
    Opening,
    Opened,
    Closing,
    /// Destroyed, exploding.
    Dip,
    /// Destroyed for good.
    DipExploded,
}

pub open spec fn is_dip(s: BaseState) -> bool {
    s == BaseState::Dip || s == BaseState::DipExploded
}

/// How many items a build queue holds at most.
pub const MAX_STACK_UNITS: usize = 6;

/// Build time of a robot when the configuration has none.
pub const UNIT_ROBOT_BUILD_TIME_MS: i32 = 5000;

/// How long a building of the player counts as under attack after a hit.
pub const UNDER_ATTACK_IDLE_TIME_MS: i32 = 120_000;

/// How long the base floor takes to rise.
pub const BASE_FLOOR_MS: i32 = 1250;

/// Bit pattern of a fifth, where the floor of a new building starts.
pub const BASE_FLOOR_START: u32 = 0x3e4c_cccd;

/// Turret places of a building unless the map says otherwise.
pub const DEFAULT_TURRETS_MAX: i32 = 4;

// ── Robots to be built ──────────────────────────────────────────────────
/// The parts of a robot to be built.
#[derive(Debug, Clone, Copy)]
pub struct RobotConfig {
    pub chassis: RobotUnitKind,
    pub hull: RobotUnitKind,
    pub head: RobotUnitKind,
    pub weapon: [RobotUnitKind; MAX_WEAPON_CNT],
}

/// A weapon and the pylon it sits on, counted from one.
#[derive(Debug, Clone, Copy, PartialEq, Eq, Structural)]
pub struct WeaponUnit {
    pub pos: i32,
    pub unit: RobotUnitKind,
}

/// The weapons of a robot with their pylons, in order.
pub fn robot_weapons_from_cfg(cfg: &RobotConfig) -> (out: [WeaponUnit; MAX_WEAPON_CNT])
    ensures
        forall|i: int|
            0 <= i < MAX_WEAPON_CNT ==> (#[trigger] out@[i]) == (WeaponUnit {
                pos: (i + 1) as i32,
                unit: cfg.weapon@[i],
            }),
{
    let none = WeaponUnit { pos: 0, unit: RobotUnitKind(0) };
    let mut out = [none; MAX_WEAPON_CNT];
    let mut i: usize = 0;
    while i < MAX_WEAPON_CNT
        invariant
            i <= MAX_WEAPON_CNT,
            forall|k: int|
                0 <= k < i ==> (#[trigger] out@[k]) == (WeaponUnit {
                    pos: (k + 1) as i32,
                    unit: cfg.weapon@[k],
                }),
        decreases MAX_WEAPON_CNT - i,
    {
        out[i] = WeaponUnit { pos: i as i32 + 1, unit: cfg.weapon[i] };
        i = i + 1;
    }
    out
}

/// How a robot moves.
#[derive(Debug, Clone, Copy, PartialEq, Eq, Structural)]
pub enum ChassisKind {
    Pneumatic,
    Wheel,
    Track,
    Hovercraft,
    AntiGravity,
}

pub open spec fn chassis_number(c: ChassisKind) -> i32 {
    match c {
        ChassisKind::Pneumatic => 1,
        ChassisKind::Wheel => 2,
        ChassisKind::Track => 3,
        ChassisKind::Hovercraft => 4,
        ChassisKind::AntiGravity => 5,
    }
}

pub open spec fn chassis_of(k: RobotUnitKind) -> Option<ChassisKind> {
    if k.0 == 1 {
        Some(ChassisKind::Pneumatic)
    } else if k.0 == 2 {
        Some(ChassisKind::Wheel)
    } else if k.0 == 3 {
        Some(ChassisKind::Track)
    } else if k.0 == 4 {
        Some(ChassisKind::Hovercraft)
    } else if k.0 == 5 {
        Some(ChassisKind::AntiGravity)
    } else {
        None
    }
}

pub fn kind_from_chassis(c: ChassisKind) -> (k: RobotUnitKind)
    ensures
        k == RobotUnitKind(chassis_number(c)),
{
    match c {
        ChassisKind::Pneumatic => RobotUnitKind(1),
        ChassisKind::Wheel => RobotUnitKind(2),
        ChassisKind::Track => RobotUnitKind(3),
        ChassisKind::Hovercraft => RobotUnitKind(4),
        ChassisKind::AntiGravity => RobotUnitKind(5),
    }
}

pub fn chassis_from_kind(k: RobotUnitKind) -> (c: Option<ChassisKind>)
    ensures
        c == chassis_of(k),
{
    match k.0 {
        1 => Some(ChassisKind::Pneumatic),
        2 => Some(ChassisKind::Wheel),
        3 => Some(ChassisKind::Track),
        4 => Some(ChassisKind::Hovercraft),
        5 => Some(ChassisKind::AntiGravity),
        _ => None,
    }
}

/// Kinds and chassis are the same thing written twice.
pub proof fn law_chassis_round_trip(c: ChassisKind, k: RobotUnitKind)
    ensures
        chassis_of(RobotUnitKind(chassis_number(c))) == Some(c),
        chassis_of(k) matches Some(d) ==> RobotUnitKind(chassis_number(d)) == k,
{
}

// ── Teams ───────────────────────────────────────────────────────────────
/// The side and the team of a live robot.
#[derive(Debug, Clone, Copy, PartialEq, Eq, Structural)]
pub struct RobotTeam {
    pub side: i32,
    pub team: i32,
}

/// The team a robot is counted in: teams beyond the third count as the nearest.
pub open spec fn counted_team(t: i32) -> int {
    if t <= 0 {
        0
    } else if t >= 2 {
        2
    } else {
        1
    }
}

/// How many of the first `n` robots are on a side and counted in a team.
pub open spec fn team_count(r: Seq<RobotTeam>, side: i32, team: int, n: int) -> nat
    decreases n,
{
    if n <= 0 {
        0
    } else {
        team_count(r, side, team, n - 1) + if r[n - 1].side == side && counted_team(r[n - 1].team)
            == team {
            1nat
        } else {
            0
        }
    }
}

/// The team that is smaller than both others, or the first.
pub open spec fn smallest_team(a: nat, b: nat, c: nat) -> i32 {
    if b < a && b < c {
        1
    } else if c < a && c < b {
        2
    } else {
        0
    }
}

proof fn lemma_team_count_bound(r: Seq<RobotTeam>, side: i32, team: int, n: int)
    requires
        0 <= n,
    ensures
        team_count(r, side, team, n) <= n,
    decreases n,
{
    if n > 0 {
        lemma_team_count_bound(r, side, team, n - 1);
    }
}

/// The team for a new robot: the smallest of the side's three.
pub fn pick_balanced_team(robots: &Vec<RobotTeam>, side: i32) -> (t: i32)
    ensures
        t == smallest_team(
            team_count(robots@, side, 0, robots@.len() as int),
            team_count(robots@, side, 1, robots@.len() as int),
            team_count(robots@, side, 2, robots@.len() as int),
        ),
{
    let mut a: usize = 0;
    let mut b: usize = 0;
    let mut c: usize = 0;
    let mut i: usize = 0;
    while i < robots.len()
        invariant
            i <= robots@.len(),
            a == team_count(robots@, side, 0, i as int),
            b == team_count(robots@, side, 1, i as int),
            c == team_count(robots@, side, 2, i as int),
        decreases robots.len() - i,
    {
        proof {
            lemma_team_count_bound(robots@, side, 0, i as int);
            lemma_team_count_bound(robots@, side, 1, i as int);
            lemma_team_count_bound(robots@, side, 2, i as int);
        }
        let r = robots[i];
        if r.side == side {
            if r.team <= 0 {
                a = a + 1;
            } else if r.team >= 2 {
                c = c + 1;
            } else {
                b = b + 1;
            }
        }
        i = i + 1;
    }
    if a < b && a < c {
        0
    } else if b < a && b < c {
        1
    } else if c < a && c < b {
        2
    } else {
        0
    }
}

// ── Build queue ─────────────────────────────────────────────────────────
/// What is to be built.
#[derive(Debug, Clone, Copy)]
pub enum PendingKind {
    Robot(RobotConfig),
    /// A turret on a place of the building.
    Turret { slot: i32, turret_kind: i32 },
}

/// How long things take to build.
#[derive(Debug, Clone, Copy, PartialEq, Eq, Structural)]
pub struct BuildTimes {
    pub robot_ms: i32,
    pub turret_ms: i32,
}

impl PendingKind {
    pub open spec fn time_spec(self, t: BuildTimes) -> i32 {
        match self {
            PendingKind::Robot(_) => t.robot_ms,
            PendingKind::Turret { .. } => t.turret_ms,
        }
    }

    pub fn build_time_ms(&self, t: &BuildTimes) -> (ms: i32)
        ensures
            ms == self.time_spec(*t),
    {
        match self {
            PendingKind::Robot(_) => t.robot_ms,
            PendingKind::Turret { .. } => t.turret_ms,
        }
    }
}

/// One item of a build queue.
#[derive(Debug, Clone, Copy)]
pub struct PendingItem {
    pub kind: PendingKind,
    pub side: i32,
}

/// How far something has come: `done` of `total` parts.
#[derive(Debug, Clone, Copy, PartialEq, Eq, Structural)]
pub struct Progress {
    pub done: i32,
    pub total: i32,
}

/// The time used of a build time, neither below nothing nor above all of it.
pub open spec fn progress_of(timer: i32, total: i32) -> Progress {
    let t = if total > 1 {
        total as int
    } else {
        1
    };
    Progress {
        done: (if timer < 0 {
            0
        } else if timer > t {
            t
        } else {
            timer as int
        }) as i32,
        total: t as i32,
    }
}

fn make_progress(timer: i32, total: i32) -> (p: Progress)
    ensures
        p == progress_of(timer, total),
{
    let t: i32 = if total > 1 {
        total
    } else {
        1
    };
    let done: i32 = if timer < 0 {
        0
    } else if timer > t {
        t
    } else {
        timer
    };
    Progress { done, total: t }
}

/// What one tick of a build queue asks for.
#[derive(Debug, Clone, Copy)]
pub struct BuildTick {
    /// The turret under construction on this place has come this far.
    pub ramp: Option<(i32, Progress)>,
    /// This item is finished.
    pub produced: Option<PendingItem>,
}

/// The queue of a building: items are built one at a time, the first first.
#[derive(Debug)]
pub struct BuildStack {
    items: Vec<PendingItem>,
    timer: i32,
}

/// A build queue as the contracts see it.
#[verifier::ext_equal]
pub struct StackView {
    pub items: Seq<PendingItem>,
    /// Time spent on the first item.
    pub timer: i32,
}

impl StackView {
    /// After an item was offered: a full queue takes no more.
    pub open spec fn add(self, item: PendingItem) -> StackView {
        if self.items.len() < MAX_STACK_UNITS {
            StackView { items: self.items.push(item), ..self }
        } else {
            self
        }
    }

    /// The first item is finished within this tick.
    pub open spec fn finishes(self, cms: i32, times: BuildTimes, parent: BaseState) -> bool {
        self.items.len() > 0 && held(self.timer + cms) >= self.items[0].kind.time_spec(times) && parent
            == BaseState::Closed
    }

    /// After a tick: time only counts while something is being built, and a
    /// finished item makes room only once the building is shut.
    pub open spec fn tick(self, cms: i32, times: BuildTimes, parent: BaseState) -> StackView {
        if self.items.len() == 0 {
            StackView { timer: 0, ..self }
        } else if self.finishes(cms, times, parent) {
            StackView { items: self.items.subrange(1, self.items.len() as int), timer: 0 }
        } else {
            StackView { timer: held(self.timer + cms), ..self }
        }
    }

    /// How far the turret in front has come in this tick.
    pub open spec fn ramp(self, cms: i32, times: BuildTimes, parent: BaseState) -> Option<
        (i32, Progress),
    > {
        if self.items.len() == 0 {
            None
        } else {
            match self.items[0].kind {
                PendingKind::Robot(_) => None,
                PendingKind::Turret { slot, .. } => Some(
                    (
                        slot,
                        if self.finishes(cms, times, parent) {
                            Progress { done: 1, total: 1 }
                        } else {
                            progress_of(held(self.timer + cms), times.turret_ms)
                        },
                    ),
                ),
            }
        }
    }
}

impl BuildStack {
    pub closed spec fn view(&self) -> StackView {
        StackView { items: self.items@, timer: self.timer }
    }

    pub fn new() -> (s: BuildStack)
        ensures
            s@ == (StackView { items: Seq::empty(), timer: 0 }),
    {
        let s = BuildStack { items: Vec::new(), timer: 0 };
        assert(s@ =~= StackView { items: Seq::empty(), timer: 0 });
        s
    }

    pub fn items(&self) -> (n: usize)
        ensures
            n == self@.items.len(),
    {
        self.items.len()
    }

    pub fn is_full(&self) -> (b: bool)
        ensures
            b == (self@.items.len() >= MAX_STACK_UNITS),
    {
        self.items.len() >= MAX_STACK_UNITS
    }

    pub fn is_empty(&self) -> (b: bool)
        ensures
            b == (self@.items.len() == 0),
    {
        self.items.len() == 0
    }

    /// Queue an item. `false` when the queue is full.
    pub fn add_item(&mut self, item: PendingItem) -> (ok: bool)
        ensures
            ok == (old(self)@.items.len() < MAX_STACK_UNITS),
            final(self)@ == old(self)@.add(item),
    {
        if self.is_full() {
            return false;
        }
        self.items.push(item);
        true
    }

    /// The item that is being built.
    pub fn head(&self) -> (h: Option<&PendingItem>)
        ensures
            match h {
                Some(i) => self@.items.len() > 0 && *i == self@.items[0],
                None => self@.items.len() == 0,
            },
    {
        if self.items.len() > 0 {
            Some(&self.items[0])
        } else {
            None
        }
    }

    /// All items, the first first.
    pub fn list(&self) -> (l: &[PendingItem])
        ensures
            l@ == self@.items,
    {
        self.items.as_slice()
    }

    /// How far the first item has come.
    pub fn progress(&self, times: &BuildTimes) -> (p: Progress)
        ensures
            p == if self@.items.len() == 0 {
                Progress { done: 0, total: 1 }
            } else {
                progress_of(self@.timer, self@.items[0].kind.time_spec(*times))
            },
    {
        if self.items.len() == 0 {
            return Progress { done: 0, total: 1 };
        }
        make_progress(self.timer, self.items[0].kind.build_time_ms(times))
    }

    /// Let the queue work. Items are handed out only while the building is shut.
    pub fn tick_timer(&mut self, cms: i32, times: &BuildTimes, parent_state: BaseState) -> (r:
        BuildTick)
        ensures
            final(self)@ == old(self)@.tick(cms, *times, parent_state),
            r.ramp == old(self)@.ramp(cms, *times, parent_state),
            r.produced == if old(self)@.finishes(cms, *times, parent_state) {
                Some(old(self)@.items[0])
            } else {
                None
            },
    {
        let ghost pre = self@;
        if self.items.len() == 0 {
            self.timer = 0;
            return BuildTick { ramp: None, produced: None };
        }
        self.timer = hold(self.timer as i64 + cms as i64);
        let head = self.items[0];
        let total = head.kind.build_time_ms(times);
        let done = self.timer >= total && parent_state == BaseState::Closed;
        let ramp = match head.kind {
            PendingKind::Robot(_) => None,
            PendingKind::Turret { slot, .. } => {
                if done {
                    Some((slot, Progress { done: 1, total: 1 }))
                } else {
                    Some((slot, make_progress(self.timer, total)))
                }
            },
        };
        if !done {
            return BuildTick { ramp, produced: None };
        }
        self.items.remove(0);
        self.timer = 0;
        assert(self@ =~= pre.tick(cms, *times, parent_state));
        BuildTick { ramp, produced: Some(head) }
    }
}

// ── The building ────────────────────────────────────────────────────────
/// Where a turret can stand. Its place in the world follows from its move cell.
#[derive(Debug, Clone, Copy)]
pub struct TurretPlace {
    pub coord: (i32, i32),
    pub angle: u32,
    /// The turret that stands there; minus one for none.
    pub cannon_type: i32,
}

/// One building.
#[derive(Debug)]
pub struct Building {
    pub core: ObjectCore,
    pub rchange: u32,
    pub object_state: u32,
    pub ablaze_ttl: i32,
    pub shorted_ttl: i32,
    pub pos: (u32, u32),
    /// Quarter turns.
    pub angle: i32,
    pub side: i32,
    pub kind: BuildingType,
    pub state: BaseState,
    pub base_floor: u32,
    pub build_z: u32,
    /// In whole points: the damage rows are whole numbers, and a fraction of a
    /// point has no place here. Below two to the twenty-fourth this is what
    /// single-precision numbers give.
    pub hit_point: i32,
    pub hit_point_max: i32,
    /// One over the most hit points, in billionths, rounded down.
    pub max_hit_point_inv: i32,
    pub def_hit_point: i32,
    pub turrets_have: i32,
    pub turrets_max: i32,
    pub turret_places: Vec<TurretPlace>,
    /// Milliseconds for which the building still counts as under attack.
    pub under_attack_time: i32,
    pub capture_me_next_time: i32,
    pub resource_period: i32,
    pub shadow_type: i32,
    pub shadow_size: i32,
    pub capturer: Option<ObjectId>,
    pub next_explosion_time: i32,
    pub next_explosion_time_sound: i32,
    /// Milliseconds for which the hit point bar is still shown.
    pub show_hitpoint_time: i32,
    /// How far up the floor is, of [`BASE_FLOOR_MS`]. It is counted in
    /// milliseconds and does not drift, as a sum of real numbers would: the
    /// floor arrives after exactly that time.
    pub base_floor_progress: i32,
    pub build_stack: BuildStack,
    /// The handle of this building.
    pub self_id: Option<ObjectId>,
}

/// How the ring around a selected building lies: its radius, and how far its
/// centre is from the building along its own two axes.
#[derive(Debug, Clone, Copy, PartialEq, Eq, Structural)]
pub struct SelectionRing {
    pub radius: i32,
    pub along_x: i32,
    pub along_y: i32,
}

/// The ring for a kind of building. All lie sixty back and are fifty wide, and
/// most kinds add to that.
pub fn selection_placement(kind: BuildingType) -> (r: SelectionRing)
    ensures
        r == match kind {
            BuildingType::Base => (SelectionRing {
                radius: (50 + 24) as i32,
                along_x: (-7) as i32,
                along_y: (-60 + 16) as i32,
            }),
            BuildingType::Energy => (SelectionRing {
                radius: (50 + 10) as i32,
                along_x: 0,
                along_y: (-60 - 13) as i32,
            }),
            BuildingType::Plasma => (SelectionRing {
                radius: (50 + 15) as i32,
                along_x: 0,
                along_y: (-60 - 17) as i32,
            }),
            BuildingType::Titan => (SelectionRing {
                radius: (50 + 15) as i32,
                along_x: 0,
                along_y: (-60 - 17) as i32,
            }),
            BuildingType::Electronic => (SelectionRing {
                radius: (50 + 17) as i32,
                along_x: 0,
                along_y: (-60 - 17) as i32,
            }),
            BuildingType::Repair => (SelectionRing {
                radius: 50,
                along_x: 0,
                along_y: (-60) as i32,
            }),
        },
{
    match kind {
        BuildingType::Base => SelectionRing { radius: 74, along_x: -7, along_y: -44 },
        BuildingType::Energy => SelectionRing { radius: 60, along_x: 0, along_y: -73 },
        BuildingType::Plasma => SelectionRing { radius: 65, along_x: 0, along_y: -77 },
        BuildingType::Titan => SelectionRing { radius: 65, along_x: 0, along_y: -77 },
        BuildingType::Electronic => SelectionRing { radius: 67, along_x: 0, along_y: -77 },
        BuildingType::Repair => SelectionRing { radius: 50, along_x: 0, along_y: -60 },
    }
}

/// The turret place of a building for one of the map.
pub open spec fn place_of(p: TurretPlaceCmap) -> TurretPlace {
    TurretPlace { coord: p.coord, angle: p.angle, cannon_type: p.cannon_type }
}

pub open spec fn places_of(p: Seq<TurretPlaceCmap>) -> Seq<TurretPlace> {
    Seq::new(p.len(), |i: int| place_of(p[i]))
}

/// How many of the first `n` places carry a turret.
pub open spec fn taken_places(p: Seq<TurretPlaceCmap>, n: int) -> nat
    decreases n,
{
    if n <= 0 {
        0
    } else {
        taken_places(p, n - 1) + if p[n - 1].cannon_type > 0 {
            1nat
        } else {
            0
        }
    }
}

proof fn lemma_taken_bound(p: Seq<TurretPlaceCmap>, n: int)
    requires
        0 <= n,
    ensures
        taken_places(p, n) <= n,
    decreases n,
{
    if n > 0 {
        lemma_taken_bound(p, n - 1);
    }
}

fn copy_places(p: &Vec<TurretPlaceCmap>) -> (r: Vec<TurretPlace>)
    ensures
        r@ == places_of(p@),
{
    let mut r: Vec<TurretPlace> = Vec::new();
    let mut i: usize = 0;
    while i < p.len()
        invariant
            i <= p@.len(),
            r@ =~= places_of(p@).take(i as int),
        decreases p.len() - i,
    {
        r.push(TurretPlace { coord: p[i].coord, angle: p[i].angle, cannon_type: p[i].cannon_type });
        i = i + 1;
    }
    assert(r@ =~= places_of(p@));
    r
}

fn count_taken(p: &Vec<TurretPlaceCmap>) -> (n: usize)
    ensures
        n == taken_places(p@, p@.len() as int),
{
    let mut n: usize = 0;
    let mut i: usize = 0;
    while i < p.len()
        invariant
            i <= p@.len(),
            n == taken_places(p@, i as int),
            n <= i,
        decreases p.len() - i,
    {
        if p[i].cannon_type > 0 {
            n = n + 1;
        }
        i = i + 1;
    }
    n
}

/// One over a number, in billionths; nothing for nothing.
pub open spec fn billionths(hp: i32) -> i32 {
    if hp > 0 {
        (1_000_000_000int / (hp as int)) as i32
    } else if hp < 0 {
        (-(1_000_000_000int / (-hp))) as i32
    } else {
        0
    }
}

/// The place that a new turret goes to when none is named: the first empty one.
pub open spec fn first_empty(p: Seq<TurretPlace>, n: int) -> Option<int>
    decreases n,
{
    if n <= 0 {
        None
    } else {
        match first_empty(p, n - 1) {
            Some(k) => Some(k),
            None => if p[n - 1].cannon_type < 0 {
                Some(n - 1)
            } else {
                None
            },
        }
    }
}

proof fn lemma_first_empty(p: Seq<TurretPlace>, k: int, n: int)
    requires
        0 <= k < n,
        first_empty(p, k) is None,
        p[k].cannon_type < 0,
    ensures
        first_empty(p, n) == Some(k),
    decreases n,
{
    if n - 1 > k {
        lemma_first_empty(p, k, n - 1);
    }
}

/// Milliseconds left after `cms` more, none below zero.
pub open spec fn time_left(t: i32, cms: i32) -> i32 {
    if t - cms > 0 {
        held(t - cms)
    } else {
        0
    }
}

fn run_down(t: i32, cms: i32) -> (r: i32)
    ensures
        r == time_left(t, cms),
{
    let d: i64 = t as i64 - cms as i64;
    if d > 0 {
        hold(d)
    } else {
        0
    }
}

impl Building {
    /// Everything but the turret places and the queue is as in `b`.
    pub open spec fn same_body(&self, b: Building) -> bool {
        *self == (Building {
            turret_places: self.turret_places,
            build_stack: self.build_stack,
            turrets_have: self.turrets_have,
            ..b
        })
    }

    /// A building as the map places it, about to shut.
    pub fn from_instance(
        inst: &BuildingInstance,
        build_z: u32,
        geo_center: Pos3,
        radius: u32,
        cells: CellRect,
    ) -> (b: Building)
        requires
            inst.turret_places@.len() <= i32::MAX,
        ensures
            b.core == (ObjectCore {
                radius,
                geo_center,
                obj_type: ObjectType::Building,
                terrain_color: 0xffff_ffff,
                cells,
            }),
            b.rchange == MR_ALL,
            b.object_state == 0,
            b.ablaze_ttl == 0,
            b.shorted_ttl == 0,
            b.pos == (inst.x, inst.y),
            b.angle == inst.angle,
            b.side == inst.side,
            b.kind == match building_type(inst.kind as int) {
                Some(k) => k,
                None => BuildingType::Base,
            },
            b.state == BaseState::Closing,
            b.base_floor == BASE_FLOOR_START,
            b.build_z == build_z,
            b.hit_point == 0,
            b.hit_point_max == 0,
            b.max_hit_point_inv == 0,
            b.def_hit_point == 0,
            b.turrets_have == taken_places(inst.turret_places@, inst.turret_places@.len() as int),
            b.turrets_max == DEFAULT_TURRETS_MAX,
            b.turret_places@ == places_of(inst.turret_places@),
            b.under_attack_time == 0,
            b.capture_me_next_time == 0,
            b.resource_period == 0,
            b.shadow_type == 0,
            b.shadow_size == 128,
            b.capturer is None,
            b.next_explosion_time == 0,
            b.next_explosion_time_sound == 0,
            b.show_hitpoint_time == 0,
            b.base_floor_progress == 0,
            b.build_stack@ == (StackView { items: Seq::empty(), timer: 0 }),
            b.self_id is None,
    {
        let kind = match BuildingType::from_u8(inst.kind) {
            Some(k) => k,
            None => BuildingType::Base,
        };
        proof {
            lemma_taken_bound(inst.turret_places@, inst.turret_places@.len() as int);
        }
        Building {
            core: ObjectCore {
                radius,
                geo_center,
                obj_type: ObjectType::Building,
                terrain_color: 0xffff_ffff,
                cells,
            },
            rchange: MR_ALL,
            object_state: 0,
            ablaze_ttl: 0,
            shorted_ttl: 0,
            pos: (inst.x, inst.y),
            angle: inst.angle as i32,
            side: inst.side as i32,
            kind,
            state: BaseState::Closing,
            base_floor: BASE_FLOOR_START,
            build_z,
            hit_point: 0,
            hit_point_max: 0,
            max_hit_point_inv: 0,
            def_hit_point: 0,
            turrets_have: count_taken(&inst.turret_places) as i32,
            turrets_max: DEFAULT_TURRETS_MAX,
            turret_places: copy_places(&inst.turret_places),
            under_attack_time: 0,
            capture_me_next_time: 0,
            resource_period: 0,
            shadow_type: 0,
            shadow_size: 128,
            capturer: None,
            next_explosion_time: 0,
            next_explosion_time_sound: 0,
            show_hitpoint_time: 0,
            base_floor_progress: 0,
            build_stack: BuildStack::new(),
            self_id: None,
        }
    }

    /// Queue a robot. `false` when the queue is full.
    pub fn queue_robot(&mut self, cfg: RobotConfig) -> (ok: bool)
        ensures
            ok == (old(self).build_stack@.items.len() < MAX_STACK_UNITS),
            final(self).build_stack@ == old(self).build_stack@.add(
                (PendingItem { kind: PendingKind::Robot(cfg), side: old(self).side }),
            ),
            *final(self) == (Building { build_stack: final(self).build_stack, ..*old(self) }),
    {
        let side = self.side;
        self.build_stack.add_item(PendingItem { kind: PendingKind::Robot(cfg), side })
    }

    /// Queue a robot that is little more than a chassis, in passive armour.
    pub fn queue_default_robot(&mut self, chassis: ChassisKind) -> (ok: bool)
        ensures
            ok == (old(self).build_stack@.items.len() < MAX_STACK_UNITS),
            *final(self) == (Building { build_stack: final(self).build_stack, ..*old(self) }),
            ok ==> {
                let n = old(self).build_stack@.items;
                &&& final(self).build_stack@.timer == old(self).build_stack@.timer
                &&& final(self).build_stack@.items.len() == n.len() + 1
                &&& final(self).build_stack@.items.drop_last() == n
                &&& final(self).build_stack@.items.last().side == old(self).side
                &&& final(self).build_stack@.items.last().kind matches PendingKind::Robot(c) && {
                    &&& c.chassis == RobotUnitKind(chassis_number(chassis))
                    &&& c.hull == RobotUnitKind(ARMOR_PASSIVE)
                    &&& c.head == RobotUnitKind(0)
                    &&& forall|i: int|
                        0 <= i < MAX_WEAPON_CNT ==> (#[trigger] c.weapon@[i]) == RobotUnitKind(0)
                }
            },
            !ok ==> final(self).build_stack@ == old(self).build_stack@,
    {
        let none = RobotUnitKind(0);
        let cfg = RobotConfig {
            chassis: kind_from_chassis(chassis),
            hull: RobotUnitKind(ARMOR_PASSIVE),
            head: none,
            weapon: [none; MAX_WEAPON_CNT],
        };
        let ghost before = self.build_stack@.items;
        let ok = self.queue_robot(cfg);
        assert(ok ==> self.build_stack@.items.drop_last() =~= before);
        ok
    }

    /// A turret can be queued on this place: there is room for one more turret
    /// and for one more item, and the place exists and is empty.
    pub open spec fn can_queue(&self, slot: i32) -> bool {
        &&& self.turrets_have < self.turrets_max
        &&& 0 <= slot < self.turret_places@.len()
        &&& self.turret_places@[slot as int].cannon_type <= 0
        &&& self.build_stack@.items.len() < MAX_STACK_UNITS
    }

    /// Queue a turret on a place, which is taken from then on.
    pub fn queue_turret_slot(&mut self, slot: i32, turret_kind: i32) -> (ok: bool)
        ensures
            ok == old(self).can_queue(slot),
            final(self).same_body(*old(self)),
            ok ==> {
                &&& final(self).build_stack@ == old(self).build_stack@.add(
                    (PendingItem {
                        kind: PendingKind::Turret { slot, turret_kind },
                        side: old(self).side,
                    }),
                )
                &&& final(self).turret_places@ == old(self).turret_places@.update(
                    slot as int,
                    TurretPlace {
                        cannon_type: turret_kind,
                        ..old(self).turret_places@[slot as int]
                    },
                )
                &&& final(self).turrets_have == old(self).turrets_have + 1
            },
            !ok ==> {
                &&& final(self).build_stack@ == old(self).build_stack@
                &&& final(self).turret_places@ == old(self).turret_places@
                &&& final(self).turrets_have == old(self).turrets_have
            },
            ok ==> turret_queued(*old(self), slot, turret_kind, *final(self)),
    {
        if self.turrets_have >= self.turrets_max {
            return false;
        }
        if slot < 0 || slot as usize >= self.turret_places.len() {
            return false;
        }
        let idx = slot as usize;
        if self.turret_places[idx].cannon_type > 0 {
            return false;
        }
        let side = self.side;
        let ok = self.build_stack.add_item(
            PendingItem { kind: PendingKind::Turret { slot, turret_kind }, side },
        );
        if ok {
            let mut p = self.turret_places[idx];
            p.cannon_type = turret_kind;
            self.turret_places.set(idx, p);
            self.turrets_have = self.turrets_have + 1;
        }
        ok
    }

    /// Queue a turret on the first empty place. On a building without an empty
    /// place it is only counted.
    pub fn queue_turret(&mut self, turret_kind: i32) -> (ok: bool)
        requires
            old(self).turret_places@.len() <= i32::MAX,
        ensures
            final(self).same_body(*old(self)),
            match first_empty(
                old(self).turret_places@,
                old(self).turret_places@.len() as int,
            ) {
                Some(s) => {
                    &&& ok == old(self).can_queue(s as i32)
                    &&& ok ==> final(self).turret_places@ == old(self).turret_places@.update(
                        s,
                        TurretPlace { cannon_type: turret_kind, ..old(self).turret_places@[s] },
                    )
                    &&& ok ==> final(self).build_stack@ == old(self).build_stack@.add(
                        (PendingItem {
                            kind: PendingKind::Turret { slot: s as i32, turret_kind },
                            side: old(self).side,
                        }),
                    )
                },
                None => {
                    &&& ok == (old(self).turrets_have < old(self).turrets_max
                        && old(self).build_stack@.items.len() < MAX_STACK_UNITS)
                    &&& final(self).turret_places@ == old(self).turret_places@
                    &&& ok ==> final(self).build_stack@ == old(self).build_stack@.add(
                        (PendingItem {
                            kind: PendingKind::Turret {
                                slot: old(self).turrets_have,
                                turret_kind,
                            },
                            side: old(self).side,
                        }),
                    )
                },
            },
            final(self).turrets_have == old(self).turrets_have + if ok {
                1int
            } else {
                0
            },
            !ok ==> {
                &&& final(self).build_stack@ == old(self).build_stack@
                &&& final(self).turret_places@ == old(self).turret_places@
            },
            ok && (exists|k: int|
                0 <= k < old(self).turret_places@.len() && (#[trigger] old(
                    self,
                ).turret_places@[k]).cannon_type < 0) ==> exists|k: int|
                {
                    &&& 0 <= k < old(self).turret_places@.len()
                    &&& (#[trigger] old(self).turret_places@[k]).cannon_type < 0
                    &&& forall|j: int|
                        0 <= j < k ==> (#[trigger] old(self).turret_places@[j]).cannon_type >= 0
                    &&& turret_queued(*old(self), k as i32, turret_kind, *final(self))
                },
    {
        let mut i: usize = 0;
        let n = self.turret_places.len();
        while i < n
            invariant
                n == self.turret_places@.len(),
                i <= n,
                first_empty(self.turret_places@, i as int) is None,
            ensures
                n == self.turret_places@.len(),
                i <= n,
                i == n ==> first_empty(self.turret_places@, n as int) is None,
                i < n ==> first_empty(self.turret_places@, n as int) == Some(i as int),
            decreases n - i,
        {
            if self.turret_places[i].cannon_type < 0 {
                proof {
                    lemma_first_empty(self.turret_places@, i as int, n as int);
                }
                break;
            }
            i = i + 1;
        }
        proof {
            law_first_empty_place(self.turret_places@, n as int);
        }
        if i < n {
            return self.queue_turret_slot(i as i32, turret_kind);
        }
        if self.turrets_have >= self.turrets_max {
            return false;
        }
        let slot = self.turrets_have;
        let side = self.side;
        let ok = self.build_stack.add_item(
            PendingItem { kind: PendingKind::Turret { slot, turret_kind }, side },
        );
        if ok {
            self.turrets_have = self.turrets_have + 1;
        }
        ok
    }

    /// Show the hit point bar for a while.
    pub fn show_hitpoint(&mut self)
        ensures
            *final(self) == (Building { show_hitpoint_time: HITPOINT_SHOW_TIME_MS, ..*old(self) }),
    {
        self.show_hitpoint_time = HITPOINT_SHOW_TIME_MS;
    }

    /// Set the most hit points, and all of them.
    pub fn init_max_hitpoint(&mut self, hp: i32)
        ensures
            *final(self) == (Building {
                hit_point: hp,
                hit_point_max: hp,
                max_hit_point_inv: billionths(hp),
                ..*old(self)
            }),
    {
        self.hit_point = hp;
        self.hit_point_max = hp;
        self.max_hit_point_inv = if hp > 0 {
            proof {
                assert(0 <= 1_000_000_000int / (hp as int) <= 1_000_000_000) by (nonlinear_arith)
                    requires
                        hp > 0,
                ;
            }
            1_000_000_000 / hp
        } else if hp < 0 {
            let m: i64 = -(hp as i64);
            proof {
                assert(0 <= 1_000_000_000int / (m as int) <= 1_000_000_000) by (nonlinear_arith)
                    requires
                        m > 0,
                ;
            }
            (-(1_000_000_000i64 / m)) as i32
        } else {
            0
        };
    }

    /// Start to open; nothing opens a destroyed building.
    pub fn open(&mut self)
        ensures
            *final(self) == (Building { state: opened_state(old(self).state), ..*old(self) }),
    {
        if self.state == BaseState::Dip || self.state == BaseState::DipExploded {
            return;
        }
        self.state = BaseState::Opening;
    }

    /// Start to shut; not while a robot is on its way out.
    pub fn close(&mut self)
        ensures
            *final(self) == (Building {
                state: if is_dip(old(self).state) || old(self).object_state
                    & OBJECT_STATE_BUILDING_SPAWNBOT != 0 {
                    old(self).state
                } else {
                    BaseState::Closing
                },
                ..*old(self)
            }),
    {
        if self.state == BaseState::Dip || self.state == BaseState::DipExploded {
            return;
        }
        if self.object_state & OBJECT_STATE_BUILDING_SPAWNBOT != 0 {
            return;
        }
        self.state = BaseState::Closing;
    }
}

/// The state after an order to open.
pub open spec fn opened_state(s: BaseState) -> BaseState {
    if is_dip(s) {
        s
    } else {
        BaseState::Opening
    }
}

// ── Turns ───────────────────────────────────────────────────────────────
/// What a logic turn of a building asks for.
#[derive(Debug, Clone, Copy)]
pub struct BuildingTick {
    /// The turret under construction on this place has come this far.
    pub ramp: Option<(i32, Progress)>,
    /// This robot leaves the building.
    pub robot: Option<(RobotConfig, i32)>,
}

/// The floor after `cms`: it rises while the base opens and sinks while it
/// shuts, and stops at either end.
pub open spec fn floor_after(state: BaseState, floor: i32, cms: i32) -> (BaseState, i32) {
    if state == BaseState::Opening {
        if floor + cms >= BASE_FLOOR_MS {
            (BaseState::Opened, BASE_FLOOR_MS)
        } else {
            (state, held(floor + cms))
        }
    } else if state == BaseState::Closing {
        if floor - cms <= 0 {
            (BaseState::Closed, 0)
        } else {
            (state, held(floor - cms))
        }
    } else {
        (state, floor)
    }
}

fn move_floor(state: BaseState, floor: i32, cms: i32) -> (r: (BaseState, i32))
    ensures
        r == floor_after(state, floor, cms),
{
    if state == BaseState::Opening {
        let f: i64 = floor as i64 + cms as i64;
        if f >= BASE_FLOOR_MS as i64 {
            (BaseState::Opened, BASE_FLOOR_MS)
        } else {
            (state, hold(f))
        }
    } else if state == BaseState::Closing {
        let f: i64 = floor as i64 - cms as i64;
        if f <= 0 {
            (BaseState::Closed, 0)
        } else {
            (state, hold(f))
        }
    } else {
        (state, floor)
    }
}

/// A logic turn takes building `b` to `c`. A finished robot opens the base; the
/// timers run down unless the building is destroyed; the floor of a base moves.
pub open spec fn took_turn(
    b: Building,
    c: Building,
    cms: i32,
    times: BuildTimes,
    r: BuildingTick,
) -> bool {
    let works = b.self_id is Some;
    let robot = b.robot_due(cms, times);
    let state = if robot is Some {
        opened_state(b.state)
    } else {
        b.state
    };
    let floor = if b.kind == BuildingType::Base {
        floor_after(state, b.base_floor_progress, cms)
    } else {
        (state, b.base_floor_progress)
    };
    &&& r.robot == robot
    &&& r.ramp == if works {
        b.build_stack@.ramp(cms, times, b.state)
    } else {
        None
    }
    &&& c.build_stack@ == if works {
        b.build_stack@.tick(cms, times, b.state)
    } else {
        b.build_stack@
    }
    &&& c == (Building {
        build_stack: c.build_stack,
        object_state: if robot is Some {
            b.object_state | OBJECT_STATE_BUILDING_SPAWNBOT
        } else {
            b.object_state
        },
        under_attack_time: if is_dip(state) {
            b.under_attack_time
        } else {
            time_left(b.under_attack_time, cms)
        },
        show_hitpoint_time: if is_dip(state) || b.show_hitpoint_time <= 0 {
            b.show_hitpoint_time
        } else {
            time_left(b.show_hitpoint_time, cms)
        },
        state: floor.0,
        base_floor_progress: floor.1,
        rchange: if floor.1 != b.base_floor_progress {
            b.rchange | MR_MATRIX
        } else {
            b.rchange
        },
        ..b
    })
}

impl Building {
    /// The queue works, because the building knows its handle, and hands out a
    /// robot in this tick.
    pub open spec fn robot_due(&self, cms: i32, times: BuildTimes) -> Option<(RobotConfig, i32)> {
        if self.self_id is Some && self.build_stack@.finishes(cms, times, self.state) {
            match self.build_stack@.items[0].kind {
                PendingKind::Robot(c) => Some((c, self.build_stack@.items[0].side)),
                PendingKind::Turret { .. } => None,
            }
        } else {
            None
        }
    }

    /// One logic turn. A finished robot opens the base; the timers run down
    /// unless the building is destroyed; the floor of a base moves.
    pub fn logic_takt(&mut self, cms: i32, times: &BuildTimes) -> (r: BuildingTick)
        ensures
            took_turn(*old(self), *final(self), cms, *times, r),
    {
        let mut ramp: Option<(i32, Progress)> = None;
        let mut robot: Option<(RobotConfig, i32)> = None;
        if self.self_id.is_some() {
            let state = self.state;
            let t = self.build_stack.tick_timer(cms, times, state);
            ramp = t.ramp;
            match t.produced {
                Some(item) => {
                    match item.kind {
                        PendingKind::Robot(c) => {
                            robot = Some((c, item.side));
                        },
                        PendingKind::Turret { .. } => {},
                    }
                },
                None => {},
            }
            if robot.is_some() {
                self.object_state = self.object_state | OBJECT_STATE_BUILDING_SPAWNBOT;
                self.open();
            }
        }
        if !(self.state == BaseState::Dip || self.state == BaseState::DipExploded) {
            self.under_attack_time = run_down(self.under_attack_time, cms);
            if self.show_hitpoint_time > 0 {
                self.show_hitpoint_time = run_down(self.show_hitpoint_time, cms);
            }
        }
        if self.kind == BuildingType::Base {
            let (state, floor) = move_floor(self.state, self.base_floor_progress, cms);
            if floor != self.base_floor_progress {
                self.rchange = self.rchange | MR_MATRIX;
            }
            self.state = state;
            self.base_floor_progress = floor;
        }
        BuildingTick { ramp, robot }
    }

    /// A hit by one's own side; nobody's side is no side.
    pub open spec fn is_friendly(&self, attacker_side: i32) -> bool {
        attacker_side != 0 && attacker_side == self.side
    }

    /// What a hit takes or a repair gives.
    pub open spec fn amount(&self, attacker_side: i32, entry: WeaponDamage) -> i32 {
        if self.is_friendly(attacker_side) {
            entry.friend_damage
        } else {
            entry.damage
        }
    }

    /// The building after a hit that it takes.
    pub open spec fn struck(&self, attacker_side: i32, entry: WeaponDamage) -> Building {
        let hurt = self.hit_point > entry.mindamage;
        let hp = if hurt {
            held(self.hit_point - self.amount(attacker_side, entry))
        } else {
            self.hit_point
        };
        let dies = hp <= 0;
        Building {
            hit_point: if dies {
                (-1) as i32
            } else {
                hp
            },
            show_hitpoint_time: if hurt {
                HITPOINT_SHOW_TIME_MS
            } else {
                self.show_hitpoint_time
            },
            under_attack_time: if self.side == PLAYER_SIDE && !self.is_friendly(attacker_side) {
                UNDER_ATTACK_IDLE_TIME_MS
            } else {
                self.under_attack_time
            },
            state: if dies {
                BaseState::Dip
            } else {
                self.state
            },
            next_explosion_time: if dies {
                0
            } else {
                self.next_explosion_time
            },
            next_explosion_time_sound: if dies {
                0
            } else {
                self.next_explosion_time_sound
            },
            ..*self
        }
    }

    /// The building after a hit or a repair; nothing touches a destroyed one.
    pub open spec fn after_hit(
        &self,
        weap: Weapon,
        attacker_side: i32,
        entry: WeaponDamage,
    ) -> Building {
        if is_dip(self.state) {
            *self
        } else if weap == Weapon::Repair {
            let hp = held(self.hit_point + self.amount(attacker_side, entry));
            Building {
                hit_point: if hp < self.hit_point_max {
                    hp
                } else {
                    self.hit_point_max
                },
                ..*self
            }
        } else {
            self.struck(attacker_side, entry)
        }
    }

    /// Take a hit, or be repaired. `true` when the building is destroyed, now
    /// or before.
    pub fn damage(&mut self, weap: Weapon, attacker_side: i32, entry: WeaponDamage) -> (gone: bool)
        ensures
            *final(self) == old(self).after_hit(weap, attacker_side, entry),
            gone == is_dip(final(self).state),
    {
        if self.state == BaseState::Dip || self.state == BaseState::DipExploded {
            return true;
        }
        let friendly_fire = attacker_side != 0 && attacker_side == self.side;
        let amount = if friendly_fire {
            entry.friend_damage
        } else {
            entry.damage
        };
        if weap == Weapon::Repair {
            let hp = hold(self.hit_point as i64 + amount as i64);
            self.hit_point = if hp < self.hit_point_max {
                hp
            } else {
                self.hit_point_max
            };
            return false;
        }
        if self.hit_point > entry.mindamage {
            self.hit_point = hold(self.hit_point as i64 - amount as i64);
            self.show_hitpoint();
        }
        if self.side == PLAYER_SIDE && !friendly_fire {
            self.under_attack_time = UNDER_ATTACK_IDLE_TIME_MS;
        }
        if self.hit_point <= 0 {
            self.hit_point = -1;
            self.state = BaseState::Dip;
            self.next_explosion_time = 0;
            self.next_explosion_time_sound = 0;
            return true;
        }
        false
    }

    pub fn need_repair(&self) -> (b: bool)
        ensures
            b == (self.hit_point < self.hit_point_max),
    {
        self.hit_point < self.hit_point_max
    }

    /// Rebuild what is stale. `true` when the caller is to rebuild the matrix.
    pub fn r_need(&mut self, need: u32) -> (matrix: bool)
        ensures
            matrix == (need & old(self).rchange & MR_MATRIX != 0),
            *final(self) == (Building {
                rchange: (if matrix {
                    old(self).rchange & !MR_MATRIX
                } else {
                    old(self).rchange
                }) & !(MR_GRAPH | MR_SHADOW_PROJ_GEOM | MR_SHADOW_PROJ_TEX | MR_SHADOW_STENCIL
                    | MR_MINIMAP),
                ..*old(self)
            }),
    {
        let matrix = need & self.rchange & MR_MATRIX != 0;
        if matrix {
            self.rchange = self.rchange & !MR_MATRIX;
        }
        self.rchange = self.rchange & !(MR_GRAPH | MR_SHADOW_PROJ_GEOM | MR_SHADOW_PROJ_TEX
            | MR_SHADOW_STENCIL | MR_MINIMAP);
        matrix
    }
}

impl MapStatic for Building {
    open spec fn status(&self) -> ObjectStatus {
        ObjectStatus {
            obj_type: self.core.obj_type,
            rchange: self.rchange,
            object_state: self.object_state,
            ablaze_ttl: self.ablaze_ttl,
            shorted_ttl: self.shorted_ttl,
        }
    }

    open spec fn with_status(&self, s: ObjectStatus) -> Building {
        Building {
            core: ObjectCore { obj_type: s.obj_type, ..self.core },
            rchange: s.rchange,
            object_state: s.object_state,
            ablaze_ttl: s.ablaze_ttl,
            shorted_ttl: s.shorted_ttl,
            ..*self
        }
    }

    /// A destroyed building is no longer found by traces and searches.
    open spec fn live(&self) -> bool {
        !is_dip(self.state)
    }

    open spec fn cell_rect(&self) -> CellRect {
        self.core.cells
    }

    fn obj_type(&self) -> ObjectType {
        self.core.obj_type
    }

    fn rchange(&self) -> u32 {
        self.rchange
    }

    fn rchange_set(&mut self, bits: u32) {
        self.rchange = self.rchange | bits;
    }

    fn rchange_clear(&mut self, bits: u32) {
        self.rchange = self.rchange & !bits;
    }

    fn object_state(&self) -> u32 {
        self.object_state
    }

    fn object_state_set(&mut self, bits: u32) {
        self.object_state = self.object_state | bits;
    }

    fn object_state_clear(&mut self, bits: u32) {
        self.object_state = self.object_state & !bits;
    }

    fn ablaze_ttl(&self) -> i32 {
        self.ablaze_ttl
    }

    fn set_ablaze_ttl(&mut self, ttl: i32) {
        self.ablaze_ttl = ttl;
    }

    fn shorted_ttl(&self) -> i32 {
        self.shorted_ttl
    }

    fn set_shorted_ttl(&mut self, ttl: i32) {
        self.shorted_ttl = ttl;
    }

    fn is_live(&self) -> bool {
        !(self.state == BaseState::Dip || self.state == BaseState::DipExploded)
    }

    fn cells(&self) -> CellRect {
        self.core.cells
    }
}

// ── Laws ────────────────────────────────────────────────────────────────
/// No queue ever holds more than its limit, however it is used.
pub proof fn law_queue_bounded(
    s: StackView,
    item: PendingItem,
    cms: i32,
    times: BuildTimes,
    parent: BaseState,
)
    requires
        s.items.len() <= MAX_STACK_UNITS,
    ensures
        s.add(item).items.len() <= MAX_STACK_UNITS,
        s.tick(cms, times, parent).items.len() <= MAX_STACK_UNITS,
{
}

/// Items are built in the order in which they were queued: a tick takes off
/// the front or leaves the queue alone, and an offer only adds at the end.
pub proof fn law_queue_is_first_come(
    s: StackView,
    item: PendingItem,
    cms: i32,
    times: BuildTimes,
    parent: BaseState,
)
    ensures
        s.add(item).items.take(s.items.len() as int) == s.items,
        s.tick(cms, times, parent).items == s.items || s.tick(cms, times, parent).items
            == s.items.subrange(1, s.items.len() as int),
        s.tick(cms, times, parent).items != s.items ==> s.finishes(cms, times, parent),
{
    assert(s.add(item).items.take(s.items.len() as int) =~= s.items);
}

/// Nothing leaves the queue of a building that is not shut.
pub proof fn law_production_waits_for_shut_base(
    s: StackView,
    cms: i32,
    times: BuildTimes,
    parent: BaseState,
)
    requires
        parent != BaseState::Closed,
    ensures
        s.tick(cms, times, parent).items == s.items,
{
}

/// A place that was queued for cannot be queued for again, and no building gets
/// more turrets than it may have.
pub proof fn law_no_double_turret(before: Building, after: Building, slot: i32, kind: i32, more: i32)
    requires
        before.can_queue(slot),
        kind > 0,
        after.turret_places@ == before.turret_places@.update(
            slot as int,
            TurretPlace { cannon_type: kind, ..before.turret_places@[slot as int] },
        ),
        after.turrets_have == before.turrets_have + 1,
        after.turrets_max == before.turrets_max,
    ensures
        !after.can_queue(slot),
        after.turrets_have <= after.turrets_max,
        after.turrets_have == after.turrets_max ==> !after.can_queue(more),
{
}

/// A hit never leaves a building with no hit points and alive, nor destroyed
/// with some; a destroyed building takes no more hits.
pub proof fn law_dead_means_no_hit_points(b: Building, attacker_side: i32, entry: WeaponDamage)
    requires
        !is_dip(b.state),
    ensures
        is_dip(b.struck(attacker_side, entry).state) == (b.struck(attacker_side, entry).hit_point
            <= 0),
        is_dip(b.struck(attacker_side, entry).state) ==> b.struck(attacker_side, entry).hit_point
            == -1,
{
}

/// A building with more hit points than a weapon's least damage is hurt by it,
/// one with fewer is not.
pub proof fn law_least_damage(b: Building, attacker_side: i32, entry: WeaponDamage)
    requires
        !is_dip(b.state),
        0 < b.hit_point <= entry.mindamage,
    ensures
        b.struck(attacker_side, entry).hit_point == b.hit_point,
        !is_dip(b.struck(attacker_side, entry).state),
{
}

/// The floor stays between the ground and its highest place.
pub proof fn law_floor_in_range(state: BaseState, floor: i32, cms: i32)
    requires
        0 <= floor <= BASE_FLOOR_MS,
        cms >= 0,
    ensures
        0 <= floor_after(state, floor, cms).1 <= BASE_FLOOR_MS,
{
}

/// A base that opens for long enough is open, one that shuts for long enough
/// is shut.
pub proof fn law_floor_arrives(floor: i32, cms: i32)
    requires
        0 <= floor <= BASE_FLOOR_MS,
        cms >= BASE_FLOOR_MS,
    ensures
        floor_after(BaseState::Opening, floor, cms) == (BaseState::Opened, BASE_FLOOR_MS),
        floor_after(BaseState::Closing, floor, cms) == (BaseState::Closed, 0i32),
{
}

// ── Models ──────────────────────────────────────────────────────────────
/// The archive of a building kind.
pub open spec fn cvo_path_spec(kind: u8) -> Option<Seq<char>> {
    if kind == 0 {
        Some("Matrix/Building/b0.cvo"@)
    } else if kind == 1 {
        Some("Matrix/Building/b1.cvo"@)
    } else if kind == 2 {
        Some("Matrix/Building/b2.cvo"@)
    } else if kind == 3 {
        Some("Matrix/Building/b3.cvo"@)
    } else if kind == 4 {
        Some("Matrix/Building/b4.cvo"@)
    } else if kind == 5 {
        Some("Matrix/Building/b5.cvo"@)
    } else {
        None
    }
}

/// The path of the archive with the models of a building kind; `None` for a
/// kind that does not exist.
pub fn building_cvo_path(kind: u8) -> (p: Option<String>)
    ensures
        match p {
            Some(s) => cvo_path_spec(kind) == Some(s@),
            None => cvo_path_spec(kind) is None,
        },
{
    match kind {
        0 => Some("Matrix/Building/b0.cvo".to_string()),
        1 => Some("Matrix/Building/b1.cvo".to_string()),
        2 => Some("Matrix/Building/b2.cvo".to_string()),
        3 => Some("Matrix/Building/b3.cvo".to_string()),
        4 => Some("Matrix/Building/b4.cvo".to_string()),
        5 => Some("Matrix/Building/b5.cvo".to_string()),
        _ => None,
    }
}

// ── What production comes to ────────────────────────────────────────────
/// A tick of a queue: how long it is, and how the building stands.
pub struct WorkTick {
    pub ms: i32,
    pub parent: BaseState,
}

/// The queue after some ticks.
pub open spec fn worked(s: StackView, ticks: Seq<WorkTick>, times: BuildTimes) -> StackView
    decreases ticks.len(),
{
    if ticks.len() == 0 {
        s
    } else {
        worked(s, ticks.drop_last(), times).tick(ticks.last().ms, times, ticks.last().parent)
    }
}

/// How long some ticks are together.
pub open spec fn worked_ms(ticks: Seq<WorkTick>) -> int
    decreases ticks.len(),
{
    if ticks.len() == 0 {
        0
    } else {
        worked_ms(ticks.drop_last()) + ticks.last().ms
    }
}

/// Every item is built for its own time. While the item in front stays there, the
/// time spent on it is what the ticks since it came there add up to; it leaves
/// with the first tick that brings this to its build time and finds the building
/// shut, and the next item then starts from nothing.
pub proof fn law_every_item_takes_its_time(
    s: StackView,
    ticks: Seq<WorkTick>,
    next: WorkTick,
    times: BuildTimes,
)
    requires
        s.items.len() > 0,
        s.timer == 0,
        forall|i: int| 0 <= i < ticks.len() ==> (#[trigger] ticks[i]).ms >= 0,
        next.ms >= 0,
        forall|i: int|
            0 <= i <= ticks.len() ==> (#[trigger] worked(s, ticks.take(i), times)).items == s.items,
    ensures
        ({
            let now = worked(s, ticks, times);
            let after = now.tick(next.ms, times, next.parent);
            let needed = match s.items[0].kind {
                PendingKind::Robot(_) => times.robot_ms,
                PendingKind::Turret { .. } => times.turret_ms,
            };
            let done = worked_ms(ticks) + next.ms >= needed && next.parent == BaseState::Closed;
            &&& worked_ms(ticks) >= 0
            &&& worked_ms(ticks) <= i32::MAX ==> now.timer == worked_ms(ticks)
            &&& now.finishes(next.ms, times, next.parent) == done
            &&& done ==> after.items == s.items.subrange(1, s.items.len() as int) && after.timer
                == 0
            &&& !done ==> after.items == s.items
        }),
{
    lemma_worked_timer(s, ticks, times);
    assert(ticks.take(ticks.len() as int) =~= ticks);
    let now = worked(s, ticks, times);
    assert(now.items == s.items);
    let cut = s.items.subrange(1, s.items.len() as int);
    assert(cut.len() == s.items.len() - 1);
}

proof fn lemma_worked_timer(s: StackView, ticks: Seq<WorkTick>, times: BuildTimes)
    requires
        s.items.len() > 0,
        s.timer == 0,
        forall|i: int| 0 <= i < ticks.len() ==> (#[trigger] ticks[i]).ms >= 0,
        forall|i: int|
            0 <= i <= ticks.len() ==> (#[trigger] worked(s, ticks.take(i), times)).items == s.items,
    ensures
        worked_ms(ticks) >= 0,
        worked(s, ticks, times).timer == if worked_ms(ticks) <= i32::MAX {
            worked_ms(ticks)
        } else {
            i32::MAX as int
        },
    decreases ticks.len(),
{
    if ticks.len() > 0 {
        let pre = ticks.drop_last();
        let n = pre.len() as int;
        assert forall|i: int| 0 <= i <= pre.len() implies (#[trigger] worked(
            s,
            pre.take(i),
            times,
        )).items == s.items by {
            assert(pre.take(i) =~= ticks.take(i));
        }
        lemma_worked_timer(s, pre, times);
        assert(ticks.take(n) =~= pre);
        assert(ticks.take(n + 1) =~= ticks);
        let before = worked(s, pre, times);
        assert(before.items == s.items);
        assert(worked(s, ticks, times).items == s.items);
        if before.finishes(ticks.last().ms, times, ticks.last().parent) {
            assert(before.items.subrange(1, before.items.len() as int).len() < s.items.len());
        }
    }
}

/// An empty queue hands nothing out and saves no time up for what is queued next.
pub proof fn law_no_time_saved_up(s: StackView, cms: i32, times: BuildTimes, parent: BaseState)
    requires
        s.items.len() == 0,
    ensures
        !s.finishes(cms, times, parent),
        s.tick(cms, times, parent).items.len() == 0,
        s.tick(cms, times, parent).timer == 0,
        s.ramp(cms, times, parent) is None,
{
}

/// An item that is offered goes to the end of a queue with fewer than six, and a
/// queue of six refuses it. The time spent on the item in front stays.
pub proof fn law_queue_takes_six(s: StackView, item: PendingItem)
    ensures
        s.items.len() < 6 ==> s.add(item).items.len() == s.items.len() + 1 && s.add(
            item,
        ).items.last() == item && s.add(item).items.drop_last() == s.items,
        s.items.len() >= 6 ==> s.add(item) == s,
        s.add(item).timer == s.timer,
{
    assert(s.items.push(item).drop_last() =~= s.items);
}

/// The turret in front is told of every tick: on which place it stands, and what
/// part of its build time is used, all of it when it is handed out. A robot in
/// front is told of none.
pub proof fn law_turret_is_told_its_progress(
    s: StackView,
    cms: i32,
    times: BuildTimes,
    parent: BaseState,
)
    requires
        s.items.len() > 0,
        times.turret_ms >= 1,
        0 <= s.timer + cms <= i32::MAX,
    ensures
        match s.items[0].kind {
            PendingKind::Robot(_) => s.ramp(cms, times, parent) is None,
            PendingKind::Turret { slot, .. } => {
                let spent = s.timer + cms;
                &&& s.ramp(cms, times, parent) is Some
                &&& (s.ramp(cms, times, parent)->0).0 == slot
                &&& ({
                    let p = (s.ramp(cms, times, parent)->0).1;
                    &&& spent < times.turret_ms ==> p == (Progress {
                        done: spent as i32,
                        total: times.turret_ms,
                    })
                    &&& spent >= times.turret_ms ==> p.done >= p.total && p.total >= 1
                })
            },
        },
{
}

/// How far an item has come lies between nothing and all of it, and in between is
/// the time used.
pub proof fn law_progress(timer: i32, total: i32)
    requires
        total >= 1,
    ensures
        progress_of(timer, total).total == total,
        timer <= 0 ==> progress_of(timer, total).done == 0,
        0 <= timer <= total ==> progress_of(timer, total).done == timer,
        timer >= total ==> progress_of(timer, total).done == total,
{
}

/// A building's turn hands out a robot exactly when one is finished while the
/// building is shut; the building then opens and is marked. Otherwise it stands
/// as its floor has moved. A destroyed building stays destroyed.
pub proof fn law_finished_robot_opens_base(
    b: Building,
    c: Building,
    cms: i32,
    times: BuildTimes,
    r: BuildingTick,
)
    requires
        took_turn(b, c, cms, times, r),
        0 <= cms < 1250,
        0 <= b.base_floor_progress <= 1250,
        0 <= b.build_stack@.timer <= 0x4000_0000,
    ensures
        r.robot is Some ==> {
            &&& b.state == BaseState::Closed
            &&& b.self_id is Some
            &&& b.build_stack@.items.len() > 0
            &&& b.build_stack@.items[0].kind == PendingKind::Robot((r.robot->0).0)
            &&& (r.robot->0).1 == b.build_stack@.items[0].side
            &&& b.build_stack@.timer + cms >= times.robot_ms
            &&& c.build_stack@.items == b.build_stack@.items.subrange(
                1,
                b.build_stack@.items.len() as int,
            )
            &&& c.build_stack@.timer == 0
            &&& c.object_state == b.object_state | OBJECT_STATE_BUILDING_SPAWNBOT
            &&& c.state == BaseState::Opening || c.state == BaseState::Opened
        },
        r.robot is None ==> c.object_state == b.object_state,
        r.robot is None && b.kind != BuildingType::Base ==> c.state == b.state,
        b.state == BaseState::Closed && b.self_id is Some && b.build_stack@.items.len() > 0
            && b.build_stack@.items[0].kind is Robot && b.build_stack@.timer + cms >= times.robot_ms
            ==> r.robot is Some,
        is_dip(b.state) ==> c.state == b.state && r.robot is None,
        b.self_id is None ==> c.build_stack@ == b.build_stack@ && r.robot is None && r.ramp is None,
        c.hit_point == b.hit_point,
        c.side == b.side,
        c.turret_places == b.turret_places,
        c.turrets_have == b.turrets_have,
{
}

/// The floor of a base rises by a millisecond's worth each millisecond while it
/// opens and sinks by as much while it shuts; it rests in every other state. Two
/// turns move it as far as one of their length.
pub proof fn law_floor_moves_with_time(state: BaseState, floor: i32, a: i32, b: i32)
    requires
        0 <= floor <= 1250,
        0 <= a,
        0 <= b,
        a + b <= i32::MAX,
    ensures
        ({
            let (s1, f1) = floor_after(state, floor, a);
            &&& floor_after(s1, f1, b) == floor_after(state, floor, (a + b) as i32)
            &&& state == BaseState::Opening && floor + a < 1250 ==> s1 == state && f1 == floor + a
            &&& state == BaseState::Opening && floor + a >= 1250 ==> s1 == BaseState::Opened && f1
                == 1250
            &&& state == BaseState::Closing && floor - a > 0 ==> s1 == state && f1 == floor - a
            &&& state == BaseState::Closing && floor - a <= 0 ==> s1 == BaseState::Closed && f1 == 0
            &&& state != BaseState::Opening && state != BaseState::Closing ==> s1 == state && f1
                == floor
        }),
{
}

/// The warning and the hit point bar of a building run out with the time and not
/// below nothing; those of a destroyed building stand still.
pub proof fn law_timers_run_out(b: Building, c: Building, cms: i32, times: BuildTimes, r: BuildingTick)
    requires
        took_turn(b, c, cms, times, r),
        cms >= 0,
        b.under_attack_time >= 0,
        b.show_hitpoint_time >= 0,
    ensures
        is_dip(b.state) ==> c.under_attack_time == b.under_attack_time && c.show_hitpoint_time
            == b.show_hitpoint_time,
        !is_dip(b.state) ==> {
            &&& c.under_attack_time == if cms < b.under_attack_time {
                b.under_attack_time - cms
            } else {
                0
            }
            &&& c.show_hitpoint_time == if cms < b.show_hitpoint_time {
                b.show_hitpoint_time - cms
            } else {
                0
            }
        },
{
}

/// A hit takes the points of its row from a building that has more than the least
/// that the weapon leaves: those for friends from its own side, the others from
/// everybody else. A building left without points is destroyed. Hits by others
/// than its own side put the player's buildings under attack, and a hit that takes
/// points shows the bar.
pub proof fn law_building_hit(b: Building, weap: Weapon, side: i32, row: WeaponDamage)
    requires
        !is_dip(b.state),
        weap != Weapon::Repair,
        0 < b.hit_point,
        0 <= row.damage,
        0 <= row.friend_damage,
    ensures
        ({
            let r = b.after_hit(weap, side, row);
            let friend = side != 0 && side == b.side;
            let points = if friend {
                row.friend_damage as int
            } else {
                row.damage as int
            };
            let left = if b.hit_point > row.mindamage {
                b.hit_point - points
            } else {
                b.hit_point as int
            };
            &&& left > 0 ==> r.hit_point == left && r.state == b.state
            &&& left <= 0 ==> r.hit_point == -1 && r.state == BaseState::Dip
                && r.next_explosion_time == 0 && r.next_explosion_time_sound == 0
            &&& r.hit_point_max == b.hit_point_max
            &&& b.side == 1 && !friend ==> r.under_attack_time == 120_000
            &&& b.side != 1 || friend ==> r.under_attack_time == b.under_attack_time
            &&& b.hit_point > row.mindamage ==> r.show_hitpoint_time == HITPOINT_SHOW_TIME_MS
            &&& b.hit_point <= row.mindamage ==> r.show_hitpoint_time == b.show_hitpoint_time
            &&& r.side == b.side && r.kind == b.kind && r.turret_places == b.turret_places
                && r.build_stack == b.build_stack
        }),
{
}

/// A repair gives a building the points of its row, those for friends to its own
/// side, and never more than the most; a row of zeros changes nothing.
pub proof fn law_building_repair(b: Building, side: i32, row: WeaponDamage)
    requires
        !is_dip(b.state),
        0 <= b.hit_point <= b.hit_point_max,
        row.damage >= 0,
        row.friend_damage >= 0,
    ensures
        ({
            let r = b.after_hit(Weapon::Repair, side, row);
            let points = if side != 0 && side == b.side {
                row.friend_damage as int
            } else {
                row.damage as int
            };
            &&& b.hit_point + points <= b.hit_point_max ==> r.hit_point == b.hit_point + points
            &&& b.hit_point + points > b.hit_point_max ==> r.hit_point == b.hit_point_max
            &&& r == (Building { hit_point: r.hit_point, ..b })
        }),
{
}

/// Nothing touches a destroyed building.
pub proof fn law_ruin_is_not_touched(b: Building, weap: Weapon, side: i32, row: WeaponDamage)
    requires
        b.state == BaseState::Dip || b.state == BaseState::DipExploded,
    ensures
        b.after_hit(weap, side, row) == b,
        !b.live(),
        opened_state(b.state) == b.state,
{
}

/// A new robot goes to a team of its side that no other is smaller than, and to
/// the first team in any tie for the smallest.
pub proof fn law_team_is_smallest(r: Seq<RobotTeam>, side: i32)
    ensures
        ({
            let n = r.len() as int;
            let size = |t: int| team_count(r, side, t, n);
            let t = smallest_team(size(0), size(1), size(2));
            &&& t == 0 || t == 1 || t == 2
            &&& t != 0 ==> size(t as int) < size(0)
            &&& (size(1) < size(0) && size(1) < size(2)) ==> t == 1
            &&& (size(2) < size(0) && size(2) < size(1)) ==> t == 2
            &&& size(0) <= size(1) && size(0) <= size(2) ==> t == 0
            &&& size(1) == size(2) ==> t == 0
        }),
{
}

/// A robot counts for its own side only, and for one team: the first for numbers
/// below one, the third for numbers above it.
pub proof fn law_robot_counts_once(r: Seq<RobotTeam>, more: RobotTeam, side: i32, team: int)
    ensures
        ({
            let all = r.push(more);
            let n = r.len() as int;
            let own = if more.team < 1 {
                0int
            } else if more.team == 1 {
                1
            } else {
                2
            };
            team_count(all, side, team, n + 1) == team_count(r, side, team, n) + if more.side == side
                && own == team {
                1int
            } else {
                0
            }
        }),
{
    lemma_team_prefix(r, r.push(more), side, team, r.len() as int);
}

proof fn lemma_team_prefix(a: Seq<RobotTeam>, b: Seq<RobotTeam>, side: i32, team: int, n: int)
    requires
        n <= a.len(),
        n <= b.len(),
        forall|i: int| 0 <= i < n ==> a[i] == b[i],
    ensures
        team_count(a, side, team, n) == team_count(b, side, team, n),
    decreases n,
{
    if n > 0 {
        lemma_team_prefix(a, b, side, team, n - 1);
    }
}

/// The place for a turret that names none is the first that is empty.
pub proof fn law_first_empty_place(p: Seq<TurretPlace>, n: int)
    requires
        0 <= n <= p.len(),
    ensures
        first_empty(p, n) is None <==> (forall|i: int|
            0 <= i < n ==> (#[trigger] p[i]).cannon_type >= 0),
        first_empty(p, n) matches Some(k) ==> {
            &&& 0 <= k < n
            &&& p[k].cannon_type < 0
            &&& forall|i: int| 0 <= i < k ==> (#[trigger] p[i]).cannon_type >= 0
        },
    decreases n,
{
    if n > 0 {
        law_first_empty_place(p, n - 1);
        if first_empty(p, n - 1) is None && p[n - 1].cannon_type >= 0 {
            assert forall|i: int| 0 <= i < n implies (#[trigger] p[i]).cannon_type >= 0 by {}
        }
    }
}

/// A turret can be queued on a place that exists and is free, while the building
/// has a turret to spare and room in its queue.
pub proof fn law_turret_needs_room(b: Building, slot: i32)
    ensures
        b.turrets_have >= b.turrets_max ==> !b.can_queue(slot),
        slot < 0 || slot >= b.turret_places@.len() ==> !b.can_queue(slot),
        0 <= slot < b.turret_places@.len() && b.turret_places@[slot as int].cannon_type > 0
            ==> !b.can_queue(slot),
        b.build_stack@.items.len() >= 6 ==> !b.can_queue(slot),
        b.turrets_have < b.turrets_max && 0 <= slot < b.turret_places@.len()
            && b.turret_places@[slot as int].cannon_type <= 0 && b.build_stack@.items.len() < 6
            ==> b.can_queue(slot),
{
}

/// The turrets that a map gives a building are counted, and only those.
pub proof fn law_turrets_are_counted(p: Seq<TurretPlaceCmap>, more: TurretPlaceCmap)
    ensures
        taken_places(p.push(more), p.len() as int + 1) == taken_places(p, p.len() as int) + if more.cannon_type
            > 0 {
            1int
        } else {
            0
        },
        taken_places(p, p.len() as int) <= p.len(),
        places_of(p).len() == p.len(),
        forall|i: int|
            0 <= i < p.len() ==> (#[trigger] places_of(p)[i]).coord == p[i].coord && places_of(
                p,
            )[i].angle == p[i].angle && places_of(p)[i].cannon_type == p[i].cannon_type,
{
    lemma_taken_prefix(p, p.push(more), p.len() as int);
}

proof fn lemma_taken_prefix(a: Seq<TurretPlaceCmap>, b: Seq<TurretPlaceCmap>, n: int)
    requires
        0 <= n <= a.len(),
        n <= b.len(),
        forall|i: int| 0 <= i < n ==> a[i] == b[i],
    ensures
        taken_places(a, n) == taken_places(b, n),
        taken_places(a, n) <= n,
    decreases n,
{
    if n > 0 {
        lemma_taken_prefix(a, b, n - 1);
    }
}

/// A turret of this kind was put on the queue for place `slot`: it comes last
/// in the queue, for the building's own side, the place is marked with its kind,
/// and nothing else of the queue or the places has changed.
pub open spec fn turret_queued(a: Building, slot: i32, turret_kind: i32, b: Building) -> bool {
    let (p, q) = (a.build_stack@.items, b.build_stack@.items);
    &&& q.len() == p.len() + 1 <= 6
    &&& forall|i: int| 0 <= i < p.len() ==> #[trigger] q[i] == p[i]
    &&& q[p.len() as int].kind == PendingKind::Turret { slot, turret_kind }
    &&& q[p.len() as int].side == a.side
    &&& b.build_stack@.timer == a.build_stack@.timer
    &&& b.turrets_have == a.turrets_have + 1 <= a.turrets_max
    &&& b.turret_places@.len() == a.turret_places@.len()
    &&& forall|i: int|
        0 <= i < a.turret_places@.len() && i != slot ==> #[trigger] b.turret_places@[i]
            == a.turret_places@[i]
    &&& b.turret_places@[slot as int].cannon_type == turret_kind
    &&& b.turret_places@[slot as int].coord == a.turret_places@[slot as int].coord
}

/// The six sorts of building have the numbers zero to five, and no two share
/// one.
pub proof fn law_building_numbers(a: int, b: int)
    ensures
        building_type(a) is Some <==> 0 <= a <= 5,
        0 <= a <= 5 && 0 <= b <= 5 && a != b ==> building_type(a) != building_type(b),
        building_type(0) == Some(BuildingType::Base),
{
}

/// Each sort of building has its own model, numbered like the building.
pub proof fn law_building_models(kind: u8)
    ensures
        cvo_path_spec(kind) is Some <==> kind <= 5,
        cvo_path_spec(kind) matches Some(p) ==> p == "Matrix/Building/b"@ + seq![digit_char(kind as nat)]
            + ".cvo"@,
{
    reveal_strlit("Matrix/Building/b");
    reveal_strlit(".cvo");
    reveal_strlit("Matrix/Building/b0.cvo");
    reveal_strlit("Matrix/Building/b1.cvo");
    reveal_strlit("Matrix/Building/b2.cvo");
    reveal_strlit("Matrix/Building/b3.cvo");
    reveal_strlit("Matrix/Building/b4.cvo");
    reveal_strlit("Matrix/Building/b5.cvo");
    if kind <= 5 {
        let p = cvo_path_spec(kind)->0;
        let q = "Matrix/Building/b"@ + seq![digit_char(kind as nat)] + ".cvo"@;
        assert(p =~= q);
    }
}

/// The inverse of the full hit points, in billionths, is the whole number nearest
/// from below.
pub proof fn law_inverse_points(hp: i32)
    requires
        hp > 0,
    ensures
        billionths(hp) * hp <= 1_000_000_000 < (billionths(hp) + 1) * hp,
        billionths((-hp) as i32) == -billionths(hp),
        billionths(0) == 0,
{
    let q = 1_000_000_000int / (hp as int);
    vstd::arithmetic::div_mod::lemma_fundamental_div_mod(1_000_000_000, hp as int);
    vstd::arithmetic::div_mod::lemma_mod_bound(1_000_000_000, hp as int);
    assert(q * hp == hp * q) by (nonlinear_arith);
    assert((q + 1) * hp == q * hp + hp) by (nonlinear_arith);
    assert(0 <= q <= 1_000_000_000) by (nonlinear_arith)
        requires
            hp > 0,
            hp * q <= 1_000_000_000,
            1_000_000_000 < hp * q + hp,
    ;
}

/// A turn works on the queue of a building that has a place in the arena, and
/// moves the floor of a base: the floor of a base that hands out a robot starts
/// to open at once. The building is drawn at its new height just when the floor
/// has moved.
pub proof fn law_turn_moves_floor(b: Building, c: Building, cms: i32, times: BuildTimes, r: BuildingTick)
    requires
        took_turn(b, c, cms, times, r),
        0 <= cms,
        0 <= b.base_floor_progress <= 1250,
        b.base_floor_progress + cms <= i32::MAX,
    ensures
        ({
            let f = b.base_floor_progress;
            let opens = b.state == BaseState::Opening || r.robot is Some;
            let base = b.kind == BuildingType::Base;
            &&& !base ==> c.base_floor_progress == f
            &&& base && opens && !is_dip(b.state) && f + cms < 1250 ==> c.base_floor_progress == f
                + cms && c.state == BaseState::Opening
            &&& base && opens && !is_dip(b.state) && f + cms >= 1250 ==> c.base_floor_progress
                == 1250 && c.state == BaseState::Opened
            &&& base && !opens && b.state == BaseState::Closing && f > cms ==> c.base_floor_progress
                == f - cms && c.state == BaseState::Closing
            &&& base && !opens && b.state == BaseState::Closing && f <= cms
                ==> c.base_floor_progress == 0 && c.state == BaseState::Closed
            &&& base && !opens && b.state != BaseState::Closing ==> c.base_floor_progress == f
                && c.state == b.state
            &&& c.base_floor_progress != f ==> c.rchange == b.rchange | MR_MATRIX
            &&& c.base_floor_progress == f ==> c.rchange == b.rchange
            &&& b.self_id is Some ==> c.build_stack@ == b.build_stack@.tick(cms, times, b.state)
            &&& b.self_id is Some ==> r.ramp == b.build_stack@.ramp(cms, times, b.state)
        }),
{
}

/// A building lives until it is a ruin, and takes up the cells it was given.
pub proof fn law_building_lives(b: Building)
    ensures
        b.live() <==> b.state != BaseState::Dip && b.state != BaseState::DipExploded,
        b.cell_rect() == b.core.cells,
        b.status().obj_type == b.core.obj_type && b.status().object_state == b.object_state
            && b.status().ablaze_ttl == b.ablaze_ttl && b.status().shorted_ttl == b.shorted_ttl
            && b.status().rchange == b.rchange,
{
}

/// Queueing leaves the building itself as it was.
pub proof fn law_queueing_leaves_rest(a: Building, b: Building)
    requires
        b.same_body(a),
    ensures
        b.core == a.core && b.state == a.state && b.kind == a.kind && b.side == a.side,
        b.hit_point == a.hit_point && b.hit_point_max == a.hit_point_max,
        b.turrets_max == a.turrets_max && b.self_id == a.self_id && b.pos == a.pos,
        b.base_floor_progress == a.base_floor_progress && b.object_state == a.object_state,
{
}

} // verus!
