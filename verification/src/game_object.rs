//! Buildings, cannons and scenery in one arena: what their turns and hits do to
//! themselves and to each other.
//!
//! The turns of robots, cannons and sensors need to know where things are. A walk
//! in steps hands such an object out at its place, and the caller takes its turn;
//! by itself it does nothing.
use crate::arena::{
    law_add_lt_enrols, law_spawn_counts, law_spawn_is_fresh, law_walk_is_kept, law_walk_kept_on,
    live_count, walk_kept, ArenaView, ObjectId,
};
use crate::common::{held, hold, Weapon, WeaponDamage};
use crate::map_static::{
    burned_down, decayed, CellRect, Hit, MapStatic, ObjectStatus, ObjectType, Objects, ObjectsView, SideStats, Takt,
};
use crate::object::{photo_due, photo_waited, BehFlag, MapObject};
use crate::object_building::{
    is_dip, pick_balanced_team, smallest_team, team_count, took_turn, BuildTimes, Building,
    BuildingTick, Progress, RobotConfig, RobotTeam,
};
use crate::object_cannon::{
    constructed, is_ramped, is_turret, new_pieces, ramp_turret_hp, shown_after, Cannon,
    DamageOutcome, Difficulty, HasCannon, Scatter, WeaponId,
};
use crate::object_robot::{is_finished, Robot, Structure};
use vstd::prelude::*;

verus! {

/// An object of the map.
#[derive(Debug)]
pub enum GameObject {
    Building(Building),
    Cannon(Cannon),
    MapObject(MapObject),
    Robot(Robot),
}

/// What a weapon does to a class of objects.
#[derive(Debug, Clone, Copy, PartialEq, Eq, Structural)]
pub struct DamageRow {
    pub weap: Weapon,
    pub row: WeaponDamage,
}

/// A weapon without a row does nothing.
pub open spec fn row_of(rows: Seq<DamageRow>, weap: Weapon, n: int) -> WeaponDamage
    decreases n,
{
    if n <= 0 {
        WeaponDamage { damage: 0, mindamage: 0, friend_damage: 0 }
    } else if rows[n - 1].weap == weap {
        rows[n - 1].row
    } else {
        row_of(rows, weap, n - 1)
    }
}

/// The row of a weapon; of several the last.
pub fn find_row(rows: &Vec<DamageRow>, weap: Weapon) -> (r: WeaponDamage)
    ensures
        r == row_of(rows@, weap, rows@.len() as int),
{
    let mut n: usize = rows.len();
    while n > 0
        invariant
            n <= rows@.len(),
            row_of(rows@, weap, n as int) == row_of(rows@, weap, rows@.len() as int),
        decreases n,
    {
        if rows[n - 1].weap == weap {
            return rows[n - 1].row;
        }
        n = n - 1;
    }
    WeaponDamage { damage: 0, mindamage: 0, friend_damage: 0 }
}

/// A robot that leaves a building.
#[derive(Debug, Clone, Copy)]
pub struct Leaving {
    pub from: Option<ObjectId>,
    pub config: RobotConfig,
    pub side: i32,
}

/// A cannon that was hit, what came of it, and the weapons that it gave up.
#[derive(Debug)]
pub struct Struck {
    pub id: ObjectId,
    pub outcome: DamageOutcome,
    pub released: Vec<WeaponId>,
}

/// A portrait whose next wait is to be drawn from a range.
#[derive(Debug, Clone, Copy, PartialEq, Eq)]
pub struct PhotoDue {
    pub id: ObjectId,
    pub range: (i32, i32),
}

/// A robot that was hit.
#[derive(Debug, Clone, Copy)]
pub struct RobotHit {
    pub id: ObjectId,
    pub hit: Hit,
}

/// What turns and hits need, and what comes out of them.
#[derive(Debug)]
pub struct Field {
    pub times: BuildTimes,
    pub building_damages: Vec<DamageRow>,
    pub cannon_damages: Vec<DamageRow>,
    pub difficulty: Difficulty,
    pub now: i64,
    /// How the object that is hit would scatter.
    pub wreck: Scatter,
    pub structure: Structure,
    /// Robots that left their building.
    pub produced: Vec<ObjectId>,
    /// Robots for which there was no handle left.
    pub leaving: Vec<Leaving>,
    /// Hits on robots.
    pub robot_hits: Vec<RobotHit>,
    pub photos: Vec<PhotoDue>,
    pub struck: Vec<Struck>,
}

/// A turret of building `id` was told how far it is, if one is being built.
pub open spec fn ramped(
    v: ObjectsView<GameObject>,
    w: ObjectsView<GameObject>,
    id: Option<ObjectId>,
    ramp: Option<(i32, Progress)>,
) -> bool {
    match (ramp, id) {
        (Some(x), Some(parent)) => {
            &&& is_ramped(v.arena, w.arena, parent, x.0, x.1)
            &&& w == v.with_arena(w.arena)
        },
        _ => w == v,
    }
}

/// The side and the team of every robot among the first `n` handles.
pub open spec fn teams_of(v: ArenaView<GameObject>, ids: Seq<ObjectId>, n: int) -> Seq<RobotTeam>
    decreases n,
{
    if n <= 0 {
        Seq::empty()
    } else {
        let before = teams_of(v, ids, n - 1);
        match v.get(ids[n - 1]) {
            Some(GameObject::Robot(r)) => before.push(RobotTeam { side: r.side, team: r.team }),
            _ => before,
        }
    }
}

/// The smallest team of a side, over all robots that are present.
pub open spec fn team_for(v: ArenaView<GameObject>, side: i32) -> i32 {
    let t = teams_of(v, v.live_ids(), v.live_ids().len() as int);
    smallest_team(
        team_count(t, side, 0, t.len() as int),
        team_count(t, side, 1, t.len() as int),
        team_count(t, side, 2, t.len() as int),
    )
}

/// There is a handle left for one more object.
pub open spec fn has_room(v: ArenaView<GameObject>) -> bool {
    v.free.len() > 0 || v.slots.len() <= u32::MAX
}

/// What became of the robot that building `b` has finished, if it has: it is a
/// live object of its side, in the smallest team, and enrolled. Without a handle
/// left it is only noted.
pub open spec fn handed_over(
    b: Building,
    robot: Option<(RobotConfig, i32)>,
    env: Field,
    v: ObjectsView<GameObject>,
    env2: Field,
    w: ObjectsView<GameObject>,
) -> bool {
    match robot {
        None => w == v && env2 == env,
        Some(x) => if has_room(v.arena) {
            let id = v.arena.next_id();
            &&& exists|r: Robot|
                {
                    &&& #[trigger] is_finished(
                        r,
                        b,
                        x.0,
                        x.1,
                        team_for(v.arena, x.1),
                        env.structure,
                        id,
                    )
                    &&& w == v.with_arena(
                        v.arena.spawn(GameObject::Robot(r), ObjectType::RobotAi).add_lt(id),
                    )
                }
            &&& env2.produced@ == env.produced@.push(id)
            &&& env2 == (Field { produced: env2.produced, ..env })
        } else {
            &&& w == v
            &&& env2.leaving@ == env.leaving@.push(
                Leaving { from: b.self_id, config: x.0, side: x.1 },
            )
            &&& env2 == (Field { leaving: env2.leaving, ..env })
        },
    }
}

/// The building after a hit.
pub open spec fn building_hit(b: Building, hit: Hit, rows: Seq<DamageRow>) -> Building {
    b.after_hit(hit.weap, hit.attacker_side, row_of(rows, hit.weap, rows.len() as int))
}

/// One more turret for the side that gets the kill.
pub open spec fn credited(v: ObjectsView<GameObject>, credit: Option<i32>) -> ObjectsView<
    GameObject,
> {
    match credit {
        Some(side) => if 0 <= side < 9 {
            ObjectsView {
                stats: v.stats.update(
                    side as int,
                    SideStats {
                        turret_kill: held(v.stats[side as int].turret_kill + 1),
                        ..v.stats[side as int]
                    },
                ),
                ..v
            }
        } else {
            v
        },
        None => v,
    }
}

/// The cannon after a hit, and what is noted of it.
pub open spec fn cannon_hit(
    c: Cannon,
    hit: Hit,
    id: ObjectId,
    env: Field,
    d: Cannon,
    env2: Field,
) -> bool {
    let row = row_of(env.cannon_damages@, hit.weap, env.cannon_damages@.len() as int);
    let o = c.combat.outcome(hit.weap, hit.attacker_side, row, env.difficulty, env.now);
    &&& d.weapons@ == if o.boom {
        Seq::empty()
    } else {
        c.weapons@
    }
    &&& d.dip_units@ == c.dip_units@ + new_pieces(c.angle, env.wreck, o.boom)
    &&& d == (Cannon {
        combat: c.combat.after(hit.weap, hit.attacker_side, row, env.difficulty, env.now),
        weapons: d.weapons,
        dip_units: d.dip_units,
        ..c
    })
    &&& env2.struck@.len() == env.struck@.len() + 1
    &&& env2.struck@.drop_last() == env.struck@
    &&& env2.struck@.last().id == id
    &&& env2.struck@.last().outcome == o
    &&& env2.struck@.last().released@ == if o.boom {
        c.weapons@
    } else {
        Seq::empty()
    }
    &&& env2 == (Field { struck: env2.struck, ..env })
}

impl MapStatic for GameObject {
    open spec fn status(&self) -> ObjectStatus {
        match *self {
            GameObject::Building(o) => o.status(),
            GameObject::Cannon(o) => o.status(),
            GameObject::MapObject(o) => o.status(),
            GameObject::Robot(o) => o.status(),
        }
    }

    open spec fn with_status(&self, s: ObjectStatus) -> GameObject {
        match *self {
            GameObject::Building(o) => GameObject::Building(o.with_status(s)),
            GameObject::Cannon(o) => GameObject::Cannon(o.with_status(s)),
            GameObject::MapObject(o) => GameObject::MapObject(o.with_status(s)),
            GameObject::Robot(o) => GameObject::Robot(o.with_status(s)),
        }
    }

    open spec fn live(&self) -> bool {
        match *self {
            GameObject::Building(o) => o.live(),
            GameObject::Cannon(o) => o.live(),
            GameObject::MapObject(o) => o.live(),
            GameObject::Robot(o) => o.live(),
        }
    }

    open spec fn cell_rect(&self) -> CellRect {
        match *self {
            GameObject::Building(o) => o.cell_rect(),
            GameObject::Cannon(o) => o.cell_rect(),
            GameObject::MapObject(o) => o.cell_rect(),
            GameObject::Robot(o) => o.cell_rect(),
        }
    }

    fn obj_type(&self) -> ObjectType {
        match self {
            GameObject::Building(o) => o.obj_type(),
            GameObject::Cannon(o) => o.obj_type(),
            GameObject::MapObject(o) => o.obj_type(),
            GameObject::Robot(o) => o.obj_type(),
        }
    }

    fn rchange(&self) -> u32 {
        match self {
            GameObject::Building(o) => o.rchange(),
            GameObject::Cannon(o) => o.rchange(),
            GameObject::MapObject(o) => o.rchange(),
            GameObject::Robot(o) => o.rchange(),
        }
    }

    fn rchange_set(&mut self, bits: u32) {
        match self {
            GameObject::Building(o) => o.rchange_set(bits),
            GameObject::Cannon(o) => o.rchange_set(bits),
            GameObject::MapObject(o) => o.rchange_set(bits),
            GameObject::Robot(o) => o.rchange_set(bits),
        }
    }

    fn rchange_clear(&mut self, bits: u32) {
        match self {
            GameObject::Building(o) => o.rchange_clear(bits),
            GameObject::Cannon(o) => o.rchange_clear(bits),
            GameObject::MapObject(o) => o.rchange_clear(bits),
            GameObject::Robot(o) => o.rchange_clear(bits),
        }
    }

    fn object_state(&self) -> u32 {
        match self {
            GameObject::Building(o) => o.object_state(),
            GameObject::Cannon(o) => o.object_state(),
            GameObject::MapObject(o) => o.object_state(),
            GameObject::Robot(o) => o.object_state(),
        }
    }

    fn object_state_set(&mut self, bits: u32) {
        match self {
            GameObject::Building(o) => o.object_state_set(bits),
            GameObject::Cannon(o) => o.object_state_set(bits),
            GameObject::MapObject(o) => o.object_state_set(bits),
            GameObject::Robot(o) => o.object_state_set(bits),
        }
    }

    fn object_state_clear(&mut self, bits: u32) {
        match self {
            GameObject::Building(o) => o.object_state_clear(bits),
            GameObject::Cannon(o) => o.object_state_clear(bits),
            GameObject::MapObject(o) => o.object_state_clear(bits),
            GameObject::Robot(o) => o.object_state_clear(bits),
        }
    }

    fn ablaze_ttl(&self) -> i32 {
        match self {
            GameObject::Building(o) => o.ablaze_ttl(),
            GameObject::Cannon(o) => o.ablaze_ttl(),
            GameObject::MapObject(o) => o.ablaze_ttl(),
            GameObject::Robot(o) => o.ablaze_ttl(),
        }
    }

    fn set_ablaze_ttl(&mut self, ttl: i32) {
        match self {
            GameObject::Building(o) => o.set_ablaze_ttl(ttl),
            GameObject::Cannon(o) => o.set_ablaze_ttl(ttl),
            GameObject::MapObject(o) => o.set_ablaze_ttl(ttl),
            GameObject::Robot(o) => o.set_ablaze_ttl(ttl),
        }
    }

    fn shorted_ttl(&self) -> i32 {
        match self {
            GameObject::Building(o) => o.shorted_ttl(),
            GameObject::Cannon(o) => o.shorted_ttl(),
            GameObject::MapObject(o) => o.shorted_ttl(),
            GameObject::Robot(o) => o.shorted_ttl(),
        }
    }

    fn set_shorted_ttl(&mut self, ttl: i32) {
        match self {
            GameObject::Building(o) => o.set_shorted_ttl(ttl),
            GameObject::Cannon(o) => o.set_shorted_ttl(ttl),
            GameObject::MapObject(o) => o.set_shorted_ttl(ttl),
            GameObject::Robot(o) => o.set_shorted_ttl(ttl),
        }
    }

    fn is_live(&self) -> bool {
        match self {
            GameObject::Building(o) => o.is_live(),
            GameObject::Cannon(o) => o.is_live(),
            GameObject::MapObject(o) => o.is_live(),
            GameObject::Robot(o) => o.is_live(),
        }
    }

    fn cells(&self) -> CellRect {
        match self {
            GameObject::Building(o) => o.cells(),
            GameObject::Cannon(o) => o.cells(),
            GameObject::MapObject(o) => o.cells(),
            GameObject::Robot(o) => o.cells(),
        }
    }
}

impl HasCannon for GameObject {
    open spec fn as_cannon(&self) -> Option<Cannon> {
        match *self {
            GameObject::Cannon(c) => Some(c),
            _ => None,
        }
    }

    open spec fn with_cannon(&self, c: Cannon) -> GameObject {
        GameObject::Cannon(c)
    }

    fn cannon(&self) -> (r: Option<&Cannon>) {
        match self {
            GameObject::Cannon(c) => Some(c),
            _ => None,
        }
    }

    fn build_cannon(&mut self, p: Progress) {
        match self {
            GameObject::Cannon(c) => c.tick_construction(p),
            _ => {},
        }
    }
}

impl Takt for GameObject {
    type Env = Field;

    open spec fn logic_takt_rel(
        pre: GameObject,
        cms: i32,
        env: Field,
        objs: ObjectsView<GameObject>,
        post: GameObject,
        env2: Field,
        objs2: ObjectsView<GameObject>,
    ) -> bool {
        match pre {
            GameObject::Building(b) => {
                post matches GameObject::Building(b2) && exists|
                    r: BuildingTick,
                    mid: ObjectsView<GameObject>,
                |
                    {
                        &&& #[trigger] took_turn(b, b2, cms, env.times, r)
                        &&& #[trigger] ramped(objs, mid, b.self_id, r.ramp)
                        &&& handed_over(b2, r.robot, env, mid, env2, objs2)
                    }
            },
            _ => post == pre && env2 == env && objs2 == objs,
        }
    }

    open spec fn takt_rel(
        pre: GameObject,
        cms: i32,
        env: Field,
        objs: ObjectsView<GameObject>,
        post: GameObject,
        env2: Field,
        objs2: ObjectsView<GameObject>,
    ) -> bool {
        &&& objs2 == objs
        &&& match pre {
            GameObject::Building(_) => post == pre && env2 == env,
            GameObject::Robot(_) => post == pre && env2 == env,
            GameObject::Cannon(c) => post == GameObject::Cannon(shown_after(c, cms)) && env2 == env,
            GameObject::MapObject(o) => {
                &&& post == GameObject::MapObject(photo_waited(o, cms))
                &&& env2.photos@ == match (photo_due(o, cms), o.self_id) {
                    (Some(range), Some(id)) => env.photos@.push(PhotoDue { id, range }),
                    _ => env.photos@,
                }
                &&& env2 == (Field { photos: env2.photos, ..env })
            },
        }
    }

    open spec fn damage_rel(
        pre: GameObject,
        hit: Hit,
        id: ObjectId,
        env: Field,
        objs: ObjectsView<GameObject>,
        post: GameObject,
        gone: bool,
        env2: Field,
        objs2: ObjectsView<GameObject>,
    ) -> bool {
        match pre {
            GameObject::Building(b) => {
                let b2 = building_hit(b, hit, env.building_damages@);
                &&& post == GameObject::Building(b2)
                &&& gone == is_dip(b2.state)
                &&& env2 == env
                &&& objs2 == objs
            },
            GameObject::Cannon(c) => {
                &&& post matches GameObject::Cannon(c2) && cannon_hit(c, hit, id, env, c2, env2)
                &&& gone == env2.struck@.last().outcome.gone
                &&& objs2 == credited(objs, env2.struck@.last().outcome.credit)
            },
            GameObject::MapObject(_) => post == pre && !gone && env2 == env && objs2 == objs,
            GameObject::Robot(_) => {
                &&& post == pre
                &&& !gone
                &&& env2.robot_hits@ == env.robot_hits@.push(RobotHit { id, hit })
                &&& env2 == (Field { robot_hits: env2.robot_hits, ..env })
                &&& objs2 == objs
            },
        }
    }

    open spec fn standing(&self) -> GameObject {
        match *self {
            GameObject::Robot(r) => GameObject::Robot(Robot { stands: true, ..r }),
            _ => *self,
        }
    }

    open spec fn asking(&self) -> bool {
        match *self {
            GameObject::Building(_) => false,
            GameObject::Cannon(_) => true,
            GameObject::MapObject(o) => o.beh_flag == BehFlag::Sens,
            GameObject::Robot(_) => true,
        }
    }

    fn asks(&self) -> bool {
        match self {
            GameObject::Building(_) => false,
            GameObject::Cannon(_) => true,
            GameObject::MapObject(o) => o.beh_flag == BehFlag::Sens,
            GameObject::Robot(_) => true,
        }
    }

    fn logic_takt(&mut self, cms: i32, env: &mut Field, objs: &mut Objects<GameObject>) {
        match self {
            GameObject::Building(b) => {
                let ghost b0 = *b;
                let ghost env0 = *env;
                let ghost objs0 = objs@;
                let id = b.self_id;
                let times = env.times;
                let r = b.logic_takt(cms, &times);
                match (r.ramp, id) {
                    (Some((slot, progress)), Some(parent)) => {
                        ramp_turret_hp(objs, parent, slot, progress);
                    },
                    _ => {},
                }
                let ghost mid = objs@;
                objs.hand_over(b, r.robot, env);
                proof {
                    law_walk_kept_on(objs0.arena, mid.arena, objs@.arena);
                }
                assert(took_turn(b0, *b, cms, env0.times, r) && ramped(objs0, mid, id, r.ramp)
                    && handed_over(*b, r.robot, env0, mid, *env, objs@));
            },
            _ => {},
        }
    }

    fn takt(&mut self, cms: i32, env: &mut Field, objs: &mut Objects<GameObject>) {
        match self {
            GameObject::Building(_) => {},
            GameObject::Robot(_) => {},
            GameObject::Cannon(c) => c.takt(cms),
            GameObject::MapObject(o) => {
                let id = o.self_id;
                match (o.takt(cms), id) {
                    (Some(range), Some(id)) => env.photos.push(PhotoDue { id, range }),
                    _ => {},
                }
            },
        }
    }

    fn damage(
        &mut self,
        hit: Hit,
        id: ObjectId,
        env: &mut Field,
        objs: &mut Objects<GameObject>,
    ) -> (gone: bool) {
        match self {
            GameObject::Building(b) => {
                let row = find_row(&env.building_damages, hit.weap);
                b.damage(hit.weap, hit.attacker_side, row)
            },
            GameObject::Cannon(c) => {
                let row = find_row(&env.cannon_damages, hit.weap);
                let difficulty = env.difficulty;
                let wreck = env.wreck;
                let ghost struck0 = env.struck@;
                let (outcome, released) = c.damage(
                    hit.weap,
                    hit.attacker_side,
                    row,
                    difficulty,
                    env.now,
                    &wreck,
                );
                match outcome.credit {
                    Some(side) => {
                        let add = |s: SideStats| -> (t: SideStats)
                            ensures
                                t == (SideStats { turret_kill: held(s.turret_kill + 1), ..s }),
                            { SideStats { turret_kill: hold(s.turret_kill as i64 + 1), ..s } };
                        objs.inc_side_stat(side, add);
                    },
                    None => {},
                }
                env.struck.push(Struck { id, outcome, released });
                assert(env.struck@.drop_last() =~= struck0);
                outcome.gone
            },
            GameObject::MapObject(_) => false,
            GameObject::Robot(_) => {
                env.robot_hits.push(RobotHit { id, hit });
                false
            },
        }
    }

    fn switch_animation_stay(&mut self) {
        match self {
            GameObject::Robot(r) => {
                r.stands = true;
            },
            _ => {},
        }
    }
}

impl Objects<GameObject> {
    /// The side and the team of every robot that is present.
    pub fn robot_teams(&self) -> (t: Vec<RobotTeam>)
        requires
            self.wf(),
        ensures
            t@ == teams_of(
                self@.arena,
                self@.arena.live_ids(),
                self@.arena.live_ids().len() as int,
            ),
    {
        let ids = self.iter_live();
        let mut t: Vec<RobotTeam> = Vec::new();
        let mut i: usize = 0;
        while i < ids.len()
            invariant
                self.wf(),
                ids@ == self@.arena.live_ids(),
                i <= ids@.len(),
                t@ == teams_of(self@.arena, ids@, i as int),
            decreases ids.len() - i,
        {
            match self.get(ids[i]) {
                Some(GameObject::Robot(r)) => {
                    t.push(RobotTeam { side: r.side, team: r.team });
                },
                _ => {},
            }
            i = i + 1;
        }
        t
    }

    /// Put a finished robot into the arena and enrol it.
    fn hand_over(&mut self, b: &Building, robot: Option<(RobotConfig, i32)>, env: &mut Field)
        requires
            old(self).wf(),
        ensures
            final(self).wf(),
            handed_over(*b, robot, *old(env), old(self)@, *final(env), final(self)@),
            walk_kept(old(self)@.arena, final(self)@.arena),
    {
        match robot {
            Some((config, side)) => {
                if self.arena.has_room() {
                    let ghost v = self@.arena;
                    let id = self.arena.next_id();
                    let teams = self.robot_teams();
                    let team = pick_balanced_team(&teams, side);
                    let r = Robot::finished(b, config, side, team, &env.structure, id);
                    assert(is_finished(r, *b, config, side, team_for(v, side), env.structure, id));
                    proof {
                        self.arena.lemma_wf();
                        let w = v.spawn(GameObject::Robot(r), ObjectType::RobotAi);
                        law_walk_is_kept(v, id, GameObject::Robot(r), ObjectType::RobotAi);
                        law_spawn_is_fresh(v, GameObject::Robot(r), ObjectType::RobotAi, id);
                        law_walk_is_kept(w, id, GameObject::Robot(r), ObjectType::RobotAi);
                        law_walk_kept_on(v, w, w.add_lt(id));
                    }
                    self.spawn(GameObject::Robot(r));
                    self.add_lt(id);
                    env.produced.push(id);
                } else {
                    env.leaving.push(Leaving { from: b.self_id, config, side });
                }
            },
            None => {},
        }
    }
}

// ── Laws ────────────────────────────────────────────────────────────────
/// In the turn of its building a turret that is being built gets the part of
/// its hit points that goes with the time spent on it, and works once the queue
/// hands it out. Nothing else in the arena changes.
pub proof fn law_building_raises_turret(
    b: Building,
    cms: i32,
    env: Field,
    objs: ObjectsView<GameObject>,
    post: GameObject,
    env2: Field,
    objs2: ObjectsView<GameObject>,
    k: int,
)
    requires
        GameObject::logic_takt_rel(
            GameObject::Building(b),
            cms,
            env,
            objs,
            post,
            env2,
            objs2,
        ),
        b.self_id is Some,
        b.build_stack@.ramp(cms, env.times, b.state) is Some,
        0 <= k < objs.arena.live_ids().len(),
        ({
            let slot = (b.build_stack@.ramp(cms, env.times, b.state)->0).0;
            let ids = objs.arena.live_ids();
            &&& is_turret(objs.arena, ids[k], b.self_id->0, slot)
            &&& forall|j: int|
                0 <= j < k ==> !is_turret(objs.arena, #[trigger] ids[j], b.self_id->0, slot)
        }),
    ensures
        ({
            let p = (b.build_stack@.ramp(cms, env.times, b.state)->0).1;
            let id = objs.arena.live_ids()[k];
            let c = objs.arena.get(id)->0.as_cannon()->0;
            let d = objs2.arena.get(id)->0.as_cannon()->0;
            &&& objs2.arena.get(id) == Some(GameObject::Cannon(d))
            &&& d == c.with_combat(constructed(c.combat, p))
            &&& objs2.arena == objs.arena.with_obj(id, Some(GameObject::Cannon(d)))
        }),
{
}

/// A robot that a building hands over is a live object of its side under a new
/// handle, enrolled, and the only one that has come.
pub proof fn law_finished_robot_is_enrolled(
    b: Building,
    config: RobotConfig,
    side: i32,
    env: Field,
    v: ObjectsView<GameObject>,
    env2: Field,
    w: ObjectsView<GameObject>,
    other: ObjectId,
)
    requires
        v.arena.wf(),
        has_room(v.arena),
        handed_over(b, Some((config, side)), env, v, env2, w),
    ensures
        w.arena.wf(),
        env2.produced@ == env.produced@.push(v.arena.next_id()),
        v.arena.get(v.arena.next_id()) is None,
        w.arena.get(v.arena.next_id()) matches Some(GameObject::Robot(r)) && {
            &&& r.side == side
            &&& r.config == config
            &&& r.base == b.self_id
            &&& GameObject::Robot(r).live()
            &&& GameObject::Robot(r).status().obj_type == ObjectType::RobotAi
        },
        w.arena.in_lt(v.arena.next_id()),
        live_count(w.arena.slots) == live_count(v.arena.slots) + 1,
        other != v.arena.next_id() ==> w.arena.get(other) == v.arena.get(other)
            && w.arena.in_lt(other) == v.arena.in_lt(other),
{
    let id = v.arena.next_id();
    let r = choose|r: Robot|
        {
            &&& #[trigger] is_finished(
                r,
                b,
                config,
                side,
                team_for(v.arena, side),
                env.structure,
                id,
            )
            &&& w == v.with_arena(
                v.arena.spawn(GameObject::Robot(r), ObjectType::RobotAi).add_lt(id),
            )
        };
    let s = v.arena.spawn(GameObject::Robot(r), ObjectType::RobotAi);
    law_spawn_is_fresh(v.arena, GameObject::Robot(r), ObjectType::RobotAi, other);
    law_add_lt_enrols(s, id, other);
    law_spawn_counts(v.arena, GameObject::Robot(r), ObjectType::RobotAi);
}

/// A cannon that a hit destroys in the arena gives up all its weapons, gains its
/// three pieces, and counts for the side that gets the kill.
pub proof fn law_destroyed_cannon(
    c: Cannon,
    hit: Hit,
    id: ObjectId,
    env: Field,
    objs: ObjectsView<GameObject>,
    post: GameObject,
    env2: Field,
    objs2: ObjectsView<GameObject>,
)
    requires
        GameObject::damage_rel(
            GameObject::Cannon(c),
            hit,
            id,
            env,
            objs,
            post,
            true,
            env2,
            objs2,
        ),
        env2.struck@.last().outcome.boom,
    ensures
        post matches GameObject::Cannon(d) && {
            &&& d.weapons@.len() == 0
            &&& d.dip_units@.len() == c.dip_units@.len() + 3
            &&& !GameObject::Cannon(d).live()
        },
        env2.struck@.last().released@ == c.weapons@,
{
}

/// A weapon's row is the last one that names it; a weapon that no row names does
/// no damage.
pub proof fn law_row_is_found(rows: Seq<DamageRow>, weap: Weapon, n: int, i: int)
    requires
        0 <= n <= rows.len(),
    ensures
        0 <= i < n && rows[i].weap == weap && (forall|j: int|
            i < j < n ==> (#[trigger] rows[j]).weap != weap) ==> row_of(rows, weap, n)
            == rows[i].row,
        (forall|j: int| 0 <= j < n ==> (#[trigger] rows[j]).weap != weap) ==> {
            let r = row_of(rows, weap, n);
            r.damage == 0 && r.mindamage == 0 && r.friend_damage == 0
        },
    decreases n,
{
    if n > 0 {
        law_row_is_found(rows, weap, n - 1, i);
    }
}

/// The robot at this place, if one is there.
pub open spec fn robot_at(v: ArenaView<GameObject>, id: ObjectId) -> Option<Robot> {
    match v.get(id) {
        Some(GameObject::Robot(r)) => Some(r),
        _ => None,
    }
}

/// The teams are those of the robots on the list, one for each robot, in the
/// order of the list; nothing else counts.
pub proof fn law_every_robot_has_a_team(v: ArenaView<GameObject>, ids: Seq<ObjectId>, n: int)
    requires
        0 <= n <= ids.len(),
    ensures
        ({
            let rs = ids.take(n).filter(|id: ObjectId| robot_at(v, id) is Some);
            &&& teams_of(v, ids, n).len() == rs.len()
            &&& forall|i: int|
                0 <= i < rs.len() ==> (#[trigger] teams_of(v, ids, n)[i]).side == (robot_at(
                    v,
                    rs[i],
                )->0).side && teams_of(v, ids, n)[i].team == (robot_at(v, rs[i])->0).team
        }),
    decreases n,
{
    reveal(Seq::filter);
    let f = |id: ObjectId| robot_at(v, id) is Some;
    if n > 0 {
        law_every_robot_has_a_team(v, ids, n - 1);
        assert(ids.take(n).drop_last() =~= ids.take(n - 1));
        assert(ids.take(n).last() == ids[n - 1]);
        let was = ids.take(n - 1).filter(f);
        let rs = ids.take(n).filter(f);
        assert(f(ids[n - 1]) ==> rs == was.push(ids[n - 1]));
        assert(!f(ids[n - 1]) ==> rs == was);
        assert forall|i: int| 0 <= i < rs.len() implies (#[trigger] teams_of(v, ids, n)[i]).side
            == (robot_at(v, rs[i])->0).side && teams_of(v, ids, n)[i].team == (robot_at(
            v,
            rs[i],
        )->0).team by {
            if i < was.len() {
                assert(teams_of(v, ids, n)[i] == teams_of(v, ids, n - 1)[i]);
                assert(rs[i] == was[i]);
            }
        }
    } else {
        assert(ids.take(0).filter(f) =~= Seq::empty());
    }
}

/// A destroyed turret counts once, for the side that destroyed it; no other
/// count changes, nor does anything on the map.
pub proof fn law_kill_counts_once(v: ObjectsView<GameObject>, side: i32, other: int)
    requires
        v.stats.len() == 9,
        0 <= other < 9,
    ensures
        ({
            let w = credited(v, Some(side));
            &&& 0 <= side < 9 && v.stats[side as int].turret_kill < i32::MAX
                ==> w.stats[side as int].turret_kill == v.stats[side as int].turret_kill + 1
            &&& other != side ==> w.stats[other] == v.stats[other]
            &&& w.stats.len() == 9
            &&& w.arena == v.arena
            &&& side < 0 || side >= 9 ==> w == v
            &&& 0 <= side < 9 ==> w.stats[side as int] == (SideStats {
                turret_kill: w.stats[side as int].turret_kill,
                ..v.stats[side as int]
            })
        }),
        credited(v, None) == v,
{
}

/// Only buildings act by themselves: the turn of anything else changes nothing.
pub proof fn law_only_buildings_act(
    pre: GameObject,
    cms: i32,
    env: Field,
    objs: ObjectsView<GameObject>,
    post: GameObject,
    env2: Field,
    objs2: ObjectsView<GameObject>,
)
    requires
        GameObject::logic_takt_rel(pre, cms, env, objs, post, env2, objs2),
    ensures
        !(pre is Building) ==> post == pre && env2 == env && objs2 == objs,
        pre is Building ==> post is Building,
        pre is Building ==> exists|r: BuildingTick| #[trigger]
            took_turn(pre->Building_0, post->Building_0, cms, env.times, r),
{
}

/// What a building's turn finishes is handed over at once, and nothing is handed
/// over where it finishes nothing.
pub proof fn law_nothing_finished(
    b: Building,
    env: Field,
    v: ObjectsView<GameObject>,
    env2: Field,
    w: ObjectsView<GameObject>,
)
    requires
        handed_over(b, None, env, v, env2, w),
    ensures
        w == v,
        env2.produced@ == env.produced@,
        env2.leaving@ == env.leaving@,
{
}

/// Where the arena is full a finished robot waits outside of it: the order and
/// the side are kept, and the arena stays as it is.
pub proof fn law_full_arena(
    b: Building,
    config: RobotConfig,
    side: i32,
    env: Field,
    v: ObjectsView<GameObject>,
    env2: Field,
    w: ObjectsView<GameObject>,
)
    requires
        handed_over(b, Some((config, side)), env, v, env2, w),
        v.arena.free.len() == 0,
        v.arena.slots.len() > u32::MAX,
    ensures
        w == v,
        env2.produced@ == env.produced@,
        env2.leaving@.len() == env.leaving@.len() + 1,
        env2.leaving@.last().config == config,
        env2.leaving@.last().side == side,
        env2.leaving@.last().from == b.self_id,
        env2.leaving@.drop_last() == env.leaving@,
{
    assert(env2.leaving@.drop_last() =~= env.leaving@);
}

/// A finished robot joins the smallest team of its side.
pub proof fn law_robot_joins_smallest_team(
    b: Building,
    config: RobotConfig,
    side: i32,
    env: Field,
    v: ObjectsView<GameObject>,
    env2: Field,
    w: ObjectsView<GameObject>,
)
    requires
        v.arena.wf(),
        handed_over(b, Some((config, side)), env, v, env2, w),
        has_room(v.arena),
    ensures
        ({
            let t = teams_of(v.arena, v.arena.live_ids(), v.arena.live_ids().len() as int);
            let size = |k: int| team_count(t, side, k, t.len() as int);
            &&& w.arena.get(v.arena.next_id()) is Some
            &&& robot_at(w.arena, v.arena.next_id()) is Some
            &&& {
                let team = (robot_at(w.arena, v.arena.next_id())->0).team;
                &&& 0 <= team <= 2
                &&& team != 0 ==> size(team as int) < size(0)
                &&& size(1) < size(0) && size(1) < size(2) ==> team == 1
                &&& size(2) < size(0) && size(2) < size(1) ==> team == 2
                &&& size(0) <= size(1) && size(0) <= size(2) ==> team == 0
            }
        }),
{
    let id = v.arena.next_id();
    let r = choose|r: Robot|
        {
            &&& #[trigger] is_finished(
                r,
                b,
                config,
                side,
                team_for(v.arena, side),
                env.structure,
                id,
            )
            &&& w == v.with_arena(
                v.arena.spawn(GameObject::Robot(r), ObjectType::RobotAi).add_lt(id),
            )
        };
    let spawned = v.arena.spawn(GameObject::Robot(r), ObjectType::RobotAi);
    law_spawn_is_fresh(v.arena, GameObject::Robot(r), ObjectType::RobotAi, id);
    law_add_lt_enrols(spawned, id, id);
    assert(w.arena.get(id) == Some(GameObject::Robot(r)));
}

/// A hit on scenery does nothing, and one on a robot is only noted down.
pub proof fn law_hits_left_to_others(
    pre: GameObject,
    hit: Hit,
    id: ObjectId,
    env: Field,
    objs: ObjectsView<GameObject>,
    post: GameObject,
    gone: bool,
    env2: Field,
    objs2: ObjectsView<GameObject>,
)
    requires
        GameObject::damage_rel(pre, hit, id, env, objs, post, gone, env2, objs2),
        pre is MapObject || pre is Robot,
    ensures
        post == pre && !gone && objs2 == objs,
        pre is MapObject ==> env2 == env,
        pre is Robot ==> env2.robot_hits@.len() == env.robot_hits@.len() + 1
            && env2.robot_hits@.last().id == id && env2.robot_hits@.last().hit == hit
            && env2.robot_hits@.drop_last() == env.robot_hits@ && env2.struck@ == env.struck@,
{
    if pre is Robot {
        assert(env2.robot_hits@.drop_last() =~= env.robot_hits@);
    }
}

/// A hit on a cannon is noted down with what came of it, and touches the
/// cannon's fighting state, its weapons and its pieces only.
pub proof fn law_cannon_hit_is_noted(
    c: Cannon,
    hit: Hit,
    id: ObjectId,
    env: Field,
    objs: ObjectsView<GameObject>,
    post: GameObject,
    gone: bool,
    env2: Field,
    objs2: ObjectsView<GameObject>,
)
    requires
        GameObject::damage_rel(GameObject::Cannon(c), hit, id, env, objs, post, gone, env2, objs2),
    ensures
        post is Cannon,
        env2.struck@.len() == env.struck@.len() + 1,
        env2.struck@.drop_last() == env.struck@,
        ({
            let d = post->Cannon_0;
            let s = env2.struck@.last();
            &&& s.id == id
            &&& s.outcome.gone == gone
            &&& d.weapons@ + s.released@ == c.weapons@
            &&& !s.outcome.boom ==> d.dip_units@ == c.dip_units@ && d.weapons@ == c.weapons@
            &&& s.outcome.boom ==> s.released@ == c.weapons@
            &&& d.target == c.target && d.self_id == c.self_id && d.parent == c.parent && d.slot
                == c.slot && d.kind == c.kind
            &&& s.outcome.credit is None ==> objs2 == objs
            &&& objs2.arena == objs.arena
        }),
{
    let d = post->Cannon_0;
    let s = env2.struck@.last();
    assert(d.weapons@ + s.released@ =~= c.weapons@);
    assert(!s.outcome.boom ==> d.dip_units@ =~= c.dip_units@);
}

/// Cannons, robots and sensors ask for the world around them; buildings and
/// other scenery do not. Only a robot stands still when it is told to.
pub proof fn law_who_asks(o: GameObject)
    ensures
        o is Cannon || o is Robot ==> o.asking(),
        o is Building ==> !o.asking(),
        o is MapObject ==> o.asking() == (o->MapObject_0.beh_flag == BehFlag::Sens),
        !(o is Robot) ==> o.standing() == o,
        o is Robot ==> o.standing() is Robot && o.standing()->Robot_0.stands
            && o.standing()->Robot_0 == (Robot { stands: true, ..o->Robot_0 }),
{
}

/// What is shown of a cannon or of scenery moves on with time; nothing else
/// does, and the map never changes by it.
pub proof fn law_showing(
    pre: GameObject,
    cms: i32,
    env: Field,
    objs: ObjectsView<GameObject>,
    post: GameObject,
    env2: Field,
    objs2: ObjectsView<GameObject>,
)
    requires
        GameObject::takt_rel(pre, cms, env, objs, post, env2, objs2),
    ensures
        objs2 == objs,
        pre is Building || pre is Robot ==> post == pre && env2 == env,
        pre is Cannon ==> env2 == env && post is Cannon && post->Cannon_0 == shown_after(
            pre->Cannon_0,
            cms,
        ),
        pre is MapObject ==> post is MapObject && post->MapObject_0 == photo_waited(
            pre->MapObject_0,
            cms,
        ),
        pre is MapObject && photo_due(pre->MapObject_0, cms) is Some && pre->MapObject_0.self_id
            is Some ==> env2.photos@.len() == env.photos@.len() + 1 && env2.photos@.last().id
            == pre->MapObject_0.self_id->0 && env2.photos@.last().range == photo_due(
            pre->MapObject_0,
            cms,
        )->0,
        pre is MapObject && photo_due(pre->MapObject_0, cms) is None ==> env2.photos@
            == env.photos@,
{
}

/// Time wears fire and shorts off whatever burns or is shorted and changes
/// nothing else of it; a robot whose short ends stands up.
pub proof fn law_wearing_off(r: Robot, ms: i32)
    requires
        0 <= ms,
    ensures
        ({
            let d = decayed(GameObject::Robot(r), ms);
            let s = d->Robot_0;
            let ends = r.object_state & 2 != 0 && r.shorted_ttl <= ms;
            &&& d is Robot
            &&& s.hit_point == r.hit_point && s.side == r.side && s.team == r.team && s.config
                == r.config && s.base == r.base && s.dip == r.dip && s.rchange == r.rchange
            &&& ends && r.core.obj_type == ObjectType::RobotAi ==> s.stands
            &&& !ends ==> s.stands == r.stands
            &&& r.object_state & 3 == 0 ==> s == r
        }),
{
    let st = r.object_state;
    assert(st & 3 == 0 ==> st & 1 == 0 && st & 2 == 0) by (bit_vector);
    assert((st & !1u32) & 2 == st & 2) by (bit_vector);
    let b = burned_down(GameObject::Robot(r).status(), ms);
    assert(b.shorted_ttl == r.shorted_ttl);
    assert(b.object_state & 2 == st & 2);
}

/// A hit on a building does to it what its row says and to nothing else; the
/// building is gone when it is a ruin.
pub proof fn law_building_takes_hit(
    b: Building,
    hit: Hit,
    id: ObjectId,
    env: Field,
    objs: ObjectsView<GameObject>,
    post: GameObject,
    gone: bool,
    env2: Field,
    objs2: ObjectsView<GameObject>,
)
    requires
        GameObject::damage_rel(GameObject::Building(b), hit, id, env, objs, post, gone, env2, objs2),
    ensures
        post is Building,
        post->Building_0 == b.after_hit(
            hit.weap,
            hit.attacker_side,
            row_of(env.building_damages@, hit.weap, env.building_damages@.len() as int),
        ),
        gone <==> !post.live(),
        env2 == env,
        objs2 == objs,
{
}

/// Handing a robot over touches the list of robots made and nothing else that
/// the turns share.
pub proof fn law_handing_over_leaves_rest(
    b: Building,
    robot: Option<(RobotConfig, i32)>,
    env: Field,
    v: ObjectsView<GameObject>,
    env2: Field,
    w: ObjectsView<GameObject>,
)
    requires
        handed_over(b, robot, env, v, env2, w),
    ensures
        env2.robot_hits == env.robot_hits && env2.photos == env.photos && env2.struck == env.struck,
        env2.times == env.times && env2.now == env.now && env2.structure == env.structure,
        env2.building_damages == env.building_damages && env2.cannon_damages == env.cannon_damages,
        w.stats == v.stats && w.sounds == v.sounds,
        has_room(v.arena) ==> env2.leaving == env.leaving,
        !has_room(v.arena) ==> env2.produced == env.produced,
{
}

/// What was done to a cannon touches the list of struck cannons and nothing else
/// that the turns share.
pub proof fn law_striking_leaves_rest(
    c: Cannon,
    hit: Hit,
    id: ObjectId,
    env: Field,
    d: Cannon,
    env2: Field,
)
    requires
        cannon_hit(c, hit, id, env, d, env2),
    ensures
        env2.robot_hits == env.robot_hits && env2.photos == env.photos && env2.produced
            == env.produced && env2.leaving == env.leaving,
        ({
            let row = row_of(env.cannon_damages@, hit.weap, env.cannon_damages@.len() as int);
            &&& d.combat == c.combat.after(
                hit.weap,
                hit.attacker_side,
                row,
                env.difficulty,
                env.now,
            )
            &&& env2.struck@.last().outcome == c.combat.outcome(
                hit.weap,
                hit.attacker_side,
                row,
                env.difficulty,
                env.now,
            )
        }),
{
}

} // verus!
