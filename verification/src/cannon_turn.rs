//! The order of a cannon's turn.
//!
//! A turn alternates between decisions and work that only the world around the
//! cannon can do: making weapons, looking, measuring, running the weapons. Each
//! step names the work that is due; its results come back as an event.
use crate::arena::{ArenaView, ObjectId};
use crate::common::{held, Pos3};
use crate::map_static::{Objects, OBJECT_STATE_SHORTED};
use crate::object_cannon::{
    after_hold, after_run_of, aim_rule, aim_rule_spec, delayed, fire_decision, new_pieces, on_target, stops_now,
    think_due_spec, thought, wants_fire, weapons_missing, AimRule, Candidate, Cannon, CannonState,
    DelayDamage, DelayOutcome, Gate, Measure, Salvo, Scatter, Turns, WeaponId,
    CANNON_FIRE_THINK_PERIOD, CANNON_NULL_TARGET_TIME, CANNON_TIME_FROM_FIRE,
};
use vstd::prelude::*;

verus! {

/// What is due in a turn.
#[derive(Debug, Clone, Copy, PartialEq, Eq, Structural)]
pub enum TurnStep {
    /// The turn begins.
    Begin,
    /// Make this many weapons.
    Arm { weapons: usize },
    /// Look for targets.
    Look,
    /// Find out how to turn towards the target.
    Aim { target: ObjectId, looked: bool },
    /// Point the weapons, and measure where their shots would go.
    Point { looked: bool, yaw: AimRule, pitch: AimRule },
    /// Let the weapons run; they begin to fire first if they are to open fire.
    Run { salvo: Salvo },
    /// Find a place beside the target to aim at.
    Displace,
    /// Let the pieces of the wreck fly.
    Fly,
    /// End the fire of the weapons. The turn is over.
    EndFire,
    /// Remove the cannon. The turn is over.
    Remove,
    Over,
}

/// What the world answers.
pub enum TurnEvent {
    Begun { has_map: bool, parent_side: Option<i32>, has_weapon: bool },
    Armed { made: Vec<WeaponId>, delay: DelayDamage, wreck: Scatter },
    Looked { seen: Vec<Candidate>, fire: u32, seek: u32 },
    Aimed { yaw: Bearing, pitch: Bearing },
    Pointed { shot: Measure },
    Ran { hits: Vec<bool> },
    Displaced { disp: Pos3 },
    Flown,
}

/// How a cannon lies to a direction: the gap, the most that it turns in a turn,
/// a little more than that, the gap that counts as none, and the angles that it
/// could turn to.
#[derive(Debug, Clone, Copy, PartialEq, Eq, Structural)]
pub struct Bearing {
    pub da: u32,
    pub max_da: u32,
    pub reach: u32,
    pub least: u32,
    pub turns: Turns,
}

impl Bearing {
    pub open spec fn rule(self) -> AimRule {
        aim_rule_spec(self.da, self.max_da, self.reach, self.least)
    }
}

/// What fire and short circuit did, and the weapons that a destroyed cannon
/// gave up.
#[derive(Debug)]
pub struct Delayed {
    pub fire: DelayOutcome,
    pub short: DelayOutcome,
    pub released: Vec<WeaponId>,
}

/// The step that is due next, and what fire and short circuit did if this was
/// their moment.
#[derive(Debug)]
pub struct Turned {
    pub step: TurnStep,
    pub delayed: Option<Delayed>,
}

/// Without a target, or without a reason to fire, the weapons run on or stop.
pub open spec fn held_turn(c: Cannon, takt: i32) -> (Cannon, TurnStep) {
    (
        after_hold(c, takt),
        if stops_now(c, takt) {
            TurnStep::EndFire
        } else {
            TurnStep::Run { salvo: Salvo::Run }
        },
    )
}

/// A cannon with a target aims at it.
pub open spec fn after_thought(c: Cannon, looked: bool, takt: i32) -> (Cannon, TurnStep) {
    match c.target {
        Some(target) => (c, TurnStep::Aim { target, looked }),
        None => held_turn(c, takt),
    }
}

/// A working cannon goes over to the side of its building; a wreck flies; one
/// that is being built, or has no map or no handle, does nothing.
pub open spec fn begun(a: Cannon, has_map: bool, parent_side: Option<i32>, has_weapon: bool) -> (
    Cannon,
    TurnStep,
) {
    if !has_map || a.self_id is None || a.combat.state == CannonState::UnderConstruction {
        (a, TurnStep::Over)
    } else if a.combat.state == CannonState::Dip {
        (a, TurnStep::Fly)
    } else {
        let b = a.on_side_of(parent_side);
        (b, TurnStep::Arm { weapons: weapons_missing(b, has_weapon) })
    }
}

/// The cannon takes its new weapons, then fire and short circuit hurt it.
pub open spec fn armed(
    a: Cannon,
    b: Cannon,
    made: Seq<WeaponId>,
    delay: DelayDamage,
    wreck: Scatter,
    now: i64,
    d: Delayed,
) -> bool {
    let boom = d.fire.boom || d.short.boom;
    &&& delayed(a.combat, b.combat, d.fire, d.short, delay, now)
    &&& d.released@ == if boom {
        a.weapons@ + made
    } else {
        Seq::empty()
    }
    &&& b.weapons@ == if boom {
        Seq::empty()
    } else {
        a.weapons@ + made
    }
    &&& b.dip_units@ == a.dip_units@ + new_pieces(a.angle, wreck, boom)
    &&& b == (Cannon { combat: b.combat, weapons: b.weapons, dip_units: b.dip_units, ..a })
}

/// What follows: nothing for a destroyed or shorted cannon, a look when one is
/// due, and otherwise the target that it has.
pub open spec fn after_delay<T>(
    c: Cannon,
    v: ArenaView<T>,
    stop: bool,
    takt: i32,
    now: i64,
) -> (Cannon, TurnStep) {
    if stop {
        (c, TurnStep::Over)
    } else if think_due_spec(c.fire_next_think_time, now) {
        (c, TurnStep::Look)
    } else {
        after_thought(thought(c, v, now, Seq::empty(), 0, 0), false, takt)
    }
}

/// The weapons ran: after an open salvo without a hit for too long the cannon is
/// to aim beside its target.
pub open spec fn after_ran(a: Cannon, salvo: Salvo, hits: Seq<bool>, takt: i32) -> (
    Cannon,
    TurnStep,
) {
    let c = after_run_of(a, hits);
    if salvo != Salvo::Open {
        (c, TurnStep::Over)
    } else if c.time_from_fire - takt <= 0 {
        (Cannon { time_from_fire: CANNON_TIME_FROM_FIRE, ..c }, TurnStep::Displace)
    } else {
        (
            Cannon { time_from_fire: held(c.time_from_fire - takt), ..c },
            TurnStep::Over,
        )
    }
}

/// One step of a turn takes cannon `a` to `b`. An answer to another question
/// than the one that was asked ends the turn and changes nothing.
pub open spec fn turn_rel<T>(
    a: Cannon,
    at: TurnStep,
    e: TurnEvent,
    v: ArenaView<T>,
    takt: i32,
    now: i64,
    b: Cannon,
    r: Turned,
) -> bool {
    match (at, e) {
        (TurnStep::Begin, TurnEvent::Begun { has_map, parent_side, has_weapon }) => {
            (b, r.step) == begun(a, has_map, parent_side, has_weapon) && r.delayed is None
        },
        (TurnStep::Arm { .. }, TurnEvent::Armed { made, delay, wreck }) => {
            r.delayed matches Some(d) && exists|c: Cannon|
                {
                    &&& #[trigger] armed(a, c, made@, delay, wreck, now, d)
                    &&& (b, r.step) == after_delay(
                        c,
                        v,
                        d.fire.gone || a.combat.object_state & OBJECT_STATE_SHORTED != 0,
                        takt,
                        now,
                    )
                }
        },
        (TurnStep::Look, TurnEvent::Looked { seen, fire, seek }) => {
            let looked = think_due_spec(a.fire_next_think_time, now);
            (b, r.step) == after_thought(thought(a, v, now, seen@, fire, seek), looked, takt)
                && r.delayed is None
        },
        (TurnStep::Aim { looked, .. }, TurnEvent::Aimed { yaw, pitch }) => {
            &&& b == a.aimed((yaw.rule(), yaw.turns), (pitch.rule(), pitch.turns))
            &&& r.step == TurnStep::Point { looked, yaw: yaw.rule(), pitch: pitch.rule() }
            &&& r.delayed is None
        },
        (TurnStep::Point { looked, yaw, pitch }, TurnEvent::Pointed { shot }) => {
            (b, r.step) == if wants_fire(looked, yaw, pitch, shot) {
                (
                    Cannon { null_target_time: CANNON_NULL_TARGET_TIME, ..a },
                    TurnStep::Run { salvo: Salvo::Open },
                )
            } else {
                held_turn(a, takt)
            } && r.delayed is None
        },
        (TurnStep::Run { salvo }, TurnEvent::Ran { hits }) => {
            (b, r.step) == after_ran(a, salvo, hits@, takt) && r.delayed is None
        },
        (TurnStep::Displace, TurnEvent::Displaced { disp }) => {
            &&& b == (Cannon { target_disp: disp, ..a })
            &&& r.step == TurnStep::Over
            &&& r.delayed is None
        },
        (TurnStep::Fly, TurnEvent::Flown) => {
            &&& b == a
            &&& r.step == if a.combat.state == CannonState::Dip && a.dip_units@.len() == 0 {
                TurnStep::Remove
            } else {
                TurnStep::Over
            }
            &&& r.delayed is None
        },
        _ => b == a && r.step == TurnStep::Over && r.delayed is None,
    }
}

impl Cannon {
    /// Hold the fire, and say what is due.
    fn hold_turn(&mut self, takt: i32) -> (step: TurnStep)
        ensures
            (*final(self), step) == held_turn(*old(self), takt),
    {
        if self.hold_fire(takt) {
            TurnStep::EndFire
        } else {
            TurnStep::Run { salvo: Salvo::Run }
        }
    }

    /// Go on from what was thought.
    fn go_on(&mut self, looked: bool, takt: i32) -> (step: TurnStep)
        ensures
            (*final(self), step) == after_thought(*old(self), looked, takt),
    {
        match self.target {
            Some(target) => TurnStep::Aim { target, looked },
            None => self.hold_turn(takt),
        }
    }

    /// One step of the turn: take the answer to what was due, and say what is
    /// due next.
    pub fn turn<T>(
        &mut self,
        at: TurnStep,
        e: TurnEvent,
        objs: &Objects<T>,
        takt: i32,
        now: i64,
    ) -> (r: Turned)
        requires
            now <= i64::MAX - CANNON_FIRE_THINK_PERIOD,
        ensures
            turn_rel(*old(self), at, e, objs@.arena, takt, now, *final(self), r),
    {
        match (at, e) {
            (TurnStep::Begin, TurnEvent::Begun { has_map, parent_side, has_weapon }) => {
                let step = match self.logic_gate(has_map, parent_side) {
                    Gate::Nothing => TurnStep::Over,
                    Gate::Wreck => TurnStep::Fly,
                    Gate::Live => TurnStep::Arm { weapons: self.weapons_wanted(has_weapon) },
                };
                Turned { step, delayed: None }
            },
            (TurnStep::Arm { .. }, TurnEvent::Armed { made, delay, wreck }) => {
                let ghost a = *self;
                self.arm(made);
                let (fire, short, released, stop) = self.delay_damage(&delay, now, &wreck);
                let ghost c = *self;
                let d = Delayed { fire, short, released };
                assert(armed(a, c, made@, delay, wreck, now, d));
                let step = if stop {
                    TurnStep::Over
                } else if self.think_due(now) {
                    TurnStep::Look
                } else {
                    let none: Vec<Candidate> = Vec::new();
                    self.think_turn(objs, now, &none, 0, 0);
                    self.go_on(false, takt)
                };
                Turned { step, delayed: Some(d) }
            },
            (TurnStep::Look, TurnEvent::Looked { seen, fire, seek }) => {
                let looked = self.think_turn(objs, now, &seen, fire, seek);
                Turned { step: self.go_on(looked, takt), delayed: None }
            },
            (TurnStep::Aim { looked, .. }, TurnEvent::Aimed { yaw, pitch }) => {
                let yaw_rule = aim_rule(yaw.da, yaw.max_da, yaw.reach, yaw.least);
                let pitch_rule = aim_rule(pitch.da, pitch.max_da, pitch.reach, pitch.least);
                self.aim((yaw_rule, yaw.turns), (pitch_rule, pitch.turns));
                let step = TurnStep::Point { looked, yaw: yaw_rule, pitch: pitch_rule };
                Turned { step, delayed: None }
            },
            (TurnStep::Point { looked, yaw, pitch }, TurnEvent::Pointed { shot }) => {
                let step = if fire_decision(looked, yaw, pitch, &shot) {
                    self.open_fire();
                    TurnStep::Run { salvo: Salvo::Open }
                } else {
                    self.hold_turn(takt)
                };
                Turned { step, delayed: None }
            },
            (TurnStep::Run { salvo }, TurnEvent::Ran { hits }) => {
                self.weapons_ran(&hits);
                let step = if salvo == Salvo::Open && self.shoot_wide_due(takt) {
                    TurnStep::Displace
                } else {
                    TurnStep::Over
                };
                Turned { step, delayed: None }
            },
            (TurnStep::Displace, TurnEvent::Displaced { disp }) => {
                self.target_disp = disp;
                Turned { step: TurnStep::Over, delayed: None }
            },
            (TurnStep::Fly, TurnEvent::Flown) => {
                let step = if self.wreck_done() {
                    TurnStep::Remove
                } else {
                    TurnStep::Over
                };
                Turned { step, delayed: None }
            },
            _ => Turned { step: TurnStep::Over, delayed: None },
        }
    }
}

// ── Laws ────────────────────────────────────────────────────────────────
/// The place of a step in the turn.
pub open spec fn rank(s: TurnStep) -> int {
    match s {
        TurnStep::Begin => 0,
        TurnStep::Arm { .. } => 1,
        TurnStep::Look => 2,
        TurnStep::Aim { .. } => 3,
        TurnStep::Point { .. } => 4,
        TurnStep::Run { .. } => 5,
        TurnStep::Displace => 6,
        TurnStep::Fly => 7,
        TurnStep::EndFire => 8,
        TurnStep::Remove => 8,
        TurnStep::Over => 8,
    }
}

/// A turn only ever goes forward, so it comes to an end: whatever is answered, a
/// step is followed by a later one.
pub proof fn law_turn_goes_forward<T>(
    a: Cannon,
    at: TurnStep,
    e: TurnEvent,
    v: ArenaView<T>,
    takt: i32,
    now: i64,
    b: Cannon,
    r: Turned,
)
    requires
        turn_rel(a, at, e, v, takt, now, b, r),
        rank(at) < 8,
    ensures
        rank(at) < rank(r.step) <= 8,
{
}

/// A cannon that its fire destroys, and one that is shorted, neither looks nor
/// shoots in that turn.
pub proof fn law_destroyed_or_shorted_does_nothing<T>(
    a: Cannon,
    weapons: usize,
    e: TurnEvent,
    v: ArenaView<T>,
    takt: i32,
    now: i64,
    b: Cannon,
    r: Turned,
)
    requires
        turn_rel(a, TurnStep::Arm { weapons }, e, v, takt, now, b, r),
        a.combat.object_state & OBJECT_STATE_SHORTED != 0 || (r.delayed matches Some(d)
            && d.fire.gone),
    ensures
        r.step == TurnStep::Over,
        b.target == a.target,
        b.null_target_time == a.null_target_time,
{
}

/// A cannon opens fire only in the turn of a look, on target both ways.
pub proof fn law_fires_only_on_target<T>(
    a: Cannon,
    at: TurnStep,
    e: TurnEvent,
    v: ArenaView<T>,
    takt: i32,
    now: i64,
    b: Cannon,
    r: Turned,
)
    requires
        turn_rel(a, at, e, v, takt, now, b, r),
        r.step == (TurnStep::Run { salvo: Salvo::Open }),
    ensures
        at matches TurnStep::Point { looked, yaw, pitch } && looked && on_target(yaw) && on_target(
            pitch,
        ),
{
}

/// How a turn begins. A cannon off the map, one without a place in the arena and
/// one under construction have none; the wreck of one lets its pieces fly; any
/// other is armed, on the side of the building it belongs to.
pub proof fn law_turn_begins<T>(
    a: Cannon,
    has_map: bool,
    parent_side: Option<i32>,
    has_weapon: bool,
    v: ArenaView<T>,
    takt: i32,
    now: i64,
    b: Cannon,
    r: Turned,
)
    requires
        turn_rel(
            a,
            TurnStep::Begin,
            (TurnEvent::Begun { has_map, parent_side, has_weapon }),
            v,
            takt,
            now,
            b,
            r,
        ),
    ensures
        r.delayed is None,
        r.step is Arm <==> has_map && a.self_id is Some && a.combat.state
            != CannonState::UnderConstruction && a.combat.state != CannonState::Dip,
        r.step == TurnStep::Fly <==> has_map && a.self_id is Some && a.combat.state
            == CannonState::Dip,
        r.step is Arm || r.step is Fly || r.step == TurnStep::Over,
        !(r.step is Arm) ==> b == a,
        r.step is Arm && a.parent is Some && parent_side is Some ==> b.combat.side
            == parent_side->0,
        a.parent is None || parent_side is None ==> b == a,
        b.combat == (crate::object_cannon::Combat { side: b.combat.side, ..a.combat }),
        b.weapons == a.weapons && b.target == a.target && b.dip_units == a.dip_units,
        r.step is Arm && a.weapons@.len() > 0 ==> r.step->weapons == 0,
{
}

/// No weapon is lost or made up: what the cannon had and what was made for it is
/// kept, or given back when the cannon blows up.
pub proof fn law_weapons_kept_or_released<T>(
    a: Cannon,
    weapons: usize,
    made: Vec<WeaponId>,
    delay: DelayDamage,
    wreck: Scatter,
    v: ArenaView<T>,
    takt: i32,
    now: i64,
    b: Cannon,
    r: Turned,
)
    requires
        turn_rel(
            a,
            TurnStep::Arm { weapons },
            (TurnEvent::Armed { made, delay, wreck }),
            v,
            takt,
            now,
            b,
            r,
        ),
    ensures
        r.delayed is Some,
        ({
            let d = r.delayed->0;
            let boom = d.fire.boom || d.short.boom;
            &&& b.weapons@ + d.released@ == a.weapons@ + made@
            &&& boom ==> b.weapons@.len() == 0 && b.dip_units@.len() == a.dip_units@.len() + 3
            &&& !boom ==> d.released@.len() == 0 && b.dip_units@ == a.dip_units@
        }),
{
    let d = r.delayed->0;
    let c = choose|c: Cannon|
        {
            &&& #[trigger] armed(a, c, made@, delay, wreck, now, d)
            &&& (b, r.step) == after_delay(
                c,
                v,
                d.fire.gone || a.combat.object_state & OBJECT_STATE_SHORTED != 0,
                takt,
                now,
            )
        };
    assert(b.weapons@ == c.weapons@ && b.dip_units@ == c.dip_units@);
    assert(b.weapons@ + d.released@ =~= a.weapons@ + made@);
    assert(c.dip_units@ =~= a.dip_units@ || d.fire.boom || d.short.boom);
}

/// After the delayed harm the cannon looks when looking is due, and otherwise
/// keeps to a target that still exists; without one it holds.
pub proof fn law_looks_or_keeps_target<T>(
    c: Cannon,
    v: ArenaView<T>,
    takt: i32,
    now: i64,
)
    ensures
        ({
            let next = after_delay(c, v, false, takt, now);
            let due = c.fire_next_think_time < now || c.fire_next_think_time > now + 100;
            &&& due ==> next == (c, TurnStep::Look)
            &&& !due && c.target is Some && v.is_valid(c.target->0) ==> next == (
                c,
                TurnStep::Aim { target: c.target->0, looked: false },
            )
            &&& !due && (c.target is None || !v.is_valid(c.target->0)) ==> next.0.target is None && (
            next.1 == TurnStep::EndFire || next.1 == (TurnStep::Run { salvo: Salvo::Run }))
        }),
        after_delay(c, v, true, takt, now) == (c, TurnStep::Over),
{
}

/// After looking, the cannon aims at the target it settled on; without one it
/// holds.
pub proof fn law_aims_at_its_target<T>(
    a: Cannon,
    seen: Vec<Candidate>,
    fire: u32,
    seek: u32,
    v: ArenaView<T>,
    takt: i32,
    now: i64,
    b: Cannon,
    r: Turned,
)
    requires
        turn_rel(a, TurnStep::Look, (TurnEvent::Looked { seen, fire, seek }), v, takt, now, b, r),
    ensures
        b.target == thought(a, v, now, seen@, fire, seek).target,
        b.target is Some ==> r.step is Aim && r.step->Aim_target == b.target->0,
        b.target is Some && (a.fire_next_think_time < now) ==> r.step->Aim_looked,
        b.target is Some && (now <= a.fire_next_think_time <= now + 100) ==> !r.step->Aim_looked,
        b.target is None ==> r.step == TurnStep::EndFire || r.step == (TurnStep::Run {
            salvo: Salvo::Run,
        }),
        r.delayed is None,
{
}

/// Holding counts the time since the last target down; when a second has gone
/// by, firing ends, and until then the weapons run on.
pub proof fn law_holding(c: Cannon, takt: i32)
    requires
        0 <= takt,
        c.null_target_time >= 0,
        c.time_from_fire >= 0,
    ensures
        ({
            let (d, step) = held_turn(c, takt);
            &&& step == TurnStep::EndFire <==> 0 < c.null_target_time <= takt
            &&& step != TurnStep::EndFire ==> step == (TurnStep::Run { salvo: Salvo::Run })
            &&& c.null_target_time > takt ==> d.null_target_time + takt == c.null_target_time
            &&& c.null_target_time <= takt ==> d.null_target_time == 0
            &&& c.null_target_time > 0 && c.time_from_fire > takt ==> d.time_from_fire + takt
                == c.time_from_fire
            &&& c.null_target_time > 0 && c.time_from_fire <= takt ==> d.time_from_fire == 0
            &&& c.null_target_time > 0 ==> d.target_disp == c.target_disp
            &&& c.null_target_time == 0 ==> d.time_from_fire == 1000 && d.target_disp == (Pos3 {
                x: 0,
                y: 0,
                z: 0,
            })
            &&& d.combat == c.combat && d.weapons == c.weapons && d.target == c.target
                && d.dip_units == c.dip_units && d.turret_angle == c.turret_angle && d.angle_x
                == c.angle_x && d.fire_next_think_time == c.fire_next_think_time
        }),
{
}

/// Pointing opens fire where the cannon wants to, and gives it another second
/// without a target; where it does not want to, it holds.
pub proof fn law_pointing<T>(
    a: Cannon,
    looked: bool,
    yaw: AimRule,
    pitch: AimRule,
    shot: Measure,
    v: ArenaView<T>,
    takt: i32,
    now: i64,
    b: Cannon,
    r: Turned,
)
    requires
        turn_rel(
            a,
            (TurnStep::Point { looked, yaw, pitch }),
            (TurnEvent::Pointed { shot }),
            v,
            takt,
            now,
            b,
            r,
        ),
    ensures
        r.step == (TurnStep::Run { salvo: Salvo::Open }) <==> wants_fire(looked, yaw, pitch, shot),
        wants_fire(looked, yaw, pitch, shot) ==> b.null_target_time == 1000 && b == (Cannon {
            null_target_time: b.null_target_time,
            ..a
        }),
        !wants_fire(looked, yaw, pitch, shot) ==> (b, r.step) == held_turn(a, takt),
        r.delayed is None,
{
}

/// Aiming turns the cannon both ways, whether or not it has looked, and goes on
/// to pointing with the rules it turned by.
pub proof fn law_aiming<T>(
    a: Cannon,
    target: ObjectId,
    looked: bool,
    yaw: Bearing,
    pitch: Bearing,
    v: ArenaView<T>,
    takt: i32,
    now: i64,
    b: Cannon,
    r: Turned,
)
    requires
        turn_rel(
            a,
            (TurnStep::Aim { target, looked }),
            (TurnEvent::Aimed { yaw, pitch }),
            v,
            takt,
            now,
            b,
            r,
        ),
    ensures
        r.step is Point,
        r.step->Point_looked == looked,
        r.step->yaw == aim_rule_spec(yaw.da, yaw.max_da, yaw.reach, yaw.least),
        r.step->pitch == aim_rule_spec(pitch.da, pitch.max_da, pitch.reach, pitch.least),
        b == a.aimed((r.step->yaw, yaw.turns), (r.step->pitch, pitch.turns)),
        b.combat == a.combat && b.target == a.target && b.weapons == a.weapons,
{
}

/// A hit starts the second since the last one anew. Only an opened salvo counts
/// it down, and moves the point aimed at when it is over.
pub proof fn law_running<T>(
    a: Cannon,
    salvo: Salvo,
    hits: Vec<bool>,
    v: ArenaView<T>,
    takt: i32,
    now: i64,
    b: Cannon,
    r: Turned,
)
    requires
        turn_rel(
            a,
            (TurnStep::Run { salvo }),
            (TurnEvent::Ran { hits }),
            v,
            takt,
            now,
            b,
            r,
        ),
        0 <= takt,
        0 <= a.time_from_fire,
    ensures
        ({
            let hit = exists|i: int| 0 <= i < hits@.len() && hits@[i];
            let left = if hit {
                1000
            } else {
                a.time_from_fire
            };
            &&& salvo != Salvo::Open ==> r.step == TurnStep::Over && b.time_from_fire == left
            &&& salvo == Salvo::Open && left > takt ==> r.step == TurnStep::Over
                && b.time_from_fire + takt == left
            &&& salvo == Salvo::Open && left <= takt ==> r.step == TurnStep::Displace
                && b.time_from_fire == 1000
            &&& b == (Cannon { time_from_fire: b.time_from_fire, ..a })
            &&& r.delayed is None
        }),
{
    let hit = exists|i: int| 0 <= i < hits@.len() && hits@[i];
    if hit {
        let i = choose|i: int| 0 <= i < hits@.len() && hits@[i];
        assert(hits@[i] == true);
        assert(hits@.contains(true));
    }
}

/// A wreck goes when its last piece has fallen, and not before.
pub proof fn law_wreck_goes<T>(
    a: Cannon,
    v: ArenaView<T>,
    takt: i32,
    now: i64,
    b: Cannon,
    r: Turned,
)
    requires
        turn_rel(a, TurnStep::Fly, TurnEvent::Flown, v, takt, now, b, r),
    ensures
        b == a,
        a.combat.state == CannonState::Dip && a.dip_units@.len() == 0 ==> r.step
            == TurnStep::Remove,
        a.combat.state != CannonState::Dip || a.dip_units@.len() > 0 ==> r.step == TurnStep::Over,
{
}

/// The point aimed at is moved by what was measured, and by nothing else.
pub proof fn law_displacing<T>(
    a: Cannon,
    disp: Pos3,
    v: ArenaView<T>,
    takt: i32,
    now: i64,
    b: Cannon,
    r: Turned,
)
    requires
        turn_rel(a, TurnStep::Displace, (TurnEvent::Displaced { disp }), v, takt, now, b, r),
    ensures
        b.target_disp == disp,
        r.step == TurnStep::Over,
        b.target == a.target && b.combat == a.combat && b.time_from_fire == a.time_from_fire,
{
}

} // verus!
