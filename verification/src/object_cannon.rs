//! Cannons: construction, damage, burning and short circuits, target choice,
//! the fire decision, and the wreck.
//!
//! Hit points are counted in thousandths, and the factors of the difficulty are
//! whole thousandths too: a factor of one third is 333, and what it leaves of a
//! hit differs from a third by that much. What only geometry can tell (how far,
//! how well aimed, what a shot would meet) comes in as arguments.
use crate::anim::gap;
use crate::arena::{swap_removed, walk_kept, ArenaView, ObjectId};
use crate::common::{
    held, hold, Pos3, Weapon, WeaponDamage, HITPOINT_SHOW_TIME_MS, PLAYER_SIDE,
};
use crate::float_bits;
use crate::map_static::{
    CellRect, MapStatic, ObjectCore, ObjectStatus, ObjectType, Objects, MR_ALL, MR_GRAPH,
    MR_MATRIX, MR_MINIMAP, MR_SHADOW_PROJ_GEOM, MR_SHADOW_PROJ_TEX, MR_SHADOW_STENCIL,
    OBJECT_STATE_ABLAZE, OBJECT_STATE_SHORTED,
};
use crate::map_trace::TraceStop;
use crate::object_building::Progress;
use vstd::prelude::*;

verus! {

/// How often a cannon looks for a target.
pub const CANNON_FIRE_THINK_PERIOD: i32 = 100;

/// How long it goes on firing without one.
pub const CANNON_NULL_TARGET_TIME: i32 = 1000;

/// How long it fires without a hit before it aims elsewhere.
pub const CANNON_TIME_FROM_FIRE: i32 = 1000;

/// A fire burns in steps of this length.
pub const ABLAZE_STEP_MS: i64 = 90;

/// How often the fire hurts within a step.
pub const ABLAZE_HITS: u32 = 9;

/// A short circuit hurts at this interval.
pub const SHORTED_STEP_MS: i64 = 50;

/// How much a flame adds to the fire, and how long it burns at most.
pub const ABLAZE_ADD_MS: i32 = 300;

pub const ABLAZE_MAX_MS: i32 = 5000;

/// How much a bolt adds to the short circuit.
pub const SHORTED_ADD_MS: i32 = 500;

/// Whether a cannon is being built, works, or is a wreck.
#[derive(Debug, Clone, Copy, PartialEq, Eq, Structural)]
pub enum CannonState {
    Idle,
    /// Growing to its full hit points, and invulnerable.
    UnderConstruction,
    /// Destroyed; its pieces fly.
    Dip,
}

/// Which part of a cannon a piece of its wreck is.
#[derive(Debug, Clone, Copy, PartialEq, Eq, Structural)]
pub enum CannonDipPart {
    Basis,
    Turret,
    Shaft,
}

/// The part of a cannon that takes damage.
#[derive(Debug, Clone, Copy, PartialEq, Eq, Structural)]
pub struct Combat {
    pub state: CannonState,
    pub invulnerable: bool,
    pub side: i32,
    /// In thousandths.
    pub hit_point: i64,
    pub hit_point_max: i64,
    pub object_state: u32,
    pub ablaze_ttl: i32,
    pub shorted_ttl: i32,
    /// When the fire hurts next.
    pub next_time_ablaze: i64,
    /// When the short circuit hurts next.
    pub next_time_shorted: i64,
    /// Whose fire or short circuit it is.
    pub last_delay_damage_side: i32,
}

/// How much the difficulty takes of the damage, in whole thousandths.
#[derive(Debug, Clone, Copy, PartialEq, Eq, Structural)]
pub struct Difficulty {
    pub k_damage_enemy_to_player: i32,
    pub k_friendly_fire: i32,
}

/// What a hit on a cannon brings with it.
#[derive(Debug, Clone, Copy, PartialEq, Eq, Structural)]
pub struct DamageOutcome {
    /// The cannon is destroyed, now or before.
    pub gone: bool,
    /// It was destroyed by this hit: the wreck scatters, the weapons go.
    pub boom: bool,
    /// Its weapons stop firing.
    pub fire_end: bool,
    /// The impact flashes.
    pub impact: bool,
    /// The side that gets the kill.
    pub credit: Option<i32>,
}

/// A number held to sixty-four bits.
pub open spec fn held64(v: int) -> i64 {
    if v > i64::MAX {
        i64::MAX
    } else if v < i64::MIN {
        i64::MIN
    } else {
        v as i64
    }
}

fn hold64(v: i128) -> (r: i64)
    ensures
        r == held64(v as int),
{
    if v > 0x7fff_ffff_ffff_ffff {
        0x7fff_ffff_ffff_ffff
    } else if v < -0x8000_0000_0000_0000 {
        -0x8000_0000_0000_0000
    } else {
        v as i64
    }
}

impl Combat {
    /// A hit by one's own side; nobody's side is no side.
    pub open spec fn is_friendly(self, attacker_side: i32) -> bool {
        attacker_side != 0 && attacker_side == self.side
    }

    /// What counts of a hit, in thousandths. Only the player's cannons are
    /// spared: by one factor when enemies hit them, by another when friends do.
    pub open spec fn damage_scale(self, attacker_side: i32, d: Difficulty) -> int {
        if self.side != PLAYER_SIDE {
            1000
        } else if self.is_friendly(attacker_side) {
            d.k_friendly_fire as int
        } else {
            d.k_damage_enemy_to_player as int
        }
    }

    pub open spec fn amount(self, attacker_side: i32, row: WeaponDamage) -> int {
        if self.is_friendly(attacker_side) {
            row.friend_damage as int
        } else {
            row.damage as int
        }
    }

    /// After a repair: more hit points, up to the most.
    pub open spec fn repaired(self, attacker_side: i32, row: WeaponDamage) -> Combat {
        let hp = held64(self.hit_point + 1000 * self.amount(attacker_side, row));
        Combat {
            hit_point: if hp > self.hit_point_max {
                self.hit_point_max
            } else {
                hp
            },
            ..self
        }
    }

    /// The hit points after a hit; a weapon does not go below its least damage.
    pub open spec fn hurt(self, attacker_side: i32, row: WeaponDamage, d: Difficulty) -> i64 {
        if self.hit_point > 1000 * row.mindamage {
            held64(
                self.hit_point - self.damage_scale(attacker_side, d) * self.amount(
                    attacker_side,
                    row,
                ),
            )
        } else {
            self.hit_point
        }
    }

    /// What a weapon leaves behind: flames set the cannon on fire, bolts short
    /// it out, and either is remembered as the attacker's.
    pub open spec fn marked_by(self, weap: Weapon, attacker_side: i32, now: i64) -> Combat {
        if weap == Weapon::Flamethrower {
            Combat {
                object_state: self.object_state | OBJECT_STATE_ABLAZE,
                last_delay_damage_side: attacker_side,
                ablaze_ttl: {
                    let t = held(self.ablaze_ttl + ABLAZE_ADD_MS);
                    if t < ABLAZE_MAX_MS {
                        t
                    } else {
                        ABLAZE_MAX_MS
                    }
                },
                next_time_ablaze: now,
                ..self
            }
        } else if weap == Weapon::Lightening {
            Combat {
                object_state: self.object_state | OBJECT_STATE_SHORTED,
                last_delay_damage_side: attacker_side,
                shorted_ttl: held(self.shorted_ttl + SHORTED_ADD_MS),
                next_time_shorted: now,
                ..self
            }
        } else {
            Combat { last_delay_damage_side: 0, ..self }
        }
    }

    /// The cannon after a hit that it takes, before it is known whether it
    /// lives.
    pub open spec fn struck(
        self,
        weap: Weapon,
        attacker_side: i32,
        row: WeaponDamage,
        d: Difficulty,
        now: i64,
    ) -> Combat {
        Combat { hit_point: self.hurt(attacker_side, row, d), ..self }.marked_by(
            weap,
            attacker_side,
            now,
        )
    }

    /// A hit that the cannon takes: not while it is invulnerable or a wreck,
    /// and a repair is none.
    pub open spec fn takes(self, weap: Weapon) -> bool {
        weap != Weapon::InstantDeath && !self.invulnerable && self.state != CannonState::Dip && weap
            != Weapon::Repair
    }

    /// The hit destroys the cannon.
    pub open spec fn dies(
        self,
        weap: Weapon,
        attacker_side: i32,
        row: WeaponDamage,
        d: Difficulty,
        now: i64,
    ) -> bool {
        weap == Weapon::InstantDeath || (self.takes(weap) && self.struck(
            weap,
            attacker_side,
            row,
            d,
            now,
        ).hit_point <= 0)
    }

    /// The cannon after a hit.
    pub open spec fn after(
        self,
        weap: Weapon,
        attacker_side: i32,
        row: WeaponDamage,
        d: Difficulty,
        now: i64,
    ) -> Combat {
        if weap == Weapon::InstantDeath {
            Combat { state: CannonState::Dip, ..self }
        } else if self.invulnerable || self.state == CannonState::Dip {
            self
        } else if weap == Weapon::Repair {
            self.repaired(attacker_side, row)
        } else {
            let c = self.struck(weap, attacker_side, row, d, now);
            if c.hit_point > 0 {
                c
            } else {
                Combat { state: CannonState::Dip, ..c }
            }
        }
    }

    /// What comes with a hit.
    pub open spec fn outcome(
        self,
        weap: Weapon,
        attacker_side: i32,
        row: WeaponDamage,
        d: Difficulty,
        now: i64,
    ) -> DamageOutcome {
        let boom = self.dies(weap, attacker_side, row, d, now);
        DamageOutcome {
            gone: boom || (!self.invulnerable && self.state == CannonState::Dip),
            boom,
            fire_end: self.takes(weap) && weap == Weapon::Lightening,
            impact: self.takes(weap) && !boom && weap != Weapon::Ablaze && weap != Weapon::Shorted
                && weap != Weapon::Lightening && weap != Weapon::Flamethrower,
            credit: if boom && weap != Weapon::InstantDeath && attacker_side != 0
                && !self.is_friendly(attacker_side) {
                Some(attacker_side)
            } else {
                None
            },
        }
    }

    /// Take a hit, or be repaired.
    pub fn damage(
        &mut self,
        weap: Weapon,
        attacker_side: i32,
        row: WeaponDamage,
        d: Difficulty,
        now: i64,
    ) -> (r: DamageOutcome)
        ensures
            *final(self) == old(self).after(weap, attacker_side, row, d, now),
            r == old(self).outcome(weap, attacker_side, row, d, now),
    {
        let mut r = DamageOutcome {
            gone: true,
            boom: false,
            fire_end: false,
            impact: false,
            credit: None,
        };
        if weap != Weapon::InstantDeath {
            if self.invulnerable {
                r.gone = false;
                return r;
            }
            if self.state == CannonState::Dip {
                return r;
            }
            let friendly_fire = attacker_side != 0 && attacker_side == self.side;
            let scale: i128 = if self.side != PLAYER_SIDE {
                1000
            } else if friendly_fire {
                d.k_friendly_fire as i128
            } else {
                d.k_damage_enemy_to_player as i128
            };
            let amount: i128 = if friendly_fire {
                row.friend_damage as i128
            } else {
                row.damage as i128
            };
            if weap == Weapon::Repair {
                let hp = hold64(self.hit_point as i128 + 1000 * amount);
                self.hit_point = if hp > self.hit_point_max {
                    self.hit_point_max
                } else {
                    hp
                };
                r.gone = false;
                return r;
            }
            if self.hit_point > 1000 * (row.mindamage as i64) {
                proof {
                    assert(-0x4000_0000_0000_0000 <= scale * amount <= 0x4000_0000_0000_0000)
                        by (nonlinear_arith)
                        requires
                            -0x8000_0000 <= scale <= 0x8000_0000,
                            -0x8000_0000 <= amount <= 0x8000_0000,
                    ;
                }
                self.hit_point = hold64(self.hit_point as i128 - scale * amount);
            }
            if weap == Weapon::Flamethrower {
                self.object_state = self.object_state | OBJECT_STATE_ABLAZE;
                self.last_delay_damage_side = attacker_side;
                let t = hold(self.ablaze_ttl as i64 + 300);
                self.ablaze_ttl = if t < ABLAZE_MAX_MS {
                    t
                } else {
                    ABLAZE_MAX_MS
                };
                self.next_time_ablaze = now;
            } else if weap == Weapon::Lightening {
                self.last_delay_damage_side = attacker_side;
                self.object_state = self.object_state | OBJECT_STATE_SHORTED;
                self.shorted_ttl = hold(self.shorted_ttl as i64 + 500);
                self.next_time_shorted = now;
                r.fire_end = true;
            } else {
                self.last_delay_damage_side = 0;
            }
            if self.hit_point > 0 {
                r.impact = weap != Weapon::Ablaze && weap != Weapon::Shorted && weap
                    != Weapon::Lightening && weap != Weapon::Flamethrower;
                r.gone = false;
                return r;
            }
            if attacker_side != 0 && !friendly_fire {
                r.credit = Some(attacker_side);
            }
        }
        self.state = CannonState::Dip;
        r.boom = true;
        r
    }
}

// ── Fire and short circuits ─────────────────────────────────────────────
/// The damage rows of fire and short circuit, and the difficulty.
#[derive(Debug, Clone, Copy, PartialEq, Eq, Structural)]
pub struct DelayDamage {
    pub ablaze: WeaponDamage,
    pub shorted: WeaponDamage,
    pub difficulty: Difficulty,
}

/// The cannon after up to `n` hits of the fire; none after the one that
/// destroys it.
pub open spec fn burned(c: Combat, side: i32, dd: DelayDamage, now: i64, n: nat) -> Combat
    decreases n,
{
    if n == 0 {
        c
    } else {
        let b = burned(c, side, dd, now, (n - 1) as nat);
        if scorched(c, side, dd, now, (n - 1) as nat) {
            b
        } else {
            b.after(Weapon::Ablaze, side, dd.ablaze, dd.difficulty, now)
        }
    }
}

/// One of the first `n` hits of the fire found the cannon destroyed or
/// destroyed it.
pub open spec fn scorched(c: Combat, side: i32, dd: DelayDamage, now: i64, n: nat) -> bool
    decreases n,
{
    if n == 0 {
        false
    } else {
        let m = (n - 1) as nat;
        scorched(c, side, dd, now, m) || {
            let b = burned(c, side, dd, now, m);
            b.outcome(Weapon::Ablaze, side, dd.ablaze, dd.difficulty, now).gone || b.after(
                Weapon::Ablaze,
                side,
                dd.ablaze,
                dd.difficulty,
                now,
            ).state == CannonState::Dip
        }
    }
}

/// One step of the fire: the next one is due later, and the hits go to whoever
/// set it.
pub open spec fn fire_step(c: Combat, dd: DelayDamage, now: i64) -> Combat {
    burned(
        Combat { next_time_ablaze: (c.next_time_ablaze + ABLAZE_STEP_MS) as i64, ..c },
        c.last_delay_damage_side,
        dd,
        now,
        ABLAZE_HITS as nat,
    )
}

/// The step of the fire destroys the cannon.
pub open spec fn fire_step_kills(c: Combat, dd: DelayDamage, now: i64) -> bool {
    scorched(
        Combat { next_time_ablaze: (c.next_time_ablaze + ABLAZE_STEP_MS) as i64, ..c },
        c.last_delay_damage_side,
        dd,
        now,
        ABLAZE_HITS as nat,
    )
}

/// The cannon after `n` steps of the fire, or fewer if one destroys it.
pub open spec fn fire_steps(c: Combat, dd: DelayDamage, now: i64, n: nat) -> Combat
    decreases n,
{
    if n == 0 {
        c
    } else {
        let b = fire_steps(c, dd, now, (n - 1) as nat);
        if fire_kills(c, dd, now, (n - 1) as nat) {
            b
        } else {
            fire_step(b, dd, now)
        }
    }
}

/// One of the first `n` steps destroys the cannon.
pub open spec fn fire_kills(c: Combat, dd: DelayDamage, now: i64, n: nat) -> bool
    decreases n,
{
    if n == 0 {
        false
    } else {
        let m = (n - 1) as nat;
        fire_kills(c, dd, now, m) || fire_step_kills(fire_steps(c, dd, now, m), dd, now)
    }
}

/// What the fire or a short circuit did in a turn.
#[derive(Debug, Clone, Copy, PartialEq, Eq, Structural)]
pub struct DelayOutcome {
    /// How many steps there were; each shows a flame.
    pub steps: u64,
    /// The cannon is destroyed.
    pub gone: bool,
    /// It was destroyed by this.
    pub boom: bool,
    /// The side that gets the kill.
    pub credit: Option<i32>,
}

proof fn lemma_damage_frame(c: Combat, weap: Weapon, side: i32, row: WeaponDamage, d: Difficulty, now: i64)
    requires
        weap == Weapon::Ablaze || weap == Weapon::Shorted,
    ensures
        c.after(weap, side, row, d, now).next_time_ablaze == c.next_time_ablaze,
        c.after(weap, side, row, d, now).next_time_shorted == c.next_time_shorted,
        c.after(weap, side, row, d, now).object_state == c.object_state,
        c.after(weap, side, row, d, now).side == c.side,
        !c.outcome(weap, side, row, d, now).boom ==> c.after(weap, side, row, d, now).state
            == c.state,
{
}

/// The side that gets the kill when the fire or short circuit of this cannon
/// destroys it.
pub open spec fn delayed_credit(c: Combat, boom: bool) -> Option<i32> {
    if boom && c.last_delay_damage_side != 0 && c.last_delay_damage_side != c.side {
        Some(c.last_delay_damage_side)
    } else {
        None
    }
}

impl Combat {
    /// One step of the fire.
    fn burn_step(&mut self, dd: &DelayDamage, now: i64) -> (r: DelayOutcome)
        requires
            old(self).next_time_ablaze + ABLAZE_STEP_MS <= i64::MAX,
        ensures
            *final(self) == fire_step(*old(self), *dd, now),
            r.gone == fire_step_kills(*old(self), *dd, now),
            r.steps == 1,
            final(self).next_time_ablaze == old(self).next_time_ablaze + ABLAZE_STEP_MS,
            final(self).next_time_shorted == old(self).next_time_shorted,
            final(self).object_state == old(self).object_state,
            final(self).side == old(self).side,
            !r.gone ==> final(self).state == old(self).state,
            r.boom == (r.gone && old(self).state != CannonState::Dip),
            r.credit == delayed_credit(*old(self), r.boom),
    {
        self.next_time_ablaze = self.next_time_ablaze + ABLAZE_STEP_MS;
        let side = self.last_delay_damage_side;
        let ghost c = *self;
        let mut boom = false;
        let mut credit: Option<i32> = None;
        let mut gone = false;
        let mut i: u32 = 0;
        while i < ABLAZE_HITS && !gone
            invariant
                i <= ABLAZE_HITS,
                side == c.last_delay_damage_side,
                *self == burned(c, side, *dd, now, i as nat),
                gone == scorched(c, side, *dd, now, i as nat),
                !gone ==> self.state == c.state,
                boom == (gone && c.state != CannonState::Dip),
                credit == delayed_credit(c, boom),
                self.next_time_ablaze == c.next_time_ablaze,
                self.next_time_shorted == c.next_time_shorted,
                self.object_state == c.object_state,
                self.side == c.side,
            decreases ABLAZE_HITS - i,
        {
            proof {
                lemma_damage_frame(
                    *self,
                    Weapon::Ablaze,
                    side,
                    dd.ablaze,
                    dd.difficulty,
                    now,
                );
            }
            let o = self.damage(Weapon::Ablaze, side, dd.ablaze, dd.difficulty, now);
            if o.gone || self.state == CannonState::Dip {
                gone = true;
                boom = o.boom;
                credit = o.credit;
            }
            i = i + 1;
        }
        proof {
            if gone {
                lemma_burned_stops(c, side, *dd, now, i as nat, ABLAZE_HITS as nat);
            }
        }
        DelayOutcome { steps: 1, gone, boom, credit }
    }

    /// The fire of a burning cannon: every step that has come due, until one
    /// destroys it.
    pub fn burn(&mut self, dd: &DelayDamage, now: i64) -> (r: DelayOutcome)
        requires
            now <= i64::MAX - ABLAZE_STEP_MS,
        ensures
            old(self).object_state & OBJECT_STATE_ABLAZE == 0 ==> *final(self) == *old(self)
                && !r.gone && r.steps == 0,
            old(self).object_state & OBJECT_STATE_ABLAZE != 0 ==> {
                &&& *final(self) == fire_steps(*old(self), *dd, now, r.steps as nat)
                &&& r.gone == fire_kills(*old(self), *dd, now, r.steps as nat)
                &&& !r.gone ==> final(self).next_time_ablaze >= now
                &&& r.steps > 0 ==> !fire_kills(*old(self), *dd, now, (r.steps - 1) as nat) && now
                    > old(self).next_time_ablaze + (r.steps - 1) * ABLAZE_STEP_MS
            },
            final(self).next_time_shorted == old(self).next_time_shorted,
            final(self).object_state == old(self).object_state,
            r.boom == (r.gone && old(self).state != CannonState::Dip),
            r.credit == if r.boom {
                delayed_credit(fire_steps(*old(self), *dd, now, (r.steps - 1) as nat), true)
            } else {
                None
            },
    {
        let mut r = DelayOutcome { steps: 0, gone: false, boom: false, credit: None };
        if self.object_state & OBJECT_STATE_ABLAZE == 0 {
            return r;
        }
        let ghost c = *self;
        while now > self.next_time_ablaze && !r.gone
            invariant
                now <= i64::MAX - ABLAZE_STEP_MS,
                *self == fire_steps(c, *dd, now, r.steps as nat),
                r.gone == fire_kills(c, *dd, now, r.steps as nat),
                !r.gone ==> self.state == c.state,
                r.boom == (r.gone && c.state != CannonState::Dip),
                r.credit == if r.boom {
                    delayed_credit(fire_steps(c, *dd, now, (r.steps - 1) as nat), true)
                } else {
                    None
                },
                self.next_time_ablaze == c.next_time_ablaze + r.steps * ABLAZE_STEP_MS,
                self.next_time_shorted == c.next_time_shorted,
                self.object_state == c.object_state,
                r.steps > 0 ==> !fire_kills(c, *dd, now, (r.steps - 1) as nat) && now
                    > c.next_time_ablaze + (r.steps - 1) * ABLAZE_STEP_MS,
            decreases gap(now as int, self.next_time_ablaze as int),
        {
            let o = self.burn_step(dd, now);
            let n = r.steps + 1;
            r = DelayOutcome { steps: n, gone: o.gone, boom: o.boom, credit: o.credit };
        }
        r
    }
}

/// The cannon after `n` steps of its short circuit, or fewer if one destroys
/// it.
pub open spec fn short_steps(c: Combat, dd: DelayDamage, now: i64, n: nat) -> Combat
    decreases n,
{
    if n == 0 {
        c
    } else {
        let b = short_steps(c, dd, now, (n - 1) as nat);
        if short_kills(c, dd, now, (n - 1) as nat) {
            b
        } else {
            short_step(b, dd, now)
        }
    }
}

/// One step of a short circuit: the next one is due later, and one hit goes to
/// whoever caused it.
pub open spec fn short_step(c: Combat, dd: DelayDamage, now: i64) -> Combat {
    Combat { next_time_shorted: (c.next_time_shorted + SHORTED_STEP_MS) as i64, ..c }.after(
        Weapon::Shorted,
        c.last_delay_damage_side,
        dd.shorted,
        dd.difficulty,
        now,
    )
}

/// One of the first `n` steps destroys the cannon.
pub open spec fn short_kills(c: Combat, dd: DelayDamage, now: i64, n: nat) -> bool
    decreases n,
{
    if n == 0 {
        false
    } else {
        let m = (n - 1) as nat;
        short_kills(c, dd, now, m) || {
            let b = short_steps(c, dd, now, m);
            short_step(b, dd, now).state == CannonState::Dip || (Combat {
                next_time_shorted: (b.next_time_shorted + SHORTED_STEP_MS) as i64,
                ..b
            }).outcome(
                Weapon::Shorted,
                b.last_delay_damage_side,
                dd.shorted,
                dd.difficulty,
                now,
            ).gone
        }
    }
}

impl Combat {
    /// The short circuit of a shorted cannon: every step that has come due,
    /// until one destroys it.
    pub fn short_out(&mut self, dd: &DelayDamage, now: i64) -> (r: DelayOutcome)
        requires
            now <= i64::MAX - SHORTED_STEP_MS,
        ensures
            old(self).object_state & OBJECT_STATE_SHORTED == 0 ==> *final(self) == *old(self)
                && !r.gone && r.steps == 0,
            old(self).object_state & OBJECT_STATE_SHORTED != 0 ==> {
                &&& *final(self) == short_steps(*old(self), *dd, now, r.steps as nat)
                &&& r.gone == short_kills(*old(self), *dd, now, r.steps as nat)
                &&& !r.gone ==> final(self).next_time_shorted >= now
                &&& r.steps > 0 ==> !short_kills(*old(self), *dd, now, (r.steps - 1) as nat) && now
                    > old(self).next_time_shorted + (r.steps - 1) * SHORTED_STEP_MS
            },
            r.boom == (r.gone && old(self).state != CannonState::Dip),
            r.credit == if r.boom {
                delayed_credit(short_steps(*old(self), *dd, now, (r.steps - 1) as nat), true)
            } else {
                None
            },
    {
        let mut r = DelayOutcome { steps: 0, gone: false, boom: false, credit: None };
        if self.object_state & OBJECT_STATE_SHORTED == 0 {
            return r;
        }
        let ghost c = *self;
        while now > self.next_time_shorted && !r.gone
            invariant
                now <= i64::MAX - SHORTED_STEP_MS,
                *self == short_steps(c, *dd, now, r.steps as nat),
                r.gone == short_kills(c, *dd, now, r.steps as nat),
                !r.gone ==> self.state == c.state,
                r.boom == (r.gone && c.state != CannonState::Dip),
                r.credit == if r.boom {
                    delayed_credit(short_steps(c, *dd, now, (r.steps - 1) as nat), true)
                } else {
                    None
                },
                self.next_time_shorted == c.next_time_shorted + r.steps * SHORTED_STEP_MS,
                r.steps > 0 ==> !short_kills(c, *dd, now, (r.steps - 1) as nat) && now
                    > c.next_time_shorted + (r.steps - 1) * SHORTED_STEP_MS,
            decreases gap(now as int, self.next_time_shorted as int),
        {
            let side = self.last_delay_damage_side;
            self.next_time_shorted = self.next_time_shorted + SHORTED_STEP_MS;
            proof {
                lemma_damage_frame(
                    *self,
                    Weapon::Shorted,
                    side,
                    dd.shorted,
                    dd.difficulty,
                    now,
                );
            }
            let o = self.damage(Weapon::Shorted, side, dd.shorted, dd.difficulty, now);
            let n = r.steps + 1;
            let gone = o.gone || self.state == CannonState::Dip;
            r = DelayOutcome { steps: n, gone, boom: o.boom, credit: o.credit };
        }
        r
    }
}

proof fn lemma_burned_stops(c: Combat, side: i32, dd: DelayDamage, now: i64, i: nat, n: nat)
    requires
        i <= n,
        scorched(c, side, dd, now, i),
    ensures
        scorched(c, side, dd, now, n),
        burned(c, side, dd, now, n) == burned(c, side, dd, now, i),
    decreases n,
{
    if i < n {
        lemma_burned_stops(c, side, dd, now, i, (n - 1) as nat);
    }
}

// ── The cannon ──────────────────────────────────────────────────────────
/// Names a weapon effect.
#[derive(Debug, Clone, Copy, PartialEq, Eq, Hash, Structural)]
pub struct WeaponId {
    pub id: u64,
}

/// A piece of a wreck. Times and coordinates are bit patterns.
#[derive(Debug, Clone, Copy, PartialEq, Eq, Structural)]
pub struct CannonDipUnit {
    pub pos: Pos3,
    pub velocity: Pos3,
    pub ttl: u32,
    pub dp: u32,
    pub dy: u32,
    pub dr: u32,
    pub part: CannonDipPart,
    pub yaw: u32,
    /// When it came to rest.
    pub freeze_t: Option<u32>,
}

/// One cannon.
#[derive(Debug)]
pub struct Cannon {
    pub core: ObjectCore,
    pub rchange: u32,
    pub combat: Combat,
    pub pos: (u32, u32),
    pub pos_z: u32,
    pub angle: u32,
    /// Which of the four cannons it is, counted from one.
    pub kind: i32,
    /// The building it belongs to.
    pub parent: Option<ObjectId>,
    /// Its place on that building.
    pub slot: i32,
    /// The handle of this cannon.
    pub self_id: Option<ObjectId>,
    /// The pieces of its wreck.
    pub dip_units: Vec<CannonDipUnit>,
    /// Milliseconds for which the hit point bar is still shown.
    pub show_hitpoint_time: i32,
    pub weapons: Vec<WeaponId>,
    pub angle_x: u32,
    pub turret_angle: u32,
    pub target: Option<ObjectId>,
    /// How far beside the target it aims.
    pub target_disp: Pos3,
    pub fire_next_think_time: i64,
    pub null_target_time: i32,
    pub time_from_fire: i32,
}

/// The place of a cannon kind in the tables of four; other kinds go to the
/// nearest.
pub open spec fn kind_index_spec(kind: i32) -> int {
    if kind <= 1 {
        0
    } else if kind >= 4 {
        3
    } else {
        kind - 1
    }
}

pub fn kind_index(kind: i32) -> (k: usize)
    ensures
        k == kind_index_spec(kind),
        k < 4,
{
    if kind <= 1 {
        0
    } else if kind >= 4 {
        3
    } else {
        (kind - 1) as usize
    }
}

/// How many barrels a cannon kind has.
pub open spec fn barrels_spec(kind: i32) -> int {
    if kind_index_spec(kind) == 0 || kind_index_spec(kind) == 3 {
        2
    } else {
        1
    }
}

/// Hit points of a cannon kind that the configuration does not list.
pub const DEFAULT_HIT_POINT: i64 = 100_000;

pub open spec fn no_disp() -> Pos3 {
    Pos3 { x: float_bits::ZERO, y: float_bits::ZERO, z: float_bits::ZERO }
}

/// What a cannon's logic turn starts with.
#[derive(Debug, Clone, Copy, PartialEq, Eq, Structural)]
pub enum Gate {
    /// Nothing to do: no map, no handle yet, or still being built.
    Nothing,
    /// The wreck takes its turn.
    Wreck,
    /// The cannon takes its turn.
    Live,
}

impl Cannon {
    /// A working cannon.
    pub fn new(
        core: ObjectCore,
        pos: (u32, u32),
        pos_z: u32,
        angle: u32,
        side: i32,
        kind: i32,
        parent: Option<ObjectId>,
        slot: i32,
        hit_point: Option<i64>,
    ) -> (c: Cannon)
        ensures
            c.core == (ObjectCore { obj_type: ObjectType::Cannon, ..core }),
            c.rchange == MR_ALL,
            c.combat == (Combat {
                state: CannonState::Idle,
                invulnerable: false,
                side,
                hit_point: match hit_point {
                    Some(h) => h,
                    None => DEFAULT_HIT_POINT,
                },
                hit_point_max: match hit_point {
                    Some(h) => h,
                    None => DEFAULT_HIT_POINT,
                },
                object_state: 0,
                ablaze_ttl: 0,
                shorted_ttl: 0,
                next_time_ablaze: 0,
                next_time_shorted: 0,
                last_delay_damage_side: 0,
            }),
            c.pos == pos,
            c.pos_z == pos_z,
            c.angle == angle,
            c.kind == kind,
            c.parent == parent,
            c.slot == slot,
            c.self_id is None,
            c.dip_units@.len() == 0,
            c.show_hitpoint_time == 0,
            c.weapons@.len() == 0,
            c.angle_x == float_bits::ZERO,
            c.turret_angle == float_bits::ZERO,
            c.target is None,
            c.target_disp == no_disp(),
            c.fire_next_think_time == 0,
            c.null_target_time == 0,
            c.time_from_fire == 0,
    {
        let hp = match hit_point {
            Some(h) => h,
            None => DEFAULT_HIT_POINT,
        };
        let mut core = core;
        core.obj_type = ObjectType::Cannon;
        Cannon {
            core,
            rchange: MR_ALL,
            combat: Combat {
                state: CannonState::Idle,
                invulnerable: false,
                side,
                hit_point: hp,
                hit_point_max: hp,
                object_state: 0,
                ablaze_ttl: 0,
                shorted_ttl: 0,
                next_time_ablaze: 0,
                next_time_shorted: 0,
                last_delay_damage_side: 0,
            },
            pos,
            pos_z,
            angle,
            kind,
            parent,
            slot,
            self_id: None,
            dip_units: Vec::new(),
            show_hitpoint_time: 0,
            weapons: Vec::new(),
            angle_x: float_bits::ZERO,
            turret_angle: float_bits::ZERO,
            target: None,
            target_disp: Pos3 { x: float_bits::ZERO, y: float_bits::ZERO, z: float_bits::ZERO },
            fire_next_think_time: 0,
            null_target_time: 0,
            time_from_fire: 0,
        }
    }

    /// The cannon with another combat state.
    pub open spec fn with_combat(self, c: Combat) -> Cannon {
        Cannon { combat: c, ..self }
    }

    /// Start to build the cannon: no hit points yet, and none to lose.
    pub fn begin_construction(&mut self)
        ensures
            *final(self) == old(self).with_combat(
                (Combat {
                    state: CannonState::UnderConstruction,
                    invulnerable: true,
                    hit_point: 0,
                    ..old(self).combat
                }),
            ),
    {
        self.combat.state = CannonState::UnderConstruction;
        self.combat.invulnerable = true;
        self.combat.hit_point = 0;
    }

    /// The construction has come this far: the hit points grow with it, and a
    /// finished cannon goes to work.
    pub fn tick_construction(&mut self, p: Progress)
        ensures
            *final(self) == old(self).with_combat(constructed(old(self).combat, p)),
    {
        if self.combat.state != CannonState::UnderConstruction {
            return;
        }
        if p.done >= p.total {
            self.combat.state = CannonState::Idle;
            self.combat.invulnerable = false;
            self.combat.hit_point = self.combat.hit_point_max;
        } else if p.done <= 0 {
            self.combat.hit_point = 0;
        } else {
            let max = self.combat.hit_point_max;
            self.combat.hit_point = if max >= 0 {
                part_of(max as i128, p) as i64
            } else {
                (-part_of(-(max as i128), p)) as i64
            };
        }
    }

    /// The graphic turn: the hit point bar stays on while the cannon is built,
    /// and runs out otherwise.
    pub fn takt(&mut self, cms: i32)
        ensures
            *final(self) == shown_after(*old(self), cms),
    {
        if self.combat.state == CannonState::UnderConstruction {
            self.show_hitpoint_time = 1;
        } else if self.show_hitpoint_time > 0 {
            let d: i64 = self.show_hitpoint_time as i64 - cms as i64;
            self.show_hitpoint_time = if d > 0 {
                hold(d)
            } else {
                0
            };
        }
    }

    /// Show the hit point bar for a while.
    pub fn show_hitpoint(&mut self)
        ensures
            *final(self) == (Cannon { show_hitpoint_time: HITPOINT_SHOW_TIME_MS, ..*old(self) }),
    {
        self.show_hitpoint_time = HITPOINT_SHOW_TIME_MS;
    }

    /// Is there a hit point bar to be seen? Not over a wreck.
    pub fn hitpoint_bar(&self) -> (b: bool)
        ensures
            b == (self.show_hitpoint_time > 0 && self.combat.hit_point > 0 && self.combat.state
                != CannonState::Dip),
    {
        self.show_hitpoint_time > 0 && self.combat.hit_point > 0 && self.combat.state
            != CannonState::Dip
    }

    /// How many weapon effects are to be made: one for each barrel, once, and
    /// none for a cannon without a weapon.
    pub fn weapons_wanted(&self, has_weapon: bool) -> (n: usize)
        ensures
            n == weapons_missing(*self, has_weapon),
    {
        if self.weapons.len() > 0 || self.self_id.is_none() || !has_weapon {
            return 0;
        }
        let k = kind_index(self.kind);
        if k == 0 || k == 3 {
            2
        } else {
            1
        }
    }

    /// Rebuild what is stale. `true` when the caller is to rebuild the matrix.
    pub fn r_need(&mut self, need: u32) -> (matrix: bool)
        ensures
            matrix == (need & old(self).rchange & MR_MATRIX != 0),
            *final(self) == (Cannon {
                rchange: (if matrix {
                    old(self).rchange & !MR_MATRIX
                } else {
                    old(self).rchange
                }) & !(MR_GRAPH | MR_SHADOW_PROJ_GEOM | MR_SHADOW_PROJ_TEX | MR_SHADOW_STENCIL
                    | MR_MINIMAP),
                ..*old(self)
            }),
    {
        let matrix = need & self.rchange & MR_MATRIX != 0;
        if matrix {
            self.rchange = self.rchange & !MR_MATRIX;
        }
        self.rchange = self.rchange & !(MR_GRAPH | MR_SHADOW_PROJ_GEOM | MR_SHADOW_PROJ_TEX
            | MR_SHADOW_STENCIL | MR_MINIMAP);
        matrix
    }

    pub fn need_repair(&self) -> (b: bool)
        ensures
            b == (self.combat.state == CannonState::Idle && self.combat.hit_point
                < self.combat.hit_point_max),
    {
        self.combat.state == CannonState::Idle && self.combat.hit_point < self.combat.hit_point_max
    }

    /// Take a hit. A cannon that is destroyed by it gives its weapons up and
    /// scatters into its pieces.
    pub fn damage(
        &mut self,
        weap: Weapon,
        attacker_side: i32,
        row: WeaponDamage,
        d: Difficulty,
        now: i64,
        wreck: &Scatter,
    ) -> (r: (DamageOutcome, Vec<WeaponId>))
        ensures
            r.0 == old(self).combat.outcome(weap, attacker_side, row, d, now),
            r.1@ == if r.0.boom {
                old(self).weapons@
            } else {
                Seq::empty()
            },
            final(self).weapons@ == if r.0.boom {
                Seq::empty()
            } else {
                old(self).weapons@
            },
            final(self).dip_units@ == old(self).dip_units@ + new_pieces(
                old(self).angle,
                *wreck,
                r.0.boom,
            ),
            *final(self) == (Cannon {
                combat: old(self).combat.after(weap, attacker_side, row, d, now),
                weapons: final(self).weapons,
                dip_units: final(self).dip_units,
                ..*old(self)
            }),
    {
        let o = self.combat.damage(weap, attacker_side, row, d, now);
        let mut released: Vec<WeaponId> = Vec::new();
        if o.boom {
            released.append(&mut self.weapons);
            assert(released@ =~= old(self).weapons@);
            self.scatter(wreck);
        } else {
            assert(self.dip_units@ =~= old(self).dip_units@ + Seq::<CannonDipUnit>::empty());
        }
        (o, released)
    }

    // ── Logic turn ──────────────────────────────────────────────────────
    /// The cannon gone over to the side of its building.
    pub open spec fn on_side_of(self, parent_side: Option<i32>) -> Cannon {
        match parent_side {
            Some(s) => if self.parent is Some {
                self.with_combat((Combat { side: s, ..self.combat }))
            } else {
                self
            },
            None => self,
        }
    }

    /// Whether the cannon takes its turn. A working cannon goes over to the
    /// side of its building first.
    pub fn logic_gate(&mut self, has_map: bool, parent_side: Option<i32>) -> (g: Gate)
        ensures
            g == if !has_map || old(self).self_id is None || old(self).combat.state
                == CannonState::UnderConstruction {
                Gate::Nothing
            } else if old(self).combat.state == CannonState::Dip {
                Gate::Wreck
            } else {
                Gate::Live
            },
            *final(self) == if g == Gate::Live {
                old(self).on_side_of(parent_side)
            } else {
                *old(self)
            },
    {
        if !has_map || self.self_id.is_none() {
            return Gate::Nothing;
        }
        if self.combat.state == CannonState::Dip {
            return Gate::Wreck;
        }
        if self.combat.state == CannonState::UnderConstruction {
            return Gate::Nothing;
        }
        if self.parent.is_some() {
            match parent_side {
                Some(s) => {
                    self.combat.side = s;
                },
                None => {},
            }
        }
        Gate::Live
    }

    /// Is it time to look for a target?
    pub fn think_due(&self, now: i64) -> (b: bool)
        ensures
            b == think_due_spec(self.fire_next_think_time, now),
    {
        let delta: i128 = self.fire_next_think_time as i128 - now as i128;
        delta < 0 || delta > 100
    }

    /// Take the target that was found, and aim straight at it.
    pub fn think(&mut self, now: i64, found: Option<ObjectId>)
        requires
            now <= i64::MAX - CANNON_FIRE_THINK_PERIOD,
        ensures
            *final(self) == (Cannon {
                fire_next_think_time: (now + CANNON_FIRE_THINK_PERIOD) as i64,
                target_disp: no_disp(),
                target: found,
                ..*old(self)
            }),
    {
        self.fire_next_think_time = now + CANNON_FIRE_THINK_PERIOD as i64;
        self.target_disp = Pos3 { x: float_bits::ZERO, y: float_bits::ZERO, z: float_bits::ZERO };
        self.target = found;
    }

    /// Forget a target that is gone.
    pub fn check_target(&mut self, valid: bool)
        ensures
            *final(self) == (Cannon {
                target: if valid {
                    old(self).target
                } else {
                    None
                },
                ..*old(self)
            }),
    {
        if !valid {
            self.target = None;
        }
    }

    /// The cannon opens fire.
    pub fn open_fire(&mut self)
        ensures
            *final(self) == (Cannon { null_target_time: CANNON_NULL_TARGET_TIME, ..*old(self) }),
    {
        self.null_target_time = CANNON_NULL_TARGET_TIME;
    }

    /// Its weapons have fired; a hit restarts the wait for one.
    pub fn weapons_ran(&mut self, hits: &Vec<bool>)
        ensures
            *final(self) == after_run_of(*old(self), hits@),
    {
        let mut i: usize = 0;
        let mut any = false;
        while i < hits.len()
            invariant
                i <= hits@.len(),
                any == hits@.take(i as int).contains(true),
            decreases hits.len() - i,
        {
            proof {
                let t = hits@.take(i as int);
                let u = hits@.take(i + 1);
                assert(u =~= t.push(hits@[i as int]));
                assert(u[i as int] == hits@[i as int]);
                if t.contains(true) {
                    assert(u[t.index_of(true)] == true);
                }
                if u.contains(true) && !hits@[i as int] {
                    assert(t[u.index_of(true)] == true);
                }
            }
            if hits[i] {
                any = true;
            }
            i = i + 1;
        }
        assert(hits@.take(i as int) =~= hits@);
        if any {
            self.time_from_fire = CANNON_TIME_FROM_FIRE;
        }
    }

    /// After a turn of fire: `true` when there was no hit for too long and the
    /// cannon is to aim beside its target; the wait then starts again.
    pub fn shoot_wide_due(&mut self, takt: i32) -> (wide: bool)
        ensures
            wide == (old(self).time_from_fire - takt <= 0),
            *final(self) == (Cannon {
                time_from_fire: if wide {
                    CANNON_TIME_FROM_FIRE
                } else {
                    held(old(self).time_from_fire - takt)
                },
                ..*old(self)
            }),
    {
        let left = hold(self.time_from_fire as i64 - takt as i64);
        if left <= 0 {
            self.time_from_fire = CANNON_TIME_FROM_FIRE;
            true
        } else {
            self.time_from_fire = left;
            false
        }
    }

    /// A turn without fire: after a while the weapons are to stop. `true` when
    /// they stop now; otherwise they go on with what they were at.
    pub fn hold_fire(&mut self, takt: i32) -> (stop: bool)
        ensures
            stop == stops_now(*old(self), takt),
            *final(self) == after_hold(*old(self), takt),
    {
        if self.null_target_time > 0 {
            let t = hold(self.time_from_fire as i64 - takt as i64);
            self.time_from_fire = if t > 0 {
                t
            } else {
                0
            };
            self.null_target_time = hold(self.null_target_time as i64 - takt as i64);
            if self.null_target_time <= 0 {
                self.null_target_time = 0;
                return true;
            }
        } else {
            self.time_from_fire = CANNON_TIME_FROM_FIRE;
            self.target_disp = Pos3 {
                x: float_bits::ZERO,
                y: float_bits::ZERO,
                z: float_bits::ZERO,
            };
        }
        false
    }
}

/// The cannon after `cms`: its hit point bar stays on while it is built, and runs
/// out otherwise.
pub open spec fn shown_after(c: Cannon, cms: i32) -> Cannon {
    Cannon {
        show_hitpoint_time: if c.combat.state == CannonState::UnderConstruction {
            1
        } else if c.show_hitpoint_time > 0 {
            if c.show_hitpoint_time - cms > 0 {
                held(c.show_hitpoint_time - cms)
            } else {
                0
            }
        } else {
            c.show_hitpoint_time
        },
        ..c
    }
}

/// How many weapons a cannon lacks: one for each barrel, as long as it has none,
/// and none where its kind has no weapon.
pub open spec fn weapons_missing(c: Cannon, has_weapon: bool) -> usize {
    if c.weapons@.len() > 0 || c.self_id is None || !has_weapon {
        0
    } else {
        barrels_spec(c.kind) as usize
    }
}

/// In a turn without fire the weapons stop: they had gone on for long enough.
pub open spec fn stops_now(c: Cannon, takt: i32) -> bool {
    c.null_target_time > 0 && c.null_target_time - takt <= 0
}

/// The cannon after a turn without fire.
pub open spec fn after_hold(c: Cannon, takt: i32) -> Cannon {
    if c.null_target_time > 0 {
        Cannon {
            time_from_fire: if c.time_from_fire - takt > 0 {
                held(c.time_from_fire - takt)
            } else {
                0
            },
            null_target_time: if stops_now(c, takt) {
                0
            } else {
                held(c.null_target_time - takt)
            },
            ..c
        }
    } else {
        Cannon { time_from_fire: CANNON_TIME_FROM_FIRE, target_disp: no_disp(), ..c }
    }
}

/// The cannon after its weapons ran: a hit restarts the wait for one.
pub open spec fn after_run_of(c: Cannon, hits: Seq<bool>) -> Cannon {
    Cannon {
        time_from_fire: if hits.contains(true) {
            CANNON_TIME_FROM_FIRE
        } else {
            c.time_from_fire
        },
        ..c
    }
}

/// What the weapons of a cannon do in a turn.
#[derive(Debug, Clone, Copy, PartialEq, Eq, Structural)]
pub enum Salvo {
    /// They begin to fire, and run.
    Open,
    /// They run on.
    Run,
}

/// A cannon looks for a target when its time is up, and when the clock was set
/// back.
pub open spec fn think_due_spec(next: i64, now: i64) -> bool {
    next - now < 0 || next - now > CANNON_FIRE_THINK_PERIOD
}

/// The part of `m` that goes with a progress.
pub open spec fn part_spec(m: int, p: Progress) -> int {
    (m * p.done) / (p.total as int)
}

fn part_of(m: i128, p: Progress) -> (r: i128)
    requires
        0 <= m <= 0x8000_0000_0000_0000,
        0 < p.done < p.total,
    ensures
        r == part_spec(m as int, p),
        0 <= r <= m,
{
    let d = p.done as i128;
    let t = p.total as i128;
    proof {
        let (mi, di, ti) = (m as int, d as int, t as int);
        assert(0 <= mi * di <= 0x8000_0000_0000_0000 * 0x7fff_ffff) by (nonlinear_arith)
            requires
                0 <= mi <= 0x8000_0000_0000_0000,
                0 <= di <= 0x7fff_ffff,
        ;
        assert(0 <= (mi * di) / ti <= mi) by (nonlinear_arith)
            requires
                0 <= mi,
                0 <= di <= ti,
                1 <= ti,
        ;
    }
    (m * d) / t
}

/// A cannon at a stage of its construction: with the part of its hit points
/// that goes with it, and at work once it is done.
pub open spec fn constructed(c: Combat, p: Progress) -> Combat {
    if c.state != CannonState::UnderConstruction {
        c
    } else if p.done >= p.total {
        Combat {
            state: CannonState::Idle,
            invulnerable: false,
            hit_point: c.hit_point_max,
            ..c
        }
    } else if p.done <= 0 {
        Combat { hit_point: 0, ..c }
    } else if c.hit_point_max >= 0 {
        Combat { hit_point: part_spec(c.hit_point_max as int, p) as i64, ..c }
    } else {
        Combat { hit_point: (-part_spec(-c.hit_point_max, p)) as i64, ..c }
    }
}

// ── Targets ─────────────────────────────────────────────────────────────
/// Something that a cannon could aim at.
#[derive(Debug, Clone, Copy, PartialEq, Eq, Structural)]
pub struct Candidate {
    pub id: ObjectId,
    pub side: i32,
    /// Squared distance.
    pub distance: u32,
    /// How well it lies in the line of the barrels.
    pub alignment: u32,
    /// Where a trace to it ends that units and land stop.
    pub through_units: TraceStop,
    /// Where a trace to it ends that buildings, cannons and objects stop.
    pub through_blocks: TraceStop,
}

/// The candidate is in sight: nothing stands in front of it.
pub open spec fn in_sight(c: Candidate) -> bool {
    c.through_units == TraceStop::Object(c.id) && c.through_blocks == TraceStop::Nothing
}

/// Bit pattern of minus one, the worst alignment.
pub const MINUS_ONE: u32 = 0xbf80_0000;

/// The choice so far: the target, its distance and its alignment.
#[derive(Debug, Clone, Copy, PartialEq, Eq, Structural)]
pub struct Choice {
    pub target: Option<ObjectId>,
    pub distance: u32,
    pub alignment: u32,
}

/// Whether a candidate is better than the choice so far. Enemies only; what is
/// in range of fire goes before what is not; then the better aligned.
pub open spec fn is_better(c: Candidate, ch: Choice, side: i32, fire: u32) -> bool {
    &&& c.side != side
    &&& !(float_bits::lt_spec(fire, c.distance) && float_bits::lt_spec(ch.distance, fire))
    &&& (float_bits::lt_spec(c.distance, fire) && float_bits::lt_spec(fire, ch.distance))
        || float_bits::lt_spec(ch.alignment, c.alignment)
    &&& in_sight(c)
}

/// The choice after the first `n` candidates.
pub open spec fn choice_after(cs: Seq<Candidate>, side: i32, fire: u32, seek: u32, n: int) -> Choice
    decreases n,
{
    if n <= 0 {
        Choice { target: None, distance: seek, alignment: MINUS_ONE }
    } else {
        let ch = choice_after(cs, side, fire, seek, n - 1);
        let c = cs[n - 1];
        if is_better(c, ch, side, fire) {
            Choice { target: Some(c.id), distance: c.distance, alignment: c.alignment }
        } else {
            ch
        }
    }
}

/// Choose a target. `fire` and `seek` are the squared ranges of fire and of
/// sight.
pub fn seek_target(cs: &Vec<Candidate>, side: i32, fire: u32, seek: u32) -> (t: Option<ObjectId>)
    ensures
        t == choice_after(cs@, side, fire, seek, cs@.len() as int).target,
{
    let mut ch = Choice { target: None, distance: seek, alignment: MINUS_ONE };
    let mut i: usize = 0;
    while i < cs.len()
        invariant
            i <= cs@.len(),
            ch == choice_after(cs@, side, fire, seek, i as int),
        decreases cs.len() - i,
    {
        let c = cs[i];
        if c.side != side && !(float_bits::lt(fire, c.distance) && float_bits::lt(
            ch.distance,
            fire,
        )) {
            let nearer = float_bits::lt(c.distance, fire) && float_bits::lt(fire, ch.distance);
            if (nearer || float_bits::lt(ch.alignment, c.alignment)) && c.through_units
                == TraceStop::Object(c.id) && c.through_blocks == TraceStop::Nothing {
                ch = Choice { target: Some(c.id), distance: c.distance, alignment: c.alignment };
            }
        }
        i = i + 1;
    }
    ch.target
}

/// How a cannon turns towards a direction that lies `da` off.
#[derive(Debug, Clone, Copy, PartialEq, Eq, Structural)]
pub enum AimRule {
    /// There; take the direction itself.
    Snap,
    /// Close part of the gap.
    Ease,
    /// Near enough to turn all the way.
    Reach,
    /// Turn by the most, one way or the other.
    StepBack,
    StepForward,
}

/// The number without its sign.
pub open spec fn abs_bits(b: u32) -> u32 {
    if b < 0x8000_0000 {
        b
    } else {
        (b - 0x8000_0000) as u32
    }
}

/// How to turn. `max_da` is the most that a cannon turns in a turn, zero for
/// one that eases in; `reach` is a little more than that; `least` is the gap
/// that counts as none.
pub open spec fn aim_rule_spec(da: u32, max_da: u32, reach: u32, least: u32) -> AimRule {
    if float_bits::eq_spec(max_da, float_bits::ZERO) {
        if float_bits::lt_spec(abs_bits(da), least) {
            AimRule::Snap
        } else {
            AimRule::Ease
        }
    } else if float_bits::lt_spec(abs_bits(da), reach) {
        AimRule::Reach
    } else if float_bits::lt_spec(da, float_bits::ZERO) {
        AimRule::StepBack
    } else {
        AimRule::StepForward
    }
}

pub fn aim_rule(da: u32, max_da: u32, reach: u32, least: u32) -> (r: AimRule)
    ensures
        r == aim_rule_spec(da, max_da, reach, least),
{
    let abs: u32 = if da < 0x8000_0000 {
        da
    } else {
        da - 0x8000_0000
    };
    if float_bits::eq(max_da, float_bits::ZERO) {
        if float_bits::lt(abs, least) {
            AimRule::Snap
        } else {
            AimRule::Ease
        }
    } else if float_bits::lt(abs, reach) {
        AimRule::Reach
    } else if float_bits::lt(da, float_bits::ZERO) {
        AimRule::StepBack
    } else {
        AimRule::StepForward
    }
}

/// The cannon is on target in this direction.
pub open spec fn on_target(r: AimRule) -> bool {
    r == AimRule::Snap || r == AimRule::Reach
}

/// What is measured before a shot, as single-precision bit patterns: squared
/// distance and squared range, by how much each barrel's shot would miss, and
/// twice the radius of the target.
#[derive(Debug)]
pub struct Measure {
    pub distance: u32,
    pub range: u32,
    pub misses: Vec<u32>,
    pub twice_radius: u32,
}

/// Whether to open fire: in the turn of a look, aimed both ways, the target in
/// range, and no barrel's shot passing it by more than twice its size.
pub open spec fn wants_fire(looked: bool, yaw: AimRule, pitch: AimRule, m: Measure) -> bool {
    &&& looked
    &&& on_target(yaw)
    &&& on_target(pitch)
    &&& float_bits::le_spec(m.distance, m.range)
    &&& forall|i: int|
        0 <= i < m.misses@.len() ==> !float_bits::lt_spec(m.twice_radius, #[trigger] m.misses@[i])
}

pub fn fire_decision(looked: bool, yaw: AimRule, pitch: AimRule, m: &Measure) -> (fire: bool)
    ensures
        fire == wants_fire(looked, yaw, pitch, *m),
{
    let aimed = (yaw == AimRule::Snap || yaw == AimRule::Reach) && (pitch == AimRule::Snap || pitch
        == AimRule::Reach);
    if !looked || !aimed || !float_bits::le(m.distance, m.range) {
        return false;
    }
    let mut i: usize = 0;
    while i < m.misses.len()
        invariant
            i <= m.misses@.len(),
            forall|k: int|
                0 <= k < i ==> !float_bits::lt_spec(m.twice_radius, #[trigger] m.misses@[k]),
        decreases m.misses.len() - i,
    {
        if float_bits::lt(m.twice_radius, m.misses[i]) {
            return false;
        }
        i = i + 1;
    }
    true
}

// ── Wreck ───────────────────────────────────────────────────────────────
/// Where a piece of a wreck flew in a turn, and what it met there.
#[derive(Debug, Clone, Copy, PartialEq, Eq, Structural)]
pub struct Flight {
    pub pos: Pos3,
    pub velocity: Pos3,
    pub stop: TraceStop,
    /// Where it met it.
    pub hit: Pos3,
    /// The ground there lies below the water.
    pub submerged: bool,
    /// The time on the clock.
    pub now: u32,
}

/// What is to be shown for a piece.
#[derive(Debug, Clone, Copy, PartialEq, Eq, Structural)]
pub enum PieceEffect {
    Nothing,
    /// A small explosion; its smoke fades.
    Boom,
    /// A splash; its smoke fades.
    Splash,
    /// The debris hits an object.
    Debris(ObjectId),
}

pub open spec fn at_rest_spec(v: Pos3) -> bool {
    float_bits::eq_spec(v.x, float_bits::ZERO) && float_bits::eq_spec(v.y, float_bits::ZERO)
        && float_bits::eq_spec(v.z, float_bits::ZERO)
}

/// The piece does not move.
pub fn at_rest(v: Pos3) -> (b: bool)
    ensures
        b == at_rest_spec(v),
{
    float_bits::eq(v.x, float_bits::ZERO) && float_bits::eq(v.y, float_bits::ZERO)
        && float_bits::eq(v.z, float_bits::ZERO)
}

/// The piece goes: its time is up, or it falls into deep water.
pub open spec fn piece_goes(u: CannonDipUnit, ttl: u32, f: Flight) -> bool {
    float_bits::le_spec(ttl, float_bits::ZERO) || (!at_rest_spec(u.velocity) && f.stop
        == TraceStop::Water && f.submerged)
}

/// A piece that stays: on land it comes to rest, on an object it is about to
/// go off, and otherwise it flies on.
pub open spec fn piece_after(u: CannonDipUnit, ttl: u32, f: Flight) -> CannonDipUnit {
    if at_rest_spec(u.velocity) {
        CannonDipUnit { ttl, ..u }
    } else {
        match f.stop {
            TraceStop::Landscape => CannonDipUnit {
                ttl,
                velocity: no_disp(),
                pos: f.hit,
                freeze_t: Some(f.now),
                ..u
            },
            TraceStop::Object(_) => CannonDipUnit {
                ttl: float_bits::ONE,
                velocity: f.velocity,
                pos: f.hit,
                ..u
            },
            _ => CannonDipUnit { ttl, velocity: f.velocity, pos: f.pos, ..u },
        }
    }
}

pub open spec fn piece_effect(u: CannonDipUnit, ttl: u32, f: Flight) -> PieceEffect {
    if float_bits::le_spec(ttl, float_bits::ZERO) {
        PieceEffect::Boom
    } else if at_rest_spec(u.velocity) {
        PieceEffect::Nothing
    } else {
        match f.stop {
            TraceStop::Water => if f.submerged {
                PieceEffect::Splash
            } else {
                PieceEffect::Nothing
            },
            TraceStop::Object(id) => PieceEffect::Debris(id),
            _ => PieceEffect::Nothing,
        }
    }
}

impl Cannon {
    /// Let piece `i` of the wreck take its turn, and go to the next. `ttl` is
    /// the time that it has left. A piece that goes is replaced by the last
    /// one, which is then next.
    pub fn dip_piece(&mut self, i: usize, ttl: u32, f: Flight) -> (r: (PieceEffect, usize))
        requires
            i < old(self).dip_units@.len(),
        ensures
            r.0 == piece_effect(old(self).dip_units@[i as int], ttl, f),
            r.1 == if piece_goes(old(self).dip_units@[i as int], ttl, f) {
                i as int
            } else {
                i + 1
            },
            final(self).dip_units@ == if piece_goes(old(self).dip_units@[i as int], ttl, f) {
                swap_removed(old(self).dip_units@, i as int)
            } else {
                old(self).dip_units@.update(
                    i as int,
                    piece_after(old(self).dip_units@[i as int], ttl, f),
                )
            },
            *final(self) == (Cannon { dip_units: final(self).dip_units, ..*old(self) }),
    {
        let len = self.dip_units.len();
        let mut u = self.dip_units[i];
        if float_bits::le(ttl, float_bits::ZERO) {
            self.dip_units.swap_remove(i);
            return (PieceEffect::Boom, i);
        }
        u.ttl = ttl;
        let mut effect = PieceEffect::Nothing;
        if !at_rest(u.velocity) {
            u.velocity = f.velocity;
            u.pos = f.pos;
            match f.stop {
                TraceStop::Water => {
                    if f.submerged {
                        self.dip_units.swap_remove(i);
                        return (PieceEffect::Splash, i);
                    }
                },
                TraceStop::Landscape => {
                    u.velocity = Pos3 {
                        x: float_bits::ZERO,
                        y: float_bits::ZERO,
                        z: float_bits::ZERO,
                    };
                    u.pos = f.hit;
                    u.freeze_t = Some(f.now);
                },
                TraceStop::Object(id) => {
                    u.pos = f.hit;
                    u.ttl = float_bits::ONE;
                    effect = PieceEffect::Debris(id);
                },
                TraceStop::Nothing => {},
            }
        }
        self.dip_units.set(i, u);
        (effect, i + 1)
    }

    /// The wreck is to be removed: its last piece is gone.
    pub fn wreck_done(&self) -> (b: bool)
        ensures
            b == (self.combat.state == CannonState::Dip && self.dip_units@.len() == 0),
    {
        self.combat.state == CannonState::Dip && self.dip_units.len() == 0
    }
}

/// A part of a wreck that flies off: from where, how fast, for how long, and
/// how it tumbles.
#[derive(Debug, Clone, Copy, PartialEq, Eq, Structural)]
pub struct Fling {
    pub pos: Pos3,
    pub velocity: Pos3,
    pub ttl: u32,
    pub dp: u32,
    pub dy: u32,
    pub dr: u32,
}

/// How a wreck would scatter. The basis stays where it is.
#[derive(Debug, Clone, Copy, PartialEq, Eq, Structural)]
pub struct Scatter {
    pub basis_pos: Pos3,
    pub basis_ttl: u32,
    pub turret: Fling,
    pub shaft: Fling,
}

pub open spec fn flung(part: CannonDipPart, f: Fling) -> CannonDipUnit {
    CannonDipUnit {
        pos: f.pos,
        velocity: f.velocity,
        ttl: f.ttl,
        dp: f.dp,
        dy: f.dy,
        dr: f.dr,
        part,
        yaw: float_bits::ZERO,
        freeze_t: None,
    }
}

/// The pieces of the wreck of a cannon that stood at `angle`: the basis, the
/// turret and the shaft.
pub open spec fn wreck_pieces(angle: u32, s: Scatter) -> Seq<CannonDipUnit> {
    seq![
        CannonDipUnit {
            pos: s.basis_pos,
            velocity: no_disp(),
            ttl: s.basis_ttl,
            dp: float_bits::ZERO,
            dy: float_bits::ZERO,
            dr: float_bits::ZERO,
            part: CannonDipPart::Basis,
            yaw: angle,
            freeze_t: None,
        },
        flung(CannonDipPart::Turret, s.turret),
        flung(CannonDipPart::Shaft, s.shaft),
    ]
}

/// The pieces that a hit adds to a cannon: those of its wreck if it is
/// destroyed.
pub open spec fn new_pieces(angle: u32, s: Scatter, boom: bool) -> Seq<CannonDipUnit> {
    if boom {
        wreck_pieces(angle, s)
    } else {
        Seq::empty()
    }
}

fn fling(part: CannonDipPart, f: Fling) -> (u: CannonDipUnit)
    ensures
        u == flung(part, f),
{
    CannonDipUnit {
        pos: f.pos,
        velocity: f.velocity,
        ttl: f.ttl,
        dp: f.dp,
        dy: f.dy,
        dr: f.dr,
        part,
        yaw: float_bits::ZERO,
        freeze_t: None,
    }
}

impl MapStatic for Cannon {
    open spec fn status(&self) -> ObjectStatus {
        ObjectStatus {
            obj_type: self.core.obj_type,
            rchange: self.rchange,
            object_state: self.combat.object_state,
            ablaze_ttl: self.combat.ablaze_ttl,
            shorted_ttl: self.combat.shorted_ttl,
        }
    }

    open spec fn with_status(&self, s: ObjectStatus) -> Cannon {
        Cannon {
            core: ObjectCore { obj_type: s.obj_type, ..self.core },
            rchange: s.rchange,
            combat: Combat {
                object_state: s.object_state,
                ablaze_ttl: s.ablaze_ttl,
                shorted_ttl: s.shorted_ttl,
                ..self.combat
            },
            ..*self
        }
    }

    /// A wreck is no longer found by traces and searches.
    open spec fn live(&self) -> bool {
        self.combat.state != CannonState::Dip
    }

    open spec fn cell_rect(&self) -> CellRect {
        self.core.cells
    }

    fn obj_type(&self) -> ObjectType {
        self.core.obj_type
    }

    fn rchange(&self) -> u32 {
        self.rchange
    }

    fn rchange_set(&mut self, bits: u32) {
        self.rchange = self.rchange | bits;
    }

    fn rchange_clear(&mut self, bits: u32) {
        self.rchange = self.rchange & !bits;
    }

    fn object_state(&self) -> u32 {
        self.combat.object_state
    }

    fn object_state_set(&mut self, bits: u32) {
        self.combat.object_state = self.combat.object_state | bits;
    }

    fn object_state_clear(&mut self, bits: u32) {
        self.combat.object_state = self.combat.object_state & !bits;
    }

    fn ablaze_ttl(&self) -> i32 {
        self.combat.ablaze_ttl
    }

    fn set_ablaze_ttl(&mut self, ttl: i32) {
        self.combat.ablaze_ttl = ttl;
    }

    fn shorted_ttl(&self) -> i32 {
        self.combat.shorted_ttl
    }

    fn set_shorted_ttl(&mut self, ttl: i32) {
        self.combat.shorted_ttl = ttl;
    }

    fn is_live(&self) -> bool {
        self.combat.state != CannonState::Dip
    }

    fn cells(&self) -> CellRect {
        self.core.cells
    }
}

// ── Aiming ──────────────────────────────────────────────────────────────
/// The angles that a cannon can turn to, one for each rule.
#[derive(Debug, Clone, Copy, PartialEq, Eq, Structural)]
pub struct Turns {
    pub snap: u32,
    pub ease: u32,
    pub reach: u32,
    pub back: u32,
    pub forward: u32,
}

pub open spec fn turned_spec(r: AimRule, t: Turns) -> u32 {
    match r {
        AimRule::Snap => t.snap,
        AimRule::Ease => t.ease,
        AimRule::Reach => t.reach,
        AimRule::StepBack => t.back,
        AimRule::StepForward => t.forward,
    }
}

/// The angle that a rule turns to.
pub fn turned(r: AimRule, t: Turns) -> (a: u32)
    ensures
        a == turned_spec(r, t),
{
    match r {
        AimRule::Snap => t.snap,
        AimRule::Ease => t.ease,
        AimRule::Reach => t.reach,
        AimRule::StepBack => t.back,
        AimRule::StepForward => t.forward,
    }
}

impl Cannon {
    /// The cannon with turret and barrels turned.
    pub open spec fn aimed(self, yaw: (AimRule, Turns), pitch: (AimRule, Turns)) -> Cannon {
        Cannon {
            turret_angle: turned_spec(yaw.0, yaw.1),
            angle_x: turned_spec(pitch.0, pitch.1),
            rchange: self.rchange | MR_MATRIX,
            ..self
        }
    }

    /// Turn the turret and the barrels; the matrix is stale then.
    pub fn aim(&mut self, yaw: (AimRule, Turns), pitch: (AimRule, Turns))
        ensures
            *final(self) == old(self).aimed(yaw, pitch),
    {
        self.turret_angle = turned(yaw.0, yaw.1);
        self.angle_x = turned(pitch.0, pitch.1);
        self.rchange = self.rchange | MR_MATRIX;
    }

    /// Take the weapon effects that were made for it.
    pub fn arm(&mut self, made: Vec<WeaponId>)
        ensures
            final(self).weapons@ == old(self).weapons@ + made@,
            *final(self) == (Cannon { weapons: final(self).weapons, ..*old(self) }),
    {
        let mut made = made;
        self.weapons.append(&mut made);
    }

    /// Scatter into the pieces of a wreck.
    fn scatter(&mut self, w: &Scatter)
        ensures
            final(self).dip_units@ == old(self).dip_units@ + wreck_pieces(old(self).angle, *w),
            *final(self) == (Cannon { dip_units: final(self).dip_units, ..*old(self) }),
    {
        let zero = float_bits::ZERO;
        self.dip_units.push(
            CannonDipUnit {
                pos: w.basis_pos,
                velocity: Pos3 { x: zero, y: zero, z: zero },
                ttl: w.basis_ttl,
                dp: zero,
                dy: zero,
                dr: zero,
                part: CannonDipPart::Basis,
                yaw: self.angle,
                freeze_t: None,
            },
        );
        self.dip_units.push(fling(CannonDipPart::Turret, w.turret));
        self.dip_units.push(fling(CannonDipPart::Shaft, w.shaft));
        assert(self.dip_units@ =~= old(self).dip_units@ + wreck_pieces(old(self).angle, *w));
    }

    /// What fire and short circuit do to a cannon in its turn. Also the weapons
    /// that a destroyed cannon gives up, and whether the turn ends here: a
    /// destroyed or shorted cannon does nothing else.
    pub fn delay_damage(&mut self, dd: &DelayDamage, now: i64, wreck: &Scatter) -> (r: (
        DelayOutcome,
        DelayOutcome,
        Vec<WeaponId>,
        bool,
    ))
        requires
            now <= i64::MAX - ABLAZE_STEP_MS,
        ensures
            delayed(old(self).combat, final(self).combat, r.0, r.1, *dd, now),
            r.3 == (r.0.gone || old(self).combat.object_state & OBJECT_STATE_SHORTED != 0),
            r.2@ == if r.0.boom || r.1.boom {
                old(self).weapons@
            } else {
                Seq::empty()
            },
            final(self).weapons@ == if r.0.boom || r.1.boom {
                Seq::empty()
            } else {
                old(self).weapons@
            },
            final(self).dip_units@ == old(self).dip_units@ + new_pieces(
                old(self).angle,
                *wreck,
                r.0.boom || r.1.boom,
            ),
            *final(self) == (Cannon {
                combat: final(self).combat,
                weapons: final(self).weapons,
                dip_units: final(self).dip_units,
                ..*old(self)
            }),
    {
        let mut released: Vec<WeaponId> = Vec::new();
        let fire = self.combat.burn(dd, now);
        let ghost mid = self.combat;
        let mut short = DelayOutcome { steps: 0, gone: false, boom: false, credit: None };
        let mut stop = fire.gone;
        if !fire.gone {
            stop = self.combat.object_state & OBJECT_STATE_SHORTED != 0;
            short = self.combat.short_out(dd, now);
        }
        proof {
            assert(burnt(old(self).combat, mid, fire, *dd, now));
            assert(fire.gone || shorted_out(mid, self.combat, short, *dd, now));
        }
        if fire.boom || short.boom {
            released.append(&mut self.weapons);
            assert(released@ =~= old(self).weapons@);
            self.scatter(wreck);
        } else {
            assert(self.dip_units@ =~= old(self).dip_units@ + Seq::<CannonDipUnit>::empty());
        }
        (fire, short, released, stop)
    }
}

/// Every step of the fire that had come due was taken, until one destroyed the
/// cannon.
pub open spec fn burnt(c: Combat, d: Combat, r: DelayOutcome, dd: DelayDamage, now: i64) -> bool {
    &&& c.object_state & OBJECT_STATE_ABLAZE == 0 ==> d == c && !r.gone && r.steps == 0
    &&& c.object_state & OBJECT_STATE_ABLAZE != 0 ==> {
        &&& d == fire_steps(c, dd, now, r.steps as nat)
        &&& r.gone == fire_kills(c, dd, now, r.steps as nat)
        &&& !r.gone ==> d.next_time_ablaze >= now
        &&& r.steps > 0 ==> !fire_kills(c, dd, now, (r.steps - 1) as nat) && now
            > c.next_time_ablaze + (r.steps - 1) * ABLAZE_STEP_MS
    }
    &&& r.boom == (r.gone && c.state != CannonState::Dip)
    &&& r.credit == if r.boom {
        delayed_credit(fire_steps(c, dd, now, (r.steps - 1) as nat), true)
    } else {
        None
    }
}

/// Every step of the short circuit that had come due was taken, until one
/// destroyed the cannon.
pub open spec fn shorted_out(c: Combat, d: Combat, r: DelayOutcome, dd: DelayDamage, now: i64) -> bool {
    &&& c.object_state & OBJECT_STATE_SHORTED == 0 ==> d == c && !r.gone && r.steps == 0
    &&& c.object_state & OBJECT_STATE_SHORTED != 0 ==> {
        &&& d == short_steps(c, dd, now, r.steps as nat)
        &&& r.gone == short_kills(c, dd, now, r.steps as nat)
        &&& !r.gone ==> d.next_time_shorted >= now
        &&& r.steps > 0 ==> !short_kills(c, dd, now, (r.steps - 1) as nat) && now
            > c.next_time_shorted + (r.steps - 1) * SHORTED_STEP_MS
    }
    &&& r.boom == (r.gone && c.state != CannonState::Dip)
    &&& r.credit == if r.boom {
        delayed_credit(short_steps(c, dd, now, (r.steps - 1) as nat), true)
    } else {
        None
    }
}

/// The fire first, then, unless it destroyed the cannon, the short circuit.
pub open spec fn delayed(
    c: Combat,
    d: Combat,
    fire: DelayOutcome,
    short: DelayOutcome,
    dd: DelayDamage,
    now: i64,
) -> bool {
    exists|mid: Combat|
        {
            &&& #[trigger] burnt(c, mid, fire, dd, now)
            &&& fire.gone ==> d == mid && short == (DelayOutcome {
                steps: 0,
                gone: false,
                boom: false,
                credit: None,
            })
            &&& !fire.gone ==> shorted_out(mid, d, short, dd, now)
        }
}

// ── Thinking ────────────────────────────────────────────────────────────
/// The cannon after it has thought: when a look is due it takes the best target
/// that it sees and aims straight at it, and in any turn it forgets a target
/// that is gone.
pub open spec fn thought<T>(
    c: Cannon,
    v: ArenaView<T>,
    now: i64,
    cs: Seq<Candidate>,
    fire: u32,
    seek: u32,
) -> Cannon {
    let looked = if think_due_spec(c.fire_next_think_time, now) {
        Cannon {
            fire_next_think_time: (now + CANNON_FIRE_THINK_PERIOD) as i64,
            target_disp: no_disp(),
            target: choice_after(cs, c.combat.side, fire, seek, cs.len() as int).target,
            ..c
        }
    } else {
        c
    };
    Cannon {
        target: match looked.target {
            Some(t) => if v.is_valid(t) {
                Some(t)
            } else {
                None
            },
            None => None,
        },
        ..looked
    }
}

impl Cannon {
    /// Think: look for a target when it is time, and forget one that is gone.
    /// `true` in the turn of a look.
    pub fn think_turn<T>(
        &mut self,
        objs: &Objects<T>,
        now: i64,
        cs: &Vec<Candidate>,
        fire: u32,
        seek: u32,
    ) -> (looked: bool)
        requires
            now <= i64::MAX - CANNON_FIRE_THINK_PERIOD,
        ensures
            looked == think_due_spec(old(self).fire_next_think_time, now),
            *final(self) == thought(*old(self), objs@.arena, now, cs@, fire, seek),
    {
        let looked = self.think_due(now);
        if looked {
            let found = seek_target(cs, self.combat.side, fire, seek);
            self.think(now, found);
        }
        match self.target {
            Some(t) => {
                let valid = objs.is_valid(t);
                self.check_target(valid);
            },
            None => {},
        }
        looked
    }
}

// ── Turrets of a building ───────────────────────────────────────────────
/// An object that may be a cannon.
pub trait HasCannon: Sized {
    /// The cannon that this object is.
    spec fn as_cannon(&self) -> Option<Cannon>;

    /// The object after its cannon has changed.
    spec fn with_cannon(&self, c: Cannon) -> Self;

    fn cannon(&self) -> (r: Option<&Cannon>)
        ensures
            match r {
                Some(c) => self.as_cannon() == Some(*c),
                None => self.as_cannon() is None,
            },
    ;

    fn build_cannon(&mut self, p: Progress)
        requires
            old(self).as_cannon() is Some,
        ensures
            *final(self) == old(self).with_cannon(
                old(self).as_cannon()->0.with_combat(
                    constructed(old(self).as_cannon()->0.combat, p),
                ),
            ),
    ;
}

/// The handle leads to the turret that is being built on a building at a place.
pub open spec fn is_turret<T: HasCannon>(
    v: ArenaView<T>,
    id: ObjectId,
    parent: ObjectId,
    slot: i32,
) -> bool {
    match v.get(id) {
        Some(o) => match o.as_cannon() {
            Some(c) => c.parent == Some(parent) && c.slot == slot && c.combat.state
                == CannonState::UnderConstruction,
            None => false,
        },
        None => false,
    }
}

/// The arena after its turret `id` was told how far its construction is.
pub open spec fn with_turret_built<T: HasCannon>(v: ArenaView<T>, id: ObjectId, p: Progress) -> ArenaView<T> {
    let o = v.get(id)->0;
    let c = o.as_cannon()->0;
    v.with_obj(id, Some(o.with_cannon(c.with_combat(constructed(c.combat, p)))))
}

/// The arena after the turret of a building was told how far it is: the first
/// cannon, in slot order, that is being built there; nothing without one.
pub open spec fn is_ramped<T: HasCannon>(
    v: ArenaView<T>,
    w: ArenaView<T>,
    parent: ObjectId,
    slot: i32,
    p: Progress,
) -> bool {
    let ids = v.live_ids();
    &&& (forall|k: int| 0 <= k < ids.len() ==> !is_turret(v, #[trigger] ids[k], parent, slot))
        ==> w == v
    &&& forall|k: int|
        0 <= k < ids.len() && is_turret(v, #[trigger] ids[k], parent, slot) && (forall|j: int|
            0 <= j < k ==> !is_turret(v, #[trigger] ids[j], parent, slot)) ==> w
            == with_turret_built(v, ids[k], p)
}

/// Tell the turret of a building how far its construction is: the first live
/// cannon, in slot order, that is being built on the building at that place.
pub fn ramp_turret_hp<T: HasCannon>(
    objs: &mut Objects<T>,
    parent: ObjectId,
    slot: i32,
    p: Progress,
)
    requires
        old(objs).wf(),
    ensures
        final(objs).wf(),
        is_ramped(old(objs)@.arena, final(objs)@.arena, parent, slot, p),
        final(objs)@ == old(objs)@.with_arena(final(objs)@.arena),
        walk_kept(old(objs)@.arena, final(objs)@.arena),
{
    let ids = objs.iter_live();
    let mut i: usize = 0;
    let mut found: Option<ObjectId> = None;
    while i < ids.len() && found.is_none()
        invariant
            i <= ids@.len(),
            objs.wf(),
            ids@ == objs@.arena.live_ids(),
            match found {
                Some(id) => i > 0 && id == ids@[i - 1] && is_turret(
                    objs@.arena,
                    id,
                    parent,
                    slot,
                ) && forall|j: int|
                    0 <= j < i - 1 ==> !is_turret(
                        objs@.arena,
                        #[trigger] ids@[j],
                        parent,
                        slot,
                    ),
                None => forall|j: int|
                    0 <= j < i ==> !is_turret(objs@.arena, #[trigger] ids@[j], parent, slot),
            },
        decreases ids.len() - i,
    {
        let id = ids[i];
        match objs.get(id) {
            Some(o) => match o.cannon() {
                Some(c) => {
                    let same = match c.parent {
                        Some(q) => q == parent,
                        None => false,
                    };
                    if same && c.slot == slot && c.combat.state
                        == CannonState::UnderConstruction {
                        found = Some(id);
                    }
                },
                None => {},
            },
            None => {},
        }
        i = i + 1;
    }
    match found {
        Some(id) => {
            match objs.get_mut(id) {
                Some(o) => {
                    o.build_cannon(p);
                },
                None => {},
            }
        },
        None => {},
    }
}

// ── Laws ────────────────────────────────────────────────────────────────
/// A wreck stays a wreck: whatever hits it, it is reported gone and nothing of
/// it changes, unless it is destroyed outright once more.
pub proof fn law_wreck_stays(
    c: Combat,
    weap: Weapon,
    side: i32,
    row: WeaponDamage,
    d: Difficulty,
    now: i64,
)
    requires
        c.state == CannonState::Dip,
        !c.invulnerable,
    ensures
        c.after(weap, side, row, d, now) == c,
        c.outcome(weap, side, row, d, now).gone,
        weap != Weapon::InstantDeath ==> !c.outcome(weap, side, row, d, now).boom,
{
}

/// A cannon that is being built takes no damage and no repair.
pub proof fn law_construction_is_safe(
    c: Cannon,
    d: Cannon,
    weap: Weapon,
    side: i32,
    row: WeaponDamage,
    diff: Difficulty,
    now: i64,
)
    requires
        d == c.with_combat(
            (Combat {
                state: CannonState::UnderConstruction,
                invulnerable: true,
                hit_point: 0,
                ..c.combat
            }),
        ),
        weap != Weapon::InstantDeath,
    ensures
        d.combat.after(weap, side, row, diff, now) == d.combat,
        !d.combat.outcome(weap, side, row, diff, now).gone,
{
}

/// A construction only adds hit points, never more than the most, and when it
/// is done the cannon works, has all its hit points and can be hit.
pub proof fn law_construction_ramps(c: Combat, p: Progress, q: Progress)
    requires
        c.state == CannonState::UnderConstruction,
        c.hit_point_max >= 0,
        p.done <= q.done,
        p.total == q.total,
        1 <= q.total,
    ensures
        0 <= constructed(c, p).hit_point <= constructed(c, q).hit_point <= c.hit_point_max,
        q.done >= q.total ==> constructed(c, q).hit_point == c.hit_point_max && constructed(
            c,
            q,
        ).state == CannonState::Idle && !constructed(c, q).invulnerable,
        q.done < q.total ==> constructed(c, q).state == CannonState::UnderConstruction,
{
    let (m, a, b, t) = (c.hit_point_max as int, p.done as int, q.done as int, q.total as int);
    if 0 < a && a < t {
        assert(0 <= (m * a) / t <= m) by (nonlinear_arith)
            requires
                0 <= m,
                0 <= a <= t,
                1 <= t,
        ;
    }
    if 0 < b && b < t {
        assert(0 <= (m * b) / t <= m) by (nonlinear_arith)
            requires
                0 <= m,
                0 <= b <= t,
                1 <= t,
        ;
    }
    if 0 < a && b < t {
        assert((m * a) / t <= (m * b) / t) by (nonlinear_arith)
            requires
                0 <= m,
                0 <= a <= b,
                1 <= t,
        ;
    }
}

/// A repair never takes hit points and never gives more than the most.
pub proof fn law_repair_is_bounded(
    c: Combat,
    side: i32,
    row: WeaponDamage,
    d: Difficulty,
    now: i64,
)
    requires
        c.hit_point <= c.hit_point_max,
        row.damage >= 0,
        row.friend_damage >= 0,
    ensures
        c.hit_point <= c.after(Weapon::Repair, side, row, d, now).hit_point <= c.hit_point_max,
        !c.outcome(Weapon::Repair, side, row, d, now).boom,
{
}

/// A cannon with hit points left is never a wreck after a hit, and one without
/// is, unless it was destroyed outright.
pub proof fn law_dead_means_wreck(
    c: Combat,
    weap: Weapon,
    side: i32,
    row: WeaponDamage,
    d: Difficulty,
    now: i64,
)
    requires
        c.takes(weap),
    ensures
        (c.after(weap, side, row, d, now).state == CannonState::Dip) == (c.after(
            weap,
            side,
            row,
            d,
            now,
        ).hit_point <= 0),
        c.outcome(weap, side, row, d, now).gone == (c.after(weap, side, row, d, now).state
            == CannonState::Dip),
{
}

/// No cannon burns for longer than the longest fire after flames hit it.
pub proof fn law_fire_is_bounded(
    c: Combat,
    side: i32,
    row: WeaponDamage,
    d: Difficulty,
    now: i64,
)
    requires
        c.takes(Weapon::Flamethrower),
    ensures
        c.after(Weapon::Flamethrower, side, row, d, now).ablaze_ttl <= ABLAZE_MAX_MS,
        c.ablaze_ttl <= ABLAZE_MAX_MS - ABLAZE_ADD_MS ==> c.after(
            Weapon::Flamethrower,
            side,
            row,
            d,
            now,
        ).ablaze_ttl == c.ablaze_ttl + ABLAZE_ADD_MS,
{
}

/// A cannon never aims at its own side, nor at anything it does not see.
pub proof fn law_target_is_seen_enemy(cs: Seq<Candidate>, side: i32, fire: u32, seek: u32, n: int)
    requires
        0 <= n <= cs.len(),
        choice_after(cs, side, fire, seek, n).target is Some,
    ensures
        exists|i: int|
            0 <= i < n && (#[trigger] cs[i]).side != side && in_sight(cs[i])
                && choice_after(cs, side, fire, seek, n) == (Choice {
                target: Some(cs[i].id),
                distance: cs[i].distance,
                alignment: cs[i].alignment,
            }),
    decreases n,
{
    if n > 0 {
        let ch = choice_after(cs, side, fire, seek, n - 1);
        if is_better(cs[n - 1], ch, side, fire) {
            assert(cs[n - 1].side != side);
        } else {
            law_target_is_seen_enemy(cs, side, fire, seek, n - 1);
        }
    }
}

/// Once a target within the range of fire is chosen, no target out of it
/// replaces it, where none lies exactly at the range.
pub proof fn law_range_is_kept(cs: Seq<Candidate>, side: i32, fire: u32, seek: u32, m: int, n: int)
    requires
        0 <= m <= n <= cs.len(),
        float_bits::lt_spec(choice_after(cs, side, fire, seek, m).distance, fire),
        forall|i: int|
            m <= i < n ==> float_bits::lt_spec((#[trigger] cs[i]).distance, fire)
                || float_bits::lt_spec(fire, cs[i].distance),
    ensures
        float_bits::lt_spec(choice_after(cs, side, fire, seek, n).distance, fire),
    decreases n - m,
{
    if m < n {
        law_range_is_kept(cs, side, fire, seek, m, n - 1);
        let c = cs[n - 1];
        assert(float_bits::lt_spec(c.distance, fire) || float_bits::lt_spec(fire, c.distance));
    }
}

/// The cannon after turns without fire, of these lengths.
pub open spec fn after_holds(c: Cannon, takts: Seq<i32>) -> Cannon
    decreases takts.len(),
{
    if takts.len() == 0 {
        c
    } else {
        after_hold(after_holds(c, takts.drop_last()), takts.last())
    }
}

/// How long these turns are together.
pub open spec fn length_of(takts: Seq<i32>) -> int
    decreases takts.len(),
{
    if takts.len() == 0 {
        0
    } else {
        length_of(takts.drop_last()) + takts.last()
    }
}

/// Without a target the weapons of a cannon go on for a time and then fall
/// silent: what is left of the time is what the turns have not used up, they
/// stop in the turn that uses up the last of it, and in no other.
pub proof fn law_weapons_fall_silent(c: Cannon, takts: Seq<i32>, next: i32)
    requires
        c.null_target_time >= 0,
        next >= 0,
        forall|i: int| 0 <= i < takts.len() ==> #[trigger] takts[i] >= 0,
    ensures
        length_of(takts) >= 0,
        after_holds(c, takts).null_target_time == if length_of(takts) < c.null_target_time {
            c.null_target_time - length_of(takts)
        } else {
            0
        },
        stops_now(after_holds(c, takts), next) == (length_of(takts) < c.null_target_time
            <= length_of(takts) + next),
    decreases takts.len(),
{
    if takts.len() > 0 {
        law_weapons_fall_silent(c, takts.drop_last(), takts.last());
    }
}

/// A cannon that a hit destroys has lost its weapons and has at least its three
/// pieces, so its wreck is not done yet.
pub proof fn law_wreck_has_pieces(
    before: Cannon,
    after: Cannon,
    w: Scatter,
    weap: Weapon,
    side: i32,
    row: WeaponDamage,
    d: Difficulty,
    now: i64,
)
    requires
        before.combat.outcome(weap, side, row, d, now).boom,
        after.combat == before.combat.after(weap, side, row, d, now),
        after.dip_units@ == before.dip_units@ + new_pieces(before.angle, w, true),
    ensures
        after.combat.state == CannonState::Dip,
        after.dip_units@.len() == before.dip_units@.len() + 3,
        ({
            let n = before.dip_units@.len() as int;
            &&& after.dip_units@[n].part == CannonDipPart::Basis
            &&& after.dip_units@[n + 1].part == CannonDipPart::Turret
            &&& after.dip_units@[n + 2].part == CannonDipPart::Shaft
        }),
{
}

/// An enemy that the cannon sees: units and land end a trace at it, and nothing
/// else stands before it.
pub open spec fn seen_enemy(c: Candidate, side: i32) -> bool {
    c.side != side && c.through_units == TraceStop::Object(c.id) && c.through_blocks
        == TraceStop::Nothing
}

/// Candidate `j` is the one to aim at among the first `n`: an enemy in sight,
/// within the range of fire if any is, better in line than those before it and no
/// worse than those behind it.
pub open spec fn is_best(cs: Seq<Candidate>, side: i32, fire: u32, n: int, j: int) -> bool {
    let near = |i: int| float_bits::lt_spec(cs[i].distance, fire);
    let any_near = exists|i: int|
        0 <= i < n && seen_enemy(#[trigger] cs[i], side) && float_bits::lt_spec(
            cs[i].distance,
            fire,
        );
    &&& 0 <= j < n
    &&& seen_enemy(cs[j], side)
    &&& any_near ==> near(j)
    &&& forall|i: int|
        0 <= i < n && seen_enemy(#[trigger] cs[i], side) && near(i) == near(j)
            ==> !float_bits::lt_spec(cs[j].alignment, cs[i].alignment)
    &&& forall|i: int|
        0 <= i < j && seen_enemy(#[trigger] cs[i], side) && near(i) == near(j)
            ==> float_bits::lt_spec(cs[i].alignment, cs[j].alignment)
}

/// A cannon aims at the enemy in sight that is best in line with its barrels, the
/// first of equals; those within the range of fire go before those beyond it. It
/// aims at nothing exactly when it sees no enemy. This holds where sight reaches
/// farther than fire, nobody stands exactly at the range of fire, and nobody
/// exactly behind the barrels.
pub proof fn law_aims_at_best(cs: Seq<Candidate>, side: i32, fire: u32, seek: u32, n: int)
    requires
        0 <= n <= cs.len(),
        float_bits::lt_spec(fire, seek),
        forall|i: int|
            0 <= i < cs.len() ==> (float_bits::lt_spec((#[trigger] cs[i]).distance, fire)
                || float_bits::lt_spec(fire, cs[i].distance)) && float_bits::lt_spec(
                0xbf80_0000,
                cs[i].alignment,
            ),
    ensures
        (choice_after(cs, side, fire, seek, n).target is None) <==> (forall|i: int|
            0 <= i < n ==> !seen_enemy(#[trigger] cs[i], side)),
        choice_after(cs, side, fire, seek, n).target matches Some(t) ==> exists|j: int|
            {
                &&& #[trigger] is_best(cs, side, fire, n, j)
                &&& cs[j].id == t
                &&& choice_after(cs, side, fire, seek, n).distance == cs[j].distance
                &&& choice_after(cs, side, fire, seek, n).alignment == cs[j].alignment
            },
        choice_after(cs, side, fire, seek, n).target is None ==> choice_after(
            cs,
            side,
            fire,
            seek,
            n,
        ) == (Choice { target: None, distance: seek, alignment: 0xbf80_0000 }),
    decreases n,
{
    if n > 0 {
        let m = n - 1;
        law_aims_at_best(cs, side, fire, seek, m);
        let ch = choice_after(cs, side, fire, seek, m);
        let c = cs[m];
        assert(float_bits::lt_spec(c.distance, fire) || float_bits::lt_spec(fire, c.distance));
        if ch.target is None {
            if seen_enemy(c, side) {
                assert(is_best(cs, side, fire, n, m));
            }
        } else {
            let j = choose|j: int|
                #[trigger] is_best(cs, side, fire, m, j) && cs[j].id == ch.target->0 && ch.distance
                    == cs[j].distance && ch.alignment == cs[j].alignment;
            assert(float_bits::lt_spec(cs[j].distance, fire) || float_bits::lt_spec(
                fire,
                cs[j].distance,
            ));
            assert(float_bits::lt_spec(0xbf80_0000, cs[j].alignment));
            let nj = float_bits::lt_spec(cs[j].distance, fire);
            let nm = float_bits::lt_spec(c.distance, fire);
            if seen_enemy(c, side) && is_better(c, ch, side, fire) {
                assert(nj ==> nm);
                assert forall|i: int| 0 <= i < m && seen_enemy(#[trigger] cs[i], side)
                    && float_bits::lt_spec(cs[i].distance, fire) == nm implies float_bits::lt_spec(
                    cs[i].alignment,
                    c.alignment,
                ) by {
                    if nj == nm {
                        assert(!float_bits::lt_spec(cs[j].alignment, cs[i].alignment));
                        assert(float_bits::lt_spec(0xbf80_0000, cs[i].alignment));
                    } else {
                        assert(float_bits::lt_spec(cs[i].distance, fire));
                    }
                }
                assert(is_best(cs, side, fire, n, m));
            } else {
                if seen_enemy(c, side) {
                    assert(nm ==> nj);
                }
                assert(is_best(cs, side, fire, n, j));
            }
        }
    }
}

/// A repair gives a working cannon the points of its row, those for friends to
/// its own side and the others to everybody else, and never more than the most it
/// can have. Nothing else about it changes, and nobody is credited.
pub proof fn law_repair_gives_its_points(
    c: Combat,
    side: i32,
    row: WeaponDamage,
    d: Difficulty,
    now: i64,
)
    requires
        c.state != CannonState::Dip,
        !c.invulnerable,
        0 <= c.hit_point <= c.hit_point_max,
        row.damage >= 0,
        row.friend_damage >= 0,
    ensures
        ({
            let r = c.after(Weapon::Repair, side, row, d, now);
            let o = c.outcome(Weapon::Repair, side, row, d, now);
            let points = if side != 0 && side == c.side {
                row.friend_damage as int
            } else {
                row.damage as int
            };
            let wanted = c.hit_point + 1000 * points;
            &&& wanted <= c.hit_point_max ==> r.hit_point == wanted
            &&& wanted > c.hit_point_max ==> r.hit_point == c.hit_point_max
            &&& points == 0 ==> r == c
            &&& r == (Combat { hit_point: r.hit_point, ..c })
            &&& !o.gone && !o.boom && !o.impact && !o.fire_end && o.credit is None
        }),
{
}

/// Two repairs do what one repair of both amounts does.
pub proof fn law_repairs_add_up(
    c: Combat,
    side: i32,
    a: WeaponDamage,
    b: WeaponDamage,
    both: WeaponDamage,
    d: Difficulty,
    now: i64,
)
    requires
        c.state != CannonState::Dip,
        !c.invulnerable,
        0 <= c.hit_point <= c.hit_point_max,
        a.damage >= 0 && b.damage >= 0 && both.damage == a.damage + b.damage,
        a.friend_damage >= 0 && b.friend_damage >= 0,
        both.friend_damage == a.friend_damage + b.friend_damage,
    ensures
        c.after(Weapon::Repair, side, a, d, now).after(Weapon::Repair, side, b, d, now) == c.after(
            Weapon::Repair,
            side,
            both,
            d,
            now,
        ),
{
}

/// A hit takes the points of its row from a cannon that has more than the least
/// that the weapon leaves: those for friends from its own side, the others from
/// everybody else. Only the player's cannons are spared, by the factor for
/// friends or for enemies. It costs nothing to a cannon at or below that least.
pub proof fn law_hit_takes_its_points(
    c: Combat,
    weap: Weapon,
    side: i32,
    row: WeaponDamage,
    d: Difficulty,
    now: i64,
)
    requires
        c.state != CannonState::Dip,
        !c.invulnerable,
        weap != Weapon::Repair,
        weap != Weapon::InstantDeath,
        -0x1000_0000_0000_0000 <= c.hit_point <= 0x1000_0000_0000_0000,
    ensures
        ({
            let r = c.after(weap, side, row, d, now);
            let friend = side != 0 && side == c.side;
            let points = if friend {
                row.friend_damage as int
            } else {
                row.damage as int
            };
            let share = if c.side != 1 {
                1000
            } else if friend {
                d.k_friendly_fire as int
            } else {
                d.k_damage_enemy_to_player as int
            };
            &&& c.hit_point > 1000 * row.mindamage ==> r.hit_point == c.hit_point - share * points
            &&& c.hit_point <= 1000 * row.mindamage ==> r.hit_point == c.hit_point
            &&& r.hit_point_max == c.hit_point_max
            &&& r.side == c.side
            &&& r.invulnerable == c.invulnerable
            &&& r.hit_point > 0 ==> r.state == c.state
            &&& r.hit_point <= 0 ==> r.state == CannonState::Dip
        }),
{
    let friend = side != 0 && side == c.side;
    let points: int = if friend {
        row.friend_damage as int
    } else {
        row.damage as int
    };
    let share: int = if c.side != 1 {
        1000
    } else if friend {
        d.k_friendly_fire as int
    } else {
        d.k_damage_enemy_to_player as int
    };
    assert(-0x4000_0000_0000_0000 <= share * points <= 0x4000_0000_0000_0000) by (nonlinear_arith)
        requires
            -0x8000_0000 <= share <= 0x7fff_ffff,
            -0x8000_0000 <= points <= 0x7fff_ffff,
    ;
}

/// The hit that destroys a cannon is reported as such, once, and counts for the
/// attacker's side; not for its own side, not for nobody's, and not when it is
/// destroyed outright. An impact is seen of hits that do not destroy and are
/// neither fire nor lightning, and only lightning ends its fire.
pub proof fn law_last_hit_is_credited(
    c: Combat,
    weap: Weapon,
    side: i32,
    row: WeaponDamage,
    d: Difficulty,
    now: i64,
)
    requires
        c.state != CannonState::Dip,
    ensures
        ({
            let r = c.after(weap, side, row, d, now);
            let o = c.outcome(weap, side, row, d, now);
            let burns = weap == Weapon::Ablaze || weap == Weapon::Shorted || weap
                == Weapon::Lightening || weap == Weapon::Flamethrower;
            &&& o.boom == (r.state == CannonState::Dip)
            &&& o.gone == o.boom
            &&& o.credit is Some ==> o.credit == Some(side) && o.boom
            &&& o.boom && weap != Weapon::InstantDeath && side != 0 && side != c.side ==> o.credit
                == Some(side)
            &&& side == c.side || side == 0 || weap == Weapon::InstantDeath ==> o.credit is None
            &&& weap == Weapon::InstantDeath ==> o.boom && r.hit_point == c.hit_point
            &&& o.impact ==> !o.boom && !burns
            &&& !c.invulnerable && !o.boom && !burns && weap != Weapon::Repair ==> o.impact
            &&& o.fire_end == (weap == Weapon::Lightening && !c.invulnerable)
        }),
{
}

/// An invulnerable cannon is only touched by what destroys outright.
pub proof fn law_invulnerable(
    c: Combat,
    weap: Weapon,
    side: i32,
    row: WeaponDamage,
    d: Difficulty,
    now: i64,
)
    requires
        c.invulnerable,
        weap != Weapon::InstantDeath,
    ensures
        c.after(weap, side, row, d, now) == c,
        !c.outcome(weap, side, row, d, now).gone,
        !c.outcome(weap, side, row, d, now).boom,
        c.outcome(weap, side, row, d, now).credit is None,
{
}

/// Flames set a cannon on fire and lightning shorts it out, from that moment on
/// and in the name of the attacker's side; every other hit leaves both as they
/// were and clears the name. Flames add three tenths of a second to the fire, up
/// to five seconds, lightning half a second to the short circuit.
pub proof fn law_flames_and_lightning_mark(
    c: Combat,
    weap: Weapon,
    side: i32,
    row: WeaponDamage,
    d: Difficulty,
    now: i64,
)
    requires
        c.state != CannonState::Dip,
        !c.invulnerable,
        weap != Weapon::Repair,
        weap != Weapon::InstantDeath,
        c.ablaze_ttl <= i32::MAX - 300,
        c.shorted_ttl <= i32::MAX - 500,
    ensures
        ({
            let r = c.after(weap, side, row, d, now);
            let flame = weap == Weapon::Flamethrower;
            let bolt = weap == Weapon::Lightening;
            &&& r.object_state == if flame {
                c.object_state | OBJECT_STATE_ABLAZE
            } else if bolt {
                c.object_state | OBJECT_STATE_SHORTED
            } else {
                c.object_state
            }
            &&& flame ==> r.next_time_ablaze == now && r.ablaze_ttl <= 5000 && (r.ablaze_ttl
                == c.ablaze_ttl + 300 || (r.ablaze_ttl == 5000 && c.ablaze_ttl + 300 >= 5000))
            &&& !flame ==> r.next_time_ablaze == c.next_time_ablaze && r.ablaze_ttl == c.ablaze_ttl
            &&& bolt ==> r.next_time_shorted == now && r.shorted_ttl == c.shorted_ttl + 500
            &&& !bolt ==> r.next_time_shorted == c.next_time_shorted && r.shorted_ttl
                == c.shorted_ttl
            &&& r.last_delay_damage_side == if flame || bolt {
                side
            } else {
                0
            }
        }),
{
}

/// What one moment of fire takes from a cannon, in thousandths.
pub open spec fn bite(c: Combat, side: i32, row: WeaponDamage, d: Difficulty) -> int {
    let friend = side != 0 && side == c.side;
    let points = if friend {
        row.friend_damage as int
    } else {
        row.damage as int
    };
    let share = if c.side != 1 {
        1000
    } else if friend {
        d.k_friendly_fire as int
    } else {
        d.k_damage_enemy_to_player as int
    };
    share * points
}

proof fn lemma_burned(c: Combat, side: i32, dd: DelayDamage, now: i64, n: nat)
    requires
        c.state == CannonState::Idle,
        !c.invulnerable,
        dd.ablaze.mindamage <= 0,
        0 < bite(c, side, dd.ablaze, dd.difficulty) <= 0x1000_0000_0000_0000,
        n * bite(c, side, dd.ablaze, dd.difficulty) < c.hit_point <= 0x1000_0000_0000_0000,
    ensures
        !scorched(c, side, dd, now, n),
        burned(c, side, dd, now, n) == (Combat {
            hit_point: (c.hit_point - n * bite(c, side, dd.ablaze, dd.difficulty)) as i64,
            last_delay_damage_side: if n > 0 {
                0
            } else {
                c.last_delay_damage_side
            },
            ..c
        }),
    decreases n,
{
    let b = bite(c, side, dd.ablaze, dd.difficulty);
    if n > 0 {
        let m = (n - 1) as nat;
        assert(n * b == m * b + b) by (nonlinear_arith)
            requires
                n == m + 1,
        ;
        assert(m * b >= 0) by (nonlinear_arith)
            requires
                b > 0,
        ;
        lemma_burned(c, side, dd, now, m);
    } else {
        assert(n * b == 0) by (nonlinear_arith)
            requires
                n == 0,
        ;
    }
}

/// A step of a fire bites nine times, in the name of whoever lit it: a cannon that
/// outlives it has lost nine times the points of the fire's row and burns on, its
/// next step due ninety milliseconds later.
pub proof fn law_fire_bites_nine_times(c: Combat, dd: DelayDamage, now: i64)
    requires
        c.state == CannonState::Idle,
        !c.invulnerable,
        dd.ablaze.mindamage <= 0,
        c.next_time_ablaze <= i64::MAX - 90,
        0 < bite(c, c.last_delay_damage_side, dd.ablaze, dd.difficulty) <= 0x1000_0000_0000_0000,
        9 * bite(c, c.last_delay_damage_side, dd.ablaze, dd.difficulty) < c.hit_point
            <= 0x1000_0000_0000_0000,
    ensures
        !fire_step_kills(c, dd, now),
        fire_step(c, dd, now).hit_point == c.hit_point - 9 * bite(
            c,
            c.last_delay_damage_side,
            dd.ablaze,
            dd.difficulty,
        ),
        fire_step(c, dd, now).state == c.state,
        fire_step(c, dd, now).next_time_ablaze == c.next_time_ablaze + 90,
        fire_step(c, dd, now).next_time_shorted == c.next_time_shorted,
        fire_step(c, dd, now).object_state == c.object_state,
{
    let c1 = Combat { next_time_ablaze: (c.next_time_ablaze + ABLAZE_STEP_MS) as i64, ..c };
    lemma_burned(c1, c.last_delay_damage_side, dd, now, 9);
}

/// A short circuit bites once in each of its steps, which are fifty milliseconds
/// apart, and destroys the cannon exactly when no points are left.
pub proof fn law_short_bites_once(c: Combat, dd: DelayDamage, now: i64)
    requires
        c.state == CannonState::Idle,
        !c.invulnerable,
        dd.shorted.mindamage <= 0,
        c.next_time_shorted <= i64::MAX - 50,
        0 < bite(c, c.last_delay_damage_side, dd.shorted, dd.difficulty) <= 0x1000_0000_0000_0000,
        0 < c.hit_point <= 0x1000_0000_0000_0000,
    ensures
        ({
            let s = short_step(c, dd, now);
            let left = c.hit_point - bite(
                c,
                c.last_delay_damage_side,
                dd.shorted,
                dd.difficulty,
            );
            &&& s.hit_point == left
            &&& (s.state == CannonState::Dip) == (left <= 0)
            &&& s.next_time_shorted == c.next_time_shorted + 50
            &&& s.next_time_ablaze == c.next_time_ablaze
            &&& short_kills(c, dd, now, 1) == (left <= 0)
            &&& short_steps(c, dd, now, 1) == s
        }),
{
    reveal_with_fuel(short_steps, 2);
    reveal_with_fuel(short_kills, 2);
}

/// As many steps of a fire are taken as have come due: after a turn that the
/// cannon outlives, the next step lies at or behind the clock, and the last one
/// that was taken lay before it.
pub proof fn law_fire_keeps_time(
    c: Combat,
    d: Combat,
    r: DelayOutcome,
    dd: DelayDamage,
    now: i64,
)
    requires
        burnt(c, d, r, dd, now),
        c.object_state & OBJECT_STATE_ABLAZE != 0,
        now <= i64::MAX - 90,
        !r.gone,
    ensures
        d.next_time_ablaze == c.next_time_ablaze + 90 * r.steps,
        now <= c.next_time_ablaze ==> r.steps == 0 && d == c,
        now > c.next_time_ablaze ==> r.steps > 0,
        now <= d.next_time_ablaze,
        r.steps > 0 ==> d.next_time_ablaze - 90 < now,
{
    lemma_fire_clock(c, dd, now, r.steps as nat);
}

proof fn lemma_fire_clock(c: Combat, dd: DelayDamage, now: i64, n: nat)
    requires
        !fire_kills(c, dd, now, n),
        now <= i64::MAX - 90,
        n > 0 ==> now > c.next_time_ablaze + (n - 1) * 90,
    ensures
        fire_steps(c, dd, now, n).next_time_ablaze == c.next_time_ablaze + 90 * n,
    decreases n,
{
    if n > 0 {
        let m = (n - 1) as nat;
        if m > 0 {
            assert(c.next_time_ablaze + (m - 1) * 90 < now) by (nonlinear_arith)
                requires
                    now > c.next_time_ablaze + m * 90,
            ;
        }
        lemma_fire_clock(c, dd, now, m);
        let b = fire_steps(c, dd, now, m);
        let b1 = Combat { next_time_ablaze: (b.next_time_ablaze + ABLAZE_STEP_MS) as i64, ..b };
        lemma_burned_clock(b1, b.last_delay_damage_side, dd, now, ABLAZE_HITS as nat);
    }
}

proof fn lemma_burned_clock(c: Combat, side: i32, dd: DelayDamage, now: i64, n: nat)
    ensures
        burned(c, side, dd, now, n).next_time_ablaze == c.next_time_ablaze,
    decreases n,
{
    if n > 0 {
        lemma_burned_clock(c, side, dd, now, (n - 1) as nat);
    }
}

/// The same of a short circuit.
pub proof fn law_short_keeps_time(
    c: Combat,
    d: Combat,
    r: DelayOutcome,
    dd: DelayDamage,
    now: i64,
)
    requires
        shorted_out(c, d, r, dd, now),
        c.object_state & OBJECT_STATE_SHORTED != 0,
        now <= i64::MAX - 50,
        !r.gone,
    ensures
        d.next_time_shorted == c.next_time_shorted + 50 * r.steps,
        now <= c.next_time_shorted ==> r.steps == 0 && d == c,
        now > c.next_time_shorted ==> r.steps > 0,
        now <= d.next_time_shorted,
        r.steps > 0 ==> d.next_time_shorted - 50 < now,
{
    lemma_short_clock(c, dd, now, r.steps as nat);
}

proof fn lemma_short_clock(c: Combat, dd: DelayDamage, now: i64, n: nat)
    requires
        !short_kills(c, dd, now, n),
        now <= i64::MAX - 50,
        n > 0 ==> now > c.next_time_shorted + (n - 1) * 50,
    ensures
        short_steps(c, dd, now, n).next_time_shorted == c.next_time_shorted + 50 * n,
    decreases n,
{
    if n > 0 {
        let m = (n - 1) as nat;
        if m > 0 {
            assert(c.next_time_shorted + (m - 1) * 50 < now) by (nonlinear_arith)
                requires
                    now > c.next_time_shorted + m * 50,
            ;
        }
        lemma_short_clock(c, dd, now, m);
    }
}

/// A fire that destroys a cannon counts for whoever lit it, unless that is its own
/// side or nobody. A cannon that is not on fire is not touched.
pub proof fn law_fire_is_credited(c: Combat, d: Combat, r: DelayOutcome, dd: DelayDamage, now: i64)
    requires
        burnt(c, d, r, dd, now),
        c.state == CannonState::Idle,
    ensures
        c.object_state & OBJECT_STATE_ABLAZE == 0 ==> d == c && !r.gone && !r.boom && r.credit
            is None,
        r.boom == r.gone,
        r.steps == 1 && r.boom ==> r.credit == (if c.last_delay_damage_side != 0
            && c.last_delay_damage_side != c.side {
            Some(c.last_delay_damage_side)
        } else {
            None
        }),
        !r.boom ==> r.credit is None,
{
}

/// A cannon under construction has the part of its hit points that goes with the
/// part of the work that is done: never a whole thousandth more, never one less.
/// Work that has not begun gives none, and a cannon that is not being built is
/// left alone.
pub proof fn law_construction_share(c: Combat, p: Progress)
    requires
        c.hit_point_max >= 0,
        1 <= p.total,
    ensures
        ({
            let r = constructed(c, p);
            &&& c.state != CannonState::UnderConstruction ==> r == c
            &&& c.state == CannonState::UnderConstruction ==> {
                &&& r.hit_point_max == c.hit_point_max && r.side == c.side
                &&& p.done <= 0 ==> r.hit_point == 0
                &&& 0 <= p.done < p.total ==> {
                    &&& r.hit_point * p.total <= c.hit_point_max * p.done
                    &&& c.hit_point_max * p.done < (r.hit_point + 1) * p.total
                    &&& r.invulnerable == c.invulnerable
                    &&& r.state == c.state
                }
                &&& p.done >= p.total ==> r.hit_point == c.hit_point_max && !r.invulnerable
                    && r.state == CannonState::Idle
            }
        }),
{
    let (m, a, t) = (c.hit_point_max as int, p.done as int, p.total as int);
    if 0 < a && a < t {
        let q = (m * a) / t;
        assert(0 <= q <= m && q * t <= m * a && m * a < (q + 1) * t) by (nonlinear_arith)
            requires
                0 <= m,
                0 < a < t,
                q == (m * a) / t,
        ;
    } else {
        assert(0 * t == 0 && m * 0 == 0 && (0 + 1) * t == t) by (nonlinear_arith);
    }
}

/// A cannon has two weapons for the twin barrels of the first and the last kind
/// and one for the others. It wants them once it has a handle, and none while it
/// has any.
pub proof fn law_one_weapon_for_each_barrel(c: Cannon, has_weapon: bool)
    requires
        1 <= c.kind <= 4,
    ensures
        ({
            let n = weapons_missing(c, has_weapon);
            &&& c.weapons@.len() > 0 ==> n == 0
            &&& c.self_id is None ==> n == 0
            &&& !has_weapon ==> n == 0
            &&& c.weapons@.len() == 0 && c.self_id is Some && has_weapon ==> n == (if c.kind == 1
                || c.kind == 4 {
                2
            } else {
                1usize
            })
        }),
{
}

/// A look is due when its time has passed, and again when it lies more than a
/// tenth of a second ahead; right after a look none is due for a tenth of a
/// second.
pub proof fn law_looks_ten_times_a_second(now: i64, later: i64)
    requires
        now <= i64::MAX - 100,
    ensures
        now <= later <= now + 100 ==> !think_due_spec((now + 100) as i64, later),
        later > now + 100 ==> think_due_spec((now + 100) as i64, later),
        later < now ==> think_due_spec((now + 100) as i64, later),
{
}

/// In the turn of a look the cannon turns to what it found and aims straight at
/// it; in other turns it keeps its target and how it aims. Either way a target
/// that is gone is forgotten, and nothing else about the cannon changes.
pub proof fn law_thinking_sets_target<T>(
    c: Cannon,
    v: ArenaView<T>,
    now: i64,
    cs: Seq<Candidate>,
    fire: u32,
    seek: u32,
)
    requires
        now <= i64::MAX - 100,
    ensures
        ({
            let r = thought(c, v, now, cs, fire, seek);
            let due = think_due_spec(c.fire_next_think_time, now);
            let wanted = if due {
                choice_after(cs, c.combat.side, fire, seek, cs.len() as int).target
            } else {
                c.target
            };
            &&& r.target is Some ==> r.target == wanted && v.is_valid(r.target->0)
            &&& wanted is Some && v.is_valid(wanted->0) ==> r.target == wanted
            &&& due ==> r.fire_next_think_time == now + 100 && r.target_disp == (Pos3 {
                x: 0,
                y: 0,
                z: 0,
            })
            &&& !due ==> r.fire_next_think_time == c.fire_next_think_time && r.target_disp
                == c.target_disp
            &&& r.combat == c.combat && r.weapons == c.weapons && r.turret_angle == c.turret_angle
                && r.angle_x == c.angle_x && r.null_target_time == c.null_target_time
                && r.time_from_fire == c.time_from_fire
        }),
{
}

/// A cannon that eases in snaps to a direction that is near enough and closes part
/// of the gap otherwise. One that turns in steps turns all the way when the gap is
/// within its reach, and otherwise by one step towards the direction: back for a
/// gap below zero, forward for one above. The gap's size is what counts, not its
/// sign.
pub proof fn law_turns_towards_target(da: u32, max_da: u32, reach: u32, least: u32, t: Turns)
    requires
        !float_bits::is_nan_spec(da),
        !float_bits::is_nan_spec(reach),
        !float_bits::is_nan_spec(least),
        !float_bits::is_nan_spec(max_da),
    ensures
        ({
            let r = aim_rule_spec(da, max_da, reach, least);
            let size = if float_bits::lt_spec(da, 0) {
                -float_bits::order_key(da)
            } else {
                float_bits::order_key(da)
            };
            let eases = float_bits::order_key(max_da) == 0;
            &&& eases && size < float_bits::order_key(least) ==> r == AimRule::Snap && turned_spec(
                r,
                t,
            ) == t.snap
            &&& eases && size >= float_bits::order_key(least) ==> r == AimRule::Ease && turned_spec(
                r,
                t,
            ) == t.ease
            &&& !eases && size < float_bits::order_key(reach) ==> r == AimRule::Reach
                && turned_spec(r, t) == t.reach
            &&& !eases && size >= float_bits::order_key(reach) && float_bits::lt_spec(da, 0) ==> r
                == AimRule::StepBack && turned_spec(r, t) == t.back
            &&& !eases && size >= float_bits::order_key(reach) && float_bits::lt_spec(0, da) ==> r
                == AimRule::StepForward && turned_spec(r, t) == t.forward
            &&& on_target(r) == if eases {
                size < float_bits::order_key(least)
            } else {
                size < float_bits::order_key(reach)
            }
        }),
{
}

/// Aiming turns the turret sideways and the barrels up and down, each by its own
/// rule, and makes the matrix stale; nothing else changes.
pub proof fn law_aim_turns_both(c: Cannon, yaw: (AimRule, Turns), pitch: (AimRule, Turns))
    ensures
        c.aimed(yaw, pitch).turret_angle == turned_spec(yaw.0, yaw.1),
        c.aimed(yaw, pitch).angle_x == turned_spec(pitch.0, pitch.1),
        c.aimed(yaw, pitch).angle == c.angle,
        c.aimed(yaw, pitch).target == c.target,
        c.aimed(yaw, pitch).combat == c.combat,
{
}

/// The cannon fires when it has just looked, is on target both ways, the target is
/// in range, and no barrel's shot would pass it by more than twice its radius. Any
/// one of these failing holds its fire.
pub proof fn law_fires_when_it_would_hit(looked: bool, yaw: AimRule, pitch: AimRule, m: Measure, i: int)
    ensures
        !looked ==> !wants_fire(looked, yaw, pitch, m),
        yaw == AimRule::Ease || yaw == AimRule::StepBack || yaw == AimRule::StepForward
            ==> !wants_fire(looked, yaw, pitch, m),
        pitch == AimRule::Ease || pitch == AimRule::StepBack || pitch == AimRule::StepForward
            ==> !wants_fire(looked, yaw, pitch, m),
        float_bits::lt_spec(m.range, m.distance) ==> !wants_fire(looked, yaw, pitch, m),
        0 <= i < m.misses@.len() && float_bits::lt_spec(m.twice_radius, m.misses@[i])
            ==> !wants_fire(looked, yaw, pitch, m),
        looked && (yaw == AimRule::Snap || yaw == AimRule::Reach) && (pitch == AimRule::Snap || pitch
            == AimRule::Reach) && float_bits::le_spec(m.distance, m.range) && (forall|k: int|
            0 <= k < m.misses@.len() ==> float_bits::le_spec(#[trigger] m.misses@[k], m.twice_radius))
            ==> wants_fire(looked, yaw, pitch, m),
{
    if 0 <= i < m.misses@.len() {
        let miss = m.misses@[i];
    }
}

/// A piece of a wreck goes when its time is up, with a boom, or when it falls into
/// deep water, with a splash. On land it comes to rest where it met it; against an
/// object it is thrown there and is about to go off; in the air it flies on. A
/// piece that lies still stays where it is.
pub proof fn law_pieces_fall(u: CannonDipUnit, ttl: u32, f: Flight)
    ensures
        ({
            let over = float_bits::le_spec(ttl, 0);
            let still = float_bits::eq_spec(u.velocity.x, 0) && float_bits::eq_spec(
                u.velocity.y,
                0,
            ) && float_bits::eq_spec(u.velocity.z, 0);
            let after = piece_after(u, ttl, f);
            let effect = piece_effect(u, ttl, f);
            &&& over ==> piece_goes(u, ttl, f) && effect == PieceEffect::Boom
            &&& !over && still ==> !piece_goes(u, ttl, f) && effect == PieceEffect::Nothing
                && after.pos == u.pos && after.velocity == u.velocity && after.ttl == ttl
                && after.freeze_t == u.freeze_t
            &&& !over && !still && f.stop == TraceStop::Water && f.submerged ==> piece_goes(
                u,
                ttl,
                f,
            ) && effect == PieceEffect::Splash
            &&& !over && !still && f.stop == TraceStop::Water && !f.submerged ==> !piece_goes(
                u,
                ttl,
                f,
            ) && effect == PieceEffect::Nothing && after.pos == f.pos && after.velocity
                == f.velocity
            &&& !over && !still && f.stop == TraceStop::Nothing ==> !piece_goes(u, ttl, f) && effect
                == PieceEffect::Nothing && after.pos == f.pos && after.velocity == f.velocity
                && after.ttl == ttl
            &&& !over && !still && f.stop == TraceStop::Landscape ==> !piece_goes(u, ttl, f)
                && effect == PieceEffect::Nothing && after.pos == f.hit && at_rest_spec(
                after.velocity,
            ) && after.freeze_t == Some(f.now) && after.ttl == ttl
            &&& !over && !still && f.stop is Object ==> !piece_goes(u, ttl, f) && effect
                == PieceEffect::Debris(f.stop->Object_0) && after.pos == f.hit && after.ttl
                == 0x3f80_0000
            &&& after.part == u.part && after.yaw == u.yaw && after.dp == u.dp && after.dy == u.dy
                && after.dr == u.dr
        }),
{
}

/// The hit point bar of a cannon runs out with the time, stays on while it is
/// built, and never goes below nothing.
pub proof fn law_bar_runs_out(c: Cannon, a: i32, b: i32)
    requires
        0 <= c.show_hitpoint_time,
        0 <= a,
        0 <= b,
        a + b <= i32::MAX,
    ensures
        c.combat.state == CannonState::UnderConstruction ==> shown_after(c, a).show_hitpoint_time
            > 0,
        c.combat.state != CannonState::UnderConstruction ==> {
            &&& shown_after(c, a).show_hitpoint_time == if a < c.show_hitpoint_time {
                c.show_hitpoint_time - a
            } else {
                0
            }
            &&& shown_after(shown_after(c, a), b) == shown_after(c, (a + b) as i32)
        },
        shown_after(c, a).combat == c.combat,
        shown_after(c, a).target == c.target,
{
}

/// A wreck has three pieces: the basis, which stays where it stands and as it is
/// turned, and the turret and the shaft, which fly off; none of them is frozen.
pub proof fn law_wreck_has_three_pieces(angle: u32, s: Scatter, i: int)
    ensures
        ({
            let w = wreck_pieces(angle, s);
            &&& w.len() == 3
            &&& w[0].part == CannonDipPart::Basis && w[0].pos == s.basis_pos && w[0].yaw == angle
                && w[0].ttl == s.basis_ttl
            &&& w[0].velocity == (Pos3 { x: 0, y: 0, z: 0 }) && w[0].dp == 0 && w[0].dy == 0
                && w[0].dr == 0
            &&& w[1].part == CannonDipPart::Turret && w[1].pos == s.turret.pos && w[1].velocity
                == s.turret.velocity && w[1].ttl == s.turret.ttl
            &&& w[1].dp == s.turret.dp && w[1].dy == s.turret.dy && w[1].dr == s.turret.dr
            &&& w[2].part == CannonDipPart::Shaft && w[2].pos == s.shaft.pos && w[2].velocity
                == s.shaft.velocity && w[2].ttl == s.shaft.ttl
            &&& w[2].dp == s.shaft.dp && w[2].dy == s.shaft.dy && w[2].dr == s.shaft.dr
            &&& w[1].yaw == 0 && w[2].yaw == 0
            &&& 0 <= i < 3 ==> w[i].freeze_t is None
        }),
        new_pieces(angle, s, false).len() == 0,
        new_pieces(angle, s, true) == wreck_pieces(angle, s),
{
}

/// A size does not depend on the sign.
pub proof fn law_sizes(b: u32)
    ensures
        abs_bits(b) < 0x8000_0000,
        b < 0x8000_0000 ==> abs_bits(b) == b && abs_bits((b + 0x8000_0000) as u32) == b,
        float_bits::value(abs_bits(b)) == float_bits::value(b) || float_bits::value(abs_bits(b))
            == -float_bits::value(b),
{
}

/// The four kinds of turret are told apart; numbers off the scale count as the
/// nearest.
pub proof fn law_turret_kinds(a: i32, b: i32)
    ensures
        1 <= a <= 4 ==> kind_index_spec(a) == a - 1,
        0 <= kind_index_spec(a) <= 3,
        a <= b ==> kind_index_spec(a) <= kind_index_spec(b),
{
}

/// A wreck takes neither hits nor repairs; another hit only finds it gone.
pub proof fn law_wreck_takes_nothing(
    c: Combat,
    weap: Weapon,
    side: i32,
    row: WeaponDamage,
    d: Difficulty,
    now: i64,
)
    requires
        c.state == CannonState::Dip,
    ensures
        c.after(weap, side, row, d, now) == c,
        ({
            let o = c.outcome(weap, side, row, d, now);
            &&& o.credit is None && !o.impact && !o.fire_end
            &&& weap != Weapon::InstantDeath ==> !o.boom && o.gone == !c.invulnerable
            &&& weap == Weapon::InstantDeath ==> o.boom && o.gone
        }),
{
}

/// A sure death leaves a wreck with the points it had, whatever protects the
/// cannon.
pub proof fn law_sure_death(c: Combat, side: i32, row: WeaponDamage, d: Difficulty, now: i64)
    ensures
        c.after(Weapon::InstantDeath, side, row, d, now) == (Combat {
            state: CannonState::Dip,
            ..c
        }),
        c.outcome(Weapon::InstantDeath, side, row, d, now).boom,
        c.outcome(Weapon::InstantDeath, side, row, d, now).gone,
        c.outcome(Weapon::InstantDeath, side, row, d, now).credit is None,
{
}

/// How one more candidate changes the choice. One that is no enemy in sight does
/// not. One within the range of fire takes the place of one beyond it, and one
/// beyond it never that of one within; otherwise the better one in line stays,
/// and of equals the one that was there.
pub proof fn law_next_candidate(cs: Seq<Candidate>, side: i32, fire: u32, seek: u32, n: int)
    requires
        0 <= n < cs.len(),
    ensures
        choice_after(cs, side, fire, seek, 0) == (Choice {
            target: None,
            distance: seek,
            alignment: 0xbf80_0000,
        }),
        ({
            let c = cs[n];
            let was = choice_after(cs, side, fire, seek, n);
            let now = choice_after(cs, side, fire, seek, n + 1);
            let chosen = Choice {
                target: Some(c.id),
                distance: c.distance,
                alignment: c.alignment,
            };
            let comes_within = float_bits::lt_spec(c.distance, fire) && float_bits::lt_spec(
                fire,
                was.distance,
            );
            let falls_beyond = float_bits::lt_spec(fire, c.distance) && float_bits::lt_spec(
                was.distance,
                fire,
            );
            &&& !seen_enemy(c, side) ==> now == was
            &&& seen_enemy(c, side) && comes_within ==> now == chosen
            &&& seen_enemy(c, side) && falls_beyond ==> now == was
            &&& seen_enemy(c, side) && !comes_within && !falls_beyond ==> now == if float_bits::lt_spec(
                was.alignment,
                c.alignment,
            ) {
                chosen
            } else {
                was
            }
        }),
{
}

/// A cannon lives until it is a wreck, under construction too, and takes up the
/// cells it was given.
pub proof fn law_cannon_lives(c: Cannon)
    ensures
        c.live() <==> c.combat.state == CannonState::Idle || c.combat.state
            == CannonState::UnderConstruction,
        c.cell_rect() == c.core.cells,
        c.status().obj_type == c.core.obj_type && c.status().object_state == c.combat.object_state
            && c.status().ablaze_ttl == c.combat.ablaze_ttl && c.status().shorted_ttl
            == c.combat.shorted_ttl && c.status().rchange == c.rchange,
{
}

proof fn lemma_burned_down(c: Combat, side: i32, dd: DelayDamage, now: i64, n: nat)
    requires
        c.state == CannonState::Idle,
        !c.invulnerable,
        dd.ablaze.mindamage <= 0,
        0 < bite(c, side, dd.ablaze, dd.difficulty) <= 0x1000_0000_0000_0000,
        0 < c.hit_point <= 0x1000_0000_0000_0000,
        c.hit_point <= n * bite(c, side, dd.ablaze, dd.difficulty),
    ensures
        scorched(c, side, dd, now, n),
        burned(c, side, dd, now, n).state == CannonState::Dip,
        -bite(c, side, dd.ablaze, dd.difficulty) < burned(c, side, dd, now, n).hit_point <= 0,
    decreases n,
{
    let b = bite(c, side, dd.ablaze, dd.difficulty);
    if n == 0 {
        assert(n * b == 0) by (nonlinear_arith)
            requires
                n == 0,
        ;
    } else {
        let m = (n - 1) as nat;
        assert(n * b == m * b + b) by (nonlinear_arith)
            requires
                n == m + 1,
        ;
        if c.hit_point <= m * b {
            lemma_burned_down(c, side, dd, now, m);
            lemma_burned_stops(c, side, dd, now, m, n);
        } else {
            lemma_burned(c, side, dd, now, m);
        }
    }
}

/// A fire kills in the step whose nine bites come to the points that are left,
/// and stops biting a wreck.
pub proof fn law_fire_kills(c: Combat, dd: DelayDamage, now: i64)
    requires
        c.state == CannonState::Idle,
        !c.invulnerable,
        dd.ablaze.mindamage <= 0,
        0 < bite(c, c.last_delay_damage_side, dd.ablaze, dd.difficulty) <= 0x1000_0000_0000_0000,
        0 < c.hit_point <= 0x1000_0000_0000_0000,
        c.hit_point <= 9 * bite(c, c.last_delay_damage_side, dd.ablaze, dd.difficulty),
    ensures
        fire_step_kills(c, dd, now),
        fire_step(c, dd, now).state == CannonState::Dip,
        -bite(c, c.last_delay_damage_side, dd.ablaze, dd.difficulty) < fire_step(
            c,
            dd,
            now,
        ).hit_point <= 0,
{
    let c1 = Combat { next_time_ablaze: (c.next_time_ablaze + ABLAZE_STEP_MS) as i64, ..c };
    lemma_burned_down(c1, c.last_delay_damage_side, dd, now, 9);
}

} // verus!
