//! Constants and small types shared by the game modules.
use vstd::prelude::*;

verus! {

/// What a trace or a search looks at, as a bit mask.
pub const TRACE_LANDSCAPE: u32 = 0x0000_0001;

pub const TRACE_WATER: u32 = 0x0000_0002;

pub const TRACE_ROBOT: u32 = 0x0000_0004;

pub const TRACE_BUILDING: u32 = 0x0000_0008;

pub const TRACE_OBJECT: u32 = 0x0000_0010;

pub const TRACE_CANNON: u32 = 0x0000_0020;

pub const TRACE_FLYER: u32 = 0x0000_0040;

/// Any object at all.
pub const TRACE_ANYOBJECT: u32 = 0x0000_007c;

/// Everything.
pub const TRACE_ALL: u32 = 0x0000_007f;

/// Test objects by their bounding sphere.
pub const TRACE_OBJECTSPHERE: u32 = 0x4000_0000;

/// Pass over objects that opted out of traces.
pub const TRACE_SKIP_INVISIBLE: u32 = 0x8000_0000;

/// Bit pattern of the height of the sea.
pub const WATER_LEVEL: u32 = 0xc000_0000;

/// Flags of a map cell.
pub const CELLFLAG_LAND: u8 = 0x01;

pub const CELLFLAG_WATER: u8 = 0x02;

/// All four corners have the same height.
pub const CELLFLAG_FLAT: u8 = 0x04;

/// A bridge deck covers the cell.
pub const CELLFLAG_BRIDGE: u8 = 0x08;

/// The point lies below the surface of its surroundings.
pub const CELLFLAG_DOWN: u8 = 0x10;

/// Cells along the edge of a map group.
pub const MAP_GROUP_SIZE: usize = 10;

/// The side of the local player.
pub const PLAYER_SIDE: i32 = 1;

/// How long a hit keeps the hit point bar on screen.
pub const HITPOINT_SHOW_TIME_MS: i32 = 1000;

/// How many weapons a robot carries at most.
pub const MAX_WEAPON_CNT: usize = 5;

/// The kind of a robot part, by its number; zero is none.
#[derive(Debug, Clone, Copy, PartialEq, Eq, Hash, Structural)]
pub struct RobotUnitKind(pub i32);

/// A point or direction in world space, each coordinate the bit pattern of a
/// single-precision number.
#[derive(Debug, Clone, Copy, PartialEq, Eq, Structural)]
pub struct Pos3 {
    pub x: u32,
    pub y: u32,
    pub z: u32,
}

/// What the weapons do to the objects of one class.
#[derive(Debug, Clone, Copy, PartialEq, Eq, Structural)]
pub struct WeaponDamage {
    pub damage: i32,
    pub mindamage: i32,
    pub friend_damage: i32,
}

/// The weapons that the damage rules tell apart.
#[derive(Debug, Clone, Copy, PartialEq, Eq, Structural)]
pub enum Weapon {
    Gun,
    BigBoom,
    Flamethrower,
    Lightening,
    Ablaze,
    Shorted,
    Debris,
    Repair,
    InstantDeath,
    /// Any other weapon, by its number.
    Other(u32),
}

/// A number held to thirty-two bits.
pub open spec fn held(v: int) -> i32 {
    if v > i32::MAX {
        i32::MAX
    } else if v < i32::MIN {
        i32::MIN
    } else {
        v as i32
    }
}

pub fn hold(v: i64) -> (r: i32)
    ensures
        r == held(v as int),
{
    if v > 0x7fff_ffff {
        0x7fff_ffff
    } else if v < -0x8000_0000 {
        -0x8000_0000
    } else {
        v as i32
    }
}

/// A number that fits is held as it is; one that does not becomes the nearest
/// that does, so that order is never turned round.
pub proof fn law_held_is_nearest(v: int, w: int)
    ensures
        i32::MIN <= v <= i32::MAX ==> held(v) == v,
        v <= w ==> held(v) <= held(w),
        v >= i32::MAX ==> held(v) == i32::MAX,
        v <= i32::MIN ==> held(v) == i32::MIN,
{
}

} // verus!
