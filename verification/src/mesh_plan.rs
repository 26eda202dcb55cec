//! Which meshes are drawn, and where their instances lie.
use crate::anim::AnimState;
use crate::arena::ObjectId;
use crate::float_bits;
use crate::object_building::{BuildingType, BASE_FLOOR_MS};
use crate::object_cannon::{kind_index, kind_index_spec, CannonDipPart};
use vstd::prelude::*;

verus! {

// ── Groups ──────────────────────────────────────────────────────────────
/// The things with the same key.
#[derive(Debug)]
pub struct KeyGroup {
    pub key: u32,
    /// Their numbers.
    pub members: Vec<usize>,
}

/// The numbers, among the first `n`, of the things with a key.
pub open spec fn members_with(keys: Seq<u32>, key: u32, n: int) -> Seq<usize>
    decreases n,
{
    if n <= 0 {
        Seq::empty()
    } else if keys[n - 1] == key {
        members_with(keys, key, n - 1).push((n - 1) as usize)
    } else {
        members_with(keys, key, n - 1)
    }
}

/// Keys grow from group to group, each group holds all things with its key, and
/// every key of the first `n` things has a group.
pub open spec fn are_groups(gs: Seq<KeyGroup>, keys: Seq<u32>, n: int) -> bool {
    &&& forall|a: int, b: int|
        0 <= a < b < gs.len() ==> (#[trigger] gs[a]).key < (#[trigger] gs[b]).key
    &&& forall|a: int|
        0 <= a < gs.len() ==> (#[trigger] gs[a]).members@ == members_with(keys, gs[a].key, n)
            && gs[a].members@.len() > 0
    &&& forall|k: int|
        0 <= k < n ==> exists|a: int|
            0 <= a < gs.len() && (#[trigger] gs[a]).key == #[trigger] keys[k]
}

proof fn lemma_no_members(keys: Seq<u32>, key: u32, n: int)
    requires
        forall|k: int| 0 <= k < n ==> #[trigger] keys[k] != key,
    ensures
        members_with(keys, key, n).len() == 0,
    decreases n,
{
    if n > 0 {
        lemma_no_members(keys, key, n - 1);
    }
}

/// The first group whose key is not below `key`.
fn group_position(gs: &Vec<KeyGroup>, key: u32) -> (p: usize)
    requires
        forall|a: int, b: int|
            0 <= a < b < gs@.len() ==> (#[trigger] gs@[a]).key < (#[trigger] gs@[b]).key,
    ensures
        p <= gs@.len(),
        forall|a: int| 0 <= a < p ==> (#[trigger] gs@[a]).key < key,
        forall|a: int| p <= a < gs@.len() ==> (#[trigger] gs@[a]).key >= key,
{
    let mut p: usize = 0;
    while p < gs.len() && gs[p].key < key
        invariant
            p <= gs@.len(),
            forall|a: int| 0 <= a < p ==> (#[trigger] gs@[a]).key < key,
        decreases gs.len() - p,
    {
        p = p + 1;
    }
    p
}

/// Put things with the same key together, by ascending key.
pub fn group_by_key(keys: &Vec<u32>) -> (gs: Vec<KeyGroup>)
    ensures
        are_groups(gs@, keys@, keys@.len() as int),
{
    let mut gs: Vec<KeyGroup> = Vec::new();
    let mut n: usize = 0;
    while n < keys.len()
        invariant
            n <= keys@.len(),
            are_groups(gs@, keys@, n as int),
        decreases keys.len() - n,
    {
        let key = keys[n];
        let ghost before = gs@;
        let p = group_position(&gs, key);
        if p < gs.len() && gs[p].key == key {
            gs[p].members.push(n);
            proof {
                assert forall|a: int, b: int| 0 <= a < b < gs@.len() implies (
                #[trigger] gs@[a]).key < (#[trigger] gs@[b]).key by {
                    assert(before[a].key < before[b].key);
                }
                assert forall|a: int| 0 <= a < gs@.len() implies (#[trigger] gs@[a]).members@
                    == members_with(keys@, gs@[a].key, n + 1) && gs@[a].members@.len() > 0 by {
                    assert(before[a].members@ == members_with(keys@, before[a].key, n as int));
                    if a != p {
                        assert(gs@[a] == before[a]);
                        if a < p {
                            assert(before[a].key < before[p as int].key);
                        } else {
                            assert(before[p as int].key < before[a].key);
                        }
                    }
                }
                assert forall|k: int| 0 <= k < n + 1 implies exists|a: int|
                    0 <= a < gs@.len() && (#[trigger] gs@[a]).key == #[trigger] keys@[k] by {
                    if k < n {
                        let a = choose|a: int|
                            0 <= a < before.len() && (#[trigger] before[a]).key == keys@[k];
                        assert(gs@[a].key == keys@[k]);
                    } else {
                        assert(gs@[p as int].key == keys@[k]);
                    }
                }
            }
        } else {
            proof {
                assert forall|k: int| 0 <= k < n implies #[trigger] keys@[k] != key by {
                    let a = choose|a: int|
                        0 <= a < before.len() && (#[trigger] before[a]).key == keys@[k];
                    if a < p {
                        assert(before[a].key < key);
                    } else if a > p {
                        assert(before[p as int].key < before[a].key);
                        assert(before[p as int].key >= key);
                    }
                }
                lemma_no_members(keys@, key, n as int);
            }
            let mut members: Vec<usize> = Vec::new();
            members.push(n);
            assert(members@ =~= members_with(keys@, key, n + 1));
            gs.insert(p, KeyGroup { key, members });
            proof {
                assert(gs@[p as int].key == key);
                assert forall|a: int| 0 <= a < gs@.len() implies if a < p {
                    #[trigger] gs@[a] == before[a]
                } else if a > p {
                    gs@[a] == before[a - 1]
                } else {
                    gs@[a].key == key && gs@[a].members@ == members_with(keys@, key, n + 1)
                } by {}
                assert forall|a: int, b: int| 0 <= a < b < gs@.len() implies (
                #[trigger] gs@[a]).key < (#[trigger] gs@[b]).key by {
                    if b < p {
                        assert(before[a].key < before[b].key);
                    } else if b == p {
                        assert(before[a].key < key);
                    } else if a < p {
                        assert(before[a].key < before[b - 1].key);
                    } else if a == p {
                        assert(before[b - 1].key >= key);
                        if p == b - 1 {
                            assert(before[p as int].key != key);
                        } else {
                            assert(before[p as int].key < before[b - 1].key);
                        }
                    } else {
                        assert(before[a - 1].key < before[b - 1].key);
                    }
                }
                assert forall|a: int| 0 <= a < gs@.len() implies (#[trigger] gs@[a]).members@
                    == members_with(keys@, gs@[a].key, n + 1) && gs@[a].members@.len() > 0 by {
                    if a < p {
                        assert(before[a].members@ == members_with(
                            keys@,
                            before[a].key,
                            n as int,
                        ));
                    } else if a > p {
                        assert(before[a - 1].members@ == members_with(
                            keys@,
                            before[a - 1].key,
                            n as int,
                        ));
                        assert(gs@[p as int].key < gs@[a].key);
                    }
                }
                assert forall|k: int| 0 <= k < n + 1 implies exists|a: int|
                    0 <= a < gs@.len() && (#[trigger] gs@[a]).key == #[trigger] keys@[k] by {
                    if k < n {
                        let a = choose|a: int|
                            0 <= a < before.len() && (#[trigger] before[a]).key == keys@[k];
                        if a < p {
                            assert(gs@[a].key == keys@[k]);
                        } else {
                            assert(gs@[a + 1].key == keys@[k]);
                        }
                    } else {
                        assert(gs@[p as int].key == keys@[k]);
                    }
                }
            }
        }
        n = n + 1;
    }
    gs
}

// ── Scenery ─────────────────────────────────────────────────────────────
/// What a model has, where it could be read.
#[derive(Debug, Clone, Copy, PartialEq, Eq, Structural)]
pub struct ModelInfo {
    pub frames: usize,
    pub animations: usize,
}

/// A model with several frames and an animation moves.
pub open spec fn is_animated(m: Option<ModelInfo>) -> bool {
    match m {
        Some(i) => i.frames > 1 && i.animations > 0,
        None => false,
    }
}

pub open spec fn animated_count(ms: Seq<Option<ModelInfo>>, n: int) -> int
    decreases n,
{
    if n <= 0 {
        0
    } else if is_animated(ms[n - 1]) {
        animated_count(ms, n - 1) + 1
    } else {
        animated_count(ms, n - 1)
    }
}

/// The number of the animation of each model: one for each model that moves,
/// in order.
pub fn anim_slots(ms: &Vec<Option<ModelInfo>>) -> (r: (Vec<Option<usize>>, usize))
    ensures
        r.0@.len() == ms@.len(),
        forall|i: int|
            0 <= i < ms@.len() ==> #[trigger] r.0@[i] == if is_animated(ms@[i]) {
                Some(animated_count(ms@, i) as usize)
            } else {
                None
            },
        r.1 == animated_count(ms@, ms@.len() as int),
{
    let mut slots: Vec<Option<usize>> = Vec::new();
    let mut next: usize = 0;
    let mut i: usize = 0;
    while i < ms.len()
        invariant
            i <= ms@.len(),
            next <= i,
            next == animated_count(ms@, i as int),
            slots@.len() == i,
            forall|k: int|
                0 <= k < i ==> #[trigger] slots@[k] == if is_animated(ms@[k]) {
                    Some(animated_count(ms@, k) as usize)
                } else {
                    None
                },
        decreases ms.len() - i,
    {
        let moves = match ms[i] {
            Some(m) => m.frames > 1 && m.animations > 0,
            None => false,
        };
        if moves {
            slots.push(Some(next));
            next = next + 1;
        } else {
            slots.push(None);
        }
        i = i + 1;
    }
    (slots, next)
}

/// Let time pass for all animations.
pub fn advance_anims(anims: &mut Vec<AnimState>, cms: i32)
    requires
        forall|i: int| 0 <= i < old(anims)@.len() ==> (#[trigger] old(anims)@[i]).wf(),
    ensures
        final(anims)@.len() == old(anims)@.len(),
        forall|i: int|
            0 <= i < old(anims)@.len() ==> (#[trigger] final(anims)@[i]).wf() && final(anims)@[i]
                == if cms > 0 {
                old(anims)@[i].after_takt(cms)
            } else {
                old(anims)@[i]
            },
{
    if cms <= 0 {
        return;
    }
    let ghost before = anims@;
    let mut i: usize = 0;
    while i < anims.len()
        invariant
            cms > 0,
            i <= anims@.len(),
            anims@.len() == before.len(),
            forall|k: int| 0 <= k < before.len() ==> (#[trigger] before[k]).wf(),
            forall|k: int|
                0 <= k < i ==> (#[trigger] anims@[k]).wf() && anims@[k] == before[k].after_takt(
                    cms,
                ),
            forall|k: int| i <= k < before.len() ==> #[trigger] anims@[k] == before[k],
        decreases anims.len() - i,
    {
        anims[i].takt(cms);
        i = i + 1;
    }
}

/// The triangles that a frame shows; none of a frame that does not exist or is
/// empty.
pub fn frame_range(ranges: &Vec<(u32, u32)>, frame: usize) -> (r: Option<(u32, u32)>)
    ensures
        r == if frame < ranges@.len() && ranges@[frame as int].1 > 0 {
            Some(ranges@[frame as int])
        } else {
            None
        },
{
    if frame < ranges.len() {
        let (offset, count) = ranges[frame];
        if count > 0 {
            return Some((offset, count));
        }
    }
    None
}

/// The vertex numbers of the first frame, for its shadow.
pub open spec fn first_frame_spec(indices: Seq<u32>, ranges: Seq<(u32, u32)>) -> Seq<u32> {
    if ranges.len() > 0 && ranges[0].1 > 0 {
        indices.subrange(ranges[0].0 as int, ranges[0].0 + ranges[0].1)
    } else {
        Seq::empty()
    }
}

pub fn first_frame_indices(indices: &Vec<u32>, ranges: &Vec<(u32, u32)>) -> (r: Vec<u32>)
    requires
        ranges@.len() > 0 && ranges@[0].1 > 0 ==> ranges@[0].0 + ranges@[0].1 <= indices@.len(),
    ensures
        r@ == first_frame_spec(indices@, ranges@),
{
    let mut r: Vec<u32> = Vec::new();
    let len = indices.len();
    match frame_range(ranges, 0) {
        Some((offset, count)) => {
            let start = offset as usize;
            let ghost goal = indices@.subrange(start as int, start + count);
            let mut i: usize = 0;
            while i < count as usize
                invariant
                    len == indices@.len(),
                    i <= count,
                    start + count <= len,
                    goal == indices@.subrange(start as int, start + count),
                    r@ =~= goal.take(i as int),
                decreases count - i,
            {
                r.push(indices[start + i]);
                i = i + 1;
            }
            assert(r@ =~= goal);
        },
        None => {
            assert(r@ =~= first_frame_spec(indices@, ranges@));
        },
    }
    r
}

/// The place of the last slash, counted from one; zero without one.
pub open spec fn after_last_slash(s: Seq<char>) -> int
    decreases s.len(),
{
    if s.len() == 0 {
        0
    } else if s.last() == '/' {
        s.len() as int
    } else {
        after_last_slash(s.drop_last())
    }
}

/// The directory of a path, with its slash.
pub fn directory_of(path: &str) -> (d: Option<String>)
    ensures
        match d {
            Some(p) => after_last_slash(path@) > 0 && p@ == path@.take(after_last_slash(path@)),
            None => after_last_slash(path@) == 0,
        },
{
    let mut n = path.unicode_len();
    assert(path@.take(n as int) =~= path@);
    while n > 0
        invariant
            n <= path@.len(),
            after_last_slash(path@.take(n as int)) == after_last_slash(path@),
        decreases n,
    {
        assert(path@.take(n as int).drop_last() =~= path@.take(n - 1));
        if path.get_char(n - 1) == '/' {
            let p = path.substring_char(0, n);
            assert(path@.subrange(0, n as int) =~= path@.take(n as int));
            return Some(p.to_string());
        }
        n = n - 1;
    }
    None
}

// ── Buildings ───────────────────────────────────────────────────────────
/// How far the floor of a base has come, and where the base is.
#[derive(Debug, Clone, Copy, PartialEq, Eq, Structural)]
pub struct BaseFloor {
    pub x: i32,
    pub y: i32,
    /// Of the time that the floor takes.
    pub progress: i32,
}

/// The floor at a place: that of the last base there among the first `n`, shut
/// where there is none.
pub open spec fn floor_at(bases: Seq<BaseFloor>, x: i32, y: i32, n: int) -> i32
    decreases n,
{
    if n <= 0 {
        0
    } else if bases[n - 1].x == x && bases[n - 1].y == y {
        bases[n - 1].progress
    } else {
        floor_at(bases, x, y, n - 1)
    }
}

pub fn floor_progress(bases: &Vec<BaseFloor>, x: i32, y: i32) -> (p: i32)
    ensures
        p == floor_at(bases@, x, y, bases@.len() as int),
{
    let mut n: usize = bases.len();
    while n > 0
        invariant
            n <= bases@.len(),
            floor_at(bases@, x, y, n as int) == floor_at(bases@, x, y, bases@.len() as int),
        decreases n,
    {
        let b = bases[n - 1];
        if b.x == x && b.y == y {
            return b.progress;
        }
        n = n - 1;
    }
    0
}

/// How far a part of a base is moved, to the side and up, each in as many parts
/// of a unit as the floor takes milliseconds.
#[derive(Debug, Clone, Copy, PartialEq, Eq, Structural)]
pub struct UnitOffset {
    pub x: i32,
    pub z: i32,
}

/// The doors move apart by this much.
pub const DOOR_SHIFT: i32 = 25;

/// The platform rises by this much, and ends a little below the ground.
pub const PLATFORM_RISE: i32 = 63;

pub const PLATFORM_REST: i32 = 3;

/// The doors are open when the floor is half way.
pub open spec fn door_shift(progress: int) -> int {
    if 2 * progress < BASE_FLOOR_MS {
        2 * progress * DOOR_SHIFT
    } else {
        BASE_FLOOR_MS * DOOR_SHIFT
    }
}

pub open spec fn sub_unit_offset_spec(unit_id: i32, progress: int) -> UnitOffset {
    if unit_id == 1 {
        UnitOffset {
            x: 0,
            z: (-(BASE_FLOOR_MS - progress) * PLATFORM_RISE - PLATFORM_REST
                * BASE_FLOOR_MS) as i32,
        }
    } else if unit_id == 2 {
        UnitOffset { x: door_shift(progress) as i32, z: 0 }
    } else if unit_id == 3 {
        UnitOffset { x: (-door_shift(progress)) as i32, z: 0 }
    } else {
        UnitOffset { x: 0, z: 0 }
    }
}

/// How far a part of a base is moved: the platform rises, the doors slide to
/// either side, and everything else stays.
pub fn sub_unit_offset(unit_id: i32, progress: i32) -> (o: UnitOffset)
    requires
        0 <= progress <= BASE_FLOOR_MS,
    ensures
        o == sub_unit_offset_spec(unit_id, progress as int),
{
    let door: i32 = if 2 * progress < BASE_FLOOR_MS {
        2 * progress * DOOR_SHIFT
    } else {
        BASE_FLOOR_MS * DOOR_SHIFT
    };
    if unit_id == 1 {
        UnitOffset {
            x: 0,
            z: -(BASE_FLOOR_MS - progress) * PLATFORM_RISE - PLATFORM_REST
                * BASE_FLOOR_MS,
        }
    } else if unit_id == 2 {
        UnitOffset { x: door, z: 0 }
    } else if unit_id == 3 {
        UnitOffset { x: -door, z: 0 }
    } else {
        UnitOffset { x: 0, z: 0 }
    }
}

/// The platform only rises while the floor opens, from its lowest to its
/// highest place; the doors move the same way and as far as each other.
pub proof fn law_floor_moves(p: int, q: int)
    requires
        0 <= p <= q <= BASE_FLOOR_MS,
    ensures
        -(PLATFORM_RISE + PLATFORM_REST) * BASE_FLOOR_MS <= sub_unit_offset_spec(1, p).z
            <= sub_unit_offset_spec(1, q).z <= -PLATFORM_REST * BASE_FLOOR_MS,
        0 <= sub_unit_offset_spec(2, p).x <= sub_unit_offset_spec(2, q).x <= DOOR_SHIFT
            * BASE_FLOOR_MS,
        sub_unit_offset_spec(3, p).x == -sub_unit_offset_spec(2, p).x,
{
}

/// A base's platform and doors move with its floor.
pub open spec fn moves_with_floor(kind: BuildingType, unit: Option<i32>) -> bool {
    kind == BuildingType::Base && match unit {
        Some(u) => 1 <= u <= 3,
        None => false,
    }
}

/// How far each instance of a part is moved; `None` when nothing is to be
/// written, because the part does not move or no base is there.
pub fn sync_building_animation(
    bases: &Vec<BaseFloor>,
    kind: BuildingType,
    unit: Option<i32>,
    places: &Vec<(i32, i32)>,
) -> (r: Option<Vec<UnitOffset>>)
    requires
        forall|i: int|
            0 <= i < bases@.len() ==> 0 <= (#[trigger] bases@[i]).progress <= BASE_FLOOR_MS,
    ensures
        match r {
            Some(v) => {
                &&& bases@.len() > 0 && moves_with_floor(kind, unit)
                &&& v@.len() == places@.len()
                &&& forall|i: int|
                    0 <= i < v@.len() ==> #[trigger] v@[i] == sub_unit_offset_spec(
                        unit->0,
                        floor_at(
                            bases@,
                            places@[i].0,
                            places@[i].1,
                            bases@.len() as int,
                        ) as int,
                    )
            },
            None => bases@.len() == 0 || !moves_with_floor(kind, unit),
        },
{
    if bases.len() == 0 || kind != BuildingType::Base {
        return None;
    }
    let u = match unit {
        Some(u) => u,
        None => {
            return None;
        },
    };
    if u < 1 || u > 3 {
        return None;
    }
    let mut v: Vec<UnitOffset> = Vec::new();
    let mut i: usize = 0;
    while i < places.len()
        invariant
            forall|i: int|
                0 <= i < bases@.len() ==> 0 <= (#[trigger] bases@[i]).progress
                    <= BASE_FLOOR_MS,
            unit == Some(u),
            i <= places@.len(),
            v@.len() == i,
            forall|k: int|
                0 <= k < i ==> #[trigger] v@[k] == sub_unit_offset_spec(
                    unit->0,
                    floor_at(bases@, places@[k].0, places@[k].1, bases@.len() as int) as int,
                ),
        decreases places.len() - i,
    {
        let (x, y) = places[i];
        let p = floor_progress(bases, x, y);
        proof {
            lemma_floor_bounds(bases@, x, y, bases@.len() as int);
        }
        v.push(sub_unit_offset(u, p));
        i = i + 1;
    }
    Some(v)
}

proof fn lemma_floor_bounds(bases: Seq<BaseFloor>, x: i32, y: i32, n: int)
    requires
        0 <= n <= bases.len(),
        forall|i: int|
            0 <= i < bases.len() ==> 0 <= (#[trigger] bases[i]).progress <= BASE_FLOOR_MS,
    ensures
        0 <= floor_at(bases, x, y, n) <= BASE_FLOOR_MS,
    decreases n,
{
    if n > 0 {
        assert(0 <= bases[n - 1].progress <= BASE_FLOOR_MS);
        lemma_floor_bounds(bases, x, y, n - 1);
    }
}

// ── Cannons ─────────────────────────────────────────────────────────────
/// So many instances of cannon parts are drawn at most.
pub const MAX_CANNON_INSTANCES: u32 = 256;

/// A cannon on the map.
#[derive(Debug, Clone, Copy, PartialEq, Eq, Structural)]
pub struct SeenCannon {
    pub kind: i32,
    pub wreck: bool,
}

/// The numbers, among the first `n`, of the standing cannons that share a mesh.
pub open spec fn standing(cs: Seq<SeenCannon>, k: int, n: int) -> Seq<usize>
    decreases n,
{
    if n <= 0 {
        Seq::empty()
    } else if !cs[n - 1].wreck && kind_index_spec(cs[n - 1].kind) == k {
        standing(cs, k, n - 1).push((n - 1) as usize)
    } else {
        standing(cs, k, n - 1)
    }
}

/// The standing cannons that share a mesh, in order.
pub fn cannons_of_kind(cs: &Vec<SeenCannon>, k: usize) -> (r: Vec<usize>)
    ensures
        r@ == standing(cs@, k as int, cs@.len() as int),
        r@.len() <= cs@.len(),
{
    let mut r: Vec<usize> = Vec::new();
    let mut n: usize = 0;
    while n < cs.len()
        invariant
            n <= cs@.len(),
            r@.len() <= n,
            r@ == standing(cs@, k as int, n as int),
        decreases cs.len() - n,
    {
        let c = cs[n];
        if !c.wreck && kind_index(c.kind) == k {
            r.push(n);
        }
        n = n + 1;
    }
    r
}

/// How many instances each part of each of the four meshes has: every standing
/// cannon has all three parts, and the preview of a cannon is one more.
pub open spec fn part_count(cs: Seq<SeenCannon>, preview: Option<i32>, k: int) -> int {
    standing(cs, k, cs.len() as int).len() + match preview {
        Some(p) => if kind_index_spec(p) == k {
            1int
        } else {
            0
        },
        None => 0,
    }
}

/// How many instances each of the four meshes has of each part.
pub fn part_counts(cs: &Vec<SeenCannon>, preview: Option<i32>) -> (r: Vec<usize>)
    requires
        cs@.len() < usize::MAX,
    ensures
        r@.len() == 4,
        forall|k: int| 0 <= k < 4 ==> #[trigger] r@[k] == part_count(cs@, preview, k),
{
    let mut r: Vec<usize> = Vec::new();
    let mut k: usize = 0;
    while k < 4
        invariant
            cs@.len() < usize::MAX,
            k <= 4,
            r@.len() == k,
            forall|j: int| 0 <= j < k ==> #[trigger] r@[j] == part_count(cs@, preview, j),
        decreases 4 - k,
    {
        let n = cannons_of_kind(cs, k).len();
        let more = match preview {
            Some(p) => kind_index(p) == k,
            None => false,
        };
        r.push(
            if more {
                n + 1
            } else {
                n
            },
        );
        k = k + 1;
    }
    r
}

/// A run of instances of a part.
#[derive(Debug, Clone, Copy, PartialEq, Eq, Structural)]
pub struct PartDraw {
    pub kind: usize,
    /// Basis, turret or shaft.
    pub part: usize,
    pub offset: u32,
    pub count: u32,
}

/// What was put into the buffer so far.
pub struct Packed {
    pub draws: Seq<PartDraw>,
    pub used: int,
    /// Something did not fit, and nothing follows it.
    pub full: bool,
}

/// The first `n` runs, three for each mesh, put one after the other. Empty runs
/// are left out, and the first that does not fit ends it.
pub open spec fn packed(counts: Seq<usize>, capacity: int, n: int) -> Packed
    decreases n,
{
    if n <= 0 {
        Packed { draws: Seq::empty(), used: 0, full: false }
    } else {
        let p = packed(counts, capacity, n - 1);
        let c = counts[(n - 1) / 3] as int;
        if p.full || c == 0 {
            p
        } else if p.used + c > capacity {
            Packed { full: true, ..p }
        } else {
            Packed {
                draws: p.draws.push(
                    PartDraw {
                        kind: ((n - 1) / 3) as usize,
                        part: ((n - 1) % 3) as usize,
                        offset: p.used as u32,
                        count: c as u32,
                    },
                ),
                used: p.used + c,
                full: false,
            }
        }
    }
}

/// A piece of a wreck to be drawn.
#[derive(Debug, Clone, Copy, PartialEq, Eq, Structural)]
pub struct PieceDraw {
    pub kind: usize,
    pub part: CannonDipPart,
    pub slot: u32,
}

/// What is drawn of the cannons.
#[derive(Debug)]
pub struct CannonDraws {
    pub draws: Vec<PartDraw>,
    /// Where the markers of free places start, and how many there are.
    pub markers: Option<(u32, u32)>,
    pub pieces: Vec<PieceDraw>,
}

/// How many of `n` fit into what is left.
pub open spec fn fitting(used: int, n: int, capacity: int) -> int {
    if used + n <= capacity {
        n
    } else if used <= capacity {
        capacity - used
    } else {
        0
    }
}

/// Lay out the instances: the parts of the standing cannons, the markers, the
/// pieces of wrecks, as long as there is room. `counts` says how many cannons
/// share each mesh.
pub fn pack_cannons(
    counts: &Vec<usize>,
    markers: usize,
    pieces: &Vec<(usize, CannonDipPart)>,
    capacity: u32,
) -> (d: CannonDraws)
    requires
        counts@.len() <= 4,
    ensures
        ({
            let p = packed(counts@, capacity as int, 3 * counts@.len() as int);
            let m = fitting(p.used, markers as int, capacity as int);
            let q = fitting(p.used + m, pieces@.len() as int, capacity as int);
            &&& d.draws@ == p.draws
            &&& d.markers == if m > 0 {
                Some((p.used as u32, m as u32))
            } else {
                None
            }
            &&& d.pieces@.len() == q
            &&& forall|i: int|
                0 <= i < q ==> #[trigger] d.pieces@[i] == (PieceDraw {
                    kind: pieces@[i].0,
                    part: pieces@[i].1,
                    slot: (p.used + m + i) as u32,
                })
        }),
        d.markers is Some ==> (d.markers->0).0 + (d.markers->0).1 <= capacity && 0 < (
        d.markers->0).1 <= markers,
        d.markers is Some && (d.markers->0).1 < markers ==> d.pieces@.len() == 0,
        d.markers is Some && d.draws@.len() > 0 ==> (d.markers->0).0 == d.draws@.last().offset
            + d.draws@.last().count,
        d.markers is Some && d.pieces@.len() > 0 ==> d.pieces@[0].slot == (d.markers->0).0 + (
        d.markers->0).1,
        d.pieces@.len() <= pieces@.len(),
        d.pieces@.len() > 0 && d.pieces@.len() < pieces@.len() ==> d.pieces@.last().slot + 1
            == capacity,
        forall|i: int|
            0 <= i < d.pieces@.len() ==> {
                &&& (#[trigger] d.pieces@[i]).slot < capacity
                &&& d.pieces@[i].slot == d.pieces@[0].slot + i
                &&& d.pieces@[i].kind == pieces@[i].0 && d.pieces@[i].part == pieces@[i].1
            },
{
    let mut draws: Vec<PartDraw> = Vec::new();
    let mut used: u32 = 0;
    let mut full = false;
    let total = 3 * counts.len();
    let mut n: usize = 0;
    while n < total
        invariant
            counts@.len() <= 4,
            total == 3 * counts@.len(),
            n <= total,
            used <= capacity,
            ({
                let p = packed(counts@, capacity as int, n as int);
                draws@ == p.draws && used == p.used && full == p.full
            }),
        decreases total - n,
    {
        let c = counts[n / 3];
        if !full && c > 0 {
            if c as u64 > (capacity - used) as u64 {
                full = true;
            } else {
                draws.push(PartDraw { kind: n / 3, part: n % 3, offset: used, count: c as u32 });
                used = used + c as u32;
            }
        }
        n = n + 1;
    }
    proof {
        law_runs_follow(counts@, capacity as int, total as int);
    }
    let room = capacity - used;
    let m: u32 = if markers as u64 <= room as u64 {
        markers as u32
    } else {
        room
    };
    let marked = if m > 0 {
        Some((used, m))
    } else {
        None
    };
    let start = used + m;
    let mut out: Vec<PieceDraw> = Vec::new();
    let mut i: usize = 0;
    let ghost q = fitting(start as int, pieces@.len() as int, capacity as int);
    while i < pieces.len() && (i as u64) < (capacity - start) as u64
        invariant
            start <= capacity,
            i <= pieces@.len(),
            start + i <= capacity,
            q == fitting(start as int, pieces@.len() as int, capacity as int),
            out@.len() == i,
            i <= q,
            forall|k: int|
                0 <= k < i ==> #[trigger] out@[k] == (PieceDraw {
                    kind: pieces@[k].0,
                    part: pieces@[k].1,
                    slot: (start + k) as u32,
                }),
        decreases pieces.len() - i,
    {
        let (kind, part) = pieces[i];
        out.push(PieceDraw { kind, part, slot: start + i as u32 });
        i = i + 1;
    }
    CannonDraws { draws, markers: marked, pieces: out }
}

/// The runs of instances follow each other without gaps and stay in the buffer.
pub proof fn law_runs_follow(counts: Seq<usize>, capacity: int, n: int)
    requires
        0 <= capacity <= u32::MAX,
        0 <= n <= 3 * counts.len(),
    ensures
        ({
            let p = packed(counts, capacity, n);
            &&& 0 <= p.used <= capacity
            &&& p.draws.len() > 0 ==> p.draws[0].offset == 0 && p.draws.last().offset
                + p.draws.last().count == p.used
            &&& p.draws.len() == 0 ==> p.used == 0
            &&& forall|i: int|
                0 <= i < p.draws.len() - 1 ==> (#[trigger] p.draws[i]).offset + p.draws[i].count
                    == p.draws[i + 1].offset
        }),
    decreases n,
{
    if n > 0 {
        law_runs_follow(counts, capacity, n - 1);
        let p = packed(counts, capacity, n - 1);
        let r = packed(counts, capacity, n);
        if r.draws.len() > p.draws.len() {
            assert forall|i: int| 0 <= i < r.draws.len() - 1 implies (#[trigger] r.draws[i]).offset
                + r.draws[i].count == r.draws[i + 1].offset by {
                if i < p.draws.len() - 1 {
                    assert(r.draws[i] == p.draws[i]);
                    assert(r.draws[i + 1] == p.draws[i + 1]);
                } else {
                    assert(r.draws[i] == p.draws.last());
                }
            }
        }
    }
}

/// A piece of a wreck is drawn while it has time left.
pub fn piece_shown(ttl: u32) -> (b: bool)
    ensures
        b == !float_bits::le_spec(ttl, float_bits::ZERO),
{
    !float_bits::le(ttl, float_bits::ZERO)
}

/// Which of its meshes a kind of cannon has.
#[derive(Debug, Clone, Copy, PartialEq, Eq, Structural)]
pub struct KindMeshes {
    pub basis: bool,
    pub turret: bool,
    pub shaft: bool,
}

impl KindMeshes {
    pub open spec fn any(&self) -> bool {
        self.basis || self.turret || self.shaft
    }
}

/// The first kind that has a mesh: markers are drawn with it. None when no
/// cannon can be drawn.
pub fn marker_kind(kinds: &Vec<KindMeshes>) -> (r: Option<usize>)
    ensures
        match r {
            Some(k) => k < kinds@.len() && kinds@[k as int].any() && forall|j: int|
                0 <= j < k ==> !(#[trigger] kinds@[j]).any(),
            None => forall|j: int| 0 <= j < kinds@.len() ==> !(#[trigger] kinds@[j]).any(),
        },
{
    let mut k: usize = 0;
    while k < kinds.len()
        invariant
            k <= kinds@.len(),
            forall|j: int| 0 <= j < k ==> !(#[trigger] kinds@[j]).any(),
        decreases kinds.len() - k,
    {
        let m = kinds[k];
        if m.basis || m.turret || m.shaft {
            return Some(k);
        }
        k = k + 1;
    }
    None
}

/// The meshes of a cannon that cast its shadow.
#[derive(Debug)]
pub struct ShadowPart {
    pub vertices: usize,
    /// The vertex numbers of each surface.
    pub surfaces: Vec<Vec<u32>>,
}

/// How many vertices the first `n` meshes have.
pub open spec fn vertices_before(parts: Seq<ShadowPart>, n: int) -> int
    decreases n,
{
    if n <= 0 {
        0
    } else {
        vertices_before(parts, n - 1) + parts[n - 1].vertices
    }
}

/// A vertex number moved past `base` vertices. Numbers have thirty-two bits and
/// wrap around.
pub open spec fn moved(base: int, i: u32) -> u32 {
    ((base + i) % 0x1_0000_0000) as u32
}

pub open spec fn moved_all(base: int, v: Seq<u32>) -> Seq<u32> {
    Seq::new(v.len(), |i: int| moved(base, v[i]))
}

/// The surfaces of the first `n` meshes, as if their vertices stood in one list.
pub open spec fn pooled(parts: Seq<ShadowPart>, n: int) -> Seq<Seq<u32>>
    decreases n,
{
    if n <= 0 {
        Seq::empty()
    } else {
        pooled(parts, n - 1) + pooled_part(
            parts[n - 1],
            vertices_before(parts, n - 1),
            parts[n - 1].surfaces@.len() as int,
        )
    }
}

pub open spec fn pooled_part(p: ShadowPart, base: int, n: int) -> Seq<Seq<u32>> {
    Seq::new(n as nat, |i: int| moved_all(base, p.surfaces@[i]@))
}

pub open spec fn surface_lists(v: Seq<Vec<u32>>) -> Seq<Seq<u32>> {
    Seq::new(v.len(), |i: int| v[i]@)
}

fn move_all(base: u64, v: &Vec<u32>) -> (r: Vec<u32>)
    requires
        base < 0x1_0000_0000,
    ensures
        r@ == moved_all(base as int, v@),
{
    let mut r: Vec<u32> = Vec::new();
    let mut i: usize = 0;
    while i < v.len()
        invariant
            base < 0x1_0000_0000,
            i <= v@.len(),
            r@ =~= moved_all(base as int, v@).take(i as int),
        decreases v.len() - i,
    {
        r.push(((base + v[i] as u64) % 0x1_0000_0000) as u32);
        i = i + 1;
    }
    assert(r@ =~= moved_all(base as int, v@));
    r
}

/// Put the meshes of a cannon together for its shadow: their vertices one after
/// the other, and the vertex numbers of their surfaces moved accordingly.
pub fn pool_shadow_parts(parts: &Vec<ShadowPart>) -> (r: Vec<Vec<u32>>)
    requires
        vertices_before(parts@, parts@.len() as int) <= u32::MAX,
    ensures
        surface_lists(r@) == pooled(parts@, parts@.len() as int),
{
    let mut r: Vec<Vec<u32>> = Vec::new();
    let mut base: u64 = 0;
    let mut n: usize = 0;
    assert(surface_lists(r@) =~= pooled(parts@, 0));
    while n < parts.len()
        invariant
            vertices_before(parts@, parts@.len() as int) <= u32::MAX,
            n <= parts@.len(),
            base == vertices_before(parts@, n as int),
            base <= u32::MAX,
            surface_lists(r@) == pooled(parts@, n as int),
        decreases parts.len() - n,
    {
        let part = &parts[n];
        let ghost before = surface_lists(r@);
        let mut i: usize = 0;
        assert(before + pooled_part(*part, base as int, 0) =~= before);
        while i < part.surfaces.len()
            invariant
                base <= u32::MAX,
                i <= part.surfaces@.len(),
                surface_lists(r@) == before + pooled_part(*part, base as int, i as int),
            decreases part.surfaces.len() - i,
        {
            let ghost now = r@;
            let m = move_all(base, &part.surfaces[i]);
            r.push(m);
            proof {
                assert(surface_lists(r@) =~= surface_lists(now).push(m@));
                assert(surface_lists(r@) =~= before + pooled_part(*part, base as int, i + 1));
            }
            i = i + 1;
        }
        proof {
            lemma_vertices_grow(parts@, n + 1, parts@.len() as int);
        }
        base = base + part.vertices as u64;
        n = n + 1;
    }
    r
}

proof fn lemma_vertices_grow(parts: Seq<ShadowPart>, m: int, n: int)
    requires
        0 <= m <= n,
    ensures
        vertices_before(parts, m) <= vertices_before(parts, n),
    decreases n - m,
{
    if m < n {
        lemma_vertices_grow(parts, m, n - 1);
    }
}

/// Which textures are kept: those of the objects that were drawn.
pub open spec fn kept(cached: Seq<ObjectId>, drawn: Seq<ObjectId>, n: int) -> Seq<ObjectId>
    decreases n,
{
    if n <= 0 {
        Seq::empty()
    } else if drawn.contains(cached[n - 1]) {
        kept(cached, drawn, n - 1).push(cached[n - 1])
    } else {
        kept(cached, drawn, n - 1)
    }
}

/// Drop the textures of objects that were not drawn.
pub fn retain_drawn(cached: &Vec<ObjectId>, drawn: &Vec<ObjectId>) -> (r: Vec<ObjectId>)
    ensures
        r@ == kept(cached@, drawn@, cached@.len() as int),
{
    let mut r: Vec<ObjectId> = Vec::new();
    let mut n: usize = 0;
    while n < cached.len()
        invariant
            n <= cached@.len(),
            r@ == kept(cached@, drawn@, n as int),
        decreases cached.len() - n,
    {
        let id = cached[n];
        let mut found = false;
        let mut i: usize = 0;
        while i < drawn.len() && !found
            invariant
                i <= drawn@.len(),
                found ==> drawn@.contains(id),
                !found ==> forall|k: int| 0 <= k < i ==> #[trigger] drawn@[k] != id,
            decreases drawn.len() - i,
        {
            if drawn[i] == id {
                assert(drawn@[i as int] == id);
                found = true;
            }
            i = i + 1;
        }
        if found {
            r.push(id);
        }
        n = n + 1;
    }
    r
}

// ── Materials and shadows ───────────────────────────────────────────────
/// Which material a surface is drawn with.
#[derive(Debug, Clone, Copy, PartialEq, Eq, Structural)]
pub enum MaterialChoice {
    /// That of the unit.
    Unit,
    /// Its own with that of the unit merged in.
    SurfaceWithUnit,
    /// That of the unit with its own merged in.
    UnitWithSurface,
}

/// The material of a building's surface: a unit that names a texture has its
/// way, and a surface that names none is drawn like the unit.
pub fn building_material(unit_has_texture: bool, surface_has_texture: bool) -> (m: MaterialChoice)
    ensures
        m == if !unit_has_texture && surface_has_texture {
            MaterialChoice::SurfaceWithUnit
        } else {
            MaterialChoice::Unit
        },
{
    if !unit_has_texture && surface_has_texture {
        MaterialChoice::SurfaceWithUnit
    } else {
        MaterialChoice::Unit
    }
}

/// The material of a surface of scenery: surfaces only count where there are
/// several.
pub fn scenery_material(surfaces: usize) -> (m: MaterialChoice)
    ensures
        m == if surfaces > 1 {
            MaterialChoice::UnitWithSurface
        } else {
            MaterialChoice::Unit
        },
{
    if surfaces > 1 {
        MaterialChoice::UnitWithSurface
    } else {
        MaterialChoice::Unit
    }
}

/// How an object casts its shadow.
#[derive(Debug, Clone, Copy, PartialEq, Eq, Structural)]
pub enum ShadowKind {
    Off,
    Stencil,
    ProjectedStatic,
    ProjectedDynamic,
}

/// The least edge of a shadow texture.
pub const LEAST_SHADOW_SIZE: u32 = 32;

/// The edge of the texture for a shadow that is projected onto the ground;
/// nothing for another kind of shadow.
pub fn shadow_texture_size(kind: ShadowKind, size: u32) -> (s: Option<u32>)
    ensures
        s == if kind == ShadowKind::ProjectedStatic || kind == ShadowKind::ProjectedDynamic {
            Some(
                if size < LEAST_SHADOW_SIZE {
                    LEAST_SHADOW_SIZE
                } else {
                    size
                },
            )
        } else {
            None
        },
{
    if kind == ShadowKind::ProjectedStatic || kind == ShadowKind::ProjectedDynamic {
        if size < LEAST_SHADOW_SIZE {
            Some(LEAST_SHADOW_SIZE)
        } else {
            Some(size)
        }
    } else {
        None
    }
}

/// The numbers of the surfaces, among the first `n`, that have triangles.
pub open spec fn with_triangles(counts: Seq<usize>, n: int) -> Seq<usize>
    decreases n,
{
    if n <= 0 {
        Seq::empty()
    } else if counts[n - 1] > 0 {
        with_triangles(counts, n - 1).push((n - 1) as usize)
    } else {
        with_triangles(counts, n - 1)
    }
}

/// The surfaces that are drawn: those with triangles, in order. `counts` says how
/// many indices each has.
pub fn drawn_surfaces(counts: &Vec<usize>) -> (r: Vec<usize>)
    ensures
        r@ == with_triangles(counts@, counts@.len() as int),
{
    let mut r: Vec<usize> = Vec::new();
    let mut n: usize = 0;
    while n < counts.len()
        invariant
            n <= counts@.len(),
            r@ == with_triangles(counts@, n as int),
        decreases counts.len() - n,
    {
        if counts[n] > 0 {
            r.push(n);
        }
        n = n + 1;
    }
    r
}

// ── Laws of what is drawn ───────────────────────────────────────────────
/// `r` holds, in rising order, just the numbers below `n` that `ok` picks.
pub open spec fn picks(r: Seq<usize>, n: int, ok: spec_fn(int) -> bool) -> bool {
    &&& forall|a: int, b: int| 0 <= a < b < r.len() ==> #[trigger] r[a] < #[trigger] r[b]
    &&& forall|a: int| 0 <= a < r.len() ==> (#[trigger] r[a]) < n && ok(r[a] as int)
    &&& forall|i: int| 0 <= i < n && #[trigger] ok(i) ==> r.contains(i as usize)
}

pub proof fn lemma_pick_next(r: Seq<usize>, n: int, ok: spec_fn(int) -> bool)
    requires
        0 <= n < usize::MAX,
        picks(r, n, ok),
    ensures
        ok(n) ==> picks(r.push(n as usize), n + 1, ok),
        !ok(n) ==> picks(r, n + 1, ok),
{
    if ok(n) {
        let q = r.push(n as usize);
        assert forall|i: int| 0 <= i < n + 1 && #[trigger] ok(i) implies q.contains(i as usize) by {
            if i == n {
                assert(q[r.len() as int] == n as usize);
            } else {
                let a = choose|a: int| 0 <= a < r.len() && r[a] == i as usize;
                assert(q[a] == i as usize);
            }
        }
    }
}

/// A group holds, in their order, all the places where its key stands and no
/// other place.
pub proof fn law_group_members(keys: Seq<u32>, key: u32, n: int)
    requires
        0 <= n <= keys.len() < usize::MAX,
    ensures
        picks(members_with(keys, key, n), n, |i: int| keys[i] == key),
    decreases n,
{
    if n > 0 {
        law_group_members(keys, key, n - 1);
        lemma_pick_next(members_with(keys, key, n - 1), n - 1, |i: int| keys[i] == key);
    }
}

/// Every place stands in one group and only one, and the groups stand in the
/// order of their keys.
pub proof fn law_one_group_each(gs: Seq<KeyGroup>, keys: Seq<u32>, k: int)
    requires
        are_groups(gs, keys, keys.len() as int),
        0 <= k < keys.len() < usize::MAX,
    ensures
        exists|a: int|
            0 <= a < gs.len() && (#[trigger] gs[a]).members@.contains(k as usize) && gs[a].key
                == keys[k],
        forall|a: int, b: int|
            0 <= a < gs.len() && 0 <= b < gs.len() && (#[trigger] gs[a]).members@.contains(
                k as usize,
            ) && (#[trigger] gs[b]).members@.contains(k as usize) ==> a == b,
        forall|a: int, b: int|
            0 <= a < b < gs.len() ==> (#[trigger] gs[a]).key < (#[trigger] gs[b]).key,
        forall|a: int| 0 <= a < gs.len() ==> (#[trigger] gs[a]).members@.len() > 0,
{
    let n = keys.len() as int;
    let key = keys[k];
    assert(exists|a: int| 0 <= a < gs.len() && (#[trigger] gs[a]).key == #[trigger] keys[k]);
    let a = choose|a: int| 0 <= a < gs.len() && (#[trigger] gs[a]).key == key;
    assert(gs[a].key == key);
    law_group_members(keys, key, n);
    let ok = |i: int| keys[i] == key;
    assert(ok(k));
    assert(members_with(keys, key, n).contains(k as usize));
    assert(gs[a].members@ == members_with(keys, gs[a].key, n));
    assert(gs[a].members@.contains(k as usize));
    assert forall|b: int|
        0 <= b < gs.len() && (#[trigger] gs[b]).members@.contains(k as usize) implies b == a by {
        law_group_members(keys, gs[b].key, n);
        let ms = gs[b].members@;
        assert(ms == members_with(keys, gs[b].key, n));
        let i = choose|i: int| 0 <= i < ms.len() && ms[i] == k as usize;
        let okb = |i: int| keys[i] == gs[b].key;
        assert(okb(ms[i] as int));
        assert(keys[k] == gs[b].key);
    }
}

/// Models with an animation get the slots zero, one, two and so on in their
/// order.
pub proof fn law_slots_without_gaps(ms: Seq<Option<ModelInfo>>, i: int, j: int)
    requires
        0 <= i < j <= ms.len(),
    ensures
        animated_count(ms, 0) == 0,
        animated_count(ms, i) <= animated_count(ms, j) <= animated_count(ms, i) + (j - i),
        (ms[i] is Some && ms[i]->0.frames >= 2 && ms[i]->0.animations >= 1) ==> animated_count(
            ms,
            i,
        ) < animated_count(ms, j),
        (forall|k: int|
            i <= k < j ==> (#[trigger] ms[k]) is None || ms[k]->0.frames < 2
                || ms[k]->0.animations == 0) ==> animated_count(ms, i) == animated_count(ms, j),
    decreases j - i,
{
    if i + 1 < j {
        law_slots_without_gaps(ms, i, j - 1);
        law_slots_without_gaps(ms, j - 1, j);
    } else {
        assert(animated_count(ms, i + 1) == animated_count(ms, i) + if is_animated(ms[i]) {
            1int
        } else {
            0
        });
        assert(is_animated(ms[i]) == (ms[i] is Some && ms[i]->0.frames >= 2
            && ms[i]->0.animations >= 1));
    }
}

/// The first frame is drawn from as many indices as its range counts, starting
/// where the range starts.
pub proof fn law_first_frame(indices: Seq<u32>, ranges: Seq<(u32, u32)>, i: int)
    requires
        ranges.len() > 0 ==> ranges[0].0 + ranges[0].1 <= indices.len(),
    ensures
        ranges.len() == 0 ==> first_frame_spec(indices, ranges).len() == 0,
        ranges.len() > 0 ==> first_frame_spec(indices, ranges).len() == ranges[0].1,
        ranges.len() > 0 && 0 <= i < ranges[0].1 ==> first_frame_spec(indices, ranges)[i]
            == indices[ranges[0].0 + i],
{
}

/// A path is its directory, slash included, and a file name without a slash.
pub proof fn law_directory(path: Seq<char>)
    ensures
        ({
            let k = after_last_slash(path);
            &&& 0 <= k <= path.len()
            &&& k > 0 ==> path[k - 1] == '/'
            &&& forall|i: int| k <= i < path.len() ==> #[trigger] path[i] != '/'
        }),
    decreases path.len(),
{
    if path.len() > 0 && path.last() != '/' {
        law_directory(path.drop_last());
        assert forall|i: int| after_last_slash(path) <= i < path.len() implies #[trigger] path[i]
            != '/' by {
            if i < path.len() - 1 {
                assert(path.drop_last()[i] == path[i]);
            }
        }
    }
}

/// A place shows the floor of the base that stands there, and a closed floor
/// where there is none.
pub proof fn law_floor_of_base(bases: Seq<BaseFloor>, x: i32, y: i32, n: int)
    requires
        0 <= n <= bases.len(),
    ensures
        (forall|i: int| 0 <= i < n ==> !((#[trigger] bases[i]).x == x && bases[i].y == y))
            ==> floor_at(bases, x, y, n) == 0,
        (exists|i: int| 0 <= i < n && (#[trigger] bases[i]).x == x && bases[i].y == y)
            ==> exists|i: int|
            {
                &&& 0 <= i < n
                &&& (#[trigger] bases[i]).x == x && bases[i].y == y
                &&& bases[i].progress == floor_at(bases, x, y, n)
                &&& forall|j: int|
                    i < j < n ==> !((#[trigger] bases[j]).x == x && bases[j].y == y)
            },
    decreases n,
{
    if n > 0 {
        law_floor_of_base(bases, x, y, n - 1);
        if bases[n - 1].x == x && bases[n - 1].y == y {
            assert(bases[n - 1].progress == floor_at(bases, x, y, n));
        } else if exists|i: int| 0 <= i < n && (#[trigger] bases[i]).x == x && bases[i].y == y {
            let i0 = choose|i: int| 0 <= i < n && (#[trigger] bases[i]).x == x && bases[i].y == y;
            assert(i0 < n - 1);
            let i = choose|i: int|
                {
                    &&& 0 <= i < n - 1
                    &&& (#[trigger] bases[i]).x == x && bases[i].y == y
                    &&& bases[i].progress == floor_at(bases, x, y, n - 1)
                    &&& forall|j: int|
                        i < j < n - 1 ==> !((#[trigger] bases[j]).x == x && bases[j].y == y)
                };
            assert(bases[i].progress == floor_at(bases, x, y, n));
        }
    }
}

/// The parts of a base in thousandths for a floor that is `p` milliseconds
/// open: the platform rises by 63 from -66, the doors part by 25 each in the
/// first half, one to each side, and other parts stay.
pub proof fn law_base_parts(unit: i32, p: int)
    requires
        0 <= p <= BASE_FLOOR_MS,
    ensures
        sub_unit_offset_spec(1, p).z == 63 * p - 66 * BASE_FLOOR_MS,
        2 * p <= BASE_FLOOR_MS ==> sub_unit_offset_spec(2, p).x == 50 * p,
        2 * p >= BASE_FLOOR_MS ==> sub_unit_offset_spec(2, p).x == 25 * BASE_FLOOR_MS,
        sub_unit_offset_spec(3, p).x == -sub_unit_offset_spec(2, p).x,
        unit != 1 ==> sub_unit_offset_spec(unit, p).z == 0,
        unit != 2 && unit != 3 ==> sub_unit_offset_spec(unit, p).x == 0,
        forall|kind: BuildingType, u: Option<i32>| #[trigger]
            moves_with_floor(kind, u) <==> kind == BuildingType::Base && (u == Some(1i32) || u
                == Some(2i32) || u == Some(3i32)),
{
}

/// Of a kind of turret the ones that stand are drawn, in their order, and a
/// wreck is not.
pub proof fn law_standing_turrets(cs: Seq<SeenCannon>, k: int, n: int)
    requires
        0 <= n <= cs.len() < usize::MAX,
    ensures
        picks(standing(cs, k, n), n, |i: int| !cs[i].wreck && kind_index_spec(cs[i].kind) == k),
    decreases n,
{
    if n > 0 {
        law_standing_turrets(cs, k, n - 1);
        lemma_pick_next(
            standing(cs, k, n - 1),
            n - 1,
            |i: int| !cs[i].wreck && kind_index_spec(cs[i].kind) == k,
        );
    }
}

/// A turret that is being placed is drawn as one more of its kind.
pub proof fn law_preview_is_one_more(cs: Seq<SeenCannon>, kind: i32, k: int)
    ensures
        part_count(cs, None, k) == standing(cs, k, cs.len() as int).len(),
        part_count(cs, Some(kind), kind_index_spec(kind) as int) == part_count(
            cs,
            None,
            kind_index_spec(kind) as int,
        ) + 1,
        kind_index_spec(kind) != k ==> part_count(cs, Some(kind), k) == part_count(cs, None, k),
{
}

/// Where all instances fit, every part of every kind that is present is drawn
/// with that kind's count, kind by kind and in each kind part by part.
pub proof fn law_parts_all_drawn(counts: Seq<usize>, capacity: int, n: int)
    requires
        0 <= n <= 3 * counts.len(),
        counts.len() <= 4,
        counts_before(counts, n) <= capacity <= u32::MAX,
    ensures
        ({
            let p = packed(counts, capacity, n);
            &&& !p.full
            &&& p.used == counts_before(counts, n)
            &&& forall|d: int|
                0 <= d < p.draws.len() ==> {
                    let q = #[trigger] p.draws[d];
                    &&& 3 * q.kind + q.part < n
                    &&& q.part < 3
                    &&& q.count == counts[q.kind as int] && q.count > 0
                    &&& q.offset == counts_before(counts, 3 * q.kind + q.part)
                }
            &&& forall|m: int|
                0 <= m < n && (#[trigger] counts[m / 3]) > 0 ==> exists|d: int|
                    0 <= d < p.draws.len() && 3 * (#[trigger] p.draws[d]).kind + p.draws[d].part
                        == m
        }),
    decreases n,
{
    if n > 0 {
        lemma_counts_nonneg(counts, n - 1);
        law_parts_all_drawn(counts, capacity, n - 1);
        let was = packed(counts, capacity, n - 1);
        let p = packed(counts, capacity, n);
        let c = counts[(n - 1) / 3] as int;
        assert(counts_before(counts, n) == counts_before(counts, n - 1) + c);
        if c > 0 {
            let k = was.draws.len() as int;
            assert(p.draws[k].kind == (n - 1) / 3 && p.draws[k].part == (n - 1) % 3);
            assert(3 * p.draws[k].kind + p.draws[k].part == n - 1);
        }
        assert forall|m: int| 0 <= m < n && (#[trigger] counts[m / 3]) > 0 implies exists|d: int|
            0 <= d < p.draws.len() && 3 * (#[trigger] p.draws[d]).kind + p.draws[d].part == m by {
            if m == n - 1 {
                assert(3 * p.draws[was.draws.len() as int].kind + p.draws[was.draws.len() as int].part
                    == m);
            } else {
                let d = choose|d: int|
                    0 <= d < was.draws.len() && 3 * (#[trigger] was.draws[d]).kind
                        + was.draws[d].part == m;
                assert(p.draws[d] == was.draws[d]);
            }
        }
        assert forall|d: int| 0 <= d < p.draws.len() implies {
            let q = #[trigger] p.draws[d];
            &&& 3 * q.kind + q.part < n
            &&& q.part < 3
            &&& q.count == counts[q.kind as int] && q.count > 0
            &&& q.offset == counts_before(counts, 3 * q.kind + q.part)
        } by {
            if d < was.draws.len() {
                assert(p.draws[d] == was.draws[d]);
            }
        }
    }
}

/// The instances of the first `n` parts, three parts to a kind.
pub open spec fn counts_before(counts: Seq<usize>, n: int) -> int
    decreases n,
{
    if n <= 0 {
        0
    } else {
        counts_before(counts, n - 1) + counts[(n - 1) / 3]
    }
}

proof fn lemma_counts_nonneg(counts: Seq<usize>, n: int)
    ensures
        counts_before(counts, n) >= 0,
    decreases n,
{
    if n > 0 {
        lemma_counts_nonneg(counts, n - 1);
    }
}

/// Once a part does not fit, nothing after it is drawn.
pub proof fn law_full_stays_full(counts: Seq<usize>, capacity: int, n: int)
    requires
        n > 0,
    ensures
        ({
            let was = packed(counts, capacity, n - 1);
            let now = packed(counts, capacity, n);
            let c = counts[(n - 1) / 3] as int;
            &&& was.full ==> now == was
            &&& !was.full && c > 0 && was.used + c > capacity ==> now.full && now.draws == was.draws
            &&& now.full && !was.full ==> was.used + c > capacity
        }),
{
}

/// Of what is asked for, as much is drawn as there is room.
pub proof fn law_room_is_used(used: int, n: int, capacity: int)
    requires
        0 <= used <= capacity,
        0 <= n,
    ensures
        0 <= fitting(used, n, capacity) <= n,
        used + fitting(used, n, capacity) <= capacity,
        fitting(used, n, capacity) < n ==> used + fitting(used, n, capacity) == capacity,
{
}

/// In the pool a part's indices are moved past the vertices of the parts before
/// it, and its surfaces come behind theirs.
pub proof fn law_pooled_surfaces(parts: Seq<ShadowPart>, n: int, k: int, s: int, i: int)
    requires
        0 <= k < n <= parts.len(),
        0 <= s < parts[k].surfaces@.len(),
        0 <= i < parts[k].surfaces@[s]@.len(),
        vertices_before(parts, k) + parts[k].surfaces@[s]@[i] <= u32::MAX,
    ensures
        ({
            let at = surfaces_before(parts, k) + s;
            &&& 0 <= at < pooled(parts, n).len()
            &&& pooled(parts, n).len() == surfaces_before(parts, n)
            &&& pooled(parts, n)[at].len() == parts[k].surfaces@[s]@.len()
            &&& pooled(parts, n)[at][i] == vertices_before(parts, k)
                + parts[k].surfaces@[s]@[i]
        }),
    decreases n,
{
    lemma_pooled_len(parts, n - 1);
    lemma_vertices_nonneg(parts, k);
    if k < n - 1 {
        law_pooled_surfaces(parts, n - 1, k, s, i);
    } else {
        assert(pooled(parts, n)[surfaces_before(parts, k) + s] == moved_all(
            vertices_before(parts, k),
            parts[k].surfaces@[s]@,
        ));
    }
}

/// The number of vertices of the parts before is the sum of theirs.
pub proof fn law_vertices_add_up(parts: Seq<ShadowPart>, n: int)
    requires
        0 <= n < parts.len(),
    ensures
        vertices_before(parts, 0) == 0,
        vertices_before(parts, n + 1) - vertices_before(parts, n) == parts[n].vertices,
{
}

/// How many surfaces the first `n` parts have.
pub open spec fn surfaces_before(parts: Seq<ShadowPart>, n: int) -> int
    decreases n,
{
    if n <= 0 {
        0
    } else {
        surfaces_before(parts, n - 1) + parts[n - 1].surfaces@.len()
    }
}

proof fn lemma_pooled_len(parts: Seq<ShadowPart>, n: int)
    ensures
        pooled(parts, n).len() == surfaces_before(parts, n),
        surfaces_before(parts, n) >= 0,
    decreases n,
{
    if n > 0 {
        lemma_pooled_len(parts, n - 1);
    }
}

proof fn lemma_vertices_nonneg(parts: Seq<ShadowPart>, n: int)
    ensures
        vertices_before(parts, n) >= 0,
    decreases n,
{
    if n > 0 {
        lemma_vertices_nonneg(parts, n - 1);
    }
}

/// What is drawn stays kept, in its order, and what is not drawn goes.
pub proof fn law_drawn_is_kept(cached: Seq<ObjectId>, drawn: Seq<ObjectId>)
    ensures
        kept(cached, drawn, cached.len() as int) == cached.filter(
            |id: ObjectId| exists|i: int| 0 <= i < drawn.len() && drawn[i] == id,
        ),
{
    lemma_kept(cached, drawn, cached.len() as int);
    assert(cached.take(cached.len() as int) =~= cached);
}

proof fn lemma_kept(cached: Seq<ObjectId>, drawn: Seq<ObjectId>, n: int)
    requires
        0 <= n <= cached.len(),
    ensures
        kept(cached, drawn, n) == cached.take(n).filter(
            |id: ObjectId| exists|i: int| 0 <= i < drawn.len() && drawn[i] == id,
        ),
    decreases n,
{
    reveal(Seq::filter);
    let f = |id: ObjectId| exists|i: int| 0 <= i < drawn.len() && drawn[i] == id;
    if n > 0 {
        lemma_kept(cached, drawn, n - 1);
        assert(cached.take(n).drop_last() =~= cached.take(n - 1));
        assert(cached.take(n).last() == cached[n - 1]);
        assert(f(cached[n - 1]) == drawn.contains(cached[n - 1]));
    } else {
        assert(cached.take(n).filter(f) =~= Seq::empty());
    }
}

/// Just the surfaces that have triangles are drawn, in their order.
pub proof fn law_surfaces_with_triangles(counts: Seq<usize>, n: int)
    requires
        0 <= n <= counts.len() < usize::MAX,
    ensures
        picks(with_triangles(counts, n), n, |i: int| counts[i] != 0),
    decreases n,
{
    if n > 0 {
        law_surfaces_with_triangles(counts, n - 1);
        lemma_pick_next(with_triangles(counts, n - 1), n - 1, |i: int| counts[i] != 0);
    }
}

/// A kind of turret can be drawn if it has a mesh for one of its parts.
pub proof fn law_any_mesh(k: KindMeshes)
    ensures
        !k.any() <==> !k.basis && !k.turret && !k.shaft,
{
}

} // verus!
