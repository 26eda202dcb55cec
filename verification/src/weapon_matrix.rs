//! Which weapons fit on which pylon of an armour.
use crate::common::{RobotUnitKind, MAX_WEAPON_CNT};
use crate::properties::same_text;
use crate::text::{int_spec, parse_i32, split, split_spec, trim, trim_spec, views};
use vstd::prelude::*;

verus! {

pub const ROBOT_WEAPONS_PER_ROBOT_CNT: usize = 16;

pub const ROBOT_ARMOR_CNT: usize = 6;

/// The number of the mortar and of the bomb among the weapon kinds.
pub const WEAPON_MORTAR: i32 = 5;

pub const WEAPON_BOMB: i32 = 7;

/// Either of these bits marks a pylon for the heavy weapons.
pub const ACCESS_EXTRA_BIT_A: u32 = 0x10;

pub const ACCESS_EXTRA_BIT_B: u32 = 0x40;

/// Marks a pylon on the mirrored side.
pub const ACCESS_MIRROR: u32 = 0x8000_0000;

/// Bones below this number are no pylons.
pub const FIRST_PYLON_BONE: u32 = 20;

/// One pylon: the bone it sits on and the weapons it takes.
#[derive(Debug, Clone, Copy, PartialEq, Eq, Structural)]
pub struct WeaponMatrixSlot {
    pub id: i32,
    pub access_invert: u32,
}

impl Default for WeaponMatrixSlot {
    fn default() -> (s: WeaponMatrixSlot)
        ensures
            s == no_slot(),
    {
        WeaponMatrixSlot { id: 0, access_invert: 0 }
    }
}

pub open spec fn no_slot() -> WeaponMatrixSlot {
    WeaponMatrixSlot { id: 0, access_invert: 0 }
}

/// The pylons of an armour.
#[derive(Debug, Clone, Copy)]
pub struct WeaponMatrix {
    pub cnt: i32,
    /// How many take ordinary weapons.
    pub common: i32,
    /// How many take heavy ones.
    pub extra: i32,
    pub list: [WeaponMatrixSlot; ROBOT_WEAPONS_PER_ROBOT_CNT],
}

impl WeaponMatrix {
    pub open spec fn is_blank(self) -> bool {
        &&& self.cnt == 0
        &&& self.common == 0
        &&& self.extra == 0
        &&& self.list@ == Seq::new(ROBOT_WEAPONS_PER_ROBOT_CNT as nat, |i: int| no_slot())
    }
}

impl Default for WeaponMatrix {
    fn default() -> (m: WeaponMatrix)
        ensures
            m.is_blank(),
    {
        let none = WeaponMatrixSlot { id: 0, access_invert: 0 };
        let m = WeaponMatrix {
            cnt: 0,
            common: 0,
            extra: 0,
            list: [none; ROBOT_WEAPONS_PER_ROBOT_CNT],
        };
        assert(m.list@ =~= Seq::new(ROBOT_WEAPONS_PER_ROBOT_CNT as nat, |i: int| no_slot()));
        m
    }
}

/// A part in a weapon slot of a robot.
#[derive(Debug, Clone, Copy, PartialEq, Eq, Structural)]
pub struct Unit {
    pub kind: RobotUnitKind,
}

impl Unit {
    pub open spec fn empty_spec(self) -> bool {
        self.kind == RobotUnitKind(0)
    }

    pub fn is_empty(&self) -> (b: bool)
        ensures
            b == self.empty_spec(),
    {
        self.kind == RobotUnitKind(0)
    }
}

pub open spec fn takes_heavy(s: WeaponMatrixSlot) -> bool {
    s.access_invert & ACCESS_EXTRA_BIT_A != 0 || s.access_invert & ACCESS_EXTRA_BIT_B != 0
}

/// The first place in `[0, n)` that `ok` holds of.
pub open spec fn first_where(ok: spec_fn(int) -> bool, n: int) -> Option<int>
    decreases n,
{
    if n <= 0 {
        None
    } else {
        match first_where(ok, n - 1) {
            Some(k) => Some(k),
            None => if ok(n - 1) {
                Some(n - 1)
            } else {
                None
            },
        }
    }
}

proof fn lemma_first_where(ok: spec_fn(int) -> bool, k: int, n: int)
    requires
        0 <= k < n,
        first_where(ok, k) is None,
        ok(k),
    ensures
        first_where(ok, n) == Some(k),
    decreases n,
{
    if n - 1 > k {
        lemma_first_where(ok, k, n - 1);
    }
}

/// How many pylons are looked at; a count that is no count means all.
pub open spec fn pylon_limit(cnt: i32) -> int {
    if 0 <= cnt <= ROBOT_WEAPONS_PER_ROBOT_CNT {
        cnt as int
    } else {
        ROBOT_WEAPONS_PER_ROBOT_CNT as int
    }
}

pub open spec fn is_heavy(kind: RobotUnitKind) -> bool {
    kind == RobotUnitKind(WEAPON_MORTAR) || kind == RobotUnitKind(WEAPON_BOMB)
}

/// Nothing is mounted on a pylon; nothing can be where the robot has no weapon
/// place for it.
pub open spec fn pylon_empty(current: Seq<Unit>, t: int) -> bool {
    t >= current.len() || current[t].empty_spec()
}

/// Whether a pylon takes a weapon: it is empty, and heavy for a heavy weapon,
/// ordinary for another.
pub open spec fn pylon_ok(m: WeaponMatrix, current: Seq<Unit>, heavy: bool) -> spec_fn(int) -> bool {
    |t: int| takes_heavy(m.list@[t]) == heavy && pylon_empty(current, t)
}

/// How far the search for a pylon goes: over all pylons for a heavy weapon, over
/// those with a weapon place for another.
pub open spec fn pylon_reach(cnt: i32, heavy: bool) -> int {
    if heavy || pylon_limit(cnt) < MAX_WEAPON_CNT {
        pylon_limit(cnt)
    } else {
        MAX_WEAPON_CNT as int
    }
}

/// The pylon that a weapon goes to: the first empty one that takes it.
pub open spec fn pylon_spec(m: WeaponMatrix, kind: RobotUnitKind, current: Seq<Unit>) -> Option<
    int,
> {
    first_where(pylon_ok(m, current, is_heavy(kind)), pylon_reach(m.cnt, is_heavy(kind)))
}

impl WeaponMatrix {
    /// Does the pylon take heavy weapons?
    pub fn is_extra_slot(&self, i: usize) -> (b: bool)
        requires
            i < ROBOT_WEAPONS_PER_ROBOT_CNT,
        ensures
            b == takes_heavy(self.list@[i as int]),
    {
        let a = self.list[i].access_invert;
        (a & ACCESS_EXTRA_BIT_A) != 0 || (a & ACCESS_EXTRA_BIT_B) != 0
    }

    /// The first empty pylon that takes a weapon, if there is one.
    pub fn find_pylon_for(
        &self,
        weapon_kind: RobotUnitKind,
        current: &[Unit; MAX_WEAPON_CNT],
    ) -> (r: Option<usize>)
        ensures
            match r {
                Some(t) => pylon_spec(*self, weapon_kind, current@) == Some(t as int),
                None => pylon_spec(*self, weapon_kind, current@) is None,
            },
    {
        let heavy = weapon_kind == RobotUnitKind(WEAPON_MORTAR) || weapon_kind == RobotUnitKind(
            WEAPON_BOMB,
        );
        let limit: usize = if 0 <= self.cnt && self.cnt <= 16 {
            self.cnt as usize
        } else {
            ROBOT_WEAPONS_PER_ROBOT_CNT
        };
        let n: usize = if heavy || limit < MAX_WEAPON_CNT {
            limit
        } else {
            MAX_WEAPON_CNT
        };
        let ghost ok = pylon_ok(*self, current@, heavy);
        let mut t: usize = 0;
        while t < n
            invariant
                n <= ROBOT_WEAPONS_PER_ROBOT_CNT,
                t <= n,
                heavy == is_heavy(weapon_kind),
                n == pylon_reach(self.cnt, heavy),
                ok == pylon_ok(*self, current@, heavy),
                first_where(ok, t as int) is None,
            decreases n - t,
        {
            if self.is_extra_slot(t) == heavy && (t >= MAX_WEAPON_CNT || current[t].is_empty()) {
                proof {
                    lemma_first_where(ok, t as int, n as int);
                }
                return Some(t);
            }
            t = t + 1;
        }
        None
    }
}

// ── Reading the pylons off a model ──────────────────────────────────────
/// A bone of a model.
#[derive(Debug)]
pub struct Bone {
    pub id: u32,
    pub name: String,
}

/// The bits of a pylon after the first `n` fields of its name: each weapon kind
/// has a bit, and `I` marks the mirrored side.
pub open spec fn access_upto(f: Seq<Seq<char>>, n: int) -> u32
    decreases n,
{
    if n <= 1 {
        0
    } else {
        let a = access_upto(f, n - 1);
        let tok = trim_spec(f[n - 1]);
        if tok == seq!['I'] {
            a | ACCESS_MIRROR
        } else {
            match int_spec(tok) {
                Some(k) => if 1 <= k <= 32 {
                    a | (1u32 << ((k - 1) as u32))
                } else {
                    a
                },
                None => a,
            }
        }
    }
}

/// The first weapon kind among the first `n` fields.
pub open spec fn first_kind(f: Seq<Seq<char>>, n: int) -> Option<i32>
    decreases n,
{
    if n <= 1 {
        None
    } else {
        match first_kind(f, n - 1) {
            Some(k) => Some(k),
            None => int_spec(trim_spec(f[n - 1])),
        }
    }
}

/// A pylon bone: a number from twenty on, and a name that starts with the
/// field `W`.
pub open spec fn is_pylon(id: u32, name: Seq<char>) -> bool {
    id >= FIRST_PYLON_BONE && trim_spec(split_spec(name, ',')[0]) == seq!['W']
}

/// The pylons found so far, and how many of them are ordinary or heavy.
pub struct PylonsView {
    pub slots: Seq<WeaponMatrixSlot>,
    pub common: int,
    pub extra: int,
}

/// One more bone. The first kind in its name says which sort of pylon it is;
/// a name without a kind counts for neither. Once the table is full no more
/// pylons are taken.
pub open spec fn with_bone(p: PylonsView, id: u32, name: Seq<char>) -> PylonsView {
    if is_pylon(id, name) && p.slots.len() < ROBOT_WEAPONS_PER_ROBOT_CNT {
        let f = split_spec(name, ',');
        let n = f.len() as int;
        let heavy = first_kind(f, n) matches Some(k) && (k == WEAPON_BOMB || k == WEAPON_MORTAR);
        PylonsView {
            slots: p.slots.push(
                WeaponMatrixSlot {
                    id: crate::bytes::to_signed(id),
                    access_invert: access_upto(f, n),
                },
            ),
            common: p.common + if first_kind(f, n) is Some && !heavy {
                1int
            } else {
                0
            },
            extra: p.extra + if heavy {
                1int
            } else {
                0
            },
        }
    } else {
        p
    }
}

pub open spec fn pylons_upto(bones: Seq<Bone>, n: int) -> PylonsView
    decreases n,
{
    if n <= 0 {
        PylonsView { slots: Seq::empty(), common: 0, extra: 0 }
    } else {
        with_bone(pylons_upto(bones, n - 1), bones[n - 1].id, bones[n - 1].name@)
    }
}

/// `s` with `x` behind all that have no larger number: where a stable sort
/// puts the last element.
pub open spec fn inserted(s: Seq<WeaponMatrixSlot>, x: WeaponMatrixSlot) -> Seq<WeaponMatrixSlot>
    decreases s.len(),
{
    if s.len() == 0 || s.last().id <= x.id {
        s.push(x)
    } else {
        inserted(s.drop_last(), x).push(s.last())
    }
}

/// `s` in the order of the bone numbers, equal ones in their old order.
pub open spec fn sorted_slots(s: Seq<WeaponMatrixSlot>) -> Seq<WeaponMatrixSlot>
    decreases s.len(),
{
    if s.len() == 0 {
        s
    } else {
        inserted(sorted_slots(s.drop_last()), s.last())
    }
}

fn insert_slot(v: &mut Vec<WeaponMatrixSlot>, x: WeaponMatrixSlot)
    ensures
        final(v)@ == inserted(old(v)@, x),
    decreases old(v)@.len(),
{
    let ghost s = v@;
    match v.pop() {
        None => {
            v.push(x);
            assert(v@ =~= inserted(s, x));
        },
        Some(last) => {
            assert(s.drop_last() =~= v@);
            if last.id <= x.id {
                v.push(last);
                assert(v@ =~= s);
                v.push(x);
            } else {
                insert_slot(v, x);
                v.push(last);
            }
        },
    }
}

fn read_slot(f: &Vec<&str>) -> (r: (u32, Option<i32>))
    requires
        f@.len() >= 1,
    ensures
        r.0 == access_upto(views(f@), f@.len() as int),
        r.1 == first_kind(views(f@), f@.len() as int),
{
    let ghost fs = views(f@);
    let mut access: u32 = 0;
    let mut first: Option<i32> = None;
    let mut i: usize = 1;
    proof {
        reveal_strlit("I");
        assert("I"@ =~= seq!['I']);
    }
    while i < f.len()
        invariant
            1 <= i <= f@.len(),
            fs == views(f@),
            "I"@ == seq!['I'],
            access == access_upto(fs, i as int),
            first == first_kind(fs, i as int),
        decreases f.len() - i,
    {
        assert(fs[i as int] == f@[i as int]@);
        let tok = trim(f[i]);
        i = i + 1;
        if same_text(tok, "I") {
            proof {
                assert(int_spec(seq!['I']) is None) by {
                    let s = seq!['I'];
                    assert(!crate::text::is_digit(s[0]));
                    assert(!crate::text::all_digits(s));
                }
            }
            access = access | ACCESS_MIRROR;
            continue;
        }
        match parse_i32(tok) {
            None => {},
            Some(kind) => {
                if first.is_none() {
                    first = Some(kind);
                }
                if 1 <= kind && kind <= 32 {
                    access = access | (1u32 << ((kind - 1) as u32));
                }
            },
        }
    }
    (access, first)
}

/// Read the pylons of an armour off the bones of its model.
pub fn weapon_matrix_from_vo(bones: &Vec<Bone>) -> (m: WeaponMatrix)
    ensures
        ({
            let p = pylons_upto(bones@, bones@.len() as int);
            &&& m.cnt == p.slots.len()
            &&& m.common == p.common
            &&& m.extra == p.extra
            &&& m.list@.take(m.cnt as int) == sorted_slots(p.slots)
            &&& forall|i: int|
                m.cnt <= i < ROBOT_WEAPONS_PER_ROBOT_CNT ==> (#[trigger] m.list@[i]) == no_slot()
        }),
        0 <= m.cnt <= 16,
        forall|i: int, j: int|
            0 <= i <= j < m.cnt ==> (#[trigger] m.list@[i]).id <= (#[trigger] m.list@[j]).id,
{
    let mut slots: Vec<WeaponMatrixSlot> = Vec::new();
    let mut common: i32 = 0;
    let mut extra: i32 = 0;
    let ghost mut p = pylons_upto(bones@, 0);
    let mut i: usize = 0;
    proof {
        reveal_strlit("W");
        assert("W"@ =~= seq!['W']);
    }
    while i < bones.len()
        invariant
            "W"@ == seq!['W'],
            i <= bones@.len(),
            p == pylons_upto(bones@, i as int),
            slots@ == sorted_slots(p.slots),
            slots@.len() == p.slots.len(),
            p.slots.len() <= ROBOT_WEAPONS_PER_ROBOT_CNT,
            common == p.common,
            extra == p.extra,
            0 <= p.common <= p.slots.len(),
            0 <= p.extra <= p.slots.len(),
        decreases bones.len() - i,
    {
        let b = &bones[i];
        let ghost old_p = p;
        let f = split(b.name.as_str(), ',');
        assert(views(f@)[0] == f@[0]@);
        let head = trim(f[0]);
        if b.id >= FIRST_PYLON_BONE && same_text(head, "W") && slots.len()
            < ROBOT_WEAPONS_PER_ROBOT_CNT {
            let (access_invert, first) = read_slot(&f);
            let slot = WeaponMatrixSlot { id: crate::bytes::signed(b.id), access_invert };
            match first {
                Some(kind) => {
                    if kind == WEAPON_BOMB || kind == WEAPON_MORTAR {
                        extra = extra + 1;
                    } else {
                        common = common + 1;
                    }
                },
                None => {},
            }
            insert_slot(&mut slots, slot);
            proof {
                p = pylons_upto(bones@, i + 1);
                assert(p.slots.drop_last() =~= old_p.slots);
                lemma_inserted_len(sorted_slots(old_p.slots), slot);
            }
        } else {
            proof {
                p = pylons_upto(bones@, i + 1);
                assert(p == old_p);
            }
        }
        i = i + 1;
    }
    let none = WeaponMatrixSlot { id: 0, access_invert: 0 };
    let mut list = [none; ROBOT_WEAPONS_PER_ROBOT_CNT];
    let mut k: usize = 0;
    while k < slots.len()
        invariant
            slots@.len() <= ROBOT_WEAPONS_PER_ROBOT_CNT,
            k <= slots@.len(),
            forall|j: int| 0 <= j < k ==> list@[j] == slots@[j],
            forall|j: int|
                k <= j < ROBOT_WEAPONS_PER_ROBOT_CNT ==> (#[trigger] list@[j]) == no_slot(),
        decreases slots.len() - k,
    {
        list[k] = slots[k];
        k = k + 1;
    }
    assert(list@.take(slots@.len() as int) =~= slots@);
    proof {
        lemma_sorted(p.slots);
        assert(forall|i: int| 0 <= i < slots@.len() ==> (#[trigger] list@[i]) == sorted_slots(p.slots)[i]);
    }
    WeaponMatrix { cnt: slots.len() as i32, common, extra, list }
}

proof fn lemma_inserted_len(s: Seq<WeaponMatrixSlot>, x: WeaponMatrixSlot)
    ensures
        inserted(s, x).len() == s.len() + 1,
    decreases s.len(),
{
    if s.len() > 0 && s.last().id > x.id {
        lemma_inserted_len(s.drop_last(), x);
    }
}

// ── The table of armours ────────────────────────────────────────────────
/// The pylons of every armour kind, filled in as the models are loaded.
#[derive(Debug)]
pub struct WeaponMatrices {
    pub by_armor: [WeaponMatrix; ROBOT_ARMOR_CNT],
}

/// The place of an armour kind in the table.
pub open spec fn armor_index(kind: RobotUnitKind) -> Option<int> {
    if 1 <= kind.0 <= ROBOT_ARMOR_CNT {
        Some(kind.0 - 1)
    } else {
        None
    }
}

/// A table in which no armour has pylons.
pub fn weapon_matrices_slot() -> (t: WeaponMatrices)
    ensures
        forall|i: int| 0 <= i < ROBOT_ARMOR_CNT ==> (#[trigger] t.by_armor@[i]).is_blank(),
{
    let blank = WeaponMatrix::default();
    WeaponMatrices { by_armor: [blank, blank, blank, blank, blank, blank] }
}

/// Set the pylons of an armour kind; other kinds are passed over.
pub fn set_weapon_matrix_for(t: &mut WeaponMatrices, kind: RobotUnitKind, m: WeaponMatrix)
    ensures
        final(t).by_armor@ == match armor_index(kind) {
            Some(i) => old(t).by_armor@.update(i, m),
            None => old(t).by_armor@,
        },
{
    if 1 <= kind.0 && kind.0 <= 6 {
        t.by_armor[(kind.0 - 1) as usize] = m;
    }
}

/// The pylons of an armour kind; none at all for other kinds.
pub fn default_weapon_matrix(t: &WeaponMatrices, armor_kind: RobotUnitKind) -> (m: WeaponMatrix)
    ensures
        match armor_index(armor_kind) {
            Some(i) => m == t.by_armor@[i],
            None => m.is_blank(),
        },
{
    if 1 <= armor_kind.0 && armor_kind.0 <= 6 {
        t.by_armor[(armor_kind.0 - 1) as usize]
    } else {
        WeaponMatrix::default()
    }
}

// ── Laws ────────────────────────────────────────────────────────────────
/// The sorted pylons stand in the order of their numbers.
pub proof fn law_slots_sorted(s: Seq<WeaponMatrixSlot>, i: int, j: int)
    requires
        0 <= i <= j < s.len(),
    ensures
        sorted_slots(s).len() == s.len(),
        sorted_slots(s)[i].id <= sorted_slots(s)[j].id,
{
    lemma_sorted(s);
}

proof fn lemma_sorted(s: Seq<WeaponMatrixSlot>)
    ensures
        sorted_slots(s).len() == s.len(),
        forall|i: int, j: int|
            0 <= i <= j < s.len() ==> #[trigger] sorted_slots(s)[i].id
                <= #[trigger] sorted_slots(s)[j].id,
    decreases s.len(),
{
    if s.len() > 0 {
        lemma_sorted(s.drop_last());
        lemma_inserted_sorted(sorted_slots(s.drop_last()), s.last());
    }
}

proof fn lemma_inserted_bound(s: Seq<WeaponMatrixSlot>, x: WeaponMatrixSlot, b: int)
    requires
        forall|i: int| 0 <= i < s.len() ==> (#[trigger] s[i]).id <= b,
        x.id <= b,
    ensures
        forall|i: int| 0 <= i < inserted(s, x).len() ==> (#[trigger] inserted(s, x)[i]).id <= b,
    decreases s.len(),
{
    if s.len() > 0 && s.last().id > x.id {
        let d = s.drop_last();
        assert forall|i: int| 0 <= i < d.len() implies (#[trigger] d[i]).id <= b by {
            assert(s[i].id <= b);
        }
        lemma_inserted_bound(d, x, b);
        assert(s[s.len() - 1].id <= b);
        let r = inserted(d, x);
        assert(inserted(s, x) == r.push(s.last()));
        assert forall|i: int| 0 <= i < inserted(s, x).len() implies (#[trigger] inserted(
            s,
            x,
        )[i]).id <= b by {
            if i < r.len() {
                assert(r[i].id <= b);
            }
        }
    } else {
        assert(inserted(s, x) == s.push(x));
    }
}

proof fn lemma_inserted_sorted(s: Seq<WeaponMatrixSlot>, x: WeaponMatrixSlot)
    requires
        forall|i: int, j: int|
            0 <= i <= j < s.len() ==> (#[trigger] s[i]).id <= (#[trigger] s[j]).id,
    ensures
        inserted(s, x).len() == s.len() + 1,
        forall|i: int, j: int|
            0 <= i <= j < inserted(s, x).len() ==> (#[trigger] inserted(s, x)[i]).id <= (
            #[trigger] inserted(s, x)[j]).id,
    decreases s.len(),
{
    if s.len() > 0 && s.last().id > x.id {
        let d = s.drop_last();
        assert forall|i: int, j: int| 0 <= i <= j < d.len() implies (#[trigger] d[i]).id <= (
        #[trigger] d[j]).id by {
            assert(s[i].id <= s[j].id);
        }
        lemma_inserted_sorted(d, x);
        assert forall|i: int| 0 <= i < d.len() implies (#[trigger] d[i]).id <= s.last().id by {
            assert(s[i].id <= s[s.len() - 1].id);
        }
        lemma_inserted_bound(d, x, s.last().id as int);
    } else {
        assert forall|i: int| 0 <= i < s.len() implies (#[trigger] s[i]).id <= x.id by {
            assert(s[i].id <= s[s.len() - 1].id);
        }
    }
}

/// Sorting neither loses nor makes pylons.
pub proof fn law_slots_kept(s: Seq<WeaponMatrixSlot>)
    ensures
        sorted_slots(s).to_multiset() == s.to_multiset(),
    decreases s.len(),
{
    broadcast use vstd::seq_lib::group_to_multiset_ensures;

    if s.len() > 0 {
        law_slots_kept(s.drop_last());
        lemma_inserted_multiset(sorted_slots(s.drop_last()), s.last());
        assert(s =~= s.drop_last().push(s.last()));
    }
}

proof fn lemma_inserted_multiset(s: Seq<WeaponMatrixSlot>, x: WeaponMatrixSlot)
    ensures
        inserted(s, x).to_multiset() == s.to_multiset().insert(x),
    decreases s.len(),
{
    broadcast use vstd::seq_lib::group_to_multiset_ensures;

    if s.len() > 0 && s.last().id > x.id {
        lemma_inserted_multiset(s.drop_last(), x);
        assert(s =~= s.drop_last().push(s.last()));
        assert(s.drop_last().to_multiset().insert(x).insert(s.last())
            =~= s.drop_last().to_multiset().insert(s.last()).insert(x));
    }
}

/// What was set for an armour kind is read back for it, and other kinds keep
/// what they had.
pub proof fn law_set_then_get(
    before: Seq<WeaponMatrix>,
    kind: RobotUnitKind,
    other: RobotUnitKind,
    m: WeaponMatrix,
)
    requires
        before.len() == ROBOT_ARMOR_CNT,
        armor_index(kind) is Some,
        armor_index(other) is Some,
    ensures
        before.update(armor_index(kind)->0, m)[armor_index(kind)->0] == m,
        other != kind ==> before.update(armor_index(kind)->0, m)[armor_index(other)->0]
            == before[armor_index(other)->0],
{
}

/// A weapon goes to a pylon of its own sort, and never to one that is taken.
pub proof fn law_pylon_fits(m: WeaponMatrix, kind: RobotUnitKind, current: Seq<Unit>)
    ensures
        pylon_spec(m, kind, current) matches Some(t) ==> {
            &&& 0 <= t < pylon_limit(m.cnt)
            &&& takes_heavy(m.list@[t]) == is_heavy(kind)
            &&& pylon_empty(current, t)
            &&& !is_heavy(kind) ==> t < MAX_WEAPON_CNT
        },
{
    lemma_first_where_holds(
        pylon_ok(m, current, is_heavy(kind)),
        pylon_reach(m.cnt, is_heavy(kind)),
    );
}

proof fn lemma_first_where_holds(ok: spec_fn(int) -> bool, n: int)
    ensures
        first_where(ok, n) matches Some(k) ==> 0 <= k < n && ok(k),
    decreases n,
{
    if n > 0 {
        lemma_first_where_holds(ok, n - 1);
    }
}

/// A weapon of this kind could stand on pylon `t`: there is such a pylon, it is
/// free, and it is a heavy one just for mortars and bombs.
pub open spec fn can_take(m: WeaponMatrix, kind: RobotUnitKind, current: Seq<Unit>, t: int) -> bool {
    let heavy = kind.0 == 5 || kind.0 == 7;
    &&& 0 <= t < 16
    &&& 0 <= m.cnt <= 16 ==> t < m.cnt
    &&& (m.list@[t].access_invert & 0x50 != 0) == heavy
    &&& t < current.len() ==> current[t].kind.0 == 0
    &&& !heavy ==> t < MAX_WEAPON_CNT
}

/// A weapon goes to the first pylon that can take it, and finds none only
/// where no pylon can.
pub proof fn law_first_free_pylon(m: WeaponMatrix, kind: RobotUnitKind, current: Seq<Unit>)
    ensures
        match pylon_spec(m, kind, current) {
            Some(t) => can_take(m, kind, current, t) && forall|u: int|
                u < t ==> !#[trigger] can_take(m, kind, current, u),
            None => forall|u: int| !#[trigger] can_take(m, kind, current, u),
        },
{
    let heavy = is_heavy(kind);
    let ok = pylon_ok(m, current, heavy);
    let n = pylon_reach(m.cnt, heavy);
    assert(heavy == (kind.0 == 5 || kind.0 == 7));
    assert forall|t: int| can_take(m, kind, current, t) == (0 <= t < n && #[trigger] ok(t)) by {
        let a = m.list@[t].access_invert;
        assert((a & 0x50u32 != 0) == (a & 0x10u32 != 0 || a & 0x40u32 != 0)) by (bit_vector);
        assert(takes_heavy(m.list@[t]) == (a & 0x50u32 != 0));
        if 0 <= t < current.len() {
            assert(current[t].empty_spec() == (current[t].kind.0 == 0));
        }
        assert(ok(t) == (takes_heavy(m.list@[t]) == heavy && pylon_empty(current, t)));
    }
    lemma_first_where_first(ok, n);
    assert forall|u: int| can_take(m, kind, current, u) implies 0 <= u < n && ok(u) by {
        assert(ok(u) || !ok(u));
    }
    if let Some(t) = pylon_spec(m, kind, current) {
        assert(ok(t));
    }
}

proof fn lemma_first_where_first(ok: spec_fn(int) -> bool, n: int)
    ensures
        match first_where(ok, n) {
            Some(k) => 0 <= k < n && ok(k) && forall|i: int| 0 <= i < k ==> !#[trigger] ok(i),
            None => forall|i: int| 0 <= i < n ==> !#[trigger] ok(i),
        },
    decreases n,
{
    if n > 0 {
        lemma_first_where_first(ok, n - 1);
    }
}

/// A model without pylons takes no weapon.
pub proof fn law_blank_takes_nothing(m: WeaponMatrix, kind: RobotUnitKind, current: Seq<Unit>)
    requires
        m.is_blank(),
    ensures
        pylon_spec(m, kind, current) is None,
        m.cnt == 0 && m.common == 0 && m.extra == 0,
        forall|i: int|
            0 <= i < 16 ==> (#[trigger] m.list@[i]).id == 0 && m.list@[i].access_invert == 0,
{
    law_first_free_pylon(m, kind, current);
}

/// The word `tok` of a pylon's name opens access bit `b`: it is the number
/// `b + 1`, or the letter for mirroring and `b` is the highest bit.
pub open spec fn opens(tok: Seq<char>, b: int) -> bool {
    (tok == seq!['I'] && b == 31) || (tok != seq!['I'] && int_spec(tok) == Some((b + 1) as i32))
}

/// A pylon's access bits are the ones that a word after the first opens.
pub proof fn law_access_bits(f: Seq<Seq<char>>, n: int, b: u32)
    requires
        n <= f.len(),
        b < 32,
    ensures
        ((access_upto(f, n) >> b) & 1 == 1) == exists|i: int|
            1 <= i < n && opens(trim_spec(#[trigger] f[i]), b as int),
    decreases n,
{
    if n <= 1 {
        assert((0u32 >> b) & 1 != 1) by (bit_vector)
            requires
                b < 32,
        ;
    } else {
        law_access_bits(f, n - 1, b);
        let a = access_upto(f, n - 1);
        let tok = trim_spec(f[n - 1]);
        if tok == seq!['I'] {
            assert((((a | 0x8000_0000u32) >> b) & 1 == 1) == ((a >> b) & 1 == 1 || b == 31))
                by (bit_vector)
                requires
                    b < 32,
            ;
        } else if int_spec(tok) is Some && 1 <= int_spec(tok)->0 <= 32 {
            let k = (int_spec(tok)->0 - 1) as u32;
            assert((((a | (1u32 << k)) >> b) & 1 == 1) == ((a >> b) & 1 == 1 || b == k))
                by (bit_vector)
                requires
                    b < 32,
                    k < 32,
            ;
        }
        let now = access_upto(f, n);
        assert(((now >> b) & 1 == 1) == ((a >> b) & 1 == 1 || opens(tok, b as int)));
        if opens(tok, b as int) {
            assert(opens(trim_spec(f[n - 1]), b as int));
        }
    }
}

/// A pylon's kind is the first number behind its first word, and it has none
/// only where no such word is a number.
pub proof fn law_first_number(f: Seq<Seq<char>>, n: int)
    requires
        n <= f.len(),
    ensures
        match first_kind(f, n) {
            Some(k) => exists|i: int|
                1 <= i < n && #[trigger] int_spec(trim_spec(f[i])) == Some(k) && forall|j: int|
                    1 <= j < i ==> #[trigger] int_spec(trim_spec(f[j])) is None,
            None => forall|i: int| 1 <= i < n ==> #[trigger] int_spec(trim_spec(f[i])) is None,
        },
    decreases n,
{
    if n > 1 {
        law_first_number(f, n - 1);
        if first_kind(f, n - 1) is None && first_kind(f, n) is Some {
            assert(int_spec(trim_spec(f[n - 1])) == Some(first_kind(f, n)->0));
        }
    }
}

/// A bone whose number is twenty or more and whose name starts with the word
/// `W` is one more pylon, up to sixteen; other bones are none.
pub proof fn law_pylon_bones(bones: Seq<Bone>, n: int)
    requires
        0 < n <= bones.len(),
    ensures
        ({
            let b = bones[n - 1];
            let was = pylons_upto(bones, n - 1);
            let now = pylons_upto(bones, n);
            let f = split_spec(b.name@, ',');
            let kind = first_kind(f, f.len() as int);
            if b.id >= 20 && trim_spec(f[0]) == seq!['W'] && was.slots.len() < 16 {
                &&& now.slots.len() == was.slots.len() + 1
                &&& now.slots.drop_last() == was.slots
                &&& now.slots.last().id == crate::bytes::to_signed(b.id)
                &&& now.slots.last().access_invert == access_upto(f, f.len() as int)
                &&& (kind == Some(5i32) || kind == Some(7i32)) ==> now.extra == was.extra + 1
                    && now.common == was.common
                &&& kind is None ==> now.extra == was.extra && now.common == was.common
                &&& kind is Some && kind->0 != 5 && kind->0 != 7 ==> now.extra == was.extra
                    && now.common == was.common + 1
            } else {
                now == was
            }
        }),
        pylons_upto(bones, n).slots.len() <= 16,
        pylons_upto(bones, 0).slots.len() == 0,
        pylons_upto(bones, 0).common == 0 && pylons_upto(bones, 0).extra == 0,
    decreases n,
{
    if n > 1 {
        law_pylon_bones(bones, n - 1);
    }
    let was = pylons_upto(bones, n - 1);
    assert(pylons_upto(bones, n).slots.len() > was.slots.len() ==> pylons_upto(
        bones,
        n,
    ).slots.drop_last() =~= was.slots);
}

/// Pylons of one number keep the order in which they were found.
pub proof fn law_same_number_keeps_order(s: Seq<WeaponMatrixSlot>, x: WeaponMatrixSlot)
    requires
        s.len() > 0 ==> s.last().id <= x.id,
    ensures
        inserted(s, x) == s.push(x),
{
}

/// The six armours have the kinds one to six.
pub proof fn law_armour_places(kind: RobotUnitKind)
    ensures
        1 <= kind.0 <= 6 ==> armor_index(kind) == Some(kind.0 - 1),
        kind.0 < 1 || kind.0 > 6 ==> armor_index(kind) is None,
{
}

} // verus!
