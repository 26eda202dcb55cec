//! The arena of map objects and its logic list.
//!
//! Objects live in generational slots: a handle names a slot and the
//! generation it was given out for, so a handle to a removed object is never
//! mistaken for a later tenant of the slot. Objects that want a logic takt are
//! threaded on a doubly linked list that runs through the slots.
use vstd::prelude::*;

verus! {

/// What class of map object a slot holds.
#[derive(Debug, Clone, Copy, PartialEq, Eq, Structural)]
pub enum ObjectType {
    Empty,
    MapObject,
    RobotAi,
    Building,
    Cannon,
    Flyer,
}

/// Units are the objects the gameplay scans look at; the rest is scenery.
pub open spec fn is_unit_type(t: ObjectType) -> bool {
    t == ObjectType::RobotAi || t == ObjectType::Building || t == ObjectType::Cannon || t
        == ObjectType::Flyer
}

/// Stable handle into an [`Arena`]: a slot index and the generation the slot
/// had when the handle was given out.
#[derive(Debug, Clone, Copy, PartialEq, Eq, Hash, PartialOrd, Ord, Structural)]
pub struct ObjectId {
    index: u32,
    generation: u32,
}

impl ObjectId {
    /// The slot the handle names.
    pub closed spec fn slot(self) -> int {
        self.index as int
    }

    /// The generation the handle was given out for.
    pub closed spec fn generation(self) -> u32 {
        self.generation
    }

    /// The handle of slot `slot` at generation `generation`.
    pub closed spec fn at(slot: int, generation: u32) -> ObjectId {
        ObjectId { index: slot as u32, generation }
    }

    /// A handle that no arena gives out (generations start at one).
    pub fn synthetic(index: u32) -> (id: ObjectId)
        ensures
            id.slot() == index,
            id.generation() == 0,
            id == ObjectId::at(index as int, 0),
    {
        ObjectId { index, generation: 0 }
    }
}

/// A slot and a generation make a handle with just these.
pub proof fn law_handle_at(slot: int, generation: u32)
    requires
        0 <= slot <= u32::MAX,
    ensures
        ObjectId::at(slot, generation).slot() == slot,
        ObjectId::at(slot, generation).generation() == generation,
{
}

/// Two handles with the same slot and generation are the same handle.
pub proof fn law_handle_eq(a: ObjectId, b: ObjectId)
    requires
        a.slot() == b.slot(),
        a.generation() == b.generation(),
    ensures
        a == b,
{
}

// ── Model ───────────────────────────────────────────────────────────────
/// What a slot holds. `obj` is `None` in a vacant slot and in one whose
/// object is checked out by a running takt.
pub struct SlotView<T> {
    pub generation: u32,
    pub live: bool,
    pub kind: ObjectType,
    pub obj: Option<T>,
}

/// The arena as the contracts see it.
#[verifier::ext_equal]
pub struct ArenaView<T> {
    pub slots: Seq<SlotView<T>>,
    /// Vacant slots, next to be reused last.
    pub free: Seq<u32>,
    /// The logic list, head first.
    pub lt: Seq<ObjectId>,
    /// The list is being walked.
    pub walking: bool,
    /// Who was enrolled during the running walk.
    pub fresh: Seq<ObjectId>,
    pub units: Seq<ObjectId>,
    pub mapobjects: Seq<ObjectId>,
    /// Removals put off until the walk is over.
    pub removals: Seq<ObjectId>,
}

/// How many slots are occupied.
pub open spec fn live_count<T>(slots: Seq<SlotView<T>>) -> nat
    decreases slots.len(),
{
    if slots.len() == 0 {
        0
    } else {
        live_count(slots.drop_last()) + (if slots.last().live {
            1nat
        } else {
            0nat
        })
    }
}

/// `s` with the last element moved into the place of element `p`.
pub open spec fn swap_removed<A>(s: Seq<A>, p: int) -> Seq<A> {
    s.update(p, s.last()).drop_last()
}

/// `s` without `x`, the last element taking its place; `s` itself where `x`
/// does not occur.
pub open spec fn without<A>(s: Seq<A>, x: A) -> Seq<A> {
    if s.contains(x) {
        swap_removed(s, s.index_of(x))
    } else {
        s
    }
}

impl<T> ArenaView<T> {
    /// The handle of the current tenant of slot `i`.
    pub open spec fn id_of(self, i: int) -> ObjectId {
        ObjectId::at(i, self.slots[i].generation)
    }

    /// The handle names an occupied slot, its object present or checked out.
    pub open spec fn gen_matches(self, id: ObjectId) -> bool {
        &&& 0 <= id.slot() < self.slots.len()
        &&& self.slots[id.slot()].live
        &&& self.slots[id.slot()].generation == id.generation()
    }

    /// The handle names an object that is present.
    pub open spec fn is_valid(self, id: ObjectId) -> bool {
        self.gen_matches(id) && self.slots[id.slot()].obj is Some
    }

    /// The handle is on the logic list.
    pub open spec fn in_lt(self, id: ObjectId) -> bool {
        self.lt.contains(id)
    }

    /// Every index holds live handles only, each once, and every live slot
    /// stands in the index of its class.
    pub open spec fn index_ok(self, ids: Seq<ObjectId>, units: bool) -> bool {
        &&& ids.no_duplicates()
        &&& forall|k: int|
            0 <= k < ids.len() ==> self.gen_matches(#[trigger] ids[k]) && (if units {
                is_unit_type(self.slots[ids[k].slot()].kind)
            } else {
                self.slots[ids[k].slot()].kind == ObjectType::MapObject
            })
        &&& forall|i: int|
            #![trigger self.slots[i]]
            0 <= i < self.slots.len() && self.slots[i].live && (if units {
                is_unit_type(self.slots[i].kind)
            } else {
                self.slots[i].kind == ObjectType::MapObject
            }) ==> ids.contains(self.id_of(i))
    }

    pub open spec fn wf(self) -> bool {
        &&& self.slots.len() <= u32::MAX + 1
        &&& self.free.no_duplicates()
        &&& forall|k: int|
            0 <= k < self.free.len() ==> (#[trigger] self.free[k]) < self.slots.len()
                && !self.slots[self.free[k] as int].live
        &&& forall|i: int|
            0 <= i < self.slots.len() && !(#[trigger] self.slots[i]).live ==> self.slots[i].obj
                is None
        &&& live_count(self.slots) + self.free.len() == self.slots.len()
        &&& self.lt.no_duplicates()
        &&& forall|k: int| 0 <= k < self.lt.len() ==> self.gen_matches(#[trigger] self.lt[k])
        &&& !self.walking ==> self.fresh.len() == 0
        &&& self.index_ok(self.units, true)
        &&& self.index_ok(self.mapobjects, false)
    }

    pub open spec fn empty() -> ArenaView<T> {
        ArenaView {
            slots: Seq::empty(),
            free: Seq::empty(),
            lt: Seq::empty(),
            walking: false,
            fresh: Seq::empty(),
            units: Seq::empty(),
            mapobjects: Seq::empty(),
            removals: Seq::empty(),
        }
    }

    /// The handle that the next spawn gives out: the vacant slot freed last
    /// if there is one, a new slot otherwise.
    pub open spec fn next_id(self) -> ObjectId {
        if self.free.len() > 0 {
            self.id_of(self.free.last() as int)
        } else {
            ObjectId::at(self.slots.len() as int, 1)
        }
    }

    pub open spec fn spawn(self, obj: T, kind: ObjectType) -> ArenaView<T> {
        let id = self.next_id();
        let tenant = SlotView { generation: id.generation(), live: true, kind, obj: Some(obj) };
        ArenaView {
            slots: if self.free.len() > 0 {
                self.slots.update(id.slot(), tenant)
            } else {
                self.slots.push(tenant)
            },
            free: if self.free.len() > 0 {
                self.free.drop_last()
            } else {
                self.free
            },
            units: if is_unit_type(kind) {
                self.units.push(id)
            } else {
                self.units
            },
            mapobjects: if kind == ObjectType::MapObject {
                self.mapobjects.push(id)
            } else {
                self.mapobjects
            },
            ..self
        }
    }

    /// Who is enrolled during a walk is noted, so that the walk passes it over.
    pub open spec fn add_lt(self, id: ObjectId) -> ArenaView<T> {
        if self.gen_matches(id) && !self.in_lt(id) {
            ArenaView {
                lt: self.lt.push(id),
                fresh: if self.walking {
                    self.fresh.push(id)
                } else {
                    self.fresh
                },
                ..self
            }
        } else {
            self
        }
    }

    pub open spec fn del_lt(self, id: ObjectId) -> ArenaView<T> {
        if self.in_lt(id) {
            ArenaView { lt: self.lt.remove(self.lt.index_of(id)), ..self }
        } else {
            self
        }
    }

    /// A walk begins: nobody was enrolled during it yet.
    pub open spec fn begin_walk(self) -> ArenaView<T> {
        ArenaView { walking: true, fresh: Seq::empty(), ..self }
    }

    /// The walk is over.
    pub open spec fn end_walk(self) -> ArenaView<T> {
        ArenaView { walking: false, fresh: Seq::empty(), ..self }
    }

    /// Removing an object vacates its slot for a new generation. An object
    /// that is not present (gone, or checked out) is left alone.
    pub open spec fn remove(self, id: ObjectId) -> ArenaView<T> {
        if self.is_valid(id) {
            let i = id.slot();
            ArenaView {
                slots: self.slots.update(
                    i,
                    SlotView {
                        generation: next_generation(id.generation()),
                        live: false,
                        kind: self.slots[i].kind,
                        obj: None,
                    },
                ),
                free: self.free.push(i as u32),
                units: without(self.units, id),
                mapobjects: without(self.mapobjects, id),
                ..self.del_lt(id)
            }
        } else {
            self
        }
    }

    /// Removals are applied last queued first.
    pub open spec fn flush(self) -> ArenaView<T>
        decreases self.removals.len(),
    {
        if self.removals.len() == 0 {
            self
        } else {
            ArenaView { removals: self.removals.drop_last(), ..self }.remove(
                self.removals.last(),
            ).flush()
        }
    }

    pub open spec fn with_obj(self, id: ObjectId, obj: Option<T>) -> ArenaView<T> {
        ArenaView {
            slots: self.slots.update(id.slot(), SlotView { obj, ..self.slots[id.slot()] }),
            ..self
        }
    }

    pub open spec fn take(self, id: ObjectId) -> ArenaView<T> {
        if self.gen_matches(id) {
            self.with_obj(id, None)
        } else {
            self
        }
    }

    pub open spec fn put(self, id: ObjectId, obj: T) -> ArenaView<T> {
        if self.gen_matches(id) && self.slots[id.slot()].obj is None {
            self.with_obj(id, Some(obj))
        } else {
            self
        }
    }

    /// The object behind a handle, if it is present.
    pub open spec fn get(self, id: ObjectId) -> Option<T> {
        if self.gen_matches(id) {
            self.slots[id.slot()].obj
        } else {
            None
        }
    }

    /// The handles of all present objects of the first `n` slots, in slot order.
    pub open spec fn live_upto(self, n: int) -> Seq<ObjectId>
        decreases n,
    {
        if n <= 0 {
            Seq::empty()
        } else if self.slots[n - 1].obj is Some {
            self.live_upto(n - 1).push(self.id_of(n - 1))
        } else {
            self.live_upto(n - 1)
        }
    }

    pub open spec fn live_ids(self) -> Seq<ObjectId> {
        self.live_upto(self.slots.len() as int)
    }
}

/// Generations count removals of a slot and wrap around.
pub open spec fn next_generation(g: u32) -> u32 {
    if g == u32::MAX {
        0
    } else {
        (g + 1) as u32
    }
}

proof fn lemma_live_count_update<T>(s: Seq<SlotView<T>>, i: int, v: SlotView<T>)
    requires
        0 <= i < s.len(),
    ensures
        live_count(s.update(i, v)) + (if s[i].live {
            1int
        } else {
            0
        }) == live_count(s) + (if v.live {
            1int
        } else {
            0
        }),
    decreases s.len(),
{
    let u = s.update(i, v);
    if i == s.len() - 1 {
        assert(u.drop_last() =~= s.drop_last());
    } else {
        assert(u.drop_last() =~= s.drop_last().update(i, v));
        lemma_live_count_update(s.drop_last(), i, v);
    }
}

proof fn lemma_live_count_bound<T>(s: Seq<SlotView<T>>)
    ensures
        live_count(s) <= s.len(),
    decreases s.len(),
{
    if s.len() > 0 {
        lemma_live_count_bound(s.drop_last());
    }
}

proof fn lemma_index_of<A>(s: Seq<A>, k: int)
    requires
        s.no_duplicates(),
        0 <= k < s.len(),
    ensures
        s.contains(s[k]),
        s.index_of(s[k]) == k,
{
}

// ── Arena ───────────────────────────────────────────────────────────────
struct Slot<T> {
    generation: u32,
    live: bool,
    kind: Ghost<ObjectType>,
    obj: Option<T>,
    in_lt: bool,
    prev_lt: Option<ObjectId>,
    next_lt: Option<ObjectId>,
}

impl<T> Slot<T> {
    spec fn view(&self) -> SlotView<T> {
        SlotView {
            generation: self.generation,
            live: self.live,
            kind: self.kind@,
            obj: self.obj,
        }
    }
}

/// Generational slots with the logic list threaded through them.
pub struct Arena<T> {
    slots: Vec<Slot<T>>,
    free: Vec<u32>,
    first_lt: Option<ObjectId>,
    last_lt: Option<ObjectId>,
    lt: Ghost<Seq<ObjectId>>,
    walking: bool,
    fresh: Vec<ObjectId>,
    unit_ids: Vec<ObjectId>,
    mapobject_ids: Vec<ObjectId>,
    pending_removals: Vec<ObjectId>,
}

spec fn node_ok<T>(slots: Seq<Slot<T>>, lt: Seq<ObjectId>, k: int) -> bool {
    let s = slots[lt[k].index as int];
    &&& s.in_lt
    &&& s.prev_lt == if k > 0 {
        Some(lt[k - 1])
    } else {
        None
    }
    &&& s.next_lt == if k + 1 < lt.len() {
        Some(lt[k + 1])
    } else {
        None
    }
}

impl<T> Arena<T> {
    pub closed spec fn view(&self) -> ArenaView<T> {
        ArenaView {
            slots: Seq::new(self.slots@.len(), |i: int| self.slots@[i].view()),
            free: self.free@,
            lt: self.lt@,
            walking: self.walking,
            fresh: self.fresh@,
            units: self.unit_ids@,
            mapobjects: self.mapobject_ids@,
            removals: self.pending_removals@,
        }
    }

    spec fn linked(&self) -> bool {
        &&& forall|k: int|
            0 <= k < self.lt@.len() ==> #[trigger] node_ok(self.slots@, self.lt@, k)
        &&& forall|i: int|
            0 <= i < self.slots@.len() && (#[trigger] self.slots@[i]).in_lt ==> self.lt@.contains(
                ObjectId { index: i as u32, generation: self.slots@[i].generation },
            )
        &&& self.first_lt == if self.lt@.len() > 0 {
            Some(self.lt@[0])
        } else {
            None
        }
        &&& self.last_lt == if self.lt@.len() > 0 {
            Some(self.lt@.last())
        } else {
            None
        }
    }

    /// The slots, the list that runs through them and the indexes agree.
    pub closed spec fn wf(&self) -> bool {
        self@.wf() && self.linked()
    }

    /// A well-formed arena has a well-formed model.
    pub proof fn lemma_wf(&self)
        requires
            self.wf(),
        ensures
            self@.wf(),
    {
    }

    pub fn new() -> (objs: Arena<T>)
        ensures
            objs.wf(),
            objs@ == ArenaView::<T>::empty(),
    {
        let objs = Arena {
            slots: Vec::new(),
            free: Vec::new(),
            first_lt: None,
            last_lt: None,
            lt: Ghost(Seq::empty()),
            walking: false,
            fresh: Vec::new(),
            unit_ids: Vec::new(),
            mapobject_ids: Vec::new(),
            pending_removals: Vec::new(),
        };
        assert(objs@ =~= ArenaView::<T>::empty());
        objs
    }

    fn gen_matches(&self, id: ObjectId) -> (b: bool)
        ensures
            b == self@.gen_matches(id),
    {
        let i = id.index as usize;
        i < self.slots.len() && self.slots[i].live && self.slots[i].generation == id.generation
    }

    /// Is the object behind the handle present?
    pub fn is_valid(&self, id: ObjectId) -> (b: bool)
        ensures
            b == self@.is_valid(id),
    {
        let i = id.index as usize;
        self.gen_matches(id) && self.slots[i].obj.is_some()
    }

    /// Is the object alive, but checked out by a running takt?
    pub fn is_checked_out(&self, id: ObjectId) -> (b: bool)
        ensures
            b == (self@.gen_matches(id) && !self@.is_valid(id)),
    {
        self.gen_matches(id) && !self.is_valid(id)
    }

    /// Is the object on the logic list? Holds while it is checked out, too.
    pub fn in_lt(&self, id: ObjectId) -> (b: bool)
        requires
            self.wf(),
        ensures
            b == self@.in_lt(id),
    {
        let i = id.index as usize;
        let b = i < self.slots.len() && self.slots[i].generation == id.generation
            && self.slots[i].in_lt;
        proof {
            if self.lt@.contains(id) {
                let k = self.lt@.index_of(id);
                assert(node_ok(self.slots@, self.lt@, k));
                assert(self@.gen_matches(self@.lt[k]));
            }
        }
        b
    }

    /// Append the object to the logic list, unless it is on it already.
    pub fn add_lt(&mut self, id: ObjectId)
        requires
            old(self).wf(),
        ensures
            final(self).wf(),
            final(self)@ == old(self)@.add_lt(id),
    {
        if !self.gen_matches(id) || self.in_lt(id) {
            return;
        }
        let old_last = self.last_lt;
        let i = id.index as usize;
        let ghost pre = *self;
        proof {
            assert forall|k: int| 0 <= k < pre.lt@.len() implies (#[trigger] pre.lt@[k]).index
                != id.index by {
                assert(pre@.gen_matches(pre@.lt[k]));
            }
            if pre.lt@.len() > 0 {
                assert(pre@.gen_matches(pre@.lt[pre.lt@.len() - 1]));
            }
        }
        self.slots[i].in_lt = true;
        self.slots[i].prev_lt = old_last;
        self.slots[i].next_lt = None;
        match old_last {
            Some(prev) => {
                self.slots[prev.index as usize].next_lt = Some(id);
            },
            None => {
                self.first_lt = Some(id);
            },
        }
        self.last_lt = Some(id);
        self.lt = Ghost(self.lt@.push(id));
        if self.walking {
            self.fresh.push(id);
        }
        proof {
            assert(self@.slots =~= pre@.slots);
            assert(self@ =~= pre@.add_lt(id));
            assert forall|k: int| 0 <= k < self.lt@.len() implies #[trigger] node_ok(
                self.slots@,
                self.lt@,
                k,
            ) by {
                if k < pre.lt@.len() {
                    assert(node_ok(pre.slots@, pre.lt@, k));
                    assert(pre@.gen_matches(pre@.lt[k]));
                    let last = pre.lt@.len() - 1;
                    if pre.lt@[k].index == pre.lt@[last].index {
                        assert(pre@.gen_matches(pre@.lt[last]));
                        assert(pre.lt@[k] == pre.lt@[last]);
                    }
                }
            }
            assert forall|j: int|
                0 <= j < self.slots@.len() && (#[trigger] self.slots@[j]).in_lt implies
                self.lt@.contains(
                ObjectId { index: j as u32, generation: self.slots@[j].generation },
            ) by {
                let oid = ObjectId { index: j as u32, generation: self.slots@[j].generation };
                if j == i {
                    assert(self.lt@[self.lt@.len() - 1] == oid);
                } else {
                    assert(pre.slots@[j].in_lt);
                    assert(pre.lt@.contains(oid));
                    let k = pre.lt@.index_of(oid);
                    assert(self.lt@[k] == oid);
                }
            }
            assert forall|k: int| 0 <= k < self@.lt.len() implies self@.gen_matches(
                #[trigger] self@.lt[k],
            ) by {
                if k < pre@.lt.len() {
                    assert(pre@.gen_matches(pre@.lt[k]));
                }
            }
            lemma_index_same(pre@, self@);
        }
    }

    /// Take the object off the logic list, if it is on it.
    pub fn del_lt(&mut self, id: ObjectId)
        requires
            old(self).wf(),
        ensures
            final(self).wf(),
            final(self)@ == old(self)@.del_lt(id),
    {
        if !self.in_lt(id) {
            return;
        }
        let i = id.index as usize;
        let ghost pre = *self;
        let ghost p = self.lt@.index_of(id);
        proof {
            assert(node_ok(pre.slots@, pre.lt@, p));
            assert(pre@.gen_matches(pre@.lt[p]));
            if p > 0 {
                assert(pre@.gen_matches(pre@.lt[p - 1]));
                assert(pre.lt@[p - 1] != pre.lt@[p]);
            }
            if p + 1 < pre.lt@.len() {
                assert(pre@.gen_matches(pre@.lt[p + 1]));
                assert(pre.lt@[p + 1] != pre.lt@[p]);
                if p > 0 {
                    assert(pre.lt@[p - 1] != pre.lt@[p + 1]);
                }
            }
        }
        let prev = self.slots[i].prev_lt;
        let next = self.slots[i].next_lt;
        self.slots[i].in_lt = false;
        self.slots[i].prev_lt = None;
        self.slots[i].next_lt = None;
        match prev {
            Some(q) => {
                self.slots[q.index as usize].next_lt = next;
            },
            None => {
                self.first_lt = patch_head(self.first_lt, id, next);
            },
        }
        match next {
            Some(q) => {
                self.slots[q.index as usize].prev_lt = prev;
            },
            None => {
                self.last_lt = patch_head(self.last_lt, id, prev);
            },
        }
        self.lt = Ghost(self.lt@.remove(p));
        proof {
            assert(self@.slots =~= pre@.slots);
            assert(self@ =~= pre@.del_lt(id));
            lemma_unlinked(pre, *self, p);
            lemma_del_lt_wf(pre@, id);
        }
    }

    /// Insert an object; its handle is new. The object is on no logic list.
    pub fn spawn(&mut self, obj: T, kind: ObjectType) -> (id: ObjectId)
        requires
            old(self).wf(),
            old(self)@.free.len() > 0 || old(self)@.slots.len() <= u32::MAX,
        ensures
            final(self).wf(),
            id == old(self)@.next_id(),
            final(self)@ == old(self)@.spawn(obj, kind),
    {
        let ghost pre = *self;
        proof {
            lemma_spawn_wf(pre@, obj, kind);
        }
        let id = match self.free.pop() {
            Some(index) => {
                let i = index as usize;
                proof {
                    assert(pre@.free[pre@.free.len() - 1] == index);
                    assert(!pre.slots@[i as int].in_lt) by {
                        if pre.slots@[i as int].in_lt {
                            let oid = ObjectId {
                                index: i as u32,
                                generation: pre.slots@[i as int].generation,
                            };
                            assert(pre.lt@.contains(oid));
                            assert(pre@.gen_matches(pre@.lt[pre.lt@.index_of(oid)]));
                        }
                    }
                }
                self.slots[i].live = true;
                self.slots[i].kind = Ghost(kind);
                self.slots[i].obj = Some(obj);
                self.slots[i].in_lt = false;
                self.slots[i].prev_lt = None;
                self.slots[i].next_lt = None;
                ObjectId { index, generation: self.slots[i].generation }
            },
            None => {
                let index = self.slots.len() as u32;
                self.slots.push(
                    Slot {
                        generation: 1,
                        live: true,
                        kind: Ghost(kind),
                        obj: Some(obj),
                        in_lt: false,
                        prev_lt: None,
                        next_lt: None,
                    },
                );
                ObjectId { index, generation: 1 }
            },
        };
        match kind {
            ObjectType::RobotAi | ObjectType::Building | ObjectType::Cannon | ObjectType::Flyer => {
                self.unit_ids.push(id);
            },
            ObjectType::MapObject => {
                self.mapobject_ids.push(id);
            },
            ObjectType::Empty => {},
        }
        proof {
            assert(self@.slots =~= pre@.spawn(obj, kind).slots);
            assert(self@ =~= pre@.spawn(obj, kind));
            assert forall|k: int| 0 <= k < self.lt@.len() implies #[trigger] node_ok(
                self.slots@,
                self.lt@,
                k,
            ) by {
                assert(node_ok(pre.slots@, pre.lt@, k));
                assert(pre@.gen_matches(pre@.lt[k]));
            }
            assert forall|j: int|
                0 <= j < self.slots@.len() && (#[trigger] self.slots@[j]).in_lt implies
                self.lt@.contains(
                ObjectId { index: j as u32, generation: self.slots@[j].generation },
            ) by {
                assert(pre.slots@[j].in_lt);
            }
        }
        id
    }

    /// Remove a present object: it leaves the logic list and its index, and its
    /// slot is vacated under a new generation.
    pub fn remove(&mut self, id: ObjectId)
        requires
            old(self).wf(),
        ensures
            final(self).wf(),
            final(self)@ == old(self)@.remove(id),
    {
        if !self.is_valid(id) {
            return;
        }
        let ghost pre = *self;
        proof {
            lemma_remove_wf(pre@, id);
        }
        self.del_lt(id);
        let ghost mid = *self;
        match position(&self.unit_ids, id) {
            Some(p) => {
                self.unit_ids.swap_remove(p);
                proof {
                    assert(pre@.gen_matches(id));
                    assert(!pre@.mapobjects.contains(id)) by {
                        if pre@.mapobjects.contains(id) {
                            let k = pre@.mapobjects.index_of(id);
                            assert(pre@.gen_matches(pre@.mapobjects[k]));
                            let q = pre@.units.index_of(id);
                            assert(pre@.gen_matches(pre@.units[q]));
                        }
                    }
                }
            },
            None => {
                match position(&self.mapobject_ids, id) {
                    Some(p) => {
                        self.mapobject_ids.swap_remove(p);
                    },
                    None => {},
                }
            },
        }
        let i = id.index as usize;
        self.slots[i].obj = None;
        self.slots[i].live = false;
        let g = self.slots[i].generation;
        self.slots[i].generation = g.wrapping_add(1);
        self.free.push(id.index);
        proof {
            assert(self@.slots =~= pre@.remove(id).slots);
            assert(self@ =~= pre@.remove(id));
            assert(!mid.lt@.contains(id)) by {
                if pre.lt@.contains(id) {
                    lemma_remove_not_contains(pre.lt@, pre.lt@.index_of(id));
                }
            }
            assert(!mid.slots@[i as int].in_lt) by {
                if mid.slots@[i as int].in_lt {
                    assert(mid.lt@.contains(
                        ObjectId { index: i as u32, generation: mid.slots@[i as int].generation },
                    ));
                    assert(mid@.slots[i as int].generation == pre@.slots[i as int].generation);
                }
            }
            assert forall|k: int| 0 <= k < self.lt@.len() implies #[trigger] node_ok(
                self.slots@,
                self.lt@,
                k,
            ) by {
                assert(node_ok(mid.slots@, mid.lt@, k));
            }
            assert forall|j: int|
                0 <= j < self.slots@.len() && (#[trigger] self.slots@[j]).in_lt implies
                self.lt@.contains(
                ObjectId { index: j as u32, generation: self.slots@[j].generation },
            ) by {
                assert(mid.slots@[j].in_lt);
            }
        }
    }

    /// Queue a removal for the end of the running walk.
    pub fn remove_deferred(&mut self, id: ObjectId)
        requires
            old(self).wf(),
        ensures
            final(self).wf(),
            final(self)@ == (ArenaView { removals: old(self)@.removals.push(id), ..old(self)@ }),
    {
        let ghost pre = *self;
        self.pending_removals.push(id);
        proof {
            assert(self@.slots =~= pre@.slots);
            lemma_index_same(pre@, self@);
        }
    }

    /// Apply the queued removals, last queued first.
    pub fn flush_removals(&mut self)
        requires
            old(self).wf(),
        ensures
            final(self).wf(),
            final(self)@ == old(self)@.flush(),
    {
        let ghost goal = self@.flush();
        loop
            invariant
                self.wf(),
                self@.flush() == goal,
            ensures
                self.wf(),
                self@ == goal,
            decreases self@.removals.len(),
        {
            let ghost pre = *self;
            match self.pending_removals.pop() {
                Some(id) => {
                    proof {
                        assert(self@.slots =~= pre@.slots);
                        assert(self@ =~= ArenaView {
                            removals: pre@.removals.drop_last(),
                            ..pre@
                        });
                        lemma_index_same(pre@, self@);
                    }
                    self.remove(id);
                },
                None => {
                    break;
                },
            }
        }
    }

    /// How many objects there are, checked out or not.
    pub fn len(&self) -> (n: usize)
        requires
            self.wf(),
        ensures
            n == live_count(self@.slots),
    {
        self.slots.len() - self.free.len()
    }

    pub fn is_empty(&self) -> (b: bool)
        requires
            self.wf(),
        ensures
            b == (live_count(self@.slots) == 0),
    {
        self.len() == 0
    }

    /// The object behind a handle; `None` once it is gone or while it is
    /// checked out.
    pub fn get(&self, id: ObjectId) -> (r: Option<&T>)
        ensures
            match r {
                Some(o) => self@.get(id) == Some(*o),
                None => self@.get(id) is None,
            },
    {
        if self.gen_matches(id) {
            self.slots[id.index as usize].obj.as_ref()
        } else {
            None
        }
    }

    /// The object behind a handle, to be changed in place.
    pub fn get_mut(&mut self, id: ObjectId) -> (r: Option<&mut T>)
        requires
            old(self).wf(),
        ensures
            final(self).wf(),
            match r {
                Some(o) => {
                    &&& old(self)@.get(id) == Some(*o)
                    &&& final(self)@ == old(self)@.with_obj(id, Some(*final(o)))
                },
                None => old(self)@.get(id) is None && final(self)@ == old(self)@,
            },
    {
        if self.gen_matches(id) {
            let ghost pre = *self;
            let i = id.index as usize;
            proof {
                assert forall|post: Arena<T>| refilled(pre, post, i as int) implies post.wf()
                    && #[trigger] post.view() == pre@.with_obj(id, post.slots@[i as int].obj) by {
                    lemma_same_shape(pre, post);
                    assert(post@ =~= pre@.with_obj(id, post.slots@[i as int].obj));
                }
                assert(pre@.with_obj(id, None).slots =~= pre@.slots || pre@.slots[i as int].obj
                    is Some);
            }
            match &mut self.slots[i].obj {
                Some(o) => Some(o),
                None => None,
            }
        } else {
            None
        }
    }

    /// Check an object out of its slot. Its handle, its place on the logic
    /// list and its generation stay as they are.
    pub fn take_obj(&mut self, id: ObjectId) -> (r: Option<T>)
        requires
            old(self).wf(),
        ensures
            final(self).wf(),
            r == old(self)@.get(id),
            final(self)@ == old(self)@.take(id),
    {
        if self.gen_matches(id) {
            let ghost pre = *self;
            let i = id.index as usize;
            let r = self.slots[i].obj.take();
            proof {
                assert(self@ =~= pre@.take(id));
                lemma_same_shape(pre, *self);
            }
            r
        } else {
            None
        }
    }

    /// Put a checked-out object back. It is dropped if its slot was vacated or
    /// filled in the meantime.
    pub fn put_obj(&mut self, id: ObjectId, obj: T)
        requires
            old(self).wf(),
        ensures
            final(self).wf(),
            final(self)@ == old(self)@.put(id, obj),
    {
        let i = id.index as usize;
        if self.gen_matches(id) && self.slots[i].obj.is_none() {
            let ghost pre = *self;
            self.slots[i].obj = Some(obj);
            proof {
                assert(self@ =~= pre@.put(id, obj));
                lemma_same_shape(pre, *self);
            }
        }
    }

    /// The logic list, head first.
    pub fn iter_logic(&self) -> (ids: Vec<ObjectId>)
        requires
            self.wf(),
        ensures
            ids@ == self@.lt,
    {
        let mut ids: Vec<ObjectId> = Vec::new();
        let mut cursor = self.first_lt;
        loop
            invariant
                self.wf(),
                ids@.len() <= self.lt@.len(),
                ids@ =~= self.lt@.take(ids@.len() as int),
                cursor == if ids@.len() < self.lt@.len() {
                    Some(self.lt@[ids@.len() as int])
                } else {
                    None
                },
            ensures
                ids@ == self.lt@,
            decreases self.lt@.len() - ids@.len(),
        {
            match cursor {
                Some(id) => {
                    proof {
                        let k = ids@.len() as int;
                        assert(node_ok(self.slots@, self.lt@, k));
                        assert(self@.gen_matches(self@.lt[k]));
                    }
                    cursor = self.slots[id.index as usize].next_lt;
                    ids.push(id);
                },
                None => {
                    assert(self.lt@.take(ids@.len() as int) =~= self.lt@);
                    break;
                },
            }
        }
        ids
    }

    /// Every present object, in slot order.
    pub fn iter_live(&self) -> (ids: Vec<ObjectId>)
        requires
            self.wf(),
        ensures
            ids@ == self@.live_ids(),
    {
        let mut ids: Vec<ObjectId> = Vec::new();
        let mut i: usize = 0;
        while i < self.slots.len()
            invariant
                self.wf(),
                i <= self.slots@.len(),
                ids@ == self@.live_upto(i as int),
            decreases self.slots.len() - i,
        {
            if self.slots[i].obj.is_some() {
                ids.push(ObjectId { index: i as u32, generation: self.slots[i].generation });
            }
            i = i + 1;
        }
        ids
    }

    /// Call `f` on every present object, in slot order.
    pub fn for_each_live<F: Fn(ObjectId, &T)>(&self, f: &F)
        requires
            self.wf(),
            forall|id: ObjectId, o: T| self@.get(id) == Some(o) ==> call_requires(*f, (id, &o)),
        ensures
            forall|i: int|
                #![trigger self@.slots[i]]
                0 <= i < self@.slots.len() && self@.slots[i].obj is Some ==> call_ensures(
                    *f,
                    (self@.id_of(i), &self@.slots[i].obj->0),
                    (),
                ),
    {
        let mut i: usize = 0;
        while i < self.slots.len()
            invariant
                self.wf(),
                i <= self.slots@.len(),
                forall|id: ObjectId, o: T| self@.get(id) == Some(o) ==> call_requires(*f, (id, &o)),
                forall|j: int|
                    #![trigger self@.slots[j]]
                    0 <= j < i && self@.slots[j].obj is Some ==> call_ensures(
                        *f,
                        (self@.id_of(j), &self@.slots[j].obj->0),
                        (),
                    ),
            decreases self.slots.len() - i,
        {
            match &self.slots[i].obj {
                Some(o) => {
                    let id = ObjectId { index: i as u32, generation: self.slots[i].generation };
                    proof {
                        assert(self@.slots[i as int].obj is Some);
                        assert(self@.slots[i as int].live);
                        assert(self@.get(id) == Some(*o));
                    }
                    f(id, o);
                },
                None => {},
            }
            i = i + 1;
        }
    }

    /// Handles of all robots, buildings, cannons and flyers.
    pub fn iter_units(&self) -> (ids: Vec<ObjectId>)
        ensures
            ids@ == self@.units,
    {
        self.unit_ids.clone()
    }

    /// Begin a walk over the logic list.
    pub fn begin_walk(&mut self)
        requires
            old(self).wf(),
        ensures
            final(self).wf(),
            final(self)@ == old(self)@.begin_walk(),
    {
        let ghost pre = *self;
        self.walking = true;
        self.fresh.clear();
        proof {
            assert(self@.slots =~= pre@.slots);
            assert(self@ =~= pre@.begin_walk());
            lemma_index_same(pre@, self@);
        }
    }

    /// End the walk.
    pub fn end_walk(&mut self)
        requires
            old(self).wf(),
        ensures
            final(self).wf(),
            final(self)@ == old(self)@.end_walk(),
    {
        let ghost pre = *self;
        self.walking = false;
        self.fresh.clear();
        proof {
            assert(self@.slots =~= pre@.slots);
            assert(self@ =~= pre@.end_walk());
            lemma_index_same(pre@, self@);
        }
    }

    /// Was the object enrolled during the running walk?
    pub fn is_fresh(&self, id: ObjectId) -> (b: bool)
        ensures
            b == self@.fresh.contains(id),
    {
        let mut i: usize = 0;
        while i < self.fresh.len()
            invariant
                i <= self.fresh@.len(),
                forall|k: int| 0 <= k < i ==> self.fresh@[k] != id,
            decreases self.fresh.len() - i,
        {
            if self.fresh[i] == id {
                return true;
            }
            i = i + 1;
        }
        false
    }

    /// The handle that the next spawn gives out.
    pub fn next_id(&self) -> (id: ObjectId)
        requires
            self.wf(),
            self@.free.len() > 0 || self@.slots.len() <= u32::MAX,
        ensures
            id == self@.next_id(),
    {
        let n = self.free.len();
        if n > 0 {
            let index = self.free[n - 1];
            assert(self@.free[n - 1] == index);
            assert(self@.slots[index as int].generation == self.slots@[index as int].generation);
            ObjectId { index, generation: self.slots[index as usize].generation }
        } else {
            ObjectId { index: self.slots.len() as u32, generation: 1 }
        }
    }

    /// Is there a handle left for one more object?
    pub fn has_room(&self) -> (b: bool)
        ensures
            b == (self@.free.len() > 0 || self@.slots.len() <= u32::MAX),
    {
        self.free.len() > 0 || self.slots.len() <= 0xffff_ffff
    }

    /// Handles of all scenery objects.
    pub fn iter_mapobjects(&self) -> (ids: Vec<ObjectId>)
        ensures
            ids@ == self@.mapobjects,
    {
        self.mapobject_ids.clone()
    }
}

/// Only what slot `i` holds differs.
spec fn refilled<T>(pre: Arena<T>, post: Arena<T>, i: int) -> bool {
    &&& post.slots@ == pre.slots@.update(i, Slot { obj: post.slots@[i].obj, ..pre.slots@[i] })
    &&& post == Arena { slots: post.slots, ..pre }
}

/// Changing what live slots hold, and nothing else, keeps the arena in order.
proof fn lemma_same_shape<T>(pre: Arena<T>, post: Arena<T>)
    requires
        pre.wf(),
        post.slots@.len() == pre.slots@.len(),
        forall|j: int|
            0 <= j < pre.slots@.len() ==> {
                let a = #[trigger] pre.slots@[j];
                let b = post.slots@[j];
                &&& b.generation == a.generation
                &&& b.live == a.live
                &&& b.kind == a.kind
                &&& b.in_lt == a.in_lt
                &&& b.prev_lt == a.prev_lt
                &&& b.next_lt == a.next_lt
                &&& a.live || b.obj == a.obj
            },
        post.free@ == pre.free@,
        post.lt@ == pre.lt@,
        post.first_lt == pre.first_lt,
        post.last_lt == pre.last_lt,
        post.walking == pre.walking,
        post.fresh@ == pre.fresh@,
        post.unit_ids@ == pre.unit_ids@,
        post.mapobject_ids@ == pre.mapobject_ids@,
    ensures
        post.wf(),
{
    let v = pre@;
    let w = post@;
    assert forall|k: int| 0 <= k < post.lt@.len() implies #[trigger] node_ok(
        post.slots@,
        post.lt@,
        k,
    ) by {
        assert(node_ok(pre.slots@, pre.lt@, k));
        assert(v.gen_matches(v.lt[k]));
    }
    assert forall|j: int|
        0 <= j < post.slots@.len() && (#[trigger] post.slots@[j]).in_lt implies post.lt@.contains(
        ObjectId { index: j as u32, generation: post.slots@[j].generation },
    ) by {
        assert(pre.slots@[j].in_lt);
    }
    assert forall|i: int| 0 <= i < v.slots.len() implies (#[trigger] w.slots[i]).live
        == v.slots[i].live && w.slots[i].generation == v.slots[i].generation && w.slots[i].kind
        == v.slots[i].kind by {
        assert(pre.slots@[i].live == post.slots@[i].live);
    }
    assert forall|id: ObjectId| v.gen_matches(id) implies #[trigger] w.gen_matches(id) by {}
    lemma_live_count_same(v.slots, w.slots);
    assert forall|k: int| 0 <= k < w.free.len() implies (#[trigger] w.free[k]) < w.slots.len()
        && !w.slots[w.free[k] as int].live by {
        assert(v.free[k] < v.slots.len());
    }
    assert forall|i: int| 0 <= i < w.slots.len() && !(#[trigger] w.slots[i]).live implies
        w.slots[i].obj is None by {
        assert(!v.slots[i].live);
        assert(!pre.slots@[i].live);
    }
    assert forall|k: int| 0 <= k < w.lt.len() implies w.gen_matches(#[trigger] w.lt[k]) by {
        assert(v.gen_matches(v.lt[k]));
    }
    lemma_index_kept(v, w, v.units, true);
    lemma_index_kept(v, w, v.mapobjects, false);
}

proof fn lemma_index_kept<T>(a: ArenaView<T>, b: ArenaView<T>, ids: Seq<ObjectId>, u: bool)
    requires
        a.slots.len() == b.slots.len(),
        forall|i: int|
            0 <= i < a.slots.len() ==> (#[trigger] b.slots[i]).live == a.slots[i].live
                && b.slots[i].generation == a.slots[i].generation && b.slots[i].kind
                == a.slots[i].kind,
        a.index_ok(ids, u),
    ensures
        b.index_ok(ids, u),
{
    assert forall|k: int| 0 <= k < ids.len() implies b.gen_matches(#[trigger] ids[k]) && (if u {
        is_unit_type(b.slots[ids[k].slot()].kind)
    } else {
        b.slots[ids[k].slot()].kind == ObjectType::MapObject
    }) by {
        assert(a.gen_matches(ids[k]));
    }
    assert forall|i: int|
        #![trigger b.slots[i]]
        0 <= i < b.slots.len() && b.slots[i].live && (if u {
            is_unit_type(b.slots[i].kind)
        } else {
            b.slots[i].kind == ObjectType::MapObject
        }) implies ids.contains(b.id_of(i)) by {
        assert(a.slots[i].live);
        assert(ids.contains(a.id_of(i)));
    }
}

proof fn lemma_live_count_same<T>(a: Seq<SlotView<T>>, b: Seq<SlotView<T>>)
    requires
        a.len() == b.len(),
        forall|i: int| 0 <= i < a.len() ==> (#[trigger] a[i]).live == b[i].live,
    ensures
        live_count(a) == live_count(b),
    decreases a.len(),
{
    if a.len() > 0 {
        assert forall|i: int| 0 <= i < a.len() - 1 implies (#[trigger] a.drop_last()[i]).live
            == b.drop_last()[i].live by {
            assert(a[i].live == b[i].live);
        }
        lemma_live_count_same(a.drop_last(), b.drop_last());
        assert(a[a.len() - 1].live == b[b.len() - 1].live);
    }
}

/// Distinct nodes of the list stand in distinct slots.
proof fn lemma_nodes_apart<T>(o: Arena<T>, a: int, b: int)
    requires
        o.wf(),
        0 <= a < o.lt@.len(),
        0 <= b < o.lt@.len(),
        o.lt@[a].index == o.lt@[b].index,
    ensures
        a == b,
{
    assert(o@.gen_matches(o@.lt[a]));
    assert(o@.gen_matches(o@.lt[b]));
    assert(o.lt@[a] == o.lt@[b]);
}

/// Unlinking node `p` and joining its neighbours leaves a linked list.
proof fn lemma_unlinked<T>(pre: Arena<T>, post: Arena<T>, p: int)
    requires
        pre.wf(),
        0 <= p < pre.lt@.len(),
        post.lt@ == pre.lt@.remove(p),
        post.slots@.len() == pre.slots@.len(),
        !post.slots@[pre.lt@[p].index as int].in_lt,
        forall|j: int|
            0 <= j < pre.slots@.len() && j != pre.lt@[p].index ==> {
                let a = #[trigger] pre.slots@[j];
                let b = post.slots@[j];
                let prev = pre.slots@[pre.lt@[p].index as int].prev_lt;
                let next = pre.slots@[pre.lt@[p].index as int].next_lt;
                &&& b.in_lt == a.in_lt
                &&& b.generation == a.generation
                &&& b.next_lt == if p > 0 && j == pre.lt@[p - 1].index {
                    next
                } else {
                    a.next_lt
                }
                &&& b.prev_lt == if p + 1 < pre.lt@.len() && j == pre.lt@[p + 1].index {
                    prev
                } else {
                    a.prev_lt
                }
            },
        post.first_lt == if p > 0 {
            pre.first_lt
        } else {
            pre.slots@[pre.lt@[p].index as int].next_lt
        },
        post.last_lt == if p + 1 < pre.lt@.len() {
            pre.last_lt
        } else {
            pre.slots@[pre.lt@[p].index as int].prev_lt
        },
    ensures
        post.linked(),
{
    assert(node_ok(pre.slots@, pre.lt@, p));
    assert forall|k: int| 0 <= k < post.lt@.len() implies #[trigger] node_ok(
        post.slots@,
        post.lt@,
        k,
    ) by {
        let j = if k < p {
            k
        } else {
            k + 1
        };
        assert(post.lt@[k] == pre.lt@[j]);
        assert(node_ok(pre.slots@, pre.lt@, j));
        assert(pre@.gen_matches(pre@.lt[j]));
        let s = pre.slots@[pre.lt@[j].index as int];
        if pre.lt@[j].index == pre.lt@[p].index {
            lemma_nodes_apart(pre, j, p);
        }
        if p > 0 && pre.lt@[j].index == pre.lt@[p - 1].index {
            lemma_nodes_apart(pre, j, p - 1);
        }
        if p + 1 < pre.lt@.len() && pre.lt@[j].index == pre.lt@[p + 1].index {
            lemma_nodes_apart(pre, j, p + 1);
        }
    }
    assert forall|j: int|
        0 <= j < post.slots@.len() && (#[trigger] post.slots@[j]).in_lt implies post.lt@.contains(
        ObjectId { index: j as u32, generation: post.slots@[j].generation },
    ) by {
        let oid = ObjectId { index: j as u32, generation: post.slots@[j].generation };
        assert(pre.slots@[j].in_lt);
        assert(pre.lt@.contains(oid));
        let k = pre.lt@.index_of(oid);
        assert(k != p);
        if k < p {
            assert(post.lt@[k] == oid);
        } else {
            assert(post.lt@[k - 1] == oid);
        }
    }
}

/// Where `id` first stands in `ids`.
fn position(ids: &Vec<ObjectId>, id: ObjectId) -> (r: Option<usize>)
    requires
        ids@.no_duplicates(),
    ensures
        match r {
            Some(p) => ids@.contains(id) && p == ids@.index_of(id),
            None => !ids@.contains(id),
        },
{
    let mut p: usize = 0;
    while p < ids.len()
        invariant
            p <= ids@.len(),
            ids@.no_duplicates(),
            forall|k: int| 0 <= k < p ==> ids@[k] != id,
        decreases ids.len() - p,
    {
        if ids[p] == id {
            proof {
                lemma_index_of(ids@, p as int);
            }
            return Some(p);
        }
        p = p + 1;
    }
    None
}

/// Repoint a list end that stood at the removed node at its replacement.
fn patch_head(current: Option<ObjectId>, removed: ObjectId, replacement: Option<ObjectId>) -> (r:
    Option<ObjectId>)
    ensures
        r == if current == Some(removed) {
            replacement
        } else {
            current
        },
{
    if current == Some(removed) {
        replacement
    } else {
        current
    }
}

proof fn lemma_remove_not_contains<A>(s: Seq<A>, p: int)
    requires
        s.no_duplicates(),
        0 <= p < s.len(),
    ensures
        !s.remove(p).contains(s[p]),
        s.remove(p).no_duplicates(),
{
    let r = s.remove(p);
    if r.contains(s[p]) {
        let k = r.index_of(s[p]);
        let j = if k < p {
            k
        } else {
            k + 1
        };
        assert(s[j] == s[p]);
    }
    assert forall|a: int, b: int| 0 <= a < r.len() && 0 <= b < r.len() && a != b implies r[a]
        != r[b] by {
        let x = if a < p {
            a
        } else {
            a + 1
        };
        let y = if b < p {
            b
        } else {
            b + 1
        };
        assert(r[a] == s[x] && r[b] == s[y]);
    }
}

proof fn lemma_without<A>(s: Seq<A>, x: A)
    requires
        s.no_duplicates(),
    ensures
        without(s, x).no_duplicates(),
        forall|y: A| without(s, x).contains(y) <==> s.contains(y) && y != x,
{
    let w = without(s, x);
    if s.contains(x) {
        let p = s.index_of(x);
        assert forall|k: int| 0 <= k < w.len() implies #[trigger] w[k] == if k == p {
            s[s.len() - 1]
        } else {
            s[k]
        } by {}
        assert forall|y: A| w.contains(y) implies s.contains(y) && y != x by {
            let k = w.index_of(y);
            if k == p {
                assert(s[s.len() - 1] == y);
            } else {
                assert(s[k] == y);
            }
        }
        assert forall|y: A| s.contains(y) && y != x implies w.contains(y) by {
            let k = s.index_of(y);
            if k == s.len() - 1 {
                assert(w[p] == y);
            } else {
                assert(w[k] == y);
            }
        }
    }
}

proof fn lemma_del_lt_wf<T>(v: ArenaView<T>, id: ObjectId)
    requires
        v.wf(),
    ensures
        v.del_lt(id).wf(),
        !v.del_lt(id).in_lt(id),
{
    if v.in_lt(id) {
        let w = v.del_lt(id);
        let p = v.lt.index_of(id);
        lemma_remove_not_contains(v.lt, p);
        assert forall|k: int| 0 <= k < w.lt.len() implies w.gen_matches(#[trigger] w.lt[k]) by {
            let j = if k < p {
                k
            } else {
                k + 1
            };
            assert(v.gen_matches(v.lt[j]));
        }
        lemma_index_same(v, w);
    }
}

proof fn lemma_spawn_wf<T>(v: ArenaView<T>, obj: T, kind: ObjectType)
    requires
        v.wf(),
        v.free.len() > 0 || v.slots.len() <= u32::MAX,
    ensures
        v.spawn(obj, kind).wf(),
        !v.gen_matches(v.next_id()),
        v.spawn(obj, kind).is_valid(v.next_id()),
        0 <= v.next_id().slot() <= u32::MAX,
{
    let w = v.spawn(obj, kind);
    let id = v.next_id();
    if v.free.len() > 0 {
        let i = v.free[v.free.len() - 1] as int;
        lemma_live_count_update(v.slots, i, w.slots[i]);
        assert(w.slots =~= v.slots.update(i, w.slots[i]));
        assert forall|k: int| 0 <= k < w.free.len() implies (#[trigger] w.free[k]) < w.slots.len()
            && !w.slots[w.free[k] as int].live by {
            assert(w.free[k] == v.free[k]);
        }
    } else {
        assert(w.slots.drop_last() =~= v.slots);
    }
    assert forall|k: int| 0 <= k < w.lt.len() implies w.gen_matches(#[trigger] w.lt[k]) by {
        assert(v.gen_matches(v.lt[k]));
    }
    assert(!v.units.contains(id)) by {
        if v.units.contains(id) {
            assert(v.gen_matches(v.units[v.units.index_of(id)]));
        }
    }
    assert(!v.mapobjects.contains(id)) by {
        if v.mapobjects.contains(id) {
            assert(v.gen_matches(v.mapobjects[v.mapobjects.index_of(id)]));
        }
    }
    lemma_spawn_index(v, obj, kind, true);
    lemma_spawn_index(v, obj, kind, false);
}

proof fn lemma_spawn_index<T>(v: ArenaView<T>, obj: T, kind: ObjectType, u: bool)
    requires
        v.wf(),
        v.free.len() > 0 || v.slots.len() <= u32::MAX,
        !v.units.contains(v.next_id()),
        !v.mapobjects.contains(v.next_id()),
    ensures
        u ==> v.spawn(obj, kind).index_ok(v.spawn(obj, kind).units, true),
        !u ==> v.spawn(obj, kind).index_ok(v.spawn(obj, kind).mapobjects, false),
{
    let w = v.spawn(obj, kind);
    let id = v.next_id();
    let old_ids = if u {
        v.units
    } else {
        v.mapobjects
    };
    let ids = if u {
        w.units
    } else {
        w.mapobjects
    };
    assert forall|k: int| 0 <= k < ids.len() implies w.gen_matches(#[trigger] ids[k]) && (if u {
        is_unit_type(w.slots[ids[k].slot()].kind)
    } else {
        w.slots[ids[k].slot()].kind == ObjectType::MapObject
    }) by {
        if k < old_ids.len() {
            assert(ids[k] == old_ids[k]);
            assert(v.gen_matches(old_ids[k]));
        }
    }
    assert forall|i: int|
        #![trigger w.slots[i]]
        0 <= i < w.slots.len() && w.slots[i].live && (if u {
            is_unit_type(w.slots[i].kind)
        } else {
            w.slots[i].kind == ObjectType::MapObject
        }) implies ids.contains(w.id_of(i)) by {
        if i == id.slot() {
            assert(ids[ids.len() - 1] == w.id_of(i));
        } else {
            assert(v.slots[i] == w.slots[i]);
            assert(old_ids.contains(v.id_of(i)));
            let k = old_ids.index_of(v.id_of(i));
            assert(ids[k] == w.id_of(i));
        }
    }
    assert(ids.no_duplicates()) by {
        assert forall|a: int, b: int| 0 <= a < ids.len() && 0 <= b < ids.len() && a != b implies
            ids[a] != ids[b] by {
            if a < old_ids.len() {
                assert(old_ids.contains(old_ids[a]));
            }
            if b < old_ids.len() {
                assert(old_ids.contains(old_ids[b]));
            }
        }
    }
}

proof fn lemma_remove_wf<T>(v: ArenaView<T>, id: ObjectId)
    requires
        v.wf(),
    ensures
        v.remove(id).wf(),
{
    if v.is_valid(id) {
        let i = id.slot();
        let d = v.del_lt(id);
        let w = v.remove(id);
        lemma_del_lt_wf(v, id);
        lemma_live_count_update(v.slots, i, w.slots[i]);
        lemma_without(v.units, id);
        lemma_without(v.mapobjects, id);
        assert(w.free.no_duplicates()) by {
            assert forall|a: int, b: int|
                0 <= a < w.free.len() && 0 <= b < w.free.len() && a != b implies w.free[a]
                != w.free[b] by {
                if a < v.free.len() {
                    assert(!v.slots[v.free[a] as int].live);
                }
                if b < v.free.len() {
                    assert(!v.slots[v.free[b] as int].live);
                }
            }
        }
        assert forall|k: int| 0 <= k < w.free.len() implies (#[trigger] w.free[k]) < w.slots.len()
            && !w.slots[w.free[k] as int].live by {
            if k < v.free.len() {
                assert(w.free[k] == v.free[k]);
            }
        }
        assert forall|k: int| 0 <= k < w.lt.len() implies w.gen_matches(#[trigger] w.lt[k]) by {
            assert(d.gen_matches(d.lt[k]));
            if w.lt[k].slot() == i {
                assert(w.lt[k] == id);
                assert(d.lt.contains(id));
            }
        }
        lemma_remove_index(v, id, true);
        lemma_remove_index(v, id, false);
    }
}

proof fn lemma_remove_index<T>(v: ArenaView<T>, id: ObjectId, u: bool)
    requires
        v.wf(),
        v.is_valid(id),
    ensures
        v.remove(id).index_ok(
            if u {
                v.remove(id).units
            } else {
                v.remove(id).mapobjects
            },
            u,
        ),
{
    let w = v.remove(id);
    let old_ids = if u {
        v.units
    } else {
        v.mapobjects
    };
    let ids = if u {
        w.units
    } else {
        w.mapobjects
    };
    lemma_without(old_ids, id);
    assert(ids == without(old_ids, id));
    assert forall|k: int| 0 <= k < ids.len() implies w.gen_matches(#[trigger] ids[k]) && (if u {
        is_unit_type(w.slots[ids[k].slot()].kind)
    } else {
        w.slots[ids[k].slot()].kind == ObjectType::MapObject
    }) by {
        assert(ids.contains(ids[k]));
        let q = old_ids.index_of(ids[k]);
        assert(v.gen_matches(old_ids[q]));
        if ids[k].slot() == id.slot() {
            assert(ids[k] == id);
        }
    }
    assert forall|i: int|
        #![trigger w.slots[i]]
        0 <= i < w.slots.len() && w.slots[i].live && (if u {
            is_unit_type(w.slots[i].kind)
        } else {
            w.slots[i].kind == ObjectType::MapObject
        }) implies ids.contains(w.id_of(i)) by {
        assert(i != id.slot());
        assert(v.slots[i] == w.slots[i]);
        assert(old_ids.contains(v.id_of(i)));
        assert(v.id_of(i) == w.id_of(i));
        assert(v.id_of(i) != id);
    }
}

proof fn lemma_index_same<T>(a: ArenaView<T>, b: ArenaView<T>)
    requires
        a.slots == b.slots,
    ensures
        forall|ids: Seq<ObjectId>, u: bool| a.index_ok(ids, u) ==> b.index_ok(ids, u),
        forall|i: int| a.id_of(i) == b.id_of(i),
        forall|id: ObjectId| a.gen_matches(id) == b.gen_matches(id),
{
    assert forall|ids: Seq<ObjectId>, u: bool| a.index_ok(ids, u) implies b.index_ok(ids, u) by {
        assert forall|k: int| 0 <= k < ids.len() implies b.gen_matches(#[trigger] ids[k]) && (if u {
            is_unit_type(b.slots[ids[k].slot()].kind)
        } else {
            b.slots[ids[k].slot()].kind == ObjectType::MapObject
        }) by {
            assert(a.gen_matches(ids[k]));
        }
        assert forall|i: int|
            #![trigger b.slots[i]]
            0 <= i < b.slots.len() && b.slots[i].live && (if u {
                is_unit_type(b.slots[i].kind)
            } else {
                b.slots[i].kind == ObjectType::MapObject
            }) implies ids.contains(b.id_of(i)) by {
            assert(ids.contains(a.id_of(i)));
        }
    }
}

// ── Laws ────────────────────────────────────────────────────────────────
/// Enrolling twice is enrolling once.
pub proof fn law_add_lt_idempotent<T>(v: ArenaView<T>, id: ObjectId)
    ensures
        v.add_lt(id).add_lt(id) == v.add_lt(id),
{
    let w = v.add_lt(id);
    if v.gen_matches(id) && !v.in_lt(id) {
        assert(w.lt[w.lt.len() - 1] == id);
    }
}

/// Taking a handle off the list that is not on it changes nothing; taking one
/// off twice is taking it off once.
pub proof fn law_del_lt_idempotent<T>(v: ArenaView<T>, id: ObjectId)
    requires
        v.wf(),
    ensures
        !v.in_lt(id) ==> v.del_lt(id) == v,
        v.del_lt(id).del_lt(id) == v.del_lt(id),
        !v.del_lt(id).in_lt(id),
{
    lemma_del_lt_wf(v, id);
}

/// Taking an object off the list right after it was enrolled undoes the
/// enrolment; a walk that is running still remembers it.
pub proof fn law_del_lt_undoes_add_lt<T>(v: ArenaView<T>, id: ObjectId)
    requires
        v.wf(),
        !v.in_lt(id),
    ensures
        v.add_lt(id).del_lt(id) == (ArenaView {
            fresh: if v.walking && v.gen_matches(id) {
                v.fresh.push(id)
            } else {
                v.fresh
            },
            ..v
        }),
        !v.walking ==> v.add_lt(id).del_lt(id) == v,
{
    if v.gen_matches(id) {
        let w = v.add_lt(id);
        let n = v.lt.len() as int;
        assert(w.lt[n] == id);
        let p = w.lt.index_of(id);
        if p < n {
            assert(v.lt[p] == id);
        }
        assert(w.lt.remove(p) =~= v.lt);
        assert(w.del_lt(id) =~= (ArenaView { fresh: w.fresh, ..v }));
    }
}

/// Between two moments of a walk nobody is forgotten who was enrolled during it,
/// and whoever has come onto the list is noted.
pub open spec fn walk_kept<T>(a: ArenaView<T>, b: ArenaView<T>) -> bool {
    &&& b.walking == a.walking
    &&& forall|id: ObjectId| #[trigger] a.fresh.contains(id) ==> b.fresh.contains(id)
    &&& a.walking ==> forall|id: ObjectId| #[trigger]
        b.lt.contains(id) && !a.lt.contains(id) ==> b.fresh.contains(id)
}

/// Every operation on the arena keeps the notes of a walk.
pub proof fn law_walk_is_kept<T>(v: ArenaView<T>, id: ObjectId, o: T, kind: ObjectType)
    requires
        v.wf(),
    ensures
        walk_kept(v, v.add_lt(id)),
        walk_kept(v, v.del_lt(id)),
        walk_kept(v, v.remove(id)),
        walk_kept(v, v.spawn(o, kind)),
        walk_kept(v, v.take(id)),
        walk_kept(v, v.put(id, o)),
{
    let w = v.add_lt(id);
    assert forall|x: ObjectId| #[trigger] v.fresh.contains(x) implies w.fresh.contains(x) by {
        assert(w.fresh[v.fresh.index_of(x)] == x);
    }
    if v.gen_matches(id) && !v.in_lt(id) {
        assert forall|x: ObjectId| #[trigger] w.lt.contains(x) && !v.lt.contains(x) && v.walking implies
            w.fresh.contains(x) by {
            let k = w.lt.index_of(x);
            if k < v.lt.len() {
                assert(v.lt[k] == x);
            }
            assert(w.fresh[v.fresh.len() as int] == id);
        }
    }
    let d = v.del_lt(id);
    assert forall|x: ObjectId| #[trigger] d.lt.contains(x) implies v.lt.contains(x) by {
        if v.in_lt(id) {
            let p = v.lt.index_of(id);
            let k = d.lt.index_of(x);
            let j = if k < p {
                k
            } else {
                k + 1
            };
            assert(v.lt[j] == x);
        }
    }
}

/// What keeps the notes step by step keeps them altogether.
pub proof fn law_walk_kept_on<T>(a: ArenaView<T>, b: ArenaView<T>, c: ArenaView<T>)
    requires
        walk_kept(a, b),
        walk_kept(b, c),
    ensures
        walk_kept(a, c),
{
    assert forall|id: ObjectId| #[trigger] c.lt.contains(id) && !a.lt.contains(id) && a.walking implies
        c.fresh.contains(id) by {
        if b.lt.contains(id) {
            assert(b.fresh.contains(id));
        }
    }
}

/// An object that leaves the list during a walk and is enrolled again is noted
/// as a newcomer.
pub proof fn law_reenrolled_is_fresh<T>(v: ArenaView<T>, id: ObjectId)
    requires
        v.wf(),
        v.walking,
        v.in_lt(id),
    ensures
        v.del_lt(id).add_lt(id).in_lt(id),
        v.del_lt(id).add_lt(id).fresh.contains(id),
{
    let d = v.del_lt(id);
    lemma_del_lt_wf(v, id);
    assert(v.gen_matches(v.lt[v.lt.index_of(id)]));
    assert(d.gen_matches(id));
    let w = d.add_lt(id);
    assert(w.lt[d.lt.len() as int] == id);
    assert(w.fresh[d.fresh.len() as int] == id);
}

/// Enrolling and leaving keep the others in their order.
pub proof fn law_list_order_kept<T>(v: ArenaView<T>, id: ObjectId, a: int, b: int)
    requires
        v.wf(),
        0 <= a < b < v.lt.len(),
    ensures
        v.add_lt(id).lt.index_of(v.lt[a]) < v.add_lt(id).lt.index_of(v.lt[b]),
        v.lt[a] != id && v.lt[b] != id ==> v.del_lt(id).lt.index_of(v.lt[a]) < v.del_lt(
            id,
        ).lt.index_of(v.lt[b]),
{
    let w = v.add_lt(id);
    assert(w.lt.no_duplicates()) by {
        if v.gen_matches(id) && !v.in_lt(id) {
            assert forall|x: int, y: int|
                0 <= x < w.lt.len() && 0 <= y < w.lt.len() && x != y implies w.lt[x] != w.lt[y] by {
                if x < v.lt.len() {
                    assert(v.lt.contains(v.lt[x]));
                }
                if y < v.lt.len() {
                    assert(v.lt.contains(v.lt[y]));
                }
            }
        }
    }
    lemma_index_of(w.lt, a);
    lemma_index_of(w.lt, b);
    if v.lt[a] != id && v.lt[b] != id && v.in_lt(id) {
        let d = v.del_lt(id);
        let p = v.lt.index_of(id);
        lemma_remove_not_contains(v.lt, p);
        let x = if a < p {
            a
        } else {
            a - 1
        };
        let y = if b < p {
            b
        } else {
            b - 1
        };
        assert(d.lt[x] == v.lt[a]);
        assert(d.lt[y] == v.lt[b]);
        lemma_index_of(d.lt, x);
        lemma_index_of(d.lt, y);
    } else {
        lemma_index_of(v.lt, a);
        lemma_index_of(v.lt, b);
    }
}

/// A spawned object gets a handle that named nothing before, is present under
/// it and on no list; every other handle means what it meant.
pub proof fn law_spawn_is_fresh<T>(v: ArenaView<T>, obj: T, kind: ObjectType, other: ObjectId)
    requires
        v.wf(),
        v.free.len() > 0 || v.slots.len() <= u32::MAX,
    ensures
        v.spawn(obj, kind).wf(),
        v.get(v.next_id()) is None,
        v.spawn(obj, kind).get(v.next_id()) == Some(obj),
        !v.spawn(obj, kind).in_lt(v.next_id()),
        other != v.next_id() ==> v.spawn(obj, kind).get(other) == v.get(other),
        other != v.next_id() ==> v.spawn(obj, kind).gen_matches(other) == v.gen_matches(other),
        live_count(v.spawn(obj, kind).slots) == live_count(v.slots) + 1,
{
    lemma_spawn_wf(v, obj, kind);
    let w = v.spawn(obj, kind);
    let id = v.next_id();
    if v.lt.contains(id) {
        assert(v.gen_matches(v.lt[v.lt.index_of(id)]));
    }
    if v.free.len() > 0 {
        let i = v.free[v.free.len() - 1] as int;
        assert(!v.slots[i].live);
        lemma_live_count_update(v.slots, i, w.slots[i]);
        assert(w.slots =~= v.slots.update(i, w.slots[i]));
        if other.slot() == id.slot() && other != id {
            assert(other.generation() != id.generation());
        }
    } else {
        assert(w.slots.drop_last() =~= v.slots);
        if other.slot() == id.slot() && other != id {
            assert(other.generation() != id.generation());
        }
    }
}

/// A removed object's handle is dead, its place on the list is gone, and every
/// other handle means what it meant.
pub proof fn law_remove_is_final<T>(v: ArenaView<T>, id: ObjectId, other: ObjectId)
    requires
        v.wf(),
        v.is_valid(id),
    ensures
        v.remove(id).wf(),
        !v.remove(id).gen_matches(id),
        v.remove(id).get(id) is None,
        !v.remove(id).in_lt(id),
        other != id ==> v.remove(id).get(other) == v.get(other),
        other != id ==> v.remove(id).in_lt(other) == v.in_lt(other),
        live_count(v.remove(id).slots) + 1 == live_count(v.slots),
{
    lemma_remove_wf(v, id);
    let w = v.remove(id);
    lemma_live_count_update(v.slots, id.slot(), w.slots[id.slot()]);
    if w.in_lt(id) {
        assert(w.gen_matches(w.lt[w.lt.index_of(id)]));
    }
    if other != id {
        if other.slot() == id.slot() {
            assert(other.generation() != id.generation());
        }
        if v.in_lt(id) {
            let p = v.lt.index_of(id);
            if v.in_lt(other) {
                let k = v.lt.index_of(other);
                if k < p {
                    assert(w.lt[k] == other);
                } else {
                    assert(w.lt[k - 1] == other);
                }
            }
            if w.in_lt(other) {
                let k = w.lt.index_of(other);
                if k < p {
                    assert(v.lt[k] == other);
                } else {
                    assert(v.lt[k + 1] == other);
                }
            }
        }
    }
}

/// A handle is stale once its slot has moved on to a later generation.
pub open spec fn is_stale<T>(v: ArenaView<T>, id: ObjectId) -> bool {
    0 <= id.slot() < v.slots.len() && id.generation() < v.slots[id.slot()].generation
}

/// A stale handle names nothing, and no spawn, removal or list operation
/// brings it back, as long as the slot's generation counter does not wrap.
pub proof fn law_stale_stays_stale<T>(
    v: ArenaView<T>,
    id: ObjectId,
    other: ObjectId,
    obj: T,
    kind: ObjectType,
)
    requires
        v.wf(),
        is_stale(v, id),
    ensures
        !v.gen_matches(id),
        v.free.len() > 0 || v.slots.len() <= u32::MAX ==> is_stale(v.spawn(obj, kind), id),
        v.slots[id.slot()].generation < u32::MAX ==> is_stale(v.remove(other), id),
        is_stale(v.add_lt(other), id),
        is_stale(v.del_lt(other), id),
{
    if v.free.len() > 0 {
        let i = v.free[v.free.len() - 1] as int;
        assert(v.slots[i].generation == v.next_id().generation());
    }
}

/// Removing an object makes its handle stale, unless the counter wraps.
pub proof fn law_remove_makes_stale<T>(v: ArenaView<T>, id: ObjectId)
    requires
        v.is_valid(id),
        id.generation() < u32::MAX,
    ensures
        is_stale(v.remove(id), id),
{
}

/// An object that is checked out cannot be removed: its removal must wait.
pub proof fn law_checked_out_is_kept<T>(v: ArenaView<T>, id: ObjectId)
    requires
        v.gen_matches(id),
    ensures
        v.take(id).remove(id) == v.take(id),
        v.take(id).gen_matches(id),
        v.take(id).get(id) is None,
{
}

/// Putting back what was taken out restores the arena.
pub proof fn law_put_undoes_take<T>(v: ArenaView<T>, id: ObjectId)
    requires
        v.is_valid(id),
    ensures
        v.take(id).put(id, v.get(id)->0) == v,
{
    assert(v.take(id).put(id, v.get(id)->0).slots =~= v.slots);
}

/// Flushing leaves no removal queued. Every object that was queued and present
/// is gone; every object that was not queued is untouched.
pub proof fn law_flush_removes_queued<T>(v: ArenaView<T>, id: ObjectId)
    requires
        v.wf(),
    ensures
        v.flush().wf(),
        v.flush().removals.len() == 0,
        v.removals.contains(id) && v.is_valid(id) ==> !v.flush().gen_matches(id),
        !v.gen_matches(id) ==> !v.flush().gen_matches(id),
        !v.removals.contains(id) ==> v.flush().get(id) == v.get(id),
    decreases v.removals.len(),
{
    if v.removals.len() > 0 {
        let last = v.removals.last();
        let d = ArenaView { removals: v.removals.drop_last(), ..v };
        lemma_index_same(v, d);
        assert(d.wf());
        lemma_remove_wf(d, last);
        let r = d.remove(last);
        law_flush_removes_queued(r, id);
        assert(r.removals == v.removals.drop_last());
        if v.removals.contains(id) && id != last {
            let k = v.removals.index_of(id);
            assert(r.removals[k] == id);
        }
        if !v.removals.contains(id) {
            assert(v.removals[v.removals.len() - 1] == last);
            if r.removals.contains(id) {
                let k = r.removals.index_of(id);
                assert(v.removals[k] == id);
            }
        }
        if id != last && id.slot() == last.slot() {
            assert(id.generation() != last.generation());
        }
    }
}

/// A live object that is enrolled is on the list; nothing else changes for the
/// others.
pub proof fn law_add_lt_enrols<T>(v: ArenaView<T>, id: ObjectId, other: ObjectId)
    requires
        v.wf(),
        v.gen_matches(id),
    ensures
        v.add_lt(id).wf(),
        v.add_lt(id).in_lt(id),
        v.add_lt(id).slots == v.slots,
        other != id ==> v.add_lt(id).in_lt(other) == v.in_lt(other),
{
    let w = v.add_lt(id);
    if !v.in_lt(id) {
        assert(w.lt[v.lt.len() as int] == id);
        assert forall|k: int| 0 <= k < w.lt.len() implies w.gen_matches(#[trigger] w.lt[k]) by {
            if k < v.lt.len() {
                assert(v.gen_matches(v.lt[k]));
            }
        }
        assert(w.lt.no_duplicates()) by {
            assert forall|x: int, y: int|
                0 <= x < w.lt.len() && 0 <= y < w.lt.len() && x != y implies w.lt[x] != w.lt[y] by {
                if x < v.lt.len() {
                    assert(v.lt.contains(v.lt[x]));
                }
                if y < v.lt.len() {
                    assert(v.lt.contains(v.lt[y]));
                }
            }
        }
        if v.in_lt(other) {
            assert(w.lt[v.lt.index_of(other)] == other);
        }
        if w.in_lt(other) && other != id {
            assert(v.lt[w.lt.index_of(other)] == other);
        }
        lemma_index_same(v, w);
    }
}

/// A spawn adds exactly one object.
pub proof fn law_spawn_counts<T>(v: ArenaView<T>, obj: T, kind: ObjectType)
    requires
        v.wf(),
        v.free.len() > 0 || v.slots.len() <= u32::MAX,
    ensures
        live_count(v.spawn(obj, kind).slots) == live_count(v.slots) + 1,
{
    let w = v.spawn(obj, kind);
    if v.free.len() > 0 {
        let i = v.free[v.free.len() - 1] as int;
        lemma_live_count_update(v.slots, i, w.slots[i]);
        assert(w.slots =~= v.slots.update(i, w.slots[i]));
    } else {
        assert(w.slots.drop_last() =~= v.slots);
    }
}

/// Whoever enters the list comes last on it, behind those who were there, and
/// only once.
pub proof fn law_newcomer_is_last<T>(v: ArenaView<T>, id: ObjectId)
    ensures
        v.gen_matches(id) && !v.in_lt(id) ==> {
            &&& v.add_lt(id).lt.len() == v.lt.len() + 1
            &&& v.add_lt(id).lt.last() == id
            &&& v.add_lt(id).lt.drop_last() == v.lt
            &&& v.walking ==> v.add_lt(id).fresh.contains(id)
        },
        !v.gen_matches(id) || v.in_lt(id) ==> v.add_lt(id) == v,
{
    if v.gen_matches(id) && !v.in_lt(id) {
        assert(v.add_lt(id).lt.drop_last() =~= v.lt);
        if v.walking {
            let f = v.add_lt(id).fresh;
            assert(f[v.fresh.len() as int] == id);
        }
    }
}

/// A walk starts with nobody new on the list and ends the same way; neither
/// changes who is on it.
pub proof fn law_walk_starts_clean<T>(v: ArenaView<T>)
    ensures
        v.begin_walk().walking && v.begin_walk().fresh.len() == 0 && v.begin_walk().lt == v.lt
            && v.begin_walk().slots == v.slots,
        !v.end_walk().walking && v.end_walk().fresh.len() == 0 && v.end_walk().lt == v.lt
            && v.end_walk().slots == v.slots,
        v.begin_walk().end_walk() == v.end_walk(),
{
}

/// The place that was given up last is taken first, by a handle of a new
/// generation; in an arena without free places the next place at its end is
/// taken.
pub proof fn law_place_is_taken_again<T>(v: ArenaView<T>, id: ObjectId)
    requires
        v.wf(),
    ensures
        v.is_valid(id) ==> v.remove(id).next_id().slot() == id.slot(),
        v.is_valid(id) && id.generation() < u32::MAX ==> v.remove(id).next_id().generation()
            == id.generation() + 1,
        v.is_valid(id) && id.generation() == u32::MAX ==> v.remove(id).next_id().generation() == 0,
        v.is_valid(id) ==> v.remove(id).next_id() != id,
        v.free.len() == 0 && v.slots.len() <= u32::MAX ==> v.next_id().slot() == v.slots.len()
            && v.next_id().generation() == 1,
{
    if v.is_valid(id) {
        let w = v.remove(id);
        assert(w.free.last() == id.slot() as u32);
        assert(id.slot() <= u32::MAX);
        law_handle_at(id.slot(), next_generation(id.generation()));
        assert(w.slots[id.slot()].generation == next_generation(id.generation()));
        assert(w.next_id() == ObjectId::at(id.slot(), next_generation(id.generation())));
    }
    if v.free.len() == 0 && v.slots.len() <= u32::MAX {
        law_handle_at(v.slots.len() as int, 1);
    }
}

/// The objects listed as present are just those that can be had by their
/// handle, in the order of their places.
pub proof fn law_present_are_listed<T>(v: ArenaView<T>, id: ObjectId)
    requires
        v.wf(),
    ensures
        v.live_ids().contains(id) <==> v.get(id) is Some,
        forall|a: int, b: int|
            0 <= a < b < v.live_ids().len() ==> (#[trigger] v.live_ids()[a]).slot() < (
            #[trigger] v.live_ids()[b]).slot(),
{
    lemma_live_upto(v, v.slots.len() as int);
    let ids = v.live_ids();
    if ids.contains(id) {
        let a = choose|a: int| 0 <= a < ids.len() && ids[a] == id;
        assert(v.get(ids[a]) is Some);
    }
    if v.get(id) is Some {
        let i = id.slot();
        law_handle_at(i, v.slots[i].generation);
        law_handle_eq(id, v.id_of(i));
        assert(v.slots[i].obj is Some);
    }
}

proof fn lemma_live_upto<T>(v: ArenaView<T>, n: int)
    requires
        v.wf(),
        0 <= n <= v.slots.len(),
    ensures
        forall|i: int|
            0 <= i < n && (#[trigger] v.slots[i]).obj is Some ==> v.live_upto(n).contains(
                v.id_of(i),
            ),
        forall|a: int|
            0 <= a < v.live_upto(n).len() ==> v.get(#[trigger] v.live_upto(n)[a]) is Some
                && v.live_upto(n)[a].slot() < n,
        forall|a: int, b: int|
            0 <= a < b < v.live_upto(n).len() ==> (#[trigger] v.live_upto(n)[a]).slot() < (
            #[trigger] v.live_upto(n)[b]).slot(),
    decreases n,
{
    if n > 0 {
        lemma_live_upto(v, n - 1);
        let was = v.live_upto(n - 1);
        let now = v.live_upto(n);
        law_handle_at(n - 1, v.slots[n - 1].generation);
        if v.slots[n - 1].obj is Some {
            assert(v.slots[n - 1].live);
            assert(now[was.len() as int] == v.id_of(n - 1));
            assert(v.get(v.id_of(n - 1)) is Some);
        }
        assert forall|i: int| 0 <= i < n && (#[trigger] v.slots[i]).obj is Some implies now.contains(
            v.id_of(i),
        ) by {
            if i < n - 1 {
                let a = choose|a: int| 0 <= a < was.len() && was[a] == v.id_of(i);
                assert(now[a] == v.id_of(i));
            }
        }
        assert forall|a: int| 0 <= a < now.len() implies v.get(#[trigger] now[a]) is Some
            && now[a].slot() < n by {
            if a < was.len() {
                assert(now[a] == was[a]);
            }
        }
        assert forall|a: int, b: int| 0 <= a < b < now.len() implies (#[trigger] now[a]).slot() < (
        #[trigger] now[b]).slot() by {
            assert(now[a] == was[a]);
            if b < was.len() {
                assert(now[b] == was[b]);
            }
        }
    }
}

/// Robots, buildings, cannons and flyers are found among the units, scenery
/// among the map objects; neither list holds anything else.
pub proof fn law_indexes<T>(v: ArenaView<T>, id: ObjectId)
    requires
        v.wf(),
    ensures
        v.units.contains(id) <==> v.gen_matches(id) && ({
            let k = v.slots[id.slot()].kind;
            k == ObjectType::RobotAi || k == ObjectType::Building || k == ObjectType::Cannon || k
                == ObjectType::Flyer
        }),
        v.mapobjects.contains(id) <==> v.gen_matches(id) && v.slots[id.slot()].kind
            == ObjectType::MapObject,
{
    if v.gen_matches(id) {
        let i = id.slot();
        law_handle_at(i, v.slots[i].generation);
        law_handle_eq(id, v.id_of(i));
        assert(v.slots[i].live);
    }
    if v.units.contains(id) {
        let k = choose|k: int| 0 <= k < v.units.len() && v.units[k] == id;
        assert(v.gen_matches(v.units[k]));
    }
    if v.mapobjects.contains(id) {
        let k = choose|k: int| 0 <= k < v.mapobjects.len() && v.mapobjects[k] == id;
        assert(v.gen_matches(v.mapobjects[k]));
    }
}

/// A new object comes last among those of its sort.
pub proof fn law_new_object_is_last<T>(v: ArenaView<T>, obj: T, kind: ObjectType)
    ensures
        kind == ObjectType::RobotAi || kind == ObjectType::Building || kind == ObjectType::Cannon
            || kind == ObjectType::Flyer ==> v.spawn(obj, kind).units == v.units.push(v.next_id()),
        kind == ObjectType::MapObject ==> v.spawn(obj, kind).mapobjects == v.mapobjects.push(
            v.next_id(),
        ),
        v.spawn(obj, kind).lt == v.lt,
        v.spawn(obj, kind).removals == v.removals,
{
}

/// Leaving a list without order: the last one on it takes the free place, and
/// everyone else stays where they are.
pub proof fn law_last_fills_gap<A>(s: Seq<A>, p: int, i: int)
    requires
        s.no_duplicates(),
        0 <= p < s.len(),
        0 <= i < s.len() - 1,
    ensures
        without(s, s[p]).len() == s.len() - 1,
        i != p ==> without(s, s[p])[i] == s[i],
        i == p ==> without(s, s[p])[i] == s.last(),
{
    assert(s.contains(s[p]));
    assert(s.index_of(s[p]) == p);
}

/// An object is put back only where one was taken out.
pub proof fn law_put_needs_a_gap<T>(v: ArenaView<T>, id: ObjectId, obj: T)
    ensures
        v.is_valid(id) ==> v.put(id, obj) == v,
        !v.gen_matches(id) ==> v.put(id, obj) == v,
        v.gen_matches(id) && !v.is_valid(id) ==> v.put(id, obj).get(id) == Some(obj),
        v.put(id, obj).lt == v.lt && v.put(id, obj).free == v.free,
{
}

/// What was queued for removal last is removed first.
pub proof fn law_last_queued_goes_first<T>(v: ArenaView<T>, id: ObjectId)
    ensures
        (ArenaView { removals: v.removals.push(id), ..v }).flush() == v.remove(id).flush(),
        v.removals.len() == 0 ==> v.flush() == v,
{
    let w = ArenaView { removals: v.removals.push(id), ..v };
    assert(w.removals.drop_last() =~= v.removals);
    assert(ArenaView { removals: w.removals.drop_last(), ..w } =~= v);
}

/// A handle that no object answers to removes nothing.
pub proof fn law_unknown_is_not_removed<T>(v: ArenaView<T>, id: ObjectId)
    ensures
        v.get(id) is None ==> v.remove(id) == v,
{
}

} // verus!
