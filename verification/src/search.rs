//! Searches over the arena: which objects lie in a circle, which one a ray hits
//! first, and the damage entry point.
//!
//! The geometry of a test (a distance, a ray against a sphere) is a function
//! that the caller passes in; which objects are tested, in what order, and what
//! is made of the answers is decided here.
use crate::arena::{ArenaView, ObjectId, ObjectType};
use crate::common::{Pos3, Weapon, TRACE_OBJECT};
use crate::float_bits;
use crate::map_static::{
    fit_to_mask, fits, CellRect, Control, Hit, MapStatic, Objects, ObjectsView, Takt,
};
use crate::sound::{Interrupt, SndView, SoundLayer};
use vstd::prelude::*;

verus! {

// ── Scenery grid ────────────────────────────────────────────────────────
/// The present ones among the first `n` scenery objects that touch a cell.
pub open spec fn in_cell<T: MapStatic>(v: ArenaView<T>, gx: int, gy: int, n: int) -> Seq<ObjectId>
    decreases n,
{
    if n <= 0 {
        Seq::empty()
    } else {
        let id = v.mapobjects[n - 1];
        let before = in_cell(v, gx, gy, n - 1);
        if v.get(id) is Some && v.get(id)->0.cell_rect().has(gx, gy) {
            before.push(id)
        } else {
            before
        }
    }
}

/// Scenery in the first `n` cells of a grid row, cell after cell.
pub open spec fn in_row<T: MapStatic>(v: ArenaView<T>, x0: int, gy: int, n: int) -> Seq<ObjectId>
    decreases n,
{
    if n <= 0 {
        Seq::empty()
    } else {
        in_row(v, x0, gy, n - 1) + in_cell(v, x0 + n - 1, gy, v.mapobjects.len() as int)
    }
}

/// Scenery in the first `n` rows of a range of cells.
pub open spec fn in_rows<T: MapStatic>(v: ArenaView<T>, c: CellRect, n: int) -> Seq<ObjectId>
    decreases n,
{
    if n <= 0 {
        Seq::empty()
    } else {
        in_rows(v, c, n - 1) + in_row(v, c.x0 as int, c.y0 + n - 1, c.x1 - c.x0 + 1)
    }
}

/// Scenery in a range of cells, row by row; an object that touches several
/// cells is listed for each.
pub open spec fn near<T: MapStatic>(v: ArenaView<T>, c: CellRect) -> Seq<ObjectId> {
    in_rows(v, c, c.y1 - c.y0 + 1)
}

/// `a`, and of the first `n` of `b` each that is not there yet.
pub open spec fn merged(a: Seq<ObjectId>, b: Seq<ObjectId>, n: int) -> Seq<ObjectId>
    decreases n,
{
    if n <= 0 {
        a
    } else {
        let m = merged(a, b, n - 1);
        if m.contains(b[n - 1]) {
            m
        } else {
            m.push(b[n - 1])
        }
    }
}

/// The objects that a search in a range of cells looks at, each once: all
/// units, and the scenery nearby when the mask asks for it.
pub open spec fn candidates<T: MapStatic>(v: ArenaView<T>, c: CellRect, mask: u32) -> Seq<ObjectId> {
    if mask & TRACE_OBJECT != 0 {
        merged(v.units, near(v, c), near(v, c).len() as int)
    } else {
        v.units
    }
}

/// Whether a candidate is tested at all: present, not the one to skip, and of a
/// class that the mask asks for.
pub open spec fn eligible<T: MapStatic>(
    v: ArenaView<T>,
    id: ObjectId,
    mask: u32,
    skip: Option<ObjectId>,
) -> bool {
    &&& v.get(id) is Some
    &&& Some(id) != skip
    &&& fits(v.get(id)->0.status(), v.get(id)->0.live(), mask)
}

/// The hits among the first `n` candidates, given the answer `in_range[i]` for
/// each of them.
pub open spec fn hits<T: MapStatic>(
    v: ArenaView<T>,
    cands: Seq<ObjectId>,
    mask: u32,
    skip: Option<ObjectId>,
    in_range: Seq<bool>,
    n: int,
) -> Seq<ObjectId>
    decreases n,
{
    if n <= 0 {
        Seq::empty()
    } else {
        let before = hits(v, cands, mask, skip, in_range, n - 1);
        if eligible(v, cands[n - 1], mask, skip) && in_range[n - 1] {
            before.push(cands[n - 1])
        } else {
            before
        }
    }
}

/// The answers `ts[i]` of a ray test over the first `n` candidates come down to
/// one: the nearest hit not behind the origin, the first of equals.
pub open spec fn nearest(cands: Seq<ObjectId>, ts: Seq<Option<u32>>, n: int) -> Option<(
    ObjectId,
    u32,
)>
    decreases n,
{
    if n <= 0 {
        None
    } else {
        let best = nearest(cands, ts, n - 1);
        match ts[n - 1] {
            None => best,
            Some(t) => if float_bits::lt_spec(t, float_bits::ZERO) {
                best
            } else {
                match best {
                    Some(b) => if float_bits::le_spec(b.1, t) {
                        best
                    } else {
                        Some((cands[n - 1], t))
                    },
                    None => Some((cands[n - 1], t)),
                }
            },
        }
    }
}

fn contains_id(ids: &Vec<ObjectId>, id: ObjectId) -> (b: bool)
    ensures
        b == ids@.contains(id),
{
    let mut i: usize = 0;
    while i < ids.len()
        invariant
            i <= ids@.len(),
            forall|k: int| 0 <= k < i ==> ids@[k] != id,
        decreases ids.len() - i,
    {
        if ids[i] == id {
            return true;
        }
        i = i + 1;
    }
    false
}

/// Whether any object that fits the mask is in range, as the range test answers.
pub open spec fn is_any_in_range<T: MapStatic, R: Fn(&T) -> bool>(
    v: ArenaView<T>,
    c: CellRect,
    mask: u32,
    skip: Option<ObjectId>,
    in_range: R,
    hit: bool,
) -> bool {
    let cands = candidates(v, c, mask);
    &&& hit ==> exists|i: int|
        #![trigger cands[i]]
        0 <= i < cands.len() && eligible(v, cands[i], mask, skip) && call_ensures(
            in_range,
            (&v.get(cands[i])->0,),
            true,
        )
    &&& !hit ==> forall|i: int|
        #![trigger cands[i]]
        0 <= i < cands.len() && eligible(v, cands[i], mask, skip) ==> call_ensures(
            in_range,
            (&v.get(cands[i])->0,),
            false,
        )
}

/// The callback takes this object around `pos`.
pub open spec fn may_visit<V: Fn(Pos3, ObjectId) -> Control>(
    visit: &V,
    pos: Pos3,
    id: ObjectId,
) -> bool {
    call_requires(*visit, (pos, id))
}

/// The callback may answer `r` for this object around `pos`.
pub open spec fn visited<V: Fn(Pos3, ObjectId) -> Control>(
    visit: &V,
    pos: Pos3,
    id: ObjectId,
    r: Control,
) -> bool {
    call_ensures(*visit, (pos, id), r)
}

impl<T: MapStatic> Objects<T> {
    fn mapobjects_in_cell(&self, scenery: &Vec<ObjectId>, gx: i32, gy: i32, out: &mut Vec<ObjectId>)
        requires
            self.wf(),
            scenery@ == self@.arena.mapobjects,
        ensures
            final(out)@ == old(out)@ + in_cell(
                self@.arena,
                gx as int,
                gy as int,
                scenery@.len() as int,
            ),
    {
        let ghost start = out@;
        let mut i: usize = 0;
        assert(start + Seq::<ObjectId>::empty() =~= start);
        while i < scenery.len()
            invariant
                i <= scenery@.len(),
                scenery@ == self@.arena.mapobjects,
                out@ == start + in_cell(self@.arena, gx as int, gy as int, i as int),
            decreases scenery.len() - i,
        {
            let id = scenery[i];
            match self.get(id) {
                Some(o) => {
                    let c = o.cells();
                    if c.x0 <= gx && gx <= c.x1 && c.y0 <= gy && gy <= c.y1 {
                        out.push(id);
                        proof {
                            let b = in_cell(self@.arena, gx as int, gy as int, i as int);
                            assert(start + b.push(id) =~= (start + b).push(id));
                        }
                    }
                },
                None => {},
            }
            i = i + 1;
        }
    }

    /// Scenery near a range of cells. An object that touches several cells of
    /// the range is listed for each of them.
    pub fn mapobjects_near(&self, c: CellRect) -> (out: Vec<ObjectId>)
        requires
            self.wf(),
        ensures
            out@ == near(self@.arena, c),
    {
        let scenery = self.iter_mapobjects();
        let ghost v = self@.arena;
        let mut out: Vec<ObjectId> = Vec::new();
        let mut gy: i64 = c.y0 as i64;
        while gy <= c.y1 as i64
            invariant
                self.wf(),
                v == self@.arena,
                scenery@ == v.mapobjects,
                c.y0 <= gy,
                c.y0 <= c.y1 ==> gy <= c.y1 + 1,
                c.y0 > c.y1 ==> gy == c.y0,
                out@ == in_rows(v, c, gy - c.y0),
            decreases c.y1 - gy + 1,
        {
            let ghost before = out@;
            let mut gx: i64 = c.x0 as i64;
            assert(before + Seq::<ObjectId>::empty() =~= before);
            while gx <= c.x1 as i64
                invariant
                    self.wf(),
                    v == self@.arena,
                    scenery@ == v.mapobjects,
                    c.y0 <= gy <= c.y1,
                    c.x0 <= gx,
                    c.x0 <= c.x1 ==> gx <= c.x1 + 1,
                    c.x0 > c.x1 ==> gx == c.x0,
                    out@ == before + in_row(v, c.x0 as int, gy as int, gx - c.x0),
                decreases c.x1 - gx + 1,
            {
                self.mapobjects_in_cell(&scenery, gx as i32, gy as i32, &mut out);
                proof {
                    let r = in_row(v, c.x0 as int, gy as int, gx - c.x0);
                    let n = in_cell(v, gx as int, gy as int, v.mapobjects.len() as int);
                    assert((before + r) + n =~= before + (r + n));
                }
                gx = gx + 1;
            }
            assert(in_row(v, c.x0 as int, gy as int, c.x1 - c.x0 + 1) == in_row(
                v,
                c.x0 as int,
                gy as int,
                gx - c.x0,
            ));
            gy = gy + 1;
        }
        assert(in_rows(v, c, c.y1 - c.y0 + 1) == in_rows(v, c, gy - c.y0));
        out
    }

    fn search_candidates(&self, c: CellRect, mask: u32) -> (out: Vec<ObjectId>)
        requires
            self.wf(),
        ensures
            out@ == candidates(self@.arena, c, mask),
    {
        let mut out = self.iter_units();
        if mask & TRACE_OBJECT != 0 {
            let scenery = self.mapobjects_near(c);
            let mut i: usize = 0;
            while i < scenery.len()
                invariant
                    i <= scenery@.len(),
                    out@ == merged(self@.arena.units, scenery@, i as int),
                decreases scenery.len() - i,
            {
                if !contains_id(&out, scenery[i]) {
                    out.push(scenery[i]);
                }
                i = i + 1;
            }
        }
        out
    }

    /// Visit the objects in range that fit the mask, units first, until the
    /// callback says stop; `c` are the cells around the search centre. `true`
    /// when there was a hit.
    pub fn find_objects<R: Fn(&T) -> bool, V: Fn(ObjectId, &T) -> Control>(
        &self,
        c: CellRect,
        mask: u32,
        skip: Option<ObjectId>,
        in_range: &R,
        visit: &V,
    ) -> (hit: bool)
        requires
            self.wf(),
            forall|o: T| call_requires(*in_range, (&o,)),
            forall|id: ObjectId, o: T| call_requires(*visit, (id, &o)),
        ensures
            exists|n: int, answers: Seq<bool>|
                #![trigger hits(self@.arena, candidates(self@.arena, c, mask), mask, skip, answers, n)]
                {
                    let v = self@.arena;
                    let cands = candidates(v, c, mask);
                    let found = hits(v, cands, mask, skip, answers, n);
                    &&& 0 <= n <= cands.len()
                    &&& answers.len() == n
                    &&& forall|i: int|
                        #![trigger answers[i]]
                        0 <= i < n && eligible(v, cands[i], mask, skip) ==> call_ensures(
                            *in_range,
                            (&v.get(cands[i])->0,),
                            answers[i],
                        )
                    &&& hit == (found.len() > 0)
                    &&& forall|j: int|
                        #![trigger found[j]]
                        0 <= j < found.len() && (j + 1 < found.len() || n == cands.len()) ==> (
                        exists|r: Control|
                            call_ensures(*visit, (found[j], &v.get(found[j])->0), r) && (r
                                == Control::Continue || j + 1 == found.len()))
                    &&& n < cands.len() ==> found.len() > 0 && found.last() == cands[n - 1]
                        && call_ensures(
                        *visit,
                        (found.last(), &v.get(found.last())->0),
                        Control::Break,
                    )
                },
    {
        let cands = self.search_candidates(c, mask);
        let ghost v = self@.arena;
        let ghost mut answers: Seq<bool> = Seq::empty();
        let mut hit = false;
        let mut i: usize = 0;
        while i < cands.len()
            invariant
                self.wf(),
                v == self@.arena,
                cands@ == candidates(v, c, mask),
                i <= cands@.len(),
                forall|o: T| call_requires(*in_range, (&o,)),
                forall|id: ObjectId, o: T| call_requires(*visit, (id, &o)),
                answers.len() == i,
                forall|k: int|
                    #![trigger answers[k]]
                    0 <= k < i && eligible(v, cands@[k], mask, skip) ==> call_ensures(
                        *in_range,
                        (&v.get(cands@[k])->0,),
                        answers[k],
                    ),
                hit == (hits(v, cands@, mask, skip, answers, i as int).len() > 0),
                forall|j: int|
                    #![trigger hits(v, cands@, mask, skip, answers, i as int)[j]]
                    0 <= j < hits(v, cands@, mask, skip, answers, i as int).len() ==> call_ensures(
                        *visit,
                        (
                            hits(v, cands@, mask, skip, answers, i as int)[j],
                            &v.get(hits(v, cands@, mask, skip, answers, i as int)[j])->0,
                        ),
                        Control::Continue,
                    ),
            decreases cands.len() - i,
        {
            let id = cands[i];
            let ghost before = hits(v, cands@, mask, skip, answers, i as int);
            let ghost old_answers = answers;
            let mut answer = false;
            match self.get(id) {
                Some(o) => {
                    if Some(id) != skip && fit_to_mask(o, mask) {
                        answer = in_range(o);
                        proof {
                            answers = answers.push(answer);
                            lemma_hits_prefix(v, cands@, mask, skip, old_answers, answers, i as int);
                        }
                        if answer {
                            hit = true;
                            let r = visit(id, o);
                            if r == Control::Break {
                                proof {
                                    let n = i + 1;
                                    let found = hits(v, cands@, mask, skip, answers, n);
                                    assert(found == before.push(id));
                                    assert forall|j: int|
                                        #![trigger found[j]]
                                        0 <= j < found.len() && (j + 1 < found.len() || n
                                            == cands@.len()) implies (exists|q: Control|
                                        call_ensures(*visit, (found[j], &v.get(found[j])->0), q)
                                            && (q == Control::Continue || j + 1 == found.len())) by {
                                        if j + 1 < found.len() {
                                            assert(before[j] == found[j]);
                                            assert(call_ensures(
                                                *visit,
                                                (found[j], &v.get(found[j])->0),
                                                Control::Continue,
                                            ));
                                        } else {
                                            assert(call_ensures(
                                                *visit,
                                                (found[j], &v.get(found[j])->0),
                                                r,
                                            ));
                                        }
                                    }
                                    assert(found.last() == cands@[n - 1]);
                                }
                                return true;
                            }
                        }
                    } else {
                        proof {
                            answers = answers.push(false);
                            lemma_hits_prefix(v, cands@, mask, skip, old_answers, answers, i as int);
                        }
                    }
                },
                None => {
                    proof {
                        answers = answers.push(false);
                        lemma_hits_prefix(v, cands@, mask, skip, old_answers, answers, i as int);
                    }
                },
            }
            proof {
                let now = hits(v, cands@, mask, skip, answers, i + 1);
                assert forall|j: int| #![trigger now[j]] 0 <= j < now.len() implies call_ensures(
                    *visit,
                    (now[j], &v.get(now[j])->0),
                    Control::Continue,
                ) by {
                    if j < before.len() {
                        assert(now[j] == before[j]);
                    }
                }
            }
            i = i + 1;
        }
        proof {
            let found = hits(v, cands@, mask, skip, answers, i as int);
            assert forall|j: int|
                #![trigger found[j]]
                0 <= j < found.len() && (j + 1 < found.len() || i == cands@.len()) implies (exists|
                q: Control,
            |
                call_ensures(*visit, (found[j], &v.get(found[j])->0), q) && (q == Control::Continue
                    || j + 1 == found.len())) by {
                assert(call_ensures(
                    *visit,
                    (found[j], &v.get(found[j])->0),
                    Control::Continue,
                ));
            }
        }
        hit
    }

    /// The same search for distances in space: the callback is given the centre
    /// of the search, not the object that was found.
    pub fn find_objects_3d<R: Fn(&T) -> bool, V: Fn(Pos3, ObjectId) -> Control>(
        &self,
        pos: Pos3,
        c: CellRect,
        mask: u32,
        skip: Option<ObjectId>,
        in_range: &R,
        visit: &V,
    ) -> (hit: bool)
        requires
            self.wf(),
            forall|o: T| call_requires(*in_range, (&o,)),
            forall|id: ObjectId| call_requires(*visit, (pos, id)),
        ensures
            exists|n: int, answers: Seq<bool>|
                #![trigger hits(self@.arena, candidates(self@.arena, c, mask), mask, skip, answers, n)]
                {
                    let v = self@.arena;
                    let cands = candidates(v, c, mask);
                    let found = hits(v, cands, mask, skip, answers, n);
                    &&& 0 <= n <= cands.len()
                    &&& answers.len() == n
                    &&& forall|i: int|
                        #![trigger answers[i]]
                        0 <= i < n && eligible(v, cands[i], mask, skip) ==> call_ensures(
                            *in_range,
                            (&v.get(cands[i])->0,),
                            answers[i],
                        )
                    &&& hit == (found.len() > 0)
                    &&& forall|j: int|
                        #![trigger found[j]]
                        0 <= j < found.len() && (j + 1 < found.len() || n == cands.len()) ==> (
                        exists|r: Control|
                            call_ensures(*visit, (pos, found[j]), r) && (r == Control::Continue
                                || j + 1 == found.len()))
                    &&& n < cands.len() ==> found.len() > 0 && found.last() == cands[n - 1]
                        && call_ensures(*visit, (pos, found.last()), Control::Break)
                },
    {
        let at_centre = |id: ObjectId, o: &T| -> (r: Control)
            requires
                may_visit(visit, pos, id),
            ensures
                visited(visit, pos, id, r),
            { visit(pos, id) };
        self.find_objects(c, mask, skip, in_range, &at_centre)
    }

    /// Is any object that fits the mask in range?
    pub fn any_object_in_radius<R: Fn(&T) -> bool>(
        &self,
        c: CellRect,
        mask: u32,
        skip: Option<ObjectId>,
        in_range: &R,
    ) -> (hit: bool)
        requires
            self.wf(),
            forall|o: T| call_requires(*in_range, (&o,)),
        ensures
            is_any_in_range(self@.arena, c, mask, skip, *in_range, hit),
    {
        let stop = |_id: ObjectId, _o: &T| -> (r: Control)
            ensures
                r == Control::Break,
            { Control::Break };
        let hit = self.find_objects(c, mask, skip, in_range, &stop);
        proof {
            let v = self@.arena;
            let cands = candidates(v, c, mask);
            let (n, answers) = choose|n: int, answers: Seq<bool>|
                #![trigger hits(v, cands, mask, skip, answers, n)]
                {
                    let found = hits(v, cands, mask, skip, answers, n);
                    &&& 0 <= n <= cands.len()
                    &&& answers.len() == n
                    &&& forall|i: int|
                        #![trigger answers[i]]
                        0 <= i < n && eligible(v, cands[i], mask, skip) ==> call_ensures(
                            *in_range,
                            (&v.get(cands[i])->0,),
                            answers[i],
                        )
                    &&& hit == (found.len() > 0)
                    &&& n < cands.len() ==> found.len() > 0
                };
            lemma_hits_members(v, cands, mask, skip, answers, n);
            if hit {
                let k = choose|k: int|
                    #![trigger answers[k]]
                    0 <= k < n && eligible(v, cands[k], mask, skip) && answers[k];
                assert(cands[k] == candidates(v, c, mask)[k]);
            } else {
                assert forall|i: int|
                    #![trigger candidates(v, c, mask)[i]]
                    0 <= i < cands.len() && eligible(v, cands[i], mask, skip) implies call_ensures(
                    *in_range,
                    (&v.get(cands[i])->0,),
                    false,
                ) by {
                    assert(!answers[i]);
                }
            }
        }
        hit
    }

    /// The first object along a ray without an end, which passes the cells `c`.
    pub fn pick_object<P: Fn(&T) -> Option<u32>>(
        &self,
        c: CellRect,
        mask: u32,
        skip: Option<ObjectId>,
        pick: &P,
    ) -> (best: Option<(ObjectId, u32)>)
        requires
            self.wf(),
            forall|o: T| call_requires(*pick, (&o,)),
        ensures
            exists|ts: Seq<Option<u32>>|
                #![trigger nearest(ray_candidates(self@.arena, c, mask), ts, ts.len() as int)]
                {
                    let v = self@.arena;
                    let cands = ray_candidates(v, c, mask);
                    &&& ts.len() == cands.len()
                    &&& forall|i: int|
                        #![trigger ts[i]]
                        0 <= i < ts.len() ==> if eligible(v, cands[i], mask, skip) {
                            call_ensures(*pick, (&v.get(cands[i])->0,), ts[i])
                        } else {
                            ts[i] is None
                        }
                    &&& best == nearest(cands, ts, ts.len() as int)
                },
    {
        self.pick_object_within(c, mask, skip, pick)
    }

    /// The first object along a ray: units first, then the scenery in the cells
    /// that the ray passes. `pick` gives the distance along the ray, as a bit
    /// pattern, at which it meets an object.
    pub fn pick_object_within<P: Fn(&T) -> Option<u32>>(
        &self,
        c: CellRect,
        mask: u32,
        skip: Option<ObjectId>,
        pick: &P,
    ) -> (best: Option<(ObjectId, u32)>)
        requires
            self.wf(),
            forall|o: T| call_requires(*pick, (&o,)),
        ensures
            exists|ts: Seq<Option<u32>>|
                #![trigger nearest(ray_candidates(self@.arena, c, mask), ts, ts.len() as int)]
                {
                    let v = self@.arena;
                    let cands = ray_candidates(v, c, mask);
                    &&& ts.len() == cands.len()
                    &&& forall|i: int|
                        #![trigger ts[i]]
                        0 <= i < ts.len() ==> if eligible(v, cands[i], mask, skip) {
                            call_ensures(*pick, (&v.get(cands[i])->0,), ts[i])
                        } else {
                            ts[i] is None
                        }
                    &&& best == nearest(cands, ts, ts.len() as int)
                },
    {
        let mut cands = self.iter_units();
        if mask & TRACE_OBJECT != 0 {
            let mut scenery = self.mapobjects_near(c);
            cands.append(&mut scenery);
        }
        let ghost v = self@.arena;
        let ghost mut ts: Seq<Option<u32>> = Seq::empty();
        let mut best: Option<(ObjectId, u32)> = None;
        let mut i: usize = 0;
        while i < cands.len()
            invariant
                self.wf(),
                v == self@.arena,
                cands@ == ray_candidates(v, c, mask),
                i <= cands@.len(),
                forall|o: T| call_requires(*pick, (&o,)),
                ts.len() == i,
                forall|k: int|
                    #![trigger ts[k]]
                    0 <= k < i ==> if eligible(v, cands@[k], mask, skip) {
                        call_ensures(*pick, (&v.get(cands@[k])->0,), ts[k])
                    } else {
                        ts[k] is None
                    },
                best == nearest(cands@, ts, i as int),
            decreases cands.len() - i,
        {
            let id = cands[i];
            let ghost old_ts = ts;
            let mut t: Option<u32> = None;
            match self.get(id) {
                Some(o) => {
                    if Some(id) != skip && fit_to_mask(o, mask) {
                        t = pick(o);
                    }
                },
                None => {},
            }
            proof {
                ts = ts.push(t);
                lemma_nearest_prefix(cands@, old_ts, ts, i as int);
            }
            match t {
                Some(x) => {
                    if !float_bits::lt(x, float_bits::ZERO) {
                        match best {
                            Some(b) => {
                                if !float_bits::le(b.1, x) {
                                    best = Some((id, x));
                                }
                            },
                            None => {
                                best = Some((id, x));
                            },
                        }
                    }
                },
                None => {},
            }
            i = i + 1;
        }
        best
    }
}

/// What a ray test looks at: all units, and the scenery along the ray when the
/// mask asks for it.
pub open spec fn ray_candidates<T: MapStatic>(v: ArenaView<T>, c: CellRect, mask: u32) -> Seq<
    ObjectId,
> {
    if mask & TRACE_OBJECT != 0 {
        v.units + near(v, c)
    } else {
        v.units
    }
}

proof fn lemma_hits_prefix<T: MapStatic>(
    v: ArenaView<T>,
    cands: Seq<ObjectId>,
    mask: u32,
    skip: Option<ObjectId>,
    a: Seq<bool>,
    b: Seq<bool>,
    n: int,
)
    requires
        n <= a.len(),
        n <= b.len(),
        forall|i: int| 0 <= i < n ==> a[i] == b[i],
    ensures
        hits(v, cands, mask, skip, a, n) == hits(v, cands, mask, skip, b, n),
    decreases n,
{
    if n > 0 {
        lemma_hits_prefix(v, cands, mask, skip, a, b, n - 1);
    }
}

proof fn lemma_hits_members<T: MapStatic>(
    v: ArenaView<T>,
    cands: Seq<ObjectId>,
    mask: u32,
    skip: Option<ObjectId>,
    a: Seq<bool>,
    n: int,
)
    requires
        n <= a.len(),
        n <= cands.len(),
    ensures
        hits(v, cands, mask, skip, a, n).len() > 0 <==> exists|k: int|
            #![trigger a[k]]
            0 <= k < n && eligible(v, cands[k], mask, skip) && a[k],
    decreases n,
{
    if n > 0 {
        lemma_hits_members(v, cands, mask, skip, a, n - 1);
        if eligible(v, cands[n - 1], mask, skip) && a[n - 1] {
            assert(a[n - 1]);
        }
    }
}

proof fn lemma_nearest_prefix(
    cands: Seq<ObjectId>,
    a: Seq<Option<u32>>,
    b: Seq<Option<u32>>,
    n: int,
)
    requires
        n <= a.len(),
        n <= b.len(),
        forall|i: int| 0 <= i < n ==> a[i] == b[i],
    ensures
        nearest(cands, a, n) == nearest(cands, b, n),
    decreases n,
{
    if n > 0 {
        lemma_nearest_prefix(cands, a, b, n - 1);
    }
}

// ── Damage ──────────────────────────────────────────────────────────────
/// Whether a hit is heard: repair is silent, so is what is already destroyed,
/// and scenery answers to burning only. An empty key is no sound.
pub open spec fn is_heard(obj_type: ObjectType, live: bool, weap: Weapon, key: Seq<char>) -> bool {
    &&& key.len() > 0
    &&& weap != Weapon::Repair
    &&& live
    &&& obj_type == ObjectType::MapObject ==> weap == Weapon::Ablaze
}

impl<T: Takt> Objects<T> {
    /// Damage an object. It is checked out while it takes the hit; `hit_snd` is
    /// the key of the weapon's impact sound. `false` when the object is not
    /// present.
    pub fn apply_damage(
        &mut self,
        target: ObjectId,
        hit: Hit,
        hit_snd: &str,
        env: &mut T::Env,
    ) -> (gone: bool)
        requires
            old(self).wf(),
        ensures
            final(self).wf(),
            match old(self)@.arena.get(target) {
                None => !gone && final(self)@ == old(self)@ && *final(env) == *old(env),
                Some(o) => {
                    let out = old(self)@.with_arena(old(self)@.arena.take(target));
                    let told = if is_heard(o.status().obj_type, o.live(), hit.weap, hit_snd@) {
                        out.with_sound(
                            (SndView::Add {
                                key: hit_snd@,
                                pos: hit.pos,
                                layer: SoundLayer::All,
                                ifl: Interrupt::Skip,
                            }),
                        )
                    } else {
                        out
                    };
                    exists|o2: T, m: ObjectsView<T>|
                        #![trigger m.arena.put(target, o2)]
                        T::damage_rel(
                            o,
                            hit,
                            target,
                            *old(env),
                            told,
                            o2,
                            gone,
                            *final(env),
                            m,
                        ) && final(self)@ == m.with_arena(m.arena.put(target, o2))
                },
            },
    {
        let ghost pre = *self;
        match self.take_obj(target) {
            None => {
                assert(self@.arena.slots =~= pre@.arena.slots);
                assert(self@ =~= pre@);
                false
            },
            Some(mut boxed) => {
                let silent = boxed.obj_type() == ObjectType::MapObject && hit.weap
                    != Weapon::Ablaze;
                if !silent && hit_snd.unicode_len() > 0 && hit.weap != Weapon::Repair
                    && boxed.is_live() {
                    self.queue_snd_at_skip(hit_snd, hit.pos);
                }
                let gone = boxed.damage(hit, target, env, self);
                let ghost m = self@;
                let ghost o2 = boxed;
                self.put_obj(target, boxed);
                assert(self@ =~= m.with_arena(m.arena.put(target, o2)));
                gone
            },
        }
    }
}

// ── Laws ────────────────────────────────────────────────────────────────
proof fn lemma_merged(a: Seq<ObjectId>, b: Seq<ObjectId>, n: int)
    requires
        0 <= n <= b.len(),
        a.no_duplicates(),
    ensures
        merged(a, b, n).no_duplicates(),
        forall|id: ObjectId|
            merged(a, b, n).contains(id) <==> a.contains(id) || b.take(n).contains(id),
    decreases n,
{
    if n <= 0 {
        assert(b.take(n).len() == 0);
    } else {
        lemma_merged(a, b, n - 1);
        let m = merged(a, b, n - 1);
        let x = b[n - 1];
        let r = merged(a, b, n);
        assert(b.take(n) =~= b.take(n - 1).push(x));
        assert forall|id: ObjectId| r.contains(id) <==> a.contains(id) || b.take(n).contains(
            id,
        ) by {
            assert(m.contains(id) <==> a.contains(id) || b.take(n - 1).contains(id));
            if b.take(n).contains(id) {
                let k = b.take(n).index_of(id);
                if k < n - 1 {
                    assert(b.take(n - 1)[k] == id);
                } else {
                    assert(id == x);
                }
            }
            if b.take(n - 1).contains(id) {
                let k = b.take(n - 1).index_of(id);
                assert(b.take(n)[k] == id);
            }
            assert(b.take(n)[n - 1] == x);
            if !m.contains(x) {
                assert(r[r.len() - 1] == x);
                if m.contains(id) {
                    assert(r[m.index_of(id)] == id);
                }
                if r.contains(id) && id != x {
                    assert(m[r.index_of(id)] == id);
                }
            }
        }
        if !m.contains(x) {
            assert forall|i: int, j: int|
                0 <= i < r.len() && 0 <= j < r.len() && i != j implies r[i] != r[j] by {
                if i < m.len() {
                    assert(m.contains(m[i]));
                }
                if j < m.len() {
                    assert(m.contains(m[j]));
                }
            }
        }
    }
}

/// A search looks at every candidate exactly once, however many cells it
/// touches, and it looks at every unit.
pub proof fn law_each_candidate_once<T: MapStatic>(v: ArenaView<T>, c: CellRect, mask: u32)
    requires
        v.wf(),
    ensures
        candidates(v, c, mask).no_duplicates(),
        forall|id: ObjectId| v.units.contains(id) ==> candidates(v, c, mask).contains(id),
{
    let n = near(v, c);
    lemma_merged(v.units, n, n.len() as int);
}

/// Where no answer is not-a-number, the ray's hit is no farther than any other.
pub proof fn law_nearest_is_nearest(cands: Seq<ObjectId>, ts: Seq<Option<u32>>, n: int, i: int)
    requires
        0 <= i < n <= ts.len(),
        forall|k: int|
            #![trigger ts[k]]
            0 <= k < n ==> (ts[k] matches Some(t) ==> !float_bits::is_nan_spec(t)),
        ts[i] is Some,
        !float_bits::lt_spec(ts[i]->0, float_bits::ZERO),
    ensures
        nearest(cands, ts, n) is Some,
        float_bits::le_spec((nearest(cands, ts, n)->0).1, ts[i]->0),
    decreases n,
{
    assert(ts[n - 1] matches Some(t) ==> !float_bits::is_nan_spec(t));
    assert(ts[i] matches Some(t) ==> !float_bits::is_nan_spec(t));
    if i < n - 1 {
        law_nearest_is_nearest(cands, ts, n - 1, i);
    } else {
        lemma_nearest_not_nan(cands, ts, n - 1);
    }
}

proof fn lemma_nearest_not_nan(cands: Seq<ObjectId>, ts: Seq<Option<u32>>, n: int)
    requires
        n <= ts.len(),
        forall|k: int|
            #![trigger ts[k]]
            0 <= k < n ==> (ts[k] matches Some(t) ==> !float_bits::is_nan_spec(t)),
    ensures
        nearest(cands, ts, n) matches Some(b) ==> !float_bits::is_nan_spec(b.1),
    decreases n,
{
    if n > 0 {
        assert(ts[n - 1] matches Some(t) ==> !float_bits::is_nan_spec(t));
        lemma_nearest_not_nan(cands, ts, n - 1);
    }
}

/// A ray finds nothing exactly when every answer is a miss or lies behind the
/// origin.
pub proof fn law_nearest_none(cands: Seq<ObjectId>, ts: Seq<Option<u32>>, n: int)
    requires
        0 <= n <= ts.len(),
    ensures
        nearest(cands, ts, n) is None <==> forall|k: int|
            #![trigger ts[k]]
            0 <= k < n ==> (ts[k] matches Some(t) ==> float_bits::lt_spec(t, float_bits::ZERO)),
    decreases n,
{
    if n > 0 {
        law_nearest_none(cands, ts, n - 1);
        assert(ts[n - 1] == ts[n - 1]);
    }
}

/// The two rectangles share a cell.
pub open spec fn overlap(a: CellRect, b: CellRect) -> bool {
    a.x0 <= b.x1 && b.x0 <= a.x1 && a.y0 <= b.y1 && b.y0 <= a.y1 && a.x0 <= a.x1 && a.y0 <= a.y1
        && b.x0 <= b.x1 && b.y0 <= b.y1
}

/// Scenery is near exactly when it is present and its cells share one with those
/// that are searched.
pub proof fn law_near_is_overlap<T: MapStatic>(v: ArenaView<T>, c: CellRect, id: ObjectId)
    ensures
        near(v, c).contains(id) <==> v.mapobjects.contains(id) && v.get(id) is Some && overlap(
            v.get(id)->0.cell_rect(),
            c,
        ),
{
    let n = c.y1 - c.y0 + 1;
    lemma_in_rows(v, c, n, id);
    if near(v, c).contains(id) {
        let (gx, gy) = choose|gx: int, gy: int|
            #![trigger at_cell(v, id, gx, gy)]
            at_cell(v, id, gx, gy) && c.x0 <= gx <= c.x1 && c.y0 <= gy < c.y0 + n;
        assert(at_cell(v, id, gx, gy));
    }
    if v.mapobjects.contains(id) && v.get(id) is Some && overlap(v.get(id)->0.cell_rect(), c) {
        let r = v.get(id)->0.cell_rect();
        let gx = if r.x0 >= c.x0 {
            r.x0 as int
        } else {
            c.x0 as int
        };
        let gy = if r.y0 >= c.y0 {
            r.y0 as int
        } else {
            c.y0 as int
        };
        assert(at_cell(v, id, gx, gy));
    }
}

/// Scenery object `id` is present and touches a cell.
pub open spec fn at_cell<T: MapStatic>(v: ArenaView<T>, id: ObjectId, gx: int, gy: int) -> bool {
    v.mapobjects.contains(id) && v.get(id) is Some && v.get(id)->0.cell_rect().x0 <= gx
        <= v.get(id)->0.cell_rect().x1 && v.get(id)->0.cell_rect().y0 <= gy <= v.get(
        id,
    )->0.cell_rect().y1
}

proof fn lemma_in_cell<T: MapStatic>(v: ArenaView<T>, gx: int, gy: int, n: int, id: ObjectId)
    requires
        0 <= n <= v.mapobjects.len(),
    ensures
        in_cell(v, gx, gy, n).contains(id) <==> (exists|k: int|
            0 <= k < n && #[trigger] v.mapobjects[k] == id) && at_cell(v, id, gx, gy),
    decreases n,
{
    if n > 0 {
        lemma_in_cell(v, gx, gy, n - 1, id);
        let before = in_cell(v, gx, gy, n - 1);
        let last = v.mapobjects[n - 1];
        let now = in_cell(v, gx, gy, n);
        if now.contains(id) {
            let k = now.index_of(id);
            if k < before.len() {
                assert(before[k] == id);
                assert(before.contains(id));
                let j = choose|j: int| 0 <= j < n - 1 && #[trigger] v.mapobjects[j] == id;
                assert(v.mapobjects[j] == id);
            } else {
                assert(v.mapobjects.contains(last));
            }
        }
        if (exists|k: int| 0 <= k < n && #[trigger] v.mapobjects[k] == id) && at_cell(
            v,
            id,
            gx,
            gy,
        ) {
            if last == id {
                assert(now[now.len() - 1] == id);
            } else {
                let k = choose|k: int| 0 <= k < n && #[trigger] v.mapobjects[k] == id;
                assert(before.contains(id));
                assert(now[before.index_of(id)] == id);
            }
        }
    }
}

proof fn lemma_in_row<T: MapStatic>(v: ArenaView<T>, x0: int, gy: int, n: int, id: ObjectId)
    requires
        0 <= n,
    ensures
        in_row(v, x0, gy, n).contains(id) <==> exists|gx: int|
            x0 <= gx < x0 + n && #[trigger] at_cell(v, id, gx, gy),
    decreases n,
{
    if n > 0 {
        lemma_in_row(v, x0, gy, n - 1, id);
        let a = in_row(v, x0, gy, n - 1);
        let b = in_cell(v, x0 + n - 1, gy, v.mapobjects.len() as int);
        lemma_in_cell(v, x0 + n - 1, gy, v.mapobjects.len() as int, id);
        lemma_concat_contains(a, b, id);
        if exists|gx: int| x0 <= gx < x0 + n && #[trigger] at_cell(v, id, gx, gy) {
            let gx = choose|gx: int| x0 <= gx < x0 + n && #[trigger] at_cell(v, id, gx, gy);
            if gx == x0 + n - 1 {
                assert(v.mapobjects[v.mapobjects.index_of(id)] == id);
            }
        }
    }
}

proof fn lemma_in_rows<T: MapStatic>(v: ArenaView<T>, c: CellRect, n: int, id: ObjectId)
    ensures
        in_rows(v, c, n).contains(id) <==> exists|gx: int, gy: int|
            c.x0 <= gx <= c.x1 && c.y0 <= gy < c.y0 + n && #[trigger] at_cell(v, id, gx, gy),
    decreases n,
{
    if n > 0 {
        lemma_in_rows(v, c, n - 1, id);
        let a = in_rows(v, c, n - 1);
        let w = c.x1 - c.x0 + 1;
        let y = c.y0 + n - 1;
        let b = in_row(v, c.x0 as int, y, w);
        if w >= 0 {
            lemma_in_row(v, c.x0 as int, y, w, id);
        }
        lemma_concat_contains(a, b, id);
        if b.contains(id) {
            let gx = choose|gx: int| c.x0 <= gx < c.x0 + w && #[trigger] at_cell(v, id, gx, y);
            assert(at_cell(v, id, gx, y));
        }
        if exists|gx: int, gy: int|
            c.x0 <= gx <= c.x1 && c.y0 <= gy < c.y0 + n && #[trigger] at_cell(v, id, gx, gy) {
            let (gx, gy) = choose|gx: int, gy: int|
                c.x0 <= gx <= c.x1 && c.y0 <= gy < c.y0 + n && #[trigger] at_cell(v, id, gx, gy);
            if gy == y {
                assert(at_cell(v, id, gx, y));
            }
        }
    }
}

proof fn lemma_concat_contains(a: Seq<ObjectId>, b: Seq<ObjectId>, id: ObjectId)
    ensures
        (a + b).contains(id) <==> a.contains(id) || b.contains(id),
{
    let s = a + b;
    if s.contains(id) {
        let k = s.index_of(id);
        if k < a.len() {
            assert(a[k] == id);
        } else {
            assert(b[k - a.len()] == id);
        }
    }
    if a.contains(id) {
        assert(s[a.index_of(id)] == id);
    }
    if b.contains(id) {
        assert(s[a.len() + b.index_of(id)] == id);
    }
}

/// A search looks at every unit, and at the scenery that is near where it is asked
/// for, and at nothing else; units come first, in their order.
pub proof fn law_candidates<T: MapStatic>(v: ArenaView<T>, c: CellRect, mask: u32, id: ObjectId)
    ensures
        candidates(v, c, mask).contains(id) <==> v.units.contains(id) || (mask & 0x10 != 0
            && near(v, c).contains(id)),
        ray_candidates(v, c, mask).contains(id) <==> v.units.contains(id) || (mask & 0x10 != 0
            && near(v, c).contains(id)),
        candidates(v, c, mask).len() >= v.units.len(),
        candidates(v, c, mask).take(v.units.len() as int) == v.units,
        ray_candidates(v, c, mask).take(v.units.len() as int) == v.units,
{
    lemma_merge_all(v.units, near(v, c), near(v, c).len() as int, id);
    lemma_concat_contains(v.units, near(v, c), id);
    assert((v.units + near(v, c)).take(v.units.len() as int) =~= v.units);
    assert(v.units.take(v.units.len() as int) =~= v.units);
}

proof fn lemma_merge_all(a: Seq<ObjectId>, b: Seq<ObjectId>, n: int, id: ObjectId)
    requires
        0 <= n <= b.len(),
    ensures
        merged(a, b, n).len() >= a.len(),
        merged(a, b, n).take(a.len() as int) == a,
        merged(a, b, n).contains(id) <==> a.contains(id) || (exists|k: int|
            0 <= k < n && #[trigger] b[k] == id),
        n == b.len() ==> (merged(a, b, n).contains(id) <==> a.contains(id) || b.contains(id)),
    decreases n,
{
    let m = merged(a, b, n);
    if n > 0 {
        lemma_merge_all(a, b, n - 1, id);
        let p = merged(a, b, n - 1);
        assert(m.take(a.len() as int) =~= p.take(a.len() as int));
        if m.contains(id) {
            let k = m.index_of(id);
            if k < p.len() {
                assert(p[k] == id);
                assert(p.contains(id));
            } else {
                assert(b[n - 1] == id);
            }
        }
        if p.contains(id) {
            assert(m[p.index_of(id)] == id);
        }
        if b[n - 1] == id && !p.contains(id) {
            assert(m[m.len() - 1] == id);
        }
    } else {
        assert(m.take(a.len() as int) =~= a);
    }
    if n == b.len() && b.contains(id) {
        assert(b[b.index_of(id)] == id);
    }
}

/// A search hits exactly the candidates that fit and are in range, in the order in
/// which they are looked at.
pub proof fn law_search_hits<T: MapStatic>(
    v: ArenaView<T>,
    cands: Seq<ObjectId>,
    mask: u32,
    skip: Option<ObjectId>,
    in_range: Seq<bool>,
    n: int,
    id: ObjectId,
)
    requires
        0 <= n <= cands.len(),
        n <= in_range.len(),
    ensures
        hits(v, cands, mask, skip, in_range, n).contains(id) <==> exists|i: int|
            0 <= i < n && #[trigger] cands[i] == id && eligible(v, id, mask, skip) && in_range[i],
        hits(v, cands, mask, skip, in_range, n).len() <= n,
        n > 0 && eligible(v, cands[n - 1], mask, skip) && in_range[n - 1] ==> hits(
            v,
            cands,
            mask,
            skip,
            in_range,
            n,
        ).last() == cands[n - 1],
    decreases n,
{
    if n > 0 {
        law_search_hits(v, cands, mask, skip, in_range, n - 1, id);
        let p = hits(v, cands, mask, skip, in_range, n - 1);
        let h = hits(v, cands, mask, skip, in_range, n);
        if h.contains(id) {
            let k = h.index_of(id);
            if k < p.len() {
                assert(p[k] == id);
                assert(p.contains(id));
            } else {
                assert(cands[n - 1] == id);
            }
        }
        if p.contains(id) {
            assert(h[p.index_of(id)] == id);
        }
        if cands[n - 1] == id && eligible(v, id, mask, skip) && in_range[n - 1] {
            assert(h[h.len() - 1] == id);
        }
    }
}

/// An object fits a search when it is present, is not the one to be left out, is
/// alive, is of a class that is asked for, and is not invisible where invisible
/// ones are left out.
pub proof fn law_fits_search<T: MapStatic>(
    v: ArenaView<T>,
    id: ObjectId,
    mask: u32,
    skip: Option<ObjectId>,
)
    ensures
        v.get(id) is None ==> !eligible(v, id, mask, skip),
        skip == Some(id) ==> !eligible(v, id, mask, skip),
        v.get(id) matches Some(o) ==> {
            let asked = match o.status().obj_type {
                ObjectType::Empty => false,
                ObjectType::MapObject => mask & 0x10 != 0,
                ObjectType::RobotAi => mask & 4 != 0,
                ObjectType::Building => mask & 8 != 0,
                ObjectType::Cannon => mask & 0x20 != 0,
                ObjectType::Flyer => mask & 0x40 != 0,
            };
            let hidden = mask & 0x8000_0000 != 0 && o.status().object_state
                & crate::map_static::OBJECT_STATE_TRACE_INVISIBLE != 0;
            eligible(v, id, mask, skip) == (skip != Some(id) && o.live() && asked && !hidden)
        },
{
}

/// A ray hits one of the objects that it was tested against, at the distance of
/// that test, not behind its start, and the first of those that are equally near.
pub proof fn law_ray_hits_a_candidate(cands: Seq<ObjectId>, ts: Seq<Option<u32>>, n: int)
    requires
        0 <= n <= ts.len(),
        n <= cands.len(),
        forall|k: int|
            #![trigger ts[k]]
            0 <= k < n ==> (ts[k] matches Some(t) ==> !float_bits::is_nan_spec(t)),
    ensures
        nearest(cands, ts, n) matches Some(b) ==> exists|k: int|
            {
                &&& 0 <= k < n
                &&& b.0 == cands[k]
                &&& #[trigger] ts[k] == Some(b.1)
                &&& float_bits::le_spec(float_bits::ZERO, b.1)
                &&& forall|j: int|
                    #![trigger ts[j]]
                    0 <= j < k && ts[j] is Some && float_bits::le_spec(float_bits::ZERO, ts[j]->0)
                        ==> float_bits::lt_spec(b.1, ts[j]->0)
            },
    decreases n,
{
    if n > 0 {
        law_ray_hits_a_candidate(cands, ts, n - 1);
        match nearest(cands, ts, n) {
            Some(b) => {
                if nearest(cands, ts, n) == nearest(cands, ts, n - 1) {
                    let k = choose|k: int|
                        {
                            &&& 0 <= k < n - 1
                            &&& b.0 == cands[k]
                            &&& #[trigger] ts[k] == Some(b.1)
                            &&& float_bits::le_spec(float_bits::ZERO, b.1)
                            &&& forall|j: int|
                                #![trigger ts[j]]
                                0 <= j < k && ts[j] is Some && float_bits::le_spec(
                                    float_bits::ZERO,
                                    ts[j]->0,
                                ) ==> float_bits::lt_spec(b.1, ts[j]->0)
                        };
                    assert(ts[k] == Some(b.1));
                } else {
                    assert(ts[n - 1] == Some(b.1));
                    assert forall|j: int|
                        #![trigger ts[j]]
                        0 <= j < n - 1 && ts[j] is Some && float_bits::le_spec(
                            float_bits::ZERO,
                            ts[j]->0,
                        ) implies float_bits::lt_spec(b.1, ts[j]->0) by {
                        law_nearest_is_nearest(cands, ts, n - 1, j);
                        assert(!float_bits::is_nan_spec(b.1));
                    }
                }
            },
            None => {},
        }
    }
}

/// A hit is heard when it names a sound and strikes something alive; repairs make
/// none, and scenery only when it burns.
pub proof fn law_hits_are_heard(t: ObjectType, live: bool, weap: Weapon, key: Seq<char>)
    ensures
        is_heard(t, live, weap, key) ==> key.len() > 0 && live && weap != Weapon::Repair,
        key.len() > 0 && live && weap != Weapon::Repair && t != ObjectType::MapObject ==> is_heard(
            t,
            live,
            weap,
            key,
        ),
        t == ObjectType::MapObject && weap != Weapon::Ablaze ==> !is_heard(t, live, weap, key),
        t == ObjectType::MapObject && weap == Weapon::Ablaze && live && key.len() > 0 ==> is_heard(
            t,
            live,
            weap,
            key,
        ),
{
}

/// Where the range test always answers the same of an object, a search finds
/// something just when a candidate that fits passes it.
pub proof fn law_any_in_range<T: MapStatic, R: Fn(&T) -> bool>(
    v: ArenaView<T>,
    c: CellRect,
    mask: u32,
    skip: Option<ObjectId>,
    in_range: R,
    hit: bool,
    near: spec_fn(T) -> bool,
)
    requires
        is_any_in_range(v, c, mask, skip, in_range, hit),
        forall|o: T, b: bool| #[trigger] call_ensures(in_range, (&o,), b) ==> b == near(o),
    ensures
        hit <==> exists|id: ObjectId| #[trigger]
            candidates(v, c, mask).contains(id) && eligible(v, id, mask, skip) && near(
                v.get(id)->0,
            ),
{
    let cands = candidates(v, c, mask);
    if hit {
        let i = choose|i: int|
            #![trigger cands[i]]
            0 <= i < cands.len() && eligible(v, cands[i], mask, skip) && call_ensures(
                in_range,
                (&v.get(cands[i])->0,),
                true,
            );
        assert(cands.contains(cands[i]));
    } else if exists|id: ObjectId| #[trigger]
        cands.contains(id) && eligible(v, id, mask, skip) && near(v.get(id)->0) {
        let id = choose|id: ObjectId| #[trigger]
            cands.contains(id) && eligible(v, id, mask, skip) && near(v.get(id)->0);
        let i = choose|i: int| 0 <= i < cands.len() && cands[i] == id;
        assert(call_ensures(in_range, (&v.get(cands[i])->0,), false));
    }
}

} // verus!
