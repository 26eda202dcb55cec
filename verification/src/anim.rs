//! Frame animation of models: the frame clock, and the index ranges of each
//! surface in each frame.
use crate::properties::same_text;
use vstd::prelude::*;

verus! {

/// One step of an animation: how long it is shown, and which frame. The sign
/// of the first step's time says whether the animation loops.
#[derive(Debug, Clone, Copy, PartialEq, Eq, Structural)]
pub struct VoAnimFrame {
    pub time_ms: i32,
    pub frame_index: usize,
}

#[derive(Debug)]
pub struct VoAnimation {
    pub frames: Vec<VoAnimFrame>,
}

/// The clock of one animated model.
#[derive(Debug)]
pub struct AnimState {
    pub animations: Vec<VoAnimation>,
    /// The running animation.
    pub anim: usize,
    /// The step that is shown.
    pub frame_slot: usize,
    /// The frame that is shown.
    pub vo_frame: usize,
    pub time_ms: i32,
    /// When the next step is due.
    pub time_next: i32,
    pub looped: bool,
}

pub open spec fn abs_int(x: int) -> int {
    if x < 0 {
        -x
    } else {
        x
    }
}

/// The sum, held below the largest clock value.
pub open spec fn later(t: int, dt: int) -> int {
    if t + dt > i32::MAX {
        i32::MAX as int
    } else {
        t + dt
    }
}

fn add_later(t: i32, dt: i32) -> (r: i32)
    requires
        dt >= 0,
    ensures
        r == later(t as int, dt as int),
{
    if t > 0x7fff_ffff - dt {
        0x7fff_ffff
    } else {
        t + dt
    }
}

/// How long each step of an animation is shown.
pub open spec fn durations(f: Seq<VoAnimFrame>) -> Seq<int> {
    Seq::new(f.len(), |i: int| abs_int(f[i].time_ms as int))
}

/// No step lasts less than nothing, and the first step of a loop lasts.
pub open spec fn can_run(d: Seq<int>, looped: bool) -> bool {
    &&& forall|i: int| 0 <= i < d.len() ==> (#[trigger] d[i]) >= 0
    &&& looped ==> d.len() > 0 && d[0] > 0
}

/// How far the clock is past the due time.
pub open spec fn gap(now: int, next: int) -> nat {
    if now > next {
        (now - next) as nat
    } else {
        0
    }
}

/// Step and due time when the clock shows `now`: steps that are over are left,
/// a loop starts again, and an animation that ends stays on its last step and
/// is looked at again a second later.
pub open spec fn run(d: Seq<int>, looped: bool, slot: int, next: int, now: int) -> (int, int)
    decreases gap(now, next), d.len() - slot,
{
    if !can_run(d, looped) || now <= next || now > i32::MAX || !(0 <= slot < d.len()) {
        (slot, next)
    } else if slot + 1 < d.len() {
        run(d, looped, slot + 1, later(next, d[slot + 1]), now)
    } else if looped {
        run(d, looped, 0, later(next, d[0]), now)
    } else {
        (slot, later(next, 1000))
    }
}

impl AnimState {
    /// The steps of the running animation.
    pub open spec fn steps(&self) -> Seq<VoAnimFrame> {
        if self.anim < self.animations@.len() {
            self.animations@[self.anim as int].frames@
        } else {
            Seq::empty()
        }
    }

    /// Times that have a magnitude, a step that exists and whose frame is shown,
    /// and a loop flag that follows the first step.
    pub open spec fn wf(&self) -> bool {
        &&& forall|a: int, i: int|
            #![trigger self.animations@[a].frames@[i]]
            0 <= a < self.animations@.len() && 0 <= i < self.animations@[a].frames@.len()
                ==> self.animations@[a].frames@[i].time_ms > i32::MIN
        &&& self.steps().len() > 0 ==> self.frame_slot < self.steps().len()
        &&& self.steps().len() > 0 ==> self.vo_frame == self.step_frame(self.frame_slot as int)
        &&& self.steps().len() > 0 ==> self.looped == (self.steps()[0].time_ms > 0)
    }

    pub open spec fn step_time(&self, slot: int) -> int {
        if 0 <= slot < self.steps().len() {
            abs_int(self.steps()[slot].time_ms as int)
        } else {
            0
        }
    }

    pub open spec fn step_frame(&self, slot: int) -> usize {
        if 0 <= slot < self.steps().len() {
            self.steps()[slot].frame_index
        } else {
            0
        }
    }

    /// Start the first animation.
    pub fn new(animations: Vec<VoAnimation>) -> (s: AnimState)
        requires
            forall|a: int, i: int|
                #![trigger animations@[a].frames@[i]]
                0 <= a < animations@.len() && 0 <= i < animations@[a].frames@.len()
                    ==> animations@[a].frames@[i].time_ms > i32::MIN,
        ensures
            s.wf(),
            s.animations == animations,
            s.anim == 0,
            s.frame_slot == 0,
            s.time_ms == 0,
            s.vo_frame == s.step_frame(0),
            s.time_next == s.step_time(0),
            s.looped == (s.steps().len() == 0 || s.steps()[0].time_ms > 0),
    {
        let mut s = AnimState {
            animations,
            anim: 0,
            frame_slot: 0,
            vo_frame: 0,
            time_ms: 0,
            time_next: 0,
            looped: true,
        };
        s.first_frame();
        s
    }

    /// How many steps the running animation has.
    pub fn current_anim_frame_count(&self) -> (n: usize)
        ensures
            n == self.steps().len(),
    {
        if self.anim < self.animations.len() {
            self.animations[self.anim].frames.len()
        } else {
            0
        }
    }

    /// How long a step is shown; a step that does not exist takes no time.
    pub fn anim_frame_time(&self, slot: usize) -> (t: i32)
        requires
            slot < self.steps().len() ==> self.steps()[slot as int].time_ms > i32::MIN,
        ensures
            t == self.step_time(slot as int),
            t >= 0,
    {
        if slot < self.current_anim_frame_count() {
            let t = self.animations[self.anim].frames[slot].time_ms;
            if t < 0 {
                -t
            } else {
                t
            }
        } else {
            0
        }
    }

    /// The frame of a step; the first frame for a step that does not exist.
    pub fn anim_frame_index(&self, slot: usize) -> (i: usize)
        ensures
            i == self.step_frame(slot as int),
    {
        if slot < self.current_anim_frame_count() {
            self.animations[self.anim].frames[slot].frame_index
        } else {
            0
        }
    }

    /// Go to the first step of the running animation.
    pub fn first_frame(&mut self)
        requires
            forall|a: int, i: int|
                #![trigger old(self).animations@[a].frames@[i]]
                0 <= a < old(self).animations@.len() && 0 <= i
                    < old(self).animations@[a].frames@.len() ==> old(self).animations@[a].frames@[i].time_ms
                    > i32::MIN,
            old(self).time_ms + old(self).step_time(0) <= i32::MAX,
        ensures
            final(self).wf(),
            *final(self) == (AnimState {
                frame_slot: 0,
                vo_frame: old(self).step_frame(0),
                time_next: (old(self).time_ms + old(self).step_time(0)) as i32,
                looped: old(self).steps().len() == 0 || old(self).steps()[0].time_ms > 0,
                ..*old(self)
            }),
    {
        self.frame_slot = 0;
        self.vo_frame = self.anim_frame_index(0);
        self.time_next = self.time_ms + self.anim_frame_time(0);
        self.looped = if self.current_anim_frame_count() == 0 {
            true
        } else {
            self.animations[self.anim].frames[0].time_ms > 0
        };
    }

    /// The animation after some time: it takes every step that has come due.
    pub open spec fn after_takt(self, cms: i32) -> AnimState {
        let now = if self.time_ms + cms > i32::MAX {
            i32::MAX as int
        } else if self.time_ms + cms < i32::MIN {
            i32::MIN as int
        } else {
            self.time_ms + cms
        };
        let (slot, next) = if self.steps().len() == 0 {
            (self.frame_slot as int, self.time_next as int)
        } else {
            run(
                durations(self.steps()),
                self.looped,
                self.frame_slot as int,
                self.time_next as int,
                now,
            )
        };
        AnimState {
            time_ms: now as i32,
            frame_slot: slot as usize,
            time_next: next as i32,
            vo_frame: if self.steps().len() == 0 {
                self.vo_frame
            } else {
                self.step_frame(slot)
            },
            ..self
        }
    }

    /// Let the clock run. `true` when another frame is shown.
    pub fn takt(&mut self, cms: i32) -> (changed: bool)
        requires
            old(self).wf(),
        ensures
            final(self).wf(),
            *final(self) == old(self).after_takt(cms),
            changed == (final(self).vo_frame != old(self).vo_frame),
    {
        let ghost pre = *self;
        let sum: i64 = self.time_ms as i64 + cms as i64;
        self.time_ms = if sum > 0x7fff_ffff {
            0x7fff_ffff
        } else if sum < -0x8000_0000 {
            -0x8000_0000
        } else {
            sum as i32
        };
        let fcnt = self.current_anim_frame_count();
        if fcnt == 0 {
            return false;
        }
        let old_frame = self.vo_frame;
        let ghost d = durations(self.steps());
        let ghost goal = run(
            d,
            self.looped,
            self.frame_slot as int,
            self.time_next as int,
            self.time_ms as int,
        );
        let ghost frame = *self;
        proof {
            assert forall|i: int| 0 <= i < d.len() implies (#[trigger] d[i]) >= 0 by {
                assert(pre.animations@[pre.anim as int].frames@[i].time_ms > i32::MIN);
            }
            assert(can_run(d, self.looped));
        }
        while self.time_ms > self.time_next
            invariant_except_break
                fcnt > 0,
                *self == (AnimState {
                    frame_slot: self.frame_slot,
                    time_next: self.time_next,
                    ..frame
                }),
                frame.wf(),
                frame.steps().len() == fcnt,
                d == durations(frame.steps()),
                can_run(d, frame.looped),
                self.frame_slot < fcnt,
                goal == run(
                    d,
                    frame.looped,
                    self.frame_slot as int,
                    self.time_next as int,
                    frame.time_ms as int,
                ),
            ensures
                fcnt > 0,
                *self == (AnimState {
                    frame_slot: self.frame_slot,
                    time_next: self.time_next,
                    ..frame
                }),
                self.frame_slot < fcnt,
                goal == (self.frame_slot as int, self.time_next as int),
            decreases gap(self.time_ms as int, self.time_next as int), fcnt - self.frame_slot,
        {
            proof {
                assert(frame.animations@[frame.anim as int].frames@[0].time_ms > i32::MIN);
            }
            self.frame_slot = self.frame_slot + 1;
            if self.looped {
                if self.frame_slot >= fcnt {
                    self.frame_slot = 0;
                }
            } else if self.frame_slot >= fcnt {
                self.time_next = add_later(self.time_next, 1000);
                self.frame_slot = fcnt - 1;
                break;
            }
            proof {
                assert(frame.animations@[frame.anim as int].frames@[self.frame_slot as int].time_ms
                    > i32::MIN);
                assert(d[self.frame_slot as int] == self.step_time(self.frame_slot as int));
            }
            let t = self.anim_frame_time(self.frame_slot);
            self.time_next = add_later(self.time_next, t);
        }
        self.vo_frame = self.anim_frame_index(self.frame_slot);
        self.vo_frame != old_frame
    }
}

/// However long the clock runs, a step that exists is shown.
pub proof fn law_run_stays_in_range(d: Seq<int>, looped: bool, slot: int, next: int, now: int)
    requires
        0 <= slot < d.len(),
    ensures
        0 <= run(d, looped, slot, next, now).0 < d.len(),
    decreases gap(now, next), d.len() - slot,
{
    if !can_run(d, looped) || now <= next || now > i32::MAX {
    } else if slot + 1 < d.len() {
        law_run_stays_in_range(d, looped, slot + 1, later(next, d[slot + 1]), now);
    } else if looped {
        law_run_stays_in_range(d, looped, 0, later(next, d[0]), now);
    }
}

/// A loop always catches up with the clock.
pub proof fn law_loop_catches_up(d: Seq<int>, slot: int, next: int, now: int)
    requires
        can_run(d, true),
        0 <= slot < d.len(),
        now <= i32::MAX,
    ensures
        now <= run(d, true, slot, next, now).1,
    decreases gap(now, next), d.len() - slot,
{
    if now <= next {
    } else if slot + 1 < d.len() {
        law_loop_catches_up(d, slot + 1, later(next, d[slot + 1]), now);
    } else {
        law_loop_catches_up(d, 0, later(next, d[0]), now);
    }
}

/// An animation that does not loop never goes back.
pub proof fn law_run_goes_forward(d: Seq<int>, slot: int, next: int, now: int)
    requires
        0 <= slot < d.len(),
    ensures
        slot <= run(d, false, slot, next, now).0,
    decreases gap(now, next), d.len() - slot,
{
    if !can_run(d, false) || now <= next || now > i32::MAX {
    } else if slot + 1 < d.len() {
        law_run_goes_forward(d, slot + 1, later(next, d[slot + 1]), now);
    }
}

/// A look at the clock in between changes nothing: the step is the same, and
/// for a loop the due time is too.
pub proof fn law_run_can_be_split(
    d: Seq<int>,
    looped: bool,
    slot: int,
    next: int,
    mid: int,
    now: int,
)
    requires
        can_run(d, looped),
        0 <= slot < d.len(),
        mid <= now <= i32::MAX,
    ensures
        ({
            let r = run(d, looped, slot, next, mid);
            &&& run(d, looped, r.0, r.1, now).0 == run(d, looped, slot, next, now).0
            &&& looped ==> run(d, looped, r.0, r.1, now) == run(d, looped, slot, next, now)
        }),
    decreases gap(now, next), d.len() - slot,
{
    if mid > next {
        if slot + 1 < d.len() {
            law_run_can_be_split(d, looped, slot + 1, later(next, d[slot + 1]), mid, now);
        } else if looped {
            law_run_can_be_split(d, looped, 0, later(next, d[0]), mid, now);
        }
    }
}

/// An animation that does not loop stays on its last step for good.
pub proof fn law_last_step_stays(d: Seq<int>, next: int, now: int)
    requires
        d.len() > 0,
    ensures
        run(d, false, d.len() - 1, next, now).0 == d.len() - 1,
{
}

/// Splitting a turn does not matter: after two turns the same frame is shown as
/// after one turn of the same length.
pub proof fn law_turns_add_up(s: AnimState, a: i32, b: i32)
    requires
        s.wf(),
        a >= 0,
        b >= 0,
        a + b <= i32::MAX,
        s.time_ms + a + b <= i32::MAX,
    ensures
        s.after_takt(a).after_takt(b).vo_frame == s.after_takt((a + b) as i32).vo_frame,
        s.after_takt(a).after_takt(b).time_ms == s.after_takt((a + b) as i32).time_ms,
        s.looped ==> s.after_takt(a).after_takt(b) == s.after_takt((a + b) as i32),
{
    if s.steps().len() > 0 {
        let d = durations(s.steps());
        s.lemma_can_run();
        assert(d.len() == s.animations@[s.anim as int].frames.len());
        let (slot, next) = (s.frame_slot as int, s.time_next as int);
        let t = s.after_takt(a);
        assert(t.steps() == s.steps());
        law_run_stays_in_range(d, s.looped, slot, next, s.time_ms + a);
        lemma_run_fits(d, s.looped, slot, next, s.time_ms + a);
        law_run_can_be_split(d, s.looped, slot, next, s.time_ms + a, s.time_ms + a + b);
    }
}

/// Once an animation that does not loop shows its last frame in its last step,
/// it shows it after any turn.
pub proof fn law_one_shot_stays(s: AnimState, cms: i32)
    requires
        s.wf(),
        !s.looped,
        s.steps().len() > 0,
        s.frame_slot == s.steps().len() - 1,
    ensures
        s.after_takt(cms).frame_slot == s.frame_slot,
        s.after_takt(cms).vo_frame == s.vo_frame,
{
}

impl AnimState {
    proof fn lemma_can_run(self)
        requires
            self.wf(),
            self.steps().len() > 0,
        ensures
            can_run(durations(self.steps()), self.looped),
    {
        let d = durations(self.steps());
        assert forall|i: int| 0 <= i < d.len() implies (#[trigger] d[i]) >= 0 by {
            assert(self.animations@[self.anim as int].frames@[i].time_ms > i32::MIN);
        }
    }
}

/// The due time stays a clock value.
proof fn lemma_run_fits(d: Seq<int>, looped: bool, slot: int, next: int, now: int)
    requires
        i32::MIN <= next <= i32::MAX,
    ensures
        i32::MIN <= run(d, looped, slot, next, now).1 <= i32::MAX,
    decreases gap(now, next), d.len() - slot,
{
    if !can_run(d, looped) || now <= next || now > i32::MAX || !(0 <= slot < d.len()) {
    } else if slot + 1 < d.len() {
        lemma_run_fits(d, looped, slot + 1, later(next, d[slot + 1]), now);
    } else if looped {
        lemma_run_fits(d, looped, 0, later(next, d[0]), now);
    }
}

// ── Surfaces ────────────────────────────────────────────────────────────
/// One surface of a frame: its texture, and its triangles.
#[derive(Debug)]
pub struct VoSurfaceMesh {
    pub texture_ref: Option<String>,
    pub indices: Vec<u32>,
}

#[derive(Debug)]
pub struct VoFrame {
    pub surfaces: Vec<VoSurfaceMesh>,
}

/// One surface over all frames: the triangles of all frames one after the
/// other, and for each frame the range of its own.
#[derive(Debug)]
pub struct PerSurfaceFrames {
    pub texture_ref: Option<String>,
    pub concat_indices: Vec<u32>,
    pub frame_ranges: Vec<(u32, u32)>,
}

/// A texture name as characters.
pub open spec fn key_of(r: Option<String>) -> Option<Seq<char>> {
    match r {
        Some(s) => Some(s@),
        None => None,
    }
}

/// The textures seen after `n` more surfaces, each once, in order of first
/// sight.
pub open spec fn keys_after(
    surfs: Seq<VoSurfaceMesh>,
    seen: Seq<Option<Seq<char>>>,
    n: int,
) -> Seq<Option<Seq<char>>>
    decreases n,
{
    if n <= 0 {
        seen
    } else {
        let k = keys_after(surfs, seen, n - 1);
        let key = key_of(surfs[n - 1].texture_ref);
        if k.contains(key) {
            k
        } else {
            k.push(key)
        }
    }
}

/// The textures of the first `n` frames.
pub open spec fn keys_of(frames: Seq<VoFrame>, n: int) -> Seq<Option<Seq<char>>>
    decreases n,
{
    if n <= 0 {
        Seq::empty()
    } else {
        let s = frames[n - 1].surfaces@;
        keys_after(s, keys_of(frames, n - 1), s.len() as int)
    }
}

/// A surface over all frames, as characters and sequences.
pub struct SurfaceView {
    pub key: Option<Seq<char>>,
    pub indices: Seq<u32>,
    pub ranges: Seq<(u32, u32)>,
}

/// The triangles of a texture among the first `n` surfaces of a frame.
pub open spec fn frame_part(surfs: Seq<VoSurfaceMesh>, key: Option<Seq<char>>, n: int) -> Seq<u32>
    decreases n,
{
    if n <= 0 {
        Seq::empty()
    } else {
        let before = frame_part(surfs, key, n - 1);
        if key_of(surfs[n - 1].texture_ref) == key {
            before + surfs[n - 1].indices@
        } else {
            before
        }
    }
}

/// The texture occurs among the first `n` surfaces of a frame.
pub open spec fn has_key(surfs: Seq<VoSurfaceMesh>, key: Option<Seq<char>>, n: int) -> bool {
    exists|i: int| 0 <= i < n && key_of((#[trigger] surfs[i]).texture_ref) == key
}

/// All triangles of a texture in a frame.
pub open spec fn of_frame(frame: VoFrame, key: Option<Seq<char>>) -> Seq<u32> {
    frame_part(frame.surfaces@, key, frame.surfaces@.len() as int)
}

/// The triangles of a texture in the first `n` frames, one frame after the
/// other.
pub open spec fn of_frames(frames: Seq<VoFrame>, key: Option<Seq<char>>, n: int) -> Seq<u32>
    decreases n,
{
    if n <= 0 {
        Seq::empty()
    } else {
        of_frames(frames, key, n - 1) + of_frame(frames[n - 1], key)
    }
}

/// Where the triangles of a frame lie among all, and how many they are; nothing
/// for a frame without the texture.
pub open spec fn range_of(frames: Seq<VoFrame>, key: Option<Seq<char>>, f: int) -> (u32, u32) {
    if has_key(frames[f].surfaces@, key, frames[f].surfaces@.len() as int) {
        (of_frames(frames, key, f).len() as u32, of_frame(frames[f], key).len() as u32)
    } else {
        (0u32, 0u32)
    }
}

/// A texture's surface over all frames.
pub open spec fn packed(frames: Seq<VoFrame>, key: Option<Seq<char>>) -> SurfaceView {
    SurfaceView {
        key,
        indices: of_frames(frames, key, frames.len() as int),
        ranges: Seq::new(frames.len(), |f: int| range_of(frames, key, f)),
    }
}

/// The surfaces of the first `n` textures; one without triangles is dropped.
pub open spec fn kept_surfaces(
    frames: Seq<VoFrame>,
    keys: Seq<Option<Seq<char>>>,
    n: int,
) -> Seq<SurfaceView>
    decreases n,
{
    if n <= 0 {
        Seq::empty()
    } else {
        let v = packed(frames, keys[n - 1]);
        let before = kept_surfaces(frames, keys, n - 1);
        if v.indices.len() > 0 {
            before.push(v)
        } else {
            before
        }
    }
}

pub open spec fn surface_view(p: PerSurfaceFrames) -> SurfaceView {
    SurfaceView {
        key: key_of(p.texture_ref),
        indices: p.concat_indices@,
        ranges: p.frame_ranges@,
    }
}

pub open spec fn surface_views(v: Seq<PerSurfaceFrames>) -> Seq<SurfaceView> {
    Seq::new(v.len(), |i: int| surface_view(v[i]))
}

/// How many indices the first `n` surfaces have.
pub open spec fn index_total(surfs: Seq<VoSurfaceMesh>, n: int) -> nat
    decreases n,
{
    if n <= 0 {
        0
    } else {
        index_total(surfs, n - 1) + surfs[n - 1].indices@.len()
    }
}

/// How many indices the first `n` frames have.
pub open spec fn frames_total(frames: Seq<VoFrame>, n: int) -> nat
    decreases n,
{
    if n <= 0 {
        0
    } else {
        frames_total(frames, n - 1) + index_total(
            frames[n - 1].surfaces@,
            frames[n - 1].surfaces@.len() as int,
        )
    }
}

fn same_ref(a: &Option<String>, b: &Option<String>) -> (r: bool)
    ensures
        r == (key_of(*a) == key_of(*b)),
{
    match (a, b) {
        (Some(x), Some(y)) => same_text(x.as_str(), y.as_str()),
        (None, None) => true,
        _ => false,
    }
}

fn copy_ref(a: &Option<String>) -> (r: Option<String>)
    ensures
        key_of(r) == key_of(*a),
{
    match a {
        Some(x) => Some(x.clone()),
        None => None,
    }
}

pub open spec fn key_views(v: Seq<Option<String>>) -> Seq<Option<Seq<char>>> {
    Seq::new(v.len(), |i: int| key_of(v[i]))
}

fn has_ref(keys: &Vec<Option<String>>, key: &Option<String>) -> (r: bool)
    ensures
        r == key_views(keys@).contains(key_of(*key)),
{
    let mut i: usize = 0;
    while i < keys.len()
        invariant
            i <= keys@.len(),
            forall|k: int| 0 <= k < i ==> key_of(#[trigger] keys@[k]) != key_of(*key),
        decreases keys.len() - i,
    {
        if same_ref(&keys[i], key) {
            assert(key_views(keys@)[i as int] == key_of(*key));
            return true;
        }
        i = i + 1;
    }
    proof {
        if key_views(keys@).contains(key_of(*key)) {
            let k = key_views(keys@).index_of(key_of(*key));
            assert(key_of(keys@[k]) == key_of(*key));
        }
    }
    false
}

fn collect_refs(frames: &Vec<VoFrame>) -> (keys: Vec<Option<String>>)
    ensures
        key_views(keys@) == keys_of(frames@, frames@.len() as int),
{
    let mut keys: Vec<Option<String>> = Vec::new();
    let mut f: usize = 0;
    assert(key_views(keys@) =~= keys_of(frames@, 0));
    while f < frames.len()
        invariant
            f <= frames@.len(),
            key_views(keys@) == keys_of(frames@, f as int),
        decreases frames.len() - f,
    {
        let surfs = &frames[f].surfaces;
        let ghost seen = key_views(keys@);
        let mut i: usize = 0;
        while i < surfs.len()
            invariant
                i <= surfs@.len(),
                key_views(keys@) == keys_after(surfs@, seen, i as int),
            decreases surfs.len() - i,
        {
            if !has_ref(&keys, &surfs[i].texture_ref) {
                let k = copy_ref(&surfs[i].texture_ref);
                let ghost before = keys@;
                keys.push(k);
                assert(key_views(keys@) =~= key_views(before).push(key_of(k)));
            }
            i = i + 1;
        }
        f = f + 1;
    }
    keys
}

fn extend(v: &mut Vec<u32>, more: &Vec<u32>)
    ensures
        final(v)@ == old(v)@ + more@,
{
    let ghost start = v@;
    let mut i: usize = 0;
    while i < more.len()
        invariant
            i <= more@.len(),
            v@ =~= start + more@.take(i as int),
        decreases more.len() - i,
    {
        v.push(more[i]);
        i = i + 1;
    }
    assert(more@.take(i as int) =~= more@);
}

fn pack_surface(frames: &Vec<VoFrame>, key: &Option<String>) -> (p: PerSurfaceFrames)
    requires
        frames_total(frames@, frames@.len() as int) <= u32::MAX,
    ensures
        surface_view(p) == packed(frames@, key_of(*key)),
{
    let ghost k = key_of(*key);
    let mut indices: Vec<u32> = Vec::new();
    let mut ranges: Vec<(u32, u32)> = Vec::new();
    let mut f: usize = 0;
    while f < frames.len()
        invariant
            frames_total(frames@, frames@.len() as int) <= u32::MAX,
            k == key_of(*key),
            f <= frames@.len(),
            indices@.len() <= frames_total(frames@, f as int),
            indices@ == of_frames(frames@, k, f as int),
            ranges@ =~= Seq::new(f as nat, |i: int| range_of(frames@, k, i)),
        decreases frames.len() - f,
    {
        let surfs = &frames[f].surfaces;
        let ghost start = indices@;
        let first = indices.len();
        let mut found = false;
        let mut i: usize = 0;
        proof {
            lemma_total_grows(frames@, f + 1, frames@.len() as int);
        }
        while i < surfs.len()
            invariant
                k == key_of(*key),
                i <= surfs@.len(),
                start.len() == first,
                indices@.len() <= first + index_total(surfs@, i as int),
                indices@ =~= start + frame_part(surfs@, k, i as int),
                found == has_key(surfs@, k, i as int),
            decreases surfs.len() - i,
        {
            let s = &surfs[i];
            if same_ref(&s.texture_ref, key) {
                extend(&mut indices, &s.indices);
                found = true;
            }
            i = i + 1;
        }
        if found {
            ranges.push((first as u32, (indices.len() - first) as u32));
        } else {
            ranges.push((0, 0));
        }
        f = f + 1;
    }
    PerSurfaceFrames { texture_ref: copy_ref(key), concat_indices: indices, frame_ranges: ranges }
}

proof fn lemma_total_grows(frames: Seq<VoFrame>, a: int, b: int)
    requires
        0 <= a <= b,
    ensures
        frames_total(frames, a) <= frames_total(frames, b),
    decreases b - a,
{
    if a < b {
        lemma_total_grows(frames, a, b - 1);
    }
}

/// Put the triangles of all frames together, surface by surface. Surfaces go
/// by their texture, in order of first sight.
pub fn build_per_surface_frame_ranges(frames: &Vec<VoFrame>) -> (r: Vec<PerSurfaceFrames>)
    requires
        frames_total(frames@, frames@.len() as int) <= u32::MAX,
    ensures
        ({
            let keys = keys_of(frames@, frames@.len() as int);
            surface_views(r@) == kept_surfaces(frames@, keys, keys.len() as int)
        }),
{
    let refs = collect_refs(frames);
    let ghost keys = key_views(refs@);
    let mut r: Vec<PerSurfaceFrames> = Vec::new();
    let mut i: usize = 0;
    assert(surface_views(r@) =~= kept_surfaces(frames@, keys, 0));
    while i < refs.len()
        invariant
            frames_total(frames@, frames@.len() as int) <= u32::MAX,
            keys == key_views(refs@),
            i <= refs@.len(),
            surface_views(r@) == kept_surfaces(frames@, keys, i as int),
        decreases refs.len() - i,
    {
        let p = pack_surface(frames, &refs[i]);
        assert(keys[i as int] == key_of(refs@[i as int]));
        if p.concat_indices.len() > 0 {
            let ghost before = r@;
            r.push(p);
            assert(surface_views(r@) =~= surface_views(before).push(surface_view(p)));
        }
        i = i + 1;
    }
    r
}

/// Every texture of a model gets one surface, no matter in how many frames it
/// occurs.
pub proof fn law_keys_distinct(frames: Seq<VoFrame>, n: int)
    ensures
        keys_of(frames, n).no_duplicates(),
    decreases n,
{
    if n > 0 {
        law_keys_distinct(frames, n - 1);
        let s = frames[n - 1].surfaces@;
        lemma_keys_after_distinct(s, keys_of(frames, n - 1), s.len() as int);
    }
}

/// The range of a frame holds the frame's triangles and no others.
pub proof fn law_range_holds_frame(frames: Seq<VoFrame>, key: Option<Seq<char>>, f: int)
    requires
        0 <= f < frames.len(),
        frames_total(frames, frames.len() as int) <= u32::MAX,
    ensures
        ({
            let p = packed(frames, key);
            let (offset, count) = p.ranges[f];
            &&& offset + count <= p.indices.len()
            &&& p.indices.subrange(offset as int, offset + count) == of_frame(frames[f], key)
        }),
{
    let n = frames.len() as int;
    let s = frames[f].surfaces@;
    lemma_of_frames_prefix(frames, key, f + 1, n);
    lemma_of_frames_bound(frames, key, n);
    lemma_of_frames_prefix(frames, key, f, n);
    let all = of_frames(frames, key, n);
    let a = of_frames(frames, key, f);
    let part = of_frame(frames[f], key);
    if has_key(s, key, s.len() as int) {
        let end = (a.len() + part.len()) as int;
        assert(all.subrange(a.len() as int, end) =~= part) by {
            assert(all.take(end) =~= a + part);
            assert forall|i: int| 0 <= i < part.len() implies all[a.len() + i] == part[i] by {
                assert((a + part)[a.len() + i] == all.take(end)[a.len() + i]);
            }
        }
    } else {
        lemma_no_part(s, key, s.len() as int);
        assert(all.subrange(0, 0) =~= part);
    }
}

proof fn lemma_no_part(surfs: Seq<VoSurfaceMesh>, key: Option<Seq<char>>, n: int)
    requires
        0 <= n,
        !has_key(surfs, key, n),
    ensures
        frame_part(surfs, key, n).len() == 0,
    decreases n,
{
    if n > 0 {
        assert(!has_key(surfs, key, n - 1));
        assert(key_of(surfs[n - 1].texture_ref) != key);
        lemma_no_part(surfs, key, n - 1);
    }
}

/// What the first frames give comes first.
proof fn lemma_of_frames_prefix(frames: Seq<VoFrame>, key: Option<Seq<char>>, m: int, n: int)
    requires
        0 <= m <= n,
    ensures
        of_frames(frames, key, m).len() <= of_frames(frames, key, n).len(),
        of_frames(frames, key, n).take(of_frames(frames, key, m).len() as int) == of_frames(
            frames,
            key,
            m,
        ),
    decreases n - m,
{
    let a = of_frames(frames, key, m);
    let b = of_frames(frames, key, n);
    if m < n {
        lemma_of_frames_prefix(frames, key, m, n - 1);
        let c = of_frames(frames, key, n - 1);
        assert(b.take(a.len() as int) =~= c.take(a.len() as int));
    } else {
        assert(b.take(a.len() as int) =~= a);
    }
}

proof fn lemma_of_frames_bound(frames: Seq<VoFrame>, key: Option<Seq<char>>, n: int)
    requires
        0 <= n,
    ensures
        of_frames(frames, key, n).len() <= frames_total(frames, n),
    decreases n,
{
    if n > 0 {
        lemma_of_frames_bound(frames, key, n - 1);
        lemma_part_bound(frames[n - 1].surfaces@, key, frames[n - 1].surfaces@.len() as int);
    }
}

proof fn lemma_part_bound(surfs: Seq<VoSurfaceMesh>, key: Option<Seq<char>>, n: int)
    requires
        0 <= n,
    ensures
        frame_part(surfs, key, n).len() <= index_total(surfs, n),
    decreases n,
{
    if n > 0 {
        lemma_part_bound(surfs, key, n - 1);
    }
}

proof fn lemma_keys_after_distinct(
    surfs: Seq<VoSurfaceMesh>,
    seen: Seq<Option<Seq<char>>>,
    n: int,
)
    requires
        seen.no_duplicates(),
    ensures
        keys_after(surfs, seen, n).no_duplicates(),
    decreases n,
{
    if n > 0 {
        lemma_keys_after_distinct(surfs, seen, n - 1);
        let k = keys_after(surfs, seen, n - 1);
        let key = key_of(surfs[n - 1].texture_ref);
        if !k.contains(key) {
            let r = k.push(key);
            assert forall|a: int, b: int|
                0 <= a < r.len() && 0 <= b < r.len() && a != b implies r[a] != r[b] by {
                if a < k.len() {
                    assert(k.contains(k[a]));
                }
                if b < k.len() {
                    assert(k.contains(k[b]));
                }
            }
        }
    }
}

/// A step is shown until its time is over, and then the one after it for that
/// one's own time; a looped animation goes on with its first step.
pub proof fn law_next_step_in_time(d: Seq<int>, looped: bool, slot: int, next: int, now: int)
    requires
        can_run(d, looped),
        0 <= slot < d.len(),
        now <= i32::MAX,
    ensures
        now <= next ==> run(d, looped, slot, next, now) == (slot, next),
        slot + 1 < d.len() && next < now <= next + d[slot + 1] && next + d[slot + 1] <= i32::MAX
            ==> run(d, looped, slot, next, now) == (slot + 1, next + d[slot + 1]),
        slot + 1 == d.len() && looped && next < now <= next + d[0] && next + d[0] <= i32::MAX
            ==> run(d, looped, slot, next, now) == (0int, next + d[0]),
        slot + 1 < d.len() && next + d[slot + 1] < now ==> run(d, looped, slot, next, now) == run(
            d,
            looped,
            slot + 1,
            next + d[slot + 1],
            now,
        ),
{
    reveal_with_fuel(run, 2);
}

/// A step's time is what its frame says, whatever the sign.
pub proof fn law_step_times(f: Seq<VoAnimFrame>, i: int)
    requires
        0 <= i < f.len(),
    ensures
        durations(f).len() == f.len(),
        durations(f)[i] >= 0,
        durations(f)[i] == f[i].time_ms || durations(f)[i] == -f[i].time_ms,
{
}

/// A surface's triangles stand together among those of its texture in the
/// frame, behind the ones of the surfaces before it.
pub proof fn law_surface_is_found(surfs: Seq<VoSurfaceMesh>, i: int, n: int)
    requires
        0 <= i < n <= surfs.len(),
    ensures
        ({
            let key = key_of(surfs[i].texture_ref);
            let all = frame_part(surfs, key, n);
            let at = frame_part(surfs, key, i).len() as int;
            let v = surfs[i].indices@;
            &&& at + v.len() <= all.len()
            &&& all.subrange(at, (at + v.len()) as int) == v
            &&& all.take(at) == frame_part(surfs, key, i)
        }),
    decreases n,
{
    let key = key_of(surfs[i].texture_ref);
    let all = frame_part(surfs, key, n);
    let before = frame_part(surfs, key, i);
    let at = before.len() as int;
    let v = surfs[i].indices@;
    if i == n - 1 {
        assert(all == before + v);
        assert(all.subrange(at, (at + v.len()) as int) =~= v);
        assert(all.take(at) =~= before);
    } else {
        law_surface_is_found(surfs, i, n - 1);
        let was = frame_part(surfs, key, n - 1);
        assert(all.take(was.len() as int) =~= was);
        assert(all.subrange(at, (at + v.len()) as int) =~= was.subrange(at, (at + v.len()) as int));
        assert(all.take(at) =~= was.take(at));
    }
}

/// The triangles of a texture in a frame are those of the surfaces that have it
/// and no others.
pub proof fn law_no_triangle_too_many(surfs: Seq<VoSurfaceMesh>, key: Option<Seq<char>>, n: int)
    requires
        0 <= n <= surfs.len(),
    ensures
        (forall|i: int| 0 <= i < n ==> key_of((#[trigger] surfs[i]).texture_ref) != key)
            ==> frame_part(surfs, key, n).len() == 0,
        n > 0 && key_of(surfs[n - 1].texture_ref) != key ==> frame_part(surfs, key, n)
            == frame_part(surfs, key, n - 1),
        n > 0 && key_of(surfs[n - 1].texture_ref) == key ==> frame_part(surfs, key, n).len()
            == frame_part(surfs, key, n - 1).len() + surfs[n - 1].indices@.len(),
{
    if forall|i: int| 0 <= i < n ==> key_of((#[trigger] surfs[i]).texture_ref) != key {
        assert(!has_key(surfs, key, n));
        lemma_no_part(surfs, key, n);
    }
}

/// Every texture of every frame is among the textures.
pub proof fn law_every_texture_is_listed(frames: Seq<VoFrame>, n: int, f: int, i: int)
    requires
        0 <= f < n <= frames.len(),
        0 <= i < frames[f].surfaces@.len(),
    ensures
        keys_of(frames, n).contains(key_of(frames[f].surfaces@[i].texture_ref)),
    decreases n,
{
    let s = frames[n - 1].surfaces@;
    let seen = keys_of(frames, n - 1);
    let key = key_of(frames[f].surfaces@[i].texture_ref);
    if f < n - 1 {
        law_every_texture_is_listed(frames, n - 1, f, i);
    }
    lemma_keys_after_hold(s, seen, s.len() as int, key);
    if f == n - 1 {
        assert(key_of(s[i].texture_ref) == key);
    }
}

proof fn lemma_keys_after_hold(
    surfs: Seq<VoSurfaceMesh>,
    seen: Seq<Option<Seq<char>>>,
    n: int,
    key: Option<Seq<char>>,
)
    requires
        0 <= n <= surfs.len(),
    ensures
        seen.contains(key) ==> keys_after(surfs, seen, n).contains(key),
        (exists|i: int| 0 <= i < n && key_of((#[trigger] surfs[i]).texture_ref) == key)
            ==> keys_after(surfs, seen, n).contains(key),
    decreases n,
{
    if n > 0 {
        lemma_keys_after_hold(surfs, seen, n - 1, key);
        let k = keys_after(surfs, seen, n - 1);
        let last = key_of(surfs[n - 1].texture_ref);
        let p = k.push(last);
        if k.contains(key) {
            let j = choose|j: int| 0 <= j < k.len() && k[j] == key;
            assert(p[j] == key);
        }
        assert(p[k.len() as int] == last);
        if exists|i: int| 0 <= i < n && key_of((#[trigger] surfs[i]).texture_ref) == key {
            let i = choose|i: int| 0 <= i < n && key_of((#[trigger] surfs[i]).texture_ref) == key;
            if i < n - 1 {
                assert(k.contains(key));
            }
        }
    }
}

/// A texture is drawn if one of its frames has triangles for it; one without
/// any is left out, and the rest keep their order.
pub proof fn law_textures_with_triangles(
    frames: Seq<VoFrame>,
    keys: Seq<Option<Seq<char>>>,
    n: int,
)
    requires
        0 < n <= keys.len(),
    ensures
        ({
            let was = kept_surfaces(frames, keys, n - 1);
            let now = kept_surfaces(frames, keys, n);
            if of_frames(frames, keys[n - 1], frames.len() as int).len() == 0 {
                now == was
            } else {
                &&& now.len() == was.len() + 1
                &&& now.take(was.len() as int) == was
                &&& now.last().key == keys[n - 1]
                &&& now.last().indices == of_frames(frames, keys[n - 1], frames.len() as int)
                &&& now.last().ranges.len() == frames.len()
            }
        }),
{
    let was = kept_surfaces(frames, keys, n - 1);
    let now = kept_surfaces(frames, keys, n);
    if now.len() > was.len() {
        assert(now.take(was.len() as int) =~= was);
    }
}

/// The triangles of all frames are those of the first frame, the second and so
/// on.
pub proof fn law_frames_in_order(frames: Seq<VoFrame>, key: Option<Seq<char>>, n: int)
    requires
        0 <= n < frames.len(),
    ensures
        ({
            let was = of_frames(frames, key, n);
            let now = of_frames(frames, key, n + 1);
            &&& now.take(was.len() as int) == was
            &&& now.skip(was.len() as int) == of_frame(frames[n], key)
            &&& of_frames(frames, key, 0).len() == 0
        }),
{
    let was = of_frames(frames, key, n);
    let now = of_frames(frames, key, n + 1);
    assert(now == was + of_frame(frames[n], key));
    assert(now.take(was.len() as int) =~= was);
    assert(now.skip(was.len() as int) =~= of_frame(frames[n], key));
}

/// The frame that is shown is the one of the step that is due, and time goes on
/// by what has passed.
pub proof fn law_frame_of_step(s: AnimState, cms: i32)
    requires
        s.wf(),
        s.steps().len() > 0,
        i32::MIN <= s.time_ms + cms <= i32::MAX,
    ensures
        ({
            let t = s.after_takt(cms);
            let f = s.animations@[s.anim as int].frames@;
            &&& t.frame_slot < f.len()
            &&& t.vo_frame == f[t.frame_slot as int].frame_index
            &&& t.time_ms == s.time_ms + cms
            &&& t.anim == s.anim && t.looped == s.looped && t.animations == s.animations
            &&& s.time_ms + cms <= s.time_next ==> t.frame_slot == s.frame_slot && t.time_next
                == s.time_next && t.vo_frame == s.vo_frame
        }),
{
    law_run_stays_in_range(
        durations(s.steps()),
        s.looped,
        s.frame_slot as int,
        s.time_next as int,
        s.time_ms + cms,
    );
    assert(s.animations@[s.anim as int].frames.len() <= usize::MAX);
}

/// A step of an animation is shown for its time, and one that is not there for
/// none.
pub proof fn law_step_of_animation(s: AnimState, slot: int)
    ensures
        s.anim < s.animations@.len() && 0 <= slot < s.animations@[s.anim as int].frames@.len() ==> {
            let f = s.animations@[s.anim as int].frames@[slot];
            &&& s.step_frame(slot) == f.frame_index
            &&& s.step_time(slot) == f.time_ms || s.step_time(slot) == -f.time_ms
            &&& s.step_time(slot) >= 0
        },
        slot < 0 || slot >= s.steps().len() ==> s.step_frame(slot) == 0 && s.step_time(slot) == 0,
        s.anim >= s.animations@.len() ==> s.steps().len() == 0,
{
}

} // verus!
