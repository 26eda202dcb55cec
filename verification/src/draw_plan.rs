//! What is drawn in a frame, in which order, and what is drawn anew when the
//! light changes.
use crate::map::GameMap;
use crate::properties::same_text;
use crate::text::{joined, law_split_and_join, split, split_spec, views};
use vstd::prelude::*;

verus! {

// ── Light ───────────────────────────────────────────────────────────────
/// A colour with eight bits to a channel.
#[derive(Debug, Clone, Copy, PartialEq, Eq, Structural)]
pub struct Rgb {
    pub r: u8,
    pub g: u8,
    pub b: u8,
}

/// How much light is added to each channel, or taken.
#[derive(Debug, Clone, Copy, PartialEq, Eq, Structural)]
pub struct Lum {
    pub r: i32,
    pub g: i32,
    pub b: i32,
}

/// A point of the map.
#[derive(Debug, Clone, Copy, PartialEq, Eq, Structural)]
pub struct PointCoord {
    pub x: usize,
    pub y: usize,
}

/// The points whose light has changed; the ends count.
#[derive(Debug, Clone, Copy, PartialEq, Eq, Structural)]
pub struct LitRect {
    pub x0: i32,
    pub y0: i32,
    pub x1: i32,
    pub y1: i32,
}

/// A channel under light, held to its range.
pub open spec fn lit_channel_spec(c: u8, lum: i32) -> u8 {
    if c + lum < 0 {
        0
    } else if c + lum > 255 {
        255
    } else {
        (c + lum) as u8
    }
}

pub fn lit_channel(c: u8, lum: i32) -> (r: u8)
    ensures
        r == lit_channel_spec(c, lum),
{
    let v: i64 = c as i64 + lum as i64;
    if v < 0 {
        0
    } else if v > 255 {
        255
    } else {
        v as u8
    }
}

impl LitRect {
    pub open spec fn has(&self, p: PointCoord) -> bool {
        self.x0 <= p.x <= self.x1 && self.y0 <= p.y <= self.y1
    }
}

/// The colour of a point under light.
pub open spec fn lit_point(map: GameMap, p: PointCoord, lum: Lum) -> Rgb {
    let c = map.spec_point(p.x as int, p.y as int);
    Rgb {
        r: lit_channel_spec(c.r, lum.r),
        g: lit_channel_spec(c.g, lum.g),
        b: lit_channel_spec(c.b, lum.b),
    }
}

/// The first and the last of the points in a rectangle.
pub open spec fn is_lit_span(ps: Seq<PointCoord>, rect: LitRect, n: int, r: Option<(usize, usize)>) -> bool {
    match r {
        Some(s) => {
            &&& s.0 <= s.1 < n
            &&& rect.has(ps[s.0 as int])
            &&& rect.has(ps[s.1 as int])
            &&& forall|i: int| 0 <= i < n && rect.has(#[trigger] ps[i]) ==> s.0 <= i <= s.1
        },
        None => forall|i: int| 0 <= i < n ==> !rect.has(#[trigger] ps[i]),
    }
}

/// Colour the vertices anew whose points lie where the light has changed. The
/// first and the last of them are returned: only what lies between is sent on.
pub fn relight(
    map: &GameMap,
    ps: &Vec<PointCoord>,
    lums: &Vec<Lum>,
    rect: LitRect,
    colors: &mut Vec<Rgb>,
) -> (r: Option<(usize, usize)>)
    requires
        map.wf(),
        forall|i: int|
            0 <= i < ps@.len() ==> (#[trigger] ps@[i]).x <= map.size_x && ps@[i].y <= map.size_y,
        lums@.len() == ps@.len(),
        old(colors)@.len() == ps@.len(),
    ensures
        final(colors)@.len() == ps@.len(),
        forall|i: int|
            0 <= i < ps@.len() ==> #[trigger] final(colors)@[i] == if rect.has(ps@[i]) {
                lit_point(*map, ps@[i], lums@[i])
            } else {
                old(colors)@[i]
            },
        is_lit_span(ps@, rect, ps@.len() as int, r),
{
    let mut r: Option<(usize, usize)> = None;
    let ghost before = colors@;
    let mut i: usize = 0;
    while i < ps.len()
        invariant
            map.wf(),
            forall|i: int|
                0 <= i < ps@.len() ==> (#[trigger] ps@[i]).x <= map.size_x && ps@[i].y
                    <= map.size_y,
            lums@.len() == ps@.len(),
            before.len() == ps@.len(),
            colors@.len() == ps@.len(),
            i <= ps@.len(),
            forall|k: int|
                0 <= k < i ==> #[trigger] colors@[k] == if rect.has(ps@[k]) {
                    lit_point(*map, ps@[k], lums@[k])
                } else {
                    before[k]
                },
            forall|k: int| i <= k < ps@.len() ==> #[trigger] colors@[k] == before[k],
            is_lit_span(ps@, rect, i as int, r),
        decreases ps.len() - i,
    {
        let p = ps[i];
        let x = p.x as i64;
        let y = p.y as i64;
        if x >= rect.x0 as i64 && x <= rect.x1 as i64 && y >= rect.y0 as i64 && y
            <= rect.y1 as i64 {
            let c = map.point(p.x, p.y);
            let lum = lums[i];
            colors.set(
                i,
                Rgb {
                    r: lit_channel(c.r, lum.r),
                    g: lit_channel(c.g, lum.g),
                    b: lit_channel(c.b, lum.b),
                },
            );
            r = match r {
                Some((lo, _)) => Some((lo, i)),
                None => Some((i, i)),
            };
        }
        i = i + 1;
    }
    r
}


// ── Visibility ──────────────────────────────────────────────────────────
/// A surface is seen when one of its groups is; one that belongs to no group
/// always is.
pub open spec fn overlay_visible_spec(groups: Seq<u32>, visible: Seq<bool>) -> bool {
    groups.len() == 0 || exists|i: int|
        0 <= i < groups.len() && (#[trigger] groups[i]) < visible.len() && visible[groups[i] as int]
}

pub fn overlay_visible(groups: &Vec<u32>, visible: &Vec<bool>) -> (b: bool)
    ensures
        b == overlay_visible_spec(groups@, visible@),
{
    if groups.len() == 0 {
        return true;
    }
    let mut i: usize = 0;
    while i < groups.len()
        invariant
            i <= groups@.len(),
            forall|k: int|
                0 <= k < i ==> !((#[trigger] groups@[k]) < visible@.len()
                    && visible@[groups@[k] as int]),
        decreases groups.len() - i,
    {
        let g = groups[i];
        if (g as u64) < visible.len() as u64 && visible[g as usize] {
            return true;
        }
        i = i + 1;
    }
    false
}

// ── Stages of a frame ───────────────────────────────────────────────────
/// A name stands in a list with commas between.
pub open spec fn is_listed(list: Seq<char>, name: Seq<char>) -> bool {
    split_spec(list, ',').contains(name)
}

/// Is the stage to be skipped?
pub fn skipped(list: &str, name: &str) -> (b: bool)
    ensures
        b == is_listed(list@, name@),
{
    let parts = split(list, ',');
    let ghost all = split_spec(list@, ',');
    let mut i: usize = 0;
    while i < parts.len()
        invariant
            all == split_spec(list@, ','),
            views(parts@) == all,
            i <= parts@.len(),
            forall|k: int| 0 <= k < i ==> (#[trigger] all[k]) != name@,
        decreases parts.len() - i,
    {
        assert(views(parts@)[i as int] == parts@[i as int]@);
        if same_text(parts[i], name) {
            assert(all[i as int] == name@);
            return true;
        }
        i = i + 1;
    }
    assert(!all.contains(name@)) by {
        if all.contains(name@) {
            let k = all.index_of(name@);
            assert(all[k] == name@);
            assert(views(parts@).len() == parts@.len());
        }
    }
    false
}

/// A stage of drawing a frame.
#[derive(Debug, Clone, Copy, PartialEq, Eq, Structural)]
pub enum Stage {
    Sky,
    Bottom,
    DepthOnly,
    Overlays,
    Gloss,
    Objects,
    Robots,
    Buildings,
    Cannons,
    SlotMarkers,
    PointLights,
    Water,
    Shadows,
}

/// What there is to draw.
#[derive(Debug, Clone, Copy, PartialEq, Eq, Structural)]
pub struct Present {
    pub depth_only: bool,
    pub overlays: bool,
    pub gloss: bool,
    pub objects: bool,
    pub robots: bool,
    pub buildings: bool,
    pub cannons: bool,
    pub slot_markers: bool,
    pub water: bool,
}

/// The stage, if it is to be drawn.
pub open spec fn stage_if(b: bool, s: Stage) -> Seq<Stage> {
    if b {
        seq![s]
    } else {
        Seq::empty()
    }
}

/// The stages of a frame, in order. Sky, holes, markers and lights cannot be
/// skipped; the others can be, by name.
pub open spec fn frame_stages(skip: Seq<char>, p: Present) -> Seq<Stage> {
    seq![Stage::Sky] + stage_if(!is_listed(skip, "bottom"@), Stage::Bottom) + stage_if(
        p.depth_only,
        Stage::DepthOnly,
    ) + stage_if(p.overlays && !is_listed(skip, "overlays"@), Stage::Overlays) + stage_if(
        p.gloss && !is_listed(skip, "gloss"@),
        Stage::Gloss,
    ) + stage_if(p.objects && !is_listed(skip, "objects"@), Stage::Objects) + stage_if(
        p.robots && !is_listed(skip, "robots"@),
        Stage::Robots,
    ) + stage_if(p.buildings && !is_listed(skip, "buildings"@), Stage::Buildings) + stage_if(
        p.cannons && !is_listed(skip, "cannons"@),
        Stage::Cannons,
    ) + stage_if(p.slot_markers, Stage::SlotMarkers) + seq![Stage::PointLights] + stage_if(
        p.water && !is_listed(skip, "water"@),
        Stage::Water,
    ) + stage_if(!is_listed(skip, "shadows"@), Stage::Shadows)
}

fn push_if(v: &mut Vec<Stage>, b: bool, s: Stage)
    ensures
        final(v)@ == old(v)@ + stage_if(b, s),
{
    if b {
        v.push(s);
        assert(v@ =~= old(v)@ + stage_if(b, s));
    } else {
        assert(v@ =~= old(v)@ + stage_if(b, s));
    }
}

/// The stages of a frame. `skip` lists the stages to be skipped.
pub fn render_stages(skip: &str, p: Present) -> (v: Vec<Stage>)
    ensures
        v@ == frame_stages(skip@, p),
{
    let mut v: Vec<Stage> = Vec::new();
    v.push(Stage::Sky);
    assert(v@ =~= seq![Stage::Sky]);
    push_if(&mut v, !skipped(skip, "bottom"), Stage::Bottom);
    push_if(&mut v, p.depth_only, Stage::DepthOnly);
    push_if(&mut v, p.overlays && !skipped(skip, "overlays"), Stage::Overlays);
    push_if(&mut v, p.gloss && !skipped(skip, "gloss"), Stage::Gloss);
    push_if(&mut v, p.objects && !skipped(skip, "objects"), Stage::Objects);
    push_if(&mut v, p.robots && !skipped(skip, "robots"), Stage::Robots);
    push_if(&mut v, p.buildings && !skipped(skip, "buildings"), Stage::Buildings);
    push_if(&mut v, p.cannons && !skipped(skip, "cannons"), Stage::Cannons);
    push_if(&mut v, p.slot_markers, Stage::SlotMarkers);
    let ghost before = v@;
    v.push(Stage::PointLights);
    assert(v@ =~= before + seq![Stage::PointLights]);
    push_if(&mut v, p.water && !skipped(skip, "water"), Stage::Water);
    push_if(&mut v, !skipped(skip, "shadows"), Stage::Shadows);
    v
}

/// The stages of the picture of the whole map: the land and the water only.
pub fn minimap_stages(p: Present) -> (v: Vec<Stage>)
    ensures
        v@ == seq![Stage::Bottom] + stage_if(p.depth_only, Stage::DepthOnly) + stage_if(
            p.overlays,
            Stage::Overlays,
        ) + stage_if(p.gloss, Stage::Gloss) + stage_if(p.water, Stage::Water),
        in_order(v@, |s: Stage| on_minimap(s, p)),
{
    let mut v: Vec<Stage> = Vec::new();
    v.push(Stage::Bottom);
    assert(v@ =~= seq![Stage::Bottom]);
    push_if(&mut v, p.depth_only, Stage::DepthOnly);
    push_if(&mut v, p.overlays, Stage::Overlays);
    push_if(&mut v, p.gloss, Stage::Gloss);
    push_if(&mut v, p.water, Stage::Water);
    proof {
        let wanted = |s: Stage| on_minimap(s, p);
        let s0 = seq![Stage::Bottom];
        assert(s0[0] == Stage::Bottom);
        lemma_next_stage(s0, wanted, Stage::DepthOnly, p.depth_only);
        let s1 = s0 + stage_if(p.depth_only, Stage::DepthOnly);
        lemma_next_stage(s1, wanted, Stage::Overlays, p.overlays);
        let s2 = s1 + stage_if(p.overlays, Stage::Overlays);
        lemma_next_stage(s2, wanted, Stage::Gloss, p.gloss);
        let s3 = s2 + stage_if(p.gloss, Stage::Gloss);
        lemma_next_stage(s3, wanted, Stage::Objects, false);
        lemma_next_stage(s3, wanted, Stage::Robots, false);
        lemma_next_stage(s3, wanted, Stage::Buildings, false);
        lemma_next_stage(s3, wanted, Stage::Cannons, false);
        lemma_next_stage(s3, wanted, Stage::SlotMarkers, false);
        lemma_next_stage(s3, wanted, Stage::PointLights, false);
        lemma_next_stage(s3, wanted, Stage::Water, p.water);
        let s4 = s3 + stage_if(p.water, Stage::Water);
        lemma_next_stage(s4, wanted, Stage::Shadows, false);
        assert(v@ == s4);
        assert(s4 + stage_if(false, Stage::Shadows) =~= s4);
        assert(s3 + stage_if(false, Stage::Objects) =~= s3);
        lemma_all_stages(s4, wanted);
    }
    v
}

// ── Laws ────────────────────────────────────────────────────────────────
/// The place of a stage in a frame: far things before near ones, solid things
/// before water, shadows last.
pub open spec fn place(s: Stage) -> int {
    match s {
        Stage::Sky => 0,
        Stage::Bottom => 1,
        Stage::DepthOnly => 2,
        Stage::Overlays => 3,
        Stage::Gloss => 4,
        Stage::Objects => 5,
        Stage::Robots => 6,
        Stage::Buildings => 7,
        Stage::Cannons => 8,
        Stage::SlotMarkers => 9,
        Stage::PointLights => 10,
        Stage::Water => 11,
        Stage::Shadows => 12,
    }
}

/// A stage belongs to the minimap's frame.
pub open spec fn on_minimap(s: Stage, p: Present) -> bool {
    match s {
        Stage::Bottom => true,
        Stage::DepthOnly => p.depth_only,
        Stage::Overlays => p.overlays,
        Stage::Gloss => p.gloss,
        Stage::Water => p.water,
        _ => false,
    }
}

/// A stage belongs to a frame: what it draws is there and its name is not on
/// the list of stages to leave out.
pub open spec fn in_frame(s: Stage, skip: Seq<char>, p: Present) -> bool {
    match s {
        Stage::Sky => true,
        Stage::Bottom => !is_listed(skip, "bottom"@),
        Stage::DepthOnly => p.depth_only,
        Stage::Overlays => p.overlays && !is_listed(skip, "overlays"@),
        Stage::Gloss => p.gloss && !is_listed(skip, "gloss"@),
        Stage::Objects => p.objects && !is_listed(skip, "objects"@),
        Stage::Robots => p.robots && !is_listed(skip, "robots"@),
        Stage::Buildings => p.buildings && !is_listed(skip, "buildings"@),
        Stage::Cannons => p.cannons && !is_listed(skip, "cannons"@),
        Stage::SlotMarkers => p.slot_markers,
        Stage::PointLights => true,
        Stage::Water => p.water && !is_listed(skip, "water"@),
        Stage::Shadows => !is_listed(skip, "shadows"@),
    }
}

/// The stages are the wanted ones, each once, in their order.
pub open spec fn in_order(v: Seq<Stage>, wanted: spec_fn(Stage) -> bool) -> bool {
    &&& forall|i: int, j: int|
        0 <= i < j < v.len() ==> place(#[trigger] v[i]) < place(#[trigger] v[j])
    &&& forall|s: Stage| #[trigger] v.contains(s) <==> wanted(s)
}

spec fn in_order_upto(v: Seq<Stage>, wanted: spec_fn(Stage) -> bool, n: int) -> bool {
    &&& forall|i: int, j: int|
        0 <= i < j < v.len() ==> place(#[trigger] v[i]) < place(#[trigger] v[j])
    &&& forall|i: int| 0 <= i < v.len() ==> place(#[trigger] v[i]) <= n && wanted(v[i])
    &&& forall|s: Stage| place(s) <= n && #[trigger] wanted(s) ==> v.contains(s)
}

proof fn lemma_next_stage(v: Seq<Stage>, wanted: spec_fn(Stage) -> bool, s: Stage, b: bool)
    requires
        in_order_upto(v, wanted, place(s) - 1),
        b == wanted(s),
    ensures
        in_order_upto(v + stage_if(b, s), wanted, place(s)),
{
    let w = v + stage_if(b, s);
    assert forall|t: Stage| place(t) <= place(s) && #[trigger] wanted(t) implies w.contains(t) by {
        if place(t) == place(s) {
            assert(t == s);
            assert(w[v.len() as int] == t);
        } else {
            assert(v.contains(t));
            let i = choose|i: int| 0 <= i < v.len() && v[i] == t;
            assert(w[i] == t);
        }
    }
    assert forall|i: int| 0 <= i < w.len() implies place(#[trigger] w[i]) <= place(s) && wanted(
        w[i],
    ) by {
        if i < v.len() {
            assert(w[i] == v[i]);
        }
    }
    assert forall|i: int, j: int| 0 <= i < j < w.len() implies place(#[trigger] w[i]) < place(
        #[trigger] w[j],
    ) by {
        assert(w[i] == v[i]);
        if j < v.len() {
            assert(w[j] == v[j]);
        }
    }
}

proof fn lemma_all_stages(v: Seq<Stage>, wanted: spec_fn(Stage) -> bool)
    requires
        in_order_upto(v, wanted, 12),
    ensures
        in_order(v, wanted),
{
    assert forall|s: Stage| #[trigger] v.contains(s) <==> wanted(s) by {
        assert(place(s) <= 12);
        if v.contains(s) {
            let i = choose|i: int| 0 <= i < v.len() && v[i] == s;
            assert(wanted(v[i]));
        }
    }
}

/// A frame draws just the stages that are there and not left out, each once and
/// in their order.
pub proof fn law_frame_in_order(skip: Seq<char>, p: Present)
    ensures
        in_order(frame_stages(skip, p), |s: Stage| in_frame(s, skip, p)),
{
    let wanted = |s: Stage| in_frame(s, skip, p);
    let s0 = seq![Stage::Sky];
    assert(s0[0] == Stage::Sky);
    let b1 = !is_listed(skip, "bottom"@);
    lemma_next_stage(s0, wanted, Stage::Bottom, b1);
    let s1 = s0 + stage_if(b1, Stage::Bottom);
    lemma_next_stage(s1, wanted, Stage::DepthOnly, p.depth_only);
    let s2 = s1 + stage_if(p.depth_only, Stage::DepthOnly);
    let b3 = p.overlays && !is_listed(skip, "overlays"@);
    lemma_next_stage(s2, wanted, Stage::Overlays, b3);
    let s3 = s2 + stage_if(b3, Stage::Overlays);
    let b4 = p.gloss && !is_listed(skip, "gloss"@);
    lemma_next_stage(s3, wanted, Stage::Gloss, b4);
    let s4 = s3 + stage_if(b4, Stage::Gloss);
    let b5 = p.objects && !is_listed(skip, "objects"@);
    lemma_next_stage(s4, wanted, Stage::Objects, b5);
    let s5 = s4 + stage_if(b5, Stage::Objects);
    let b6 = p.robots && !is_listed(skip, "robots"@);
    lemma_next_stage(s5, wanted, Stage::Robots, b6);
    let s6 = s5 + stage_if(b6, Stage::Robots);
    let b7 = p.buildings && !is_listed(skip, "buildings"@);
    lemma_next_stage(s6, wanted, Stage::Buildings, b7);
    let s7 = s6 + stage_if(b7, Stage::Buildings);
    let b8 = p.cannons && !is_listed(skip, "cannons"@);
    lemma_next_stage(s7, wanted, Stage::Cannons, b8);
    let s8 = s7 + stage_if(b8, Stage::Cannons);
    lemma_next_stage(s8, wanted, Stage::SlotMarkers, p.slot_markers);
    let s9 = s8 + stage_if(p.slot_markers, Stage::SlotMarkers);
    lemma_next_stage(s9, wanted, Stage::PointLights, true);
    let s10 = s9 + seq![Stage::PointLights];
    let b11 = p.water && !is_listed(skip, "water"@);
    lemma_next_stage(s10, wanted, Stage::Water, b11);
    let s11 = s10 + stage_if(b11, Stage::Water);
    let b12 = !is_listed(skip, "shadows"@);
    lemma_next_stage(s11, wanted, Stage::Shadows, b12);
    let s12 = s11 + stage_if(b12, Stage::Shadows);
    assert(frame_stages(skip, p) == s12);
    lemma_all_stages(s12, wanted);
}

/// A lit channel is the channel value nearest to the colour with the light on
/// it; without light the colour stays.
pub proof fn law_light_is_nearest(c: u8, lum: i32, v: u8)
    ensures
        (lit_channel_spec(c, lum) - (c + lum)) * (lit_channel_spec(c, lum) - (c + lum)) <= (v - (c
            + lum)) * (v - (c + lum)),
        lit_channel_spec(c, 0) == c,
{
    let d = lit_channel_spec(c, lum) - (c + lum);
    let e = v - (c + lum);
    if d != 0 {
        assert(0 <= d <= e || e <= d <= 0);
        assert(d * d <= e * e) by (nonlinear_arith)
            requires
                0 <= d <= e || e <= d <= 0,
        ;
    } else {
        assert(e * e >= 0) by (nonlinear_arith);
    }
}

/// Light without a channel leaves that channel of a point as the map has it.
pub proof fn law_each_channel_its_light(map: GameMap, p: PointCoord, lum: Lum)
    ensures
        ({
            let c = map.spec_point(p.x as int, p.y as int);
            let l = lit_point(map, p, lum);
            &&& lum.r == 0 ==> l.r == c.r
            &&& lum.g == 0 ==> l.g == c.g
            &&& lum.b == 0 ==> l.b == c.b
            &&& 0 <= c.r + lum.r <= 255 ==> l.r - c.r == lum.r
            &&& 0 <= c.g + lum.g <= 255 ==> l.g - c.g == lum.g
            &&& 0 <= c.b + lum.b <= 255 ==> l.b - c.b == lum.b
        }),
{
}

/// The points drawn anew are counted from the first in the rectangle to the
/// last, borders included.
pub proof fn law_lit_span(ps: Seq<PointCoord>, rect: LitRect, r: Option<(usize, usize)>, i: int)
    requires
        is_lit_span(ps, rect, ps.len() as int, r),
        0 <= i < ps.len(),
        rect.x0 <= ps[i].x <= rect.x1,
        rect.y0 <= ps[i].y <= rect.y1,
    ensures
        r is Some,
        (r->0).0 <= i <= (r->0).1,
        (r->0).1 < ps.len(),
        rect.x0 <= ps[(r->0).0 as int].x <= rect.x1,
        rect.y0 <= ps[(r->0).0 as int].y <= rect.y1,
        rect.x0 <= ps[(r->0).1 as int].x <= rect.x1,
        rect.y0 <= ps[(r->0).1 as int].y <= rect.y1,
{
    assert(rect.has(ps[i]));
}

/// Where no point lies in the rectangle, nothing is drawn anew.
pub proof fn law_no_lit_span(ps: Seq<PointCoord>, rect: LitRect, r: Option<(usize, usize)>)
    requires
        is_lit_span(ps, rect, ps.len() as int, r),
        forall|i: int|
            0 <= i < ps.len() ==> (#[trigger] ps[i]).x < rect.x0 || ps[i].x > rect.x1 || ps[i].y
                < rect.y0 || ps[i].y > rect.y1,
    ensures
        r is None,
{
}

/// An overlay shows where one of its groups does, and one that names no group
/// always.
pub proof fn law_overlay_shows(groups: Seq<u32>, visible: Seq<bool>, i: int)
    ensures
        groups.len() == 0 ==> overlay_visible_spec(groups, visible),
        0 <= i < groups.len() && groups[i] < visible.len() && visible[groups[i] as int]
            ==> overlay_visible_spec(groups, visible),
        groups.len() > 0 && (forall|k: int| 0 <= k < visible.len() ==> !#[trigger] visible[k])
            ==> !overlay_visible_spec(groups, visible),
        groups.len() > 0 && (forall|k: int|
            0 <= k < groups.len() ==> (#[trigger] groups[k]) >= visible.len())
            ==> !overlay_visible_spec(groups, visible),
{
}

/// A name is on a list if it is one of the list's parts between commas: joined
/// again, they give the list back.
pub proof fn law_listed_between_commas(list: Seq<char>, name: Seq<char>)
    ensures
        is_listed(list, name) <==> exists|i: int|
            0 <= i < split_spec(list, ',').len() && split_spec(list, ',')[i] == name,
        joined(split_spec(list, ','), ',') == list,
{
    law_split_and_join(list, ',');
}

} // verus!
