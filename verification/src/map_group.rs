//! The terrain groups of a map: squares of cells whose triangles are stored
//! together.
//!
//! The triangles of all groups are merged by texture, so that each texture is
//! drawn once. Groups that reach below the sea get an image of how deep the
//! water is.
use crate::bytes::{get_u16, get_u32, u16_at, u32_at};
use crate::common::{CELLFLAG_BRIDGE, CELLFLAG_DOWN, MAP_GROUP_SIZE};
use crate::float_bits;
use crate::map::{lemma_cell_index, GameMap};
use crate::map_trace::CellCorners;
use crate::terrain_fill::point_corners;
use vstd::prelude::*;

verus! {

// ── Group data ──────────────────────────────────────────────────────────
/// The triangles of a group that share a texture.
#[derive(Debug)]
pub struct GroupGeom {
    pub texture: u32,
    /// Vertex numbers of the group, three for each triangle.
    pub indices: Vec<u16>,
}

/// A vertex of a group: its map point, and its place in the texture.
#[derive(Debug, Clone, Copy, PartialEq, Eq, Structural)]
pub struct GroupVertex {
    pub x: u16,
    pub y: u16,
    pub tx: u16,
    pub ty: u16,
}

/// The contents of a group.
#[derive(Debug)]
pub struct GroupData {
    pub gx: u16,
    pub gy: u16,
    pub geoms: Vec<GroupGeom>,
    pub vertices: Vec<GroupVertex>,
}

/// What a set of triangles holds.
pub struct GeomView {
    pub texture: u32,
    pub indices: Seq<u16>,
}

impl View for GroupGeom {
    type V = GeomView;

    open spec fn view(&self) -> GeomView {
        GeomView { texture: self.texture, indices: self.indices@ }
    }
}

pub open spec fn geom_views(g: Seq<GroupGeom>) -> Seq<GeomView> {
    Seq::new(g.len(), |i: int| g[i]@)
}

/// The lesser of two numbers.
pub open spec fn least(a: int, b: int) -> int {
    if a < b {
        a
    } else {
        b
    }
}

/// How many two-byte numbers a set of triangles at `off` has: as many as it
/// says, but not more than the data holds.
pub open spec fn index_count(raw: Seq<u8>, off: int) -> int {
    least(u32_at(raw, off + 4) as int / 2, (raw.len() - (off + 8)) / 2)
}

/// The set of triangles at `off`: texture, size in bytes, vertex numbers.
pub open spec fn geom_at(raw: Seq<u8>, off: int) -> GeomView {
    GeomView {
        texture: u32_at(raw, off),
        indices: Seq::new(
            index_count(raw, off) as nat,
            |i: int| u16_at(raw, off + 8 + 2 * i),
        ),
    }
}

/// Where the `k`th set of triangles starts.
pub open spec fn geom_offset(raw: Seq<u8>, k: int) -> int
    decreases k,
{
    if k <= 0 {
        8
    } else {
        let off = geom_offset(raw, k - 1);
        off + 8 + 2 * index_count(raw, off)
    }
}

/// The first `n` sets of triangles are all there, up to their headers.
pub open spec fn has_geoms(raw: Seq<u8>, n: int) -> bool {
    forall|k: int| 0 <= k < n ==> #[trigger] geom_offset(raw, k) + 8 <= raw.len()
}

/// How many sets of triangles a group has: as many as it says, or fewer where
/// the data ends.
pub open spec fn is_geom_count(raw: Seq<u8>, n: int) -> bool {
    &&& 0 <= n <= u32_at(raw, 4)
    &&& has_geoms(raw, n)
    &&& n < u32_at(raw, 4) ==> geom_offset(raw, n) + 8 > raw.len()
}

pub open spec fn geom_seq(raw: Seq<u8>, n: int) -> Seq<GeomView> {
    Seq::new(n as nat, |k: int| geom_at(raw, geom_offset(raw, k)))
}

pub open spec fn vertex_at(raw: Seq<u8>, off: int) -> GroupVertex {
    GroupVertex {
        x: u16_at(raw, off),
        y: u16_at(raw, off + 2),
        tx: u16_at(raw, off + 4),
        ty: u16_at(raw, off + 6),
    }
}

/// The vertices behind the size at `off`, as far as the data holds them.
pub open spec fn vertex_seq(raw: Seq<u8>, off: int) -> Seq<GroupVertex> {
    Seq::new(
        least(u32_at(raw, off) as int / 8, (raw.len() - (off + 4)) / 8) as nat,
        |i: int| vertex_at(raw, off + 4 + 8 * i),
    )
}

/// What a group holds.
pub struct GroupView {
    pub gx: u16,
    pub gy: u16,
    pub geoms: Seq<GeomView>,
    pub vertices: Seq<GroupVertex>,
}

impl View for GroupData {
    type V = GroupView;

    open spec fn view(&self) -> GroupView {
        GroupView {
            gx: self.gx,
            gy: self.gy,
            geoms: geom_views(self.geoms@),
            vertices: self.vertices@,
        }
    }
}

/// How many sets of triangles the data of a group holds.
pub open spec fn geom_count(raw: Seq<u8>) -> int {
    choose|n: int| is_geom_count(raw, n)
}

/// The group in the data: its position, its sets of triangles, its vertices.
/// None in data that is too short for a position or ends before the vertices.
pub open spec fn group_of(raw: Seq<u8>) -> Option<GroupView> {
    let n = geom_count(raw);
    if raw.len() < 4 || geom_offset(raw, n) + 4 > raw.len() {
        None
    } else {
        Some(
            GroupView {
                gx: u16_at(raw, 0),
                gy: u16_at(raw, 2),
                geoms: geom_seq(raw, n),
                vertices: vertex_seq(raw, geom_offset(raw, n)),
            },
        )
    }
}

/// The number of sets of triangles is fixed by the data.
pub proof fn law_geom_count_unique(raw: Seq<u8>, m: int, n: int)
    requires
        is_geom_count(raw, m),
        is_geom_count(raw, n),
    ensures
        m == n,
{
    if m < n {
        assert(geom_offset(raw, m) + 8 <= raw.len());
    }
    if n < m {
        assert(geom_offset(raw, n) + 8 <= raw.len());
    }
}

fn read_indices(raw: &[u8], off: usize, bytes: u32) -> (r: (Vec<u16>, usize))
    requires
        8 <= off <= raw@.len(),
        bytes == u32_at(raw@, off - 4),
    ensures
        r.0@ == Seq::new(
            index_count(raw@, off - 8) as nat,
            |i: int| u16_at(raw@, off + 2 * i),
        ),
        r.1 == off + 2 * index_count(raw@, off - 8),
        r.1 <= raw@.len(),
{
    let len = raw.len();
    let count: u32 = bytes / 2;
    let mut v: Vec<u16> = Vec::new();
    let mut at: usize = off;
    let ghost goal = Seq::new(
        index_count(raw@, off - 8) as nat,
        |i: int| u16_at(raw@, off + 2 * i),
    );
    let mut i: u32 = 0;
    while i < count && len - at >= 2
        invariant
            len == raw@.len(),
            off <= at <= len,
            count == bytes / 2,
            bytes == u32_at(raw@, off - 4),
            i <= count,
            at == off + 2 * i,
            goal == Seq::new(
                index_count(raw@, off - 8) as nat,
                |i: int| u16_at(raw@, off + 2 * i),
            ),
            i <= goal.len(),
            v@ =~= goal.take(i as int),
        decreases count - i,
    {
        v.push(get_u16(raw, at));
        at = at + 2;
        i = i + 1;
    }
    assert(v@ =~= goal);
    (v, at)
}

fn read_vertices(raw: &[u8], off: usize) -> (v: Vec<GroupVertex>)
    requires
        off + 4 <= raw@.len(),
    ensures
        v@ == vertex_seq(raw@, off as int),
{
    let len = raw.len();
    let count: u32 = get_u32(raw, off) / 8;
    let mut v: Vec<GroupVertex> = Vec::new();
    let mut at: usize = off + 4;
    let ghost goal = vertex_seq(raw@, off as int);
    let mut i: u32 = 0;
    while i < count && len - at >= 8
        invariant
            len == raw@.len(),
            off + 4 <= at <= len,
            count == u32_at(raw@, off as int) / 8,
            i <= count,
            at == off + 4 + 8 * i,
            goal == vertex_seq(raw@, off as int),
            i <= goal.len(),
            v@ =~= goal.take(i as int),
        decreases count - i,
    {
        v.push(
            GroupVertex {
                x: get_u16(raw, at),
                y: get_u16(raw, at + 2),
                tx: get_u16(raw, at + 4),
                ty: get_u16(raw, at + 6),
            },
        );
        at = at + 8;
        i = i + 1;
    }
    assert(v@ =~= goal);
    v
}

/// Read the data of a group.
pub fn parse_group(raw: &[u8]) -> (r: Option<GroupData>)
    requires
        raw@.len() < 4 || raw@.len() >= 8,
    ensures
        match r {
            Some(g) => group_of(raw@) == Some(g@),
            None => group_of(raw@) is None,
        },
{
    let len = raw.len();
    if len < 4 {
        return None;
    }
    let gx = get_u16(raw, 0);
    let gy = get_u16(raw, 2);
    let count: u32 = get_u32(raw, 4);
    let mut geoms: Vec<GroupGeom> = Vec::new();
    let mut off: usize = 8;
    let mut k: u32 = 0;
    while k < count && len - off >= 8
        invariant
            len == raw@.len(),
            8 <= off <= len,
            count == u32_at(raw@, 4),
            k <= count,
            off == geom_offset(raw@, k as int),
            has_geoms(raw@, k as int),
            geom_views(geoms@) =~= geom_seq(raw@, k as int),
        decreases count - k,
    {
        let texture = get_u32(raw, off);
        let bytes = get_u32(raw, off + 4);
        let (indices, next) = read_indices(raw, off + 8, bytes);
        let ghost before = geoms@;
        geoms.push(GroupGeom { texture, indices });
        proof {
            assert(geom_views(geoms@) =~= geom_views(before).push(geom_at(raw@, off as int))) by {
                assert(geoms@.last()@.indices =~= geom_at(raw@, off as int).indices);
            }
        }
        off = next;
        k = k + 1;
    }
    proof {
        assert(is_geom_count(raw@, k as int));
        law_geom_count_unique(raw@, k as int, geom_count(raw@));
    }
    if len - off < 4 {
        return None;
    }
    let vertices = read_vertices(raw, off);
    Some(GroupData { gx, gy, geoms, vertices })
}

// ── Merging by texture ──────────────────────────────────────────────────
/// A vertex of the merged terrain: its map point, its place in the texture,
/// and whether it is sunk in below the surface.
#[derive(Debug, Clone, Copy, PartialEq, Eq, Structural)]
pub struct BottomVertex {
    pub x: u16,
    pub y: u16,
    pub tx: u16,
    pub ty: u16,
    pub down: bool,
}

/// All triangles of a texture.
#[derive(Debug)]
pub struct BottomBatch {
    pub texture: u32,
    pub vertices: Vec<BottomVertex>,
    pub indices: Vec<u32>,
}

impl GameMap {
    pub open spec fn is_down_point(&self, x: int, y: int) -> bool {
        self.spec_point(x, y).flags & CELLFLAG_DOWN != 0
    }

    /// A point with sunken points on all four sides of the cells that meet in
    /// it; never one on the rim of the map.
    pub open spec fn is_sunk(&self, x: int, y: int) -> bool {
        1 <= x < self.size_x && 1 <= y < self.size_y && self.is_down_point(x, y)
            && self.is_down_point(x - 1, y) && self.is_down_point(x - 1, y - 1)
            && self.is_down_point(x, y - 1)
    }

    /// Is the vertex at this point to be sunk in?
    pub fn sunk(&self, x: usize, y: usize) -> (b: bool)
        requires
            self.wf(),
        ensures
            b == self.is_sunk(x as int, y as int),
    {
        x >= 1 && y >= 1 && x < self.size_x && y < self.size_y && self.point(x, y).flags
            & CELLFLAG_DOWN != 0 && self.point(x - 1, y).flags & CELLFLAG_DOWN != 0 && self.point(
            x - 1,
            y - 1,
        ).flags & CELLFLAG_DOWN != 0 && self.point(x, y - 1).flags & CELLFLAG_DOWN != 0
    }

    pub open spec fn bottom_vertex(&self, v: GroupVertex) -> BottomVertex {
        BottomVertex {
            x: v.x,
            y: v.y,
            tx: v.tx,
            ty: v.ty,
            down: self.is_sunk(v.x as int, v.y as int),
        }
    }
}

pub open spec fn bottom_vertices(map: GameMap, vs: Seq<GroupVertex>) -> Seq<BottomVertex> {
    Seq::new(vs.len(), |i: int| map.bottom_vertex(vs[i]))
}

/// Triangles of one texture with the vertices that they number.
pub struct Part {
    pub texture: u32,
    pub vertices: Seq<BottomVertex>,
    pub indices: Seq<u16>,
}

/// The parts of the first `n` sets of triangles of a group.
pub open spec fn group_parts(map: GameMap, g: GroupView, n: int) -> Seq<Part> {
    Seq::new(
        n as nat,
        |k: int|
            Part {
                texture: g.geoms[k].texture,
                vertices: bottom_vertices(map, g.vertices),
                indices: g.geoms[k].indices,
            },
    )
}

/// The parts of the first `n` groups, one after the other. Data without a group
/// has none.
pub open spec fn all_parts(map: GameMap, raws: Seq<Vec<u8>>, n: int) -> Seq<Part>
    decreases n,
{
    if n <= 0 {
        Seq::empty()
    } else {
        match group_of(raws[n - 1]@) {
            Some(g) => all_parts(map, raws, n - 1) + group_parts(map, g, g.geoms.len() as int),
            None => all_parts(map, raws, n - 1),
        }
    }
}

/// The vertices of a texture: those of all its parts, in order.
pub open spec fn merged_vertices(ps: Seq<Part>, texture: u32) -> Seq<BottomVertex>
    decreases ps.len(),
{
    if ps.len() == 0 {
        Seq::empty()
    } else if ps.last().texture == texture {
        merged_vertices(ps.drop_last(), texture) + ps.last().vertices
    } else {
        merged_vertices(ps.drop_last(), texture)
    }
}

/// A vertex number of a part whose first vertex has the number `base`. Numbers
/// have thirty-two bits and wrap around.
pub open spec fn rebased(base: int, i: u16) -> u32 {
    ((base + i) % 0x1_0000_0000) as u32
}

/// The vertex numbers of a texture: those of all its parts, each moved past the
/// vertices of the parts before it.
pub open spec fn merged_indices(ps: Seq<Part>, texture: u32) -> Seq<u32>
    decreases ps.len(),
{
    if ps.len() == 0 {
        Seq::empty()
    } else {
        let before = merged_indices(ps.drop_last(), texture);
        if ps.last().texture == texture {
            let base = merged_vertices(ps.drop_last(), texture).len() as int;
            before + Seq::new(ps.last().indices.len(), |i: int| rebased(base, ps.last().indices[i]))
        } else {
            before
        }
    }
}

/// The textures of the parts, each once, in the order in which they first
/// appear.
pub open spec fn textures_of(ps: Seq<Part>) -> Seq<u32>
    decreases ps.len(),
{
    if ps.len() == 0 {
        Seq::empty()
    } else {
        let before = textures_of(ps.drop_last());
        if before.contains(ps.last().texture) {
            before
        } else {
            before.push(ps.last().texture)
        }
    }
}

/// The batches hold exactly the parts.
pub open spec fn is_merge(bs: Seq<BottomBatch>, ps: Seq<Part>) -> bool {
    &&& bs.len() == textures_of(ps).len()
    &&& forall|k: int|
        0 <= k < bs.len() ==> {
            &&& (#[trigger] bs[k]).texture == textures_of(ps)[k]
            &&& bs[k].vertices@ == merged_vertices(ps, bs[k].texture)
            &&& bs[k].indices@ == merged_indices(ps, bs[k].texture)
        }
}

proof fn lemma_textures(ps: Seq<Part>)
    ensures
        textures_of(ps).no_duplicates(),
        forall|t: u32| #[trigger]
            textures_of(ps).contains(t) <==> exists|i: int|
                0 <= i < ps.len() && (#[trigger] ps[i]).texture == t,
        forall|t: u32|
            !(#[trigger] textures_of(ps).contains(t)) ==> merged_vertices(ps, t).len() == 0
                && merged_indices(ps, t).len() == 0,
    decreases ps.len(),
{
    if ps.len() > 0 {
        let d = ps.drop_last();
        lemma_textures(d);
        let before = textures_of(d);
        let all = textures_of(ps);
        assert forall|t: u32| #[trigger] all.contains(t) <==> before.contains(t) || t
            == ps.last().texture by {
            if before.contains(ps.last().texture) {
            } else {
                assert(all == before.push(ps.last().texture));
                assert(all[before.len() as int] == ps.last().texture);
                if before.contains(t) {
                    let i = before.index_of(t);
                    assert(all[i] == t);
                }
                if all.contains(t) {
                    let i = all.index_of(t);
                    if i < before.len() {
                        assert(before[i] == t);
                    }
                }
            }
        }
        assert forall|t: u32| #[trigger] all.contains(t) <==> exists|i: int|
            0 <= i < ps.len() && (#[trigger] ps[i]).texture == t by {
            if all.contains(t) {
                if t == ps.last().texture {
                    assert(ps[ps.len() - 1].texture == t);
                } else {
                    assert(before.contains(t));
                    let i = choose|i: int| 0 <= i < d.len() && (#[trigger] d[i]).texture == t;
                    assert(ps[i].texture == t);
                }
            }
            if exists|i: int| 0 <= i < ps.len() && (#[trigger] ps[i]).texture == t {
                let i = choose|i: int| 0 <= i < ps.len() && (#[trigger] ps[i]).texture == t;
                if i < d.len() {
                    assert(d[i].texture == t);
                    assert(before.contains(t));
                }
            }
        }
    }
}

/// Each texture has one batch, and a texture has a batch when some part has it.
pub proof fn law_one_batch_per_texture(bs: Seq<BottomBatch>, ps: Seq<Part>)
    requires
        is_merge(bs, ps),
    ensures
        forall|i: int, j: int|
            0 <= i < j < bs.len() ==> (#[trigger] bs[i]).texture != (#[trigger] bs[j]).texture,
        forall|p: int|
            0 <= p < ps.len() ==> exists|k: int|
                0 <= k < bs.len() && (#[trigger] bs[k]).texture == (#[trigger] ps[p]).texture,
{
    lemma_textures(ps);
    assert forall|p: int| 0 <= p < ps.len() implies exists|k: int|
        0 <= k < bs.len() && (#[trigger] bs[k]).texture == (#[trigger] ps[p]).texture by {
        let t = ps[p].texture;
        assert(textures_of(ps).contains(t));
        let k = textures_of(ps).index_of(t);
        assert(bs[k].texture == t);
    }
}

/// Where every part numbers vertices of its own and there are few enough, every
/// number of a batch is that of a vertex of the batch.
pub proof fn law_indices_in_range(ps: Seq<Part>, texture: u32, i: int)
    requires
        forall|p: int, q: int|
            0 <= p < ps.len() && 0 <= q < ps[p].indices.len() ==> #[trigger] ps[p].indices[q]
                < ps[p].vertices.len(),
        merged_vertices(ps, texture).len() <= u32::MAX,
        0 <= i < merged_indices(ps, texture).len(),
    ensures
        merged_indices(ps, texture)[i] < merged_vertices(ps, texture).len(),
    decreases ps.len(),
{
    if ps.len() > 0 {
        let d = ps.drop_last();
        let before = merged_indices(d, texture);
        assert forall|p: int, q: int|
            0 <= p < d.len() && 0 <= q < d[p].indices.len() implies #[trigger] d[p].indices[q]
            < d[p].vertices.len() by {
            assert(ps[p].indices[q] < ps[p].vertices.len());
        }
        if ps.last().texture == texture {
            let base = merged_vertices(d, texture).len() as int;
            if i < before.len() {
                law_indices_in_range(d, texture, i);
            } else {
                let q = i - before.len();
                assert(ps[ps.len() - 1].indices[q] < ps[ps.len() - 1].vertices.len());
                assert(base + ps.last().indices[q] < 0x1_0000_0000);
            }
        } else {
            law_indices_in_range(d, texture, i);
        }
    }
}

/// Every triangle of every part is kept: the numbers of a texture are as many
/// as those of its parts together.
pub proof fn law_no_triangle_lost(ps: Seq<Part>, p: Part)
    ensures
        merged_indices(ps.push(p), p.texture).len() == merged_indices(ps, p.texture).len()
            + p.indices.len(),
        forall|t: u32|
            t != p.texture ==> #[trigger] merged_indices(ps.push(p), t) == merged_indices(ps, t)
                && merged_vertices(ps.push(p), t) == merged_vertices(ps, t),
{
    assert(ps.push(p).drop_last() =~= ps);
}

fn batch_position(bs: &Vec<BottomBatch>, texture: u32) -> (r: Option<usize>)
    ensures
        match r {
            Some(k) => k < bs@.len() && bs@[k as int].texture == texture,
            None => forall|k: int| 0 <= k < bs@.len() ==> (#[trigger] bs@[k]).texture != texture,
        },
{
    let mut k: usize = 0;
    while k < bs.len()
        invariant
            k <= bs@.len(),
            forall|j: int| 0 <= j < k ==> (#[trigger] bs@[j]).texture != texture,
        decreases bs.len() - k,
    {
        if bs[k].texture == texture {
            return Some(k);
        }
        k = k + 1;
    }
    None
}

/// Put a set of triangles and its vertices at the end of a batch.
fn extend_batch(b: &mut BottomBatch, vertices: &Vec<BottomVertex>, indices: &Vec<u16>)
    ensures
        final(b).texture == old(b).texture,
        final(b).vertices@ == old(b).vertices@ + vertices@,
        final(b).indices@ == old(b).indices@ + Seq::new(
            indices@.len(),
            |i: int| rebased(old(b).vertices@.len() as int, indices@[i]),
        ),
{
    let n = b.vertices.len();
    let ghost tail = Seq::new(indices@.len(), |i: int| rebased(n as int, indices@[i]));
    let base: u64 = n as u64 % 0x1_0000_0000;
    let mut i: usize = 0;
    let ghost b0 = *b;
    while i < indices.len()
        invariant
            i <= indices@.len(),
            base == n as int % 0x1_0000_0000,
            tail == Seq::new(indices@.len(), |i: int| rebased(n as int, indices@[i])),
            b.texture == b0.texture,
            b.vertices@ == b0.vertices@,
            b.indices@ =~= b0.indices@ + tail.take(i as int),
        decreases indices.len() - i,
    {
        let ghost before = b.indices@;
        let v: u64 = (base + indices[i] as u64) % 0x1_0000_0000;
        assert(v == rebased(n as int, indices@[i as int]));
        b.indices.push(v as u32);
        assert(tail.take(i + 1) =~= tail.take(i as int).push(tail[i as int]));
        i = i + 1;
    }
    assert(tail.take(i as int) =~= tail);
    let mut j: usize = 0;
    while j < vertices.len()
        invariant
            j <= vertices@.len(),
            b.texture == b0.texture,
            b.indices@ == b0.indices@ + tail,
            b.vertices@ =~= b0.vertices@ + vertices@.take(j as int),
        decreases vertices.len() - j,
    {
        b.vertices.push(vertices[j]);
        assert(vertices@.take(j + 1) =~= vertices@.take(j as int).push(vertices@[j as int]));
        j = j + 1;
    }
    assert(vertices@.take(j as int) =~= vertices@);
}

/// Put a part into the batch of its texture, or into a new one.
fn add_part(
    bs: &mut Vec<BottomBatch>,
    texture: u32,
    vertices: &Vec<BottomVertex>,
    indices: &Vec<u16>,
    Ghost(ps): Ghost<Seq<Part>>,
)
    requires
        is_merge(old(bs)@, ps),
    ensures
        is_merge(
            final(bs)@,
            ps.push((Part { texture, vertices: vertices@, indices: indices@ })),
        ),
{
    let ghost p = Part { texture, vertices: vertices@, indices: indices@ };
    let ghost qs = ps.push(p);
    let ghost old_bs = bs@;
    proof {
        lemma_textures(ps);
        law_no_triangle_lost(ps, p);
        assert(qs.drop_last() =~= ps);
        assert(qs.last() == p);
    }
    let found = batch_position(bs, texture);
    match found {
        Some(k) => {
            proof {
                assert(bs@[k as int].texture == textures_of(ps)[k as int]);
                assert(textures_of(ps).contains(texture));
            }
            extend_batch(&mut bs[k], vertices, indices);
            proof {
                assert forall|j: int| 0 <= j < bs@.len() implies {
                    &&& (#[trigger] bs@[j]).texture == textures_of(qs)[j]
                    &&& bs@[j].vertices@ == merged_vertices(qs, bs@[j].texture)
                    &&& bs@[j].indices@ == merged_indices(qs, bs@[j].texture)
                } by {
                    assert(old_bs[j].texture == textures_of(ps)[j]);
                    if j != k {
                        assert(bs@[j] == old_bs[j]);
                        assert(textures_of(ps)[j] != textures_of(ps)[k as int]);
                    }
                }
            }
        },
        None => {
            proof {
                if textures_of(ps).contains(texture) {
                    let k = textures_of(ps).index_of(texture);
                    assert(bs@[k].texture == texture);
                }
                assert(!textures_of(ps).contains(texture));
                assert(merged_vertices(ps, texture).len() == 0);
                assert(merged_indices(ps, texture).len() == 0);
            }
            let mut b = BottomBatch { texture, vertices: Vec::new(), indices: Vec::new() };
            assert(b.vertices@ =~= merged_vertices(ps, texture));
            assert(b.indices@ =~= merged_indices(ps, texture));
            extend_batch(&mut b, vertices, indices);
            let ghost added = b;
            bs.push(b);
            proof {
                assert(textures_of(qs) == textures_of(ps).push(texture));
                assert forall|j: int| 0 <= j < bs@.len() implies {
                    &&& (#[trigger] bs@[j]).texture == textures_of(qs)[j]
                    &&& bs@[j].vertices@ == merged_vertices(qs, bs@[j].texture)
                    &&& bs@[j].indices@ == merged_indices(qs, bs@[j].texture)
                } by {
                    if j < old_bs.len() {
                        assert(bs@[j] == old_bs[j]);
                        assert(textures_of(ps)[j] != texture) by {
                            if textures_of(ps)[j] == texture {
                                assert(textures_of(ps).contains(texture));
                            }
                        }
                    } else {
                        assert(bs@[j] == added);
                    }
                }
            }
        },
    }
}

/// Put the triangles of a group into the batches of their textures.
fn add_group(
    bs: &mut Vec<BottomBatch>,
    map: &GameMap,
    group: &GroupData,
    Ghost(done): Ghost<Seq<Part>>,
)
    requires
        map.wf(),
        is_merge(old(bs)@, done),
    ensures
        is_merge(final(bs)@, done + group_parts(*map, group@, group@.geoms.len() as int)),
{
    let mut vertices: Vec<BottomVertex> = Vec::new();
    let mut i: usize = 0;
    while i < group.vertices.len()
        invariant
            map.wf(),
            i <= group.vertices@.len(),
            vertices@ =~= bottom_vertices(*map, group.vertices@).take(i as int),
        decreases group.vertices.len() - i,
    {
        let v = group.vertices[i];
        vertices.push(
            BottomVertex {
                x: v.x,
                y: v.y,
                tx: v.tx,
                ty: v.ty,
                down: map.sunk(v.x as usize, v.y as usize),
            },
        );
        i = i + 1;
    }
    assert(vertices@ =~= bottom_vertices(*map, group.vertices@));
    assert(done + group_parts(*map, group@, 0) =~= done);
    let mut k: usize = 0;
    while k < group.geoms.len()
        invariant
            k <= group.geoms@.len(),
            vertices@ == bottom_vertices(*map, group.vertices@),
            is_merge(bs@, done + group_parts(*map, group@, k as int)),
        decreases group.geoms.len() - k,
    {
        let ghost ps = done + group_parts(*map, group@, k as int);
        add_part(bs, group.geoms[k].texture, &vertices, &group.geoms[k].indices, Ghost(ps));
        proof {
            let p = Part {
                texture: group.geoms@[k as int].texture,
                vertices: vertices@,
                indices: group.geoms@[k as int].indices@,
            };
            assert(p.indices == group@.geoms[k as int].indices);
            assert(ps.push(p) =~= done + group_parts(*map, group@, k + 1));
        }
        k = k + 1;
    }
}

/// Merge the triangles of all groups by texture.
pub fn build_bottom_cpu_batches(map: &GameMap, raws: &Vec<Vec<u8>>) -> (bs: Vec<BottomBatch>)
    requires
        map.wf(),
        forall|i: int|
            0 <= i < raws@.len() ==> (#[trigger] raws@[i])@.len() < 4 || raws@[i]@.len() >= 8,
    ensures
        is_merge(bs@, all_parts(*map, raws@, raws@.len() as int)),
{
    let mut bs: Vec<BottomBatch> = Vec::new();
    let mut i: usize = 0;
    while i < raws.len()
        invariant
            map.wf(),
            forall|i: int|
                0 <= i < raws@.len() ==> (#[trigger] raws@[i])@.len() < 4 || raws@[i]@.len() >= 8,
            i <= raws@.len(),
            is_merge(bs@, all_parts(*map, raws@, i as int)),
        decreases raws.len() - i,
    {
        match parse_group(raws[i].as_slice()) {
            Some(g) => {
                add_group(&mut bs, map, &g, Ghost(all_parts(*map, raws@, i as int)));
            },
            None => {},
        }
        i = i + 1;
    }
    bs
}

// ── Water ───────────────────────────────────────────────────────────────
/// The end of a group in one direction: a group is cut off where the map ends.
pub open spec fn group_span(g: int, size: int) -> int {
    least(MAP_GROUP_SIZE as int, size - g)
}

/// Some point of the group at `gx`, `gy` lies below the sea.
pub open spec fn bears_water(map: GameMap, gx: int, gy: int) -> bool {
    exists|px: int, py: int|
        #![trigger map.spec_point(gx + px, gy + py)]
        0 <= px <= group_span(gx, map.size_x as int) && 0 <= py <= group_span(
            gy,
            map.size_y as int,
        ) && float_bits::lt_spec(map.spec_point(gx + px, gy + py).z, float_bits::ZERO)
}

/// The positions of the groups, among the first `n`, that bear water.
pub open spec fn water_groups(map: GameMap, raws: Seq<Vec<u8>>, n: int) -> Seq<(i32, i32)>
    decreases n,
{
    if n <= 0 {
        Seq::empty()
    } else {
        let before = water_groups(map, raws, n - 1);
        let raw = raws[n - 1]@;
        let gx = u16_at(raw, 0);
        let gy = u16_at(raw, 2);
        if raw.len() >= 4 && bears_water(map, gx as int, gy as int) {
            before.push((gx as i32, gy as i32))
        } else {
            before
        }
    }
}

impl GameMap {
    /// Does the group at this position bear water?
    pub fn group_bears_water(&self, gx: usize, gy: usize) -> (b: bool)
        requires
            self.wf(),
        ensures
            b == bears_water(*self, gx as int, gy as int),
    {
        if gx > self.size_x || gy > self.size_y {
            return false;
        }
        let w = if self.size_x - gx < MAP_GROUP_SIZE {
            self.size_x - gx
        } else {
            MAP_GROUP_SIZE
        };
        let h = if self.size_y - gy < MAP_GROUP_SIZE {
            self.size_y - gy
        } else {
            MAP_GROUP_SIZE
        };
        let mut py: usize = 0;
        while py <= h
            invariant
                self.wf(),
                gx <= self.size_x <= i32::MAX,
                gy <= self.size_y <= i32::MAX,
                w == group_span(gx as int, self.size_x as int),
                h == group_span(gy as int, self.size_y as int),
                py <= h + 1,
                forall|x: int, y: int|
                    #![trigger self.spec_point(gx + x, gy + y)]
                    0 <= x <= w && 0 <= y < py ==> !float_bits::lt_spec(
                        self.spec_point(gx + x, gy + y).z,
                        float_bits::ZERO,
                    ),
            decreases h + 1 - py,
        {
            let mut px: usize = 0;
            while px <= w
                invariant
                    self.wf(),
                    gx <= self.size_x <= i32::MAX,
                    gy <= self.size_y <= i32::MAX,
                    w == group_span(gx as int, self.size_x as int),
                    h == group_span(gy as int, self.size_y as int),
                    py <= h,
                    px <= w + 1,
                    forall|x: int, y: int|
                        #![trigger self.spec_point(gx + x, gy + y)]
                        0 <= x <= w && 0 <= y < py ==> !float_bits::lt_spec(
                            self.spec_point(gx + x, gy + y).z,
                            float_bits::ZERO,
                        ),
                    forall|x: int, y: int|
                        #![trigger self.spec_point(gx + x, gy + y)]
                        0 <= x < px && y == py ==> !float_bits::lt_spec(
                            self.spec_point(gx + x, gy + y).z,
                            float_bits::ZERO,
                        ),
                decreases w + 1 - px,
            {
                let z = self.point(gx + px, gy + py).z;
                if float_bits::lt(z, float_bits::ZERO) {
                    assert(float_bits::lt_spec(
                        self.spec_point(gx + px as int, gy + py as int).z,
                        float_bits::ZERO,
                    ));
                    return true;
                }
                px = px + 1;
            }
            py = py + 1;
        }
        false
    }
}

/// The groups whose terrain dips below the sea, in the order of the data.
pub fn water_bearing_groups(map: &GameMap, raws: &Vec<Vec<u8>>) -> (r: Vec<(i32, i32)>)
    requires
        map.wf(),
    ensures
        r@ == water_groups(*map, raws@, raws@.len() as int),
{
    let mut r: Vec<(i32, i32)> = Vec::new();
    let mut i: usize = 0;
    while i < raws.len()
        invariant
            map.wf(),
            i <= raws@.len(),
            r@ == water_groups(*map, raws@, i as int),
        decreases raws.len() - i,
    {
        let raw = raws[i].as_slice();
        if raw.len() >= 4 {
            let gx = get_u16(raw, 0);
            let gy = get_u16(raw, 2);
            if map.group_bears_water(gx as usize, gy as usize) {
                r.push((gx as i32, gy as i32));
            }
        }
        i = i + 1;
    }
    r
}

/// How the height for the shore is sampled over a cell.
#[derive(Debug, Clone, Copy, PartialEq, Eq, Structural)]
pub enum ShoreHeight {
    /// Between the corners of the cell: below a bridge, not on its deck.
    Corners(CellCorners),
    /// Like any height of the ground.
    Ground,
}

impl GameMap {
    /// Which height counts for the shore.
    pub fn sample_height_for_water(&self, ix: i32, iy: i32) -> (r: ShoreHeight)
        requires
            self.wf(),
        ensures
            r == if self.on_map(ix as int, iy as int) && self.spec_unit(
                ix as int,
                iy as int,
            ).flags & CELLFLAG_BRIDGE != 0 {
                ShoreHeight::Corners(
                    CellCorners {
                        z00: self.spec_point(ix as int, iy as int).z,
                        z10: self.spec_point(ix + 1, iy as int).z,
                        z01: self.spec_point(ix as int, iy + 1).z,
                        z11: self.spec_point(ix + 1, iy + 1).z,
                    },
                )
            } else {
                ShoreHeight::Ground
            },
            r is Corners ==> r->Corners_0 == point_corners(*self, ix as int, iy as int),
    {
        match self.cell_corners(ix, iy) {
            Some(c) => if self.unit(ix as usize, iy as usize).flags & CELLFLAG_BRIDGE != 0 {
                ShoreHeight::Corners(c)
            } else {
                ShoreHeight::Ground
            },
            None => ShoreHeight::Ground,
        }
    }
}

/// Bit pattern of the height above which there is no water to be seen.
pub const WATER_ALPHA_UP_LEVEL: u32 = 0xbf80_0000;

/// Bit pattern of the height below which there is nothing but water.
pub const WATER_ALPHA_DOWN_LEVEL: u32 = 0xc1a0_cccd;

/// How much water is to be seen over a height; `ramp` is the answer between
/// the two levels.
pub open spec fn water_alpha_spec(z: u32, ramp: u8) -> u8 {
    if float_bits::lt_spec(z, WATER_ALPHA_DOWN_LEVEL) {
        255
    } else if float_bits::lt_spec(WATER_ALPHA_UP_LEVEL, z) {
        0
    } else {
        ramp
    }
}

pub fn water_alpha(z: u32, ramp: u8) -> (a: u8)
    ensures
        a == water_alpha_spec(z, ramp),
{
    if float_bits::lt(z, WATER_ALPHA_DOWN_LEVEL) {
        255
    } else if float_bits::lt(WATER_ALPHA_UP_LEVEL, z) {
        0
    } else {
        ramp
    }
}

/// A grey picture, held as an `image::GrayImage`.
#[verifier::external_body]
pub struct GrayPicture {
    img: image::GrayImage,
}

/// The pixels of a grey picture, row after row.
pub uninterp spec fn gray_pixels(img: GrayPicture) -> Seq<u8>;

/// The width and the height that a grey picture was made with.
pub uninterp spec fn gray_size(img: GrayPicture) -> (u32, u32);

/// `image::GrayImage::new`: a picture of the given size, all of it black. The
/// bound leaves out sizes for which it panics: those whose pixels no vector can
/// hold.
#[verifier::external_body]
fn new_gray(width: u32, height: u32) -> (img: GrayPicture)
    requires
        width * height <= isize::MAX,
    ensures
        gray_size(img) == (width, height),
        gray_pixels(img) == Seq::new((width * height) as nat, |k: int| 0u8),
{
    GrayPicture { img: image::GrayImage::new(width, height) }
}

/// `image::ImageBuffer::put_pixel` on a grey picture: the pixel at `x`, `y` is
/// replaced, all others and the size stay. Outside the picture it panics, so
/// that is left out.
#[verifier::external_body]
fn put_gray(img: &mut GrayPicture, x: u32, y: u32, value: u8)
    requires
        x < gray_size(*old(img)).0,
        y < gray_size(*old(img)).1,
    ensures
        gray_size(*final(img)) == gray_size(*old(img)),
        gray_pixels(*final(img)) == gray_pixels(*old(img)).update(
            y * gray_size(*old(img)).0 + x,
            value,
        ),
{
    img.img.put_pixel(x, y, image::Luma([value]))
}

/// `image::ImageBuffer::into_raw` on a grey picture: its pixels, row after row.
#[verifier::external_body]
fn raw_gray(img: GrayPicture) -> (v: Vec<u8>)
    ensures
        v@ == gray_pixels(img),
{
    img.img.into_raw()
}

impl GrayPicture {
    /// The pixels, row after row.
    pub fn into_pixels(self) -> (v: Vec<u8>)
        ensures
            v@ == gray_pixels(self),
    {
        raw_gray(self)
    }
}

/// The picture of the water over a group, from samples of the height and the
/// ramp, row after row.
pub fn build_water_alpha_image(alpha_size: u32, samples: &Vec<(u32, u8)>) -> (img:
    GrayPicture)
    requires
        alpha_size * alpha_size <= isize::MAX,
        samples@.len() == alpha_size * alpha_size,
    ensures
        gray_size(img) == (alpha_size, alpha_size),
        gray_pixels(img) == Seq::new(
            samples@.len(),
            |k: int| water_alpha_spec(samples@[k].0, samples@[k].1),
        ),
{
    let mut img = new_gray(alpha_size, alpha_size);
    let len = samples.len();
    let ghost goal = Seq::new(
        samples@.len(),
        |k: int| water_alpha_spec(samples@[k].0, samples@[k].1),
    );
    let mut k: usize = 0;
    let mut j: u32 = 0;
    assert(0 * alpha_size == 0) by (nonlinear_arith);
    while j < alpha_size
        invariant
            len == samples@.len(),
            samples@.len() == alpha_size * alpha_size,
            goal == Seq::new(
                samples@.len(),
                |k: int| water_alpha_spec(samples@[k].0, samples@[k].1),
            ),
            j <= alpha_size,
            k == j * alpha_size,
            gray_size(img) == (alpha_size, alpha_size),
            gray_pixels(img).len() == len,
            forall|p: int| 0 <= p < k ==> #[trigger] gray_pixels(img)[p] == goal[p],
        decreases alpha_size - j,
    {
        let mut i: u32 = 0;
        while i < alpha_size
            invariant
                len == samples@.len(),
                samples@.len() == alpha_size * alpha_size,
                goal == Seq::new(
                    samples@.len(),
                    |k: int| water_alpha_spec(samples@[k].0, samples@[k].1),
                ),
                j < alpha_size,
                i <= alpha_size,
                k == j * alpha_size + i,
                gray_size(img) == (alpha_size, alpha_size),
                gray_pixels(img).len() == len,
                forall|p: int| 0 <= p < k ==> #[trigger] gray_pixels(img)[p] == goal[p],
            decreases alpha_size - i,
        {
            proof {
                lemma_cell_index(i as int, j as int, alpha_size as int, alpha_size as int);
            }
            let (z, ramp) = samples[k];
            put_gray(&mut img, i, j, water_alpha(z, ramp));
            i = i + 1;
            k = k + 1;
        }
        assert(j * alpha_size + alpha_size == (j + 1) * alpha_size) by (nonlinear_arith);
        j = j + 1;
    }
    assert(gray_pixels(img) =~= goal);
    img
}

// ── Laws ────────────────────────────────────────────────────────────────
/// A batch of indices is read whole where the data has it, and the next one
/// starts right behind it; where the data ends early, all whole indices up to
/// its end are read.
pub proof fn law_indices_are_read(raw: Seq<u8>, off: int, i: int)
    requires
        8 <= off,
        off + 8 <= raw.len(),
    ensures
        ({
            let bytes = u32_at(raw, off + 4) as int;
            let g = geom_at(raw, off);
            &&& g.texture == u32_at(raw, off)
            &&& off + 8 + bytes <= raw.len() ==> g.indices.len() == bytes / 2
            &&& off + 8 + bytes > raw.len() ==> raw.len() - 1 <= off + 8 + 2 * g.indices.len()
                <= raw.len()
            &&& 0 <= i < g.indices.len() ==> g.indices[i] == u16_at(raw, off + 8 + 2 * i)
        }),
{
}

/// The first batch stands at byte eight, and each one behind the indices of the
/// one before it.
pub proof fn law_geoms_follow(raw: Seq<u8>, k: int)
    requires
        0 <= k,
        geom_offset(raw, k) + 8 <= raw.len(),
    ensures
        geom_offset(raw, 0) == 8,
        geom_offset(raw, k + 1) == geom_offset(raw, k) + 8 + 2 * geom_at(
            raw,
            geom_offset(raw, k),
        ).indices.len(),
        8 <= geom_offset(raw, k) < geom_offset(raw, k + 1),
    decreases k,
{
    assert(index_count(raw, geom_offset(raw, k)) >= 0);
    lemma_offset_at_least(raw, k);
}

proof fn lemma_offset_at_least(raw: Seq<u8>, k: int)
    requires
        0 <= k,
        geom_offset(raw, k) + 8 <= raw.len(),
    ensures
        8 <= geom_offset(raw, k),
    decreases k,
{
    if k > 0 {
        let off = geom_offset(raw, k - 1);
        if off + 8 <= raw.len() {
            lemma_offset_at_least(raw, k - 1);
        } else {
            assert((raw.len() - (off + 8)) / 2 >= (raw.len() - (off + 8) - 1) / 2);
            assert(2 * index_count(raw, off) >= raw.len() - (off + 8) - 1);
        }
    }
}

/// A group's data tells its place, its batches and its vertices, as many
/// batches as it says it has where all their headers fit.
pub proof fn law_group_is_read(raw: Seq<u8>, n: int, k: int, i: int)
    requires
        raw.len() >= 8,
        n == u32_at(raw, 4),
        forall|j: int| 0 <= j < n ==> #[trigger] geom_offset(raw, j) + 8 <= raw.len(),
        geom_offset(raw, n) + 4 <= raw.len(),
        0 <= k < n,
    ensures
        group_of(raw) is Some,
        ({
            let g = group_of(raw)->0;
            let off = geom_offset(raw, n);
            let bytes = u32_at(raw, off) as int;
            &&& g.gx == u16_at(raw, 0) && g.gy == u16_at(raw, 2)
            &&& g.geoms.len() == n
            &&& g.geoms[k] == geom_at(raw, geom_offset(raw, k))
            &&& off + 4 + bytes <= raw.len() ==> g.vertices.len() == bytes / 8
            &&& off + 4 + bytes > raw.len() ==> raw.len() - 7 <= off + 4 + 8 * g.vertices.len()
                <= raw.len()
            &&& 0 <= i < g.vertices.len() ==> {
                let v = g.vertices[i];
                let at = off + 4 + 8 * i;
                v.x == u16_at(raw, at) && v.y == u16_at(raw, at + 2) && v.tx == u16_at(raw, at + 4)
                    && v.ty == u16_at(raw, at + 6)
            }
        }),
{
    assert(is_geom_count(raw, n));
    law_geom_count_unique(raw, n, geom_count(raw));
}

/// A batch whose header the data no longer has ends the list of batches.
pub proof fn law_geoms_end_with_data(raw: Seq<u8>, n: int)
    requires
        raw.len() >= 8,
        0 <= n < u32_at(raw, 4),
        forall|j: int| 0 <= j < n ==> #[trigger] geom_offset(raw, j) + 8 <= raw.len(),
        geom_offset(raw, n) + 8 > raw.len(),
    ensures
        geom_offset(raw, n) + 4 <= raw.len() ==> group_of(raw) is Some && (group_of(
            raw,
        )->0).geoms.len() == n,
        geom_offset(raw, n) + 4 > raw.len() ==> group_of(raw) is None,
{
    assert(is_geom_count(raw, n));
    law_geom_count_unique(raw, n, geom_count(raw));
}

/// A point is sunk if it and the three points before it are marked so, and none
/// on the first row or column of the map is.
pub proof fn law_sunk_points(map: GameMap, x: int, y: int)
    ensures
        x < 1 || y < 1 || x >= map.size_x || y >= map.size_y ==> !map.is_sunk(x, y),
        1 <= x < map.size_x && 1 <= y < map.size_y ==> (map.is_sunk(x, y) <==> forall|
            dx: int,
            dy: int,
        |
            0 <= dx <= 1 && 0 <= dy <= 1 ==> (#[trigger] map.spec_point(x - dx, y - dy)).flags & 0x10
                != 0),
{
    if 1 <= x < map.size_x && 1 <= y < map.size_y {
        if map.is_sunk(x, y) {
            assert forall|dx: int, dy: int| 0 <= dx <= 1 && 0 <= dy <= 1 implies (
            #[trigger] map.spec_point(x - dx, y - dy)).flags & 0x10 != 0 by {
                assert(map.is_down_point(x, y) && map.is_down_point(x - 1, y) && map.is_down_point(
                    x - 1,
                    y - 1,
                ) && map.is_down_point(x, y - 1));
                assert(dx == 0 || dx == 1);
                assert(dy == 0 || dy == 1);
            }
        } else if forall|dx: int, dy: int|
            0 <= dx <= 1 && 0 <= dy <= 1 ==> (#[trigger] map.spec_point(x - dx, y - dy)).flags & 0x10
                != 0 {
            assert(map.spec_point(x - 0, y - 0).flags & 0x10 != 0);
            assert(map.spec_point(x - 1, y - 0).flags & 0x10 != 0);
            assert(map.spec_point(x - 1, y - 1).flags & 0x10 != 0);
            assert(map.spec_point(x - 0, y - 1).flags & 0x10 != 0);
        }
    }
}

/// A group's parts are its batches, each with all the group's vertices at their
/// places.
pub proof fn law_parts_of_group(map: GameMap, g: GroupView, k: int, i: int)
    requires
        0 <= k < g.geoms.len(),
        0 <= i < g.vertices.len(),
    ensures
        ({
            let ps = group_parts(map, g, g.geoms.len() as int);
            let v = ps[k].vertices[i];
            &&& ps.len() == g.geoms.len()
            &&& ps[k].texture == g.geoms[k].texture
            &&& ps[k].indices == g.geoms[k].indices
            &&& ps[k].vertices.len() == g.vertices.len()
            &&& v.x == g.vertices[i].x && v.y == g.vertices[i].y
            &&& v.tx == g.vertices[i].tx && v.ty == g.vertices[i].ty
            &&& v.down == map.is_sunk(g.vertices[i].x as int, g.vertices[i].y as int)
        }),
{
}

/// The parts of a map are those of its groups, in their order; data that is no
/// group has none.
pub proof fn law_parts_in_order(map: GameMap, raws: Seq<Vec<u8>>, n: int)
    requires
        0 < n <= raws.len(),
    ensures
        all_parts(map, raws, 0).len() == 0,
        group_of(raws[n - 1]@) is None ==> all_parts(map, raws, n) == all_parts(map, raws, n - 1),
        ({
            let was = all_parts(map, raws, n - 1);
            let now = all_parts(map, raws, n);
            let g = group_of(raws[n - 1]@)->0;
            group_of(raws[n - 1]@) is Some ==> now.take(was.len() as int) == was && now.skip(
                was.len() as int,
            ) == group_parts(map, g, g.geoms.len() as int)
        }),
{
    let was = all_parts(map, raws, n - 1);
    let now = all_parts(map, raws, n);
    if group_of(raws[n - 1]@) is Some {
        let g = group_of(raws[n - 1]@)->0;
        assert(now.take(was.len() as int) =~= was);
        assert(now.skip(was.len() as int) =~= group_parts(map, g, g.geoms.len() as int));
    }
}

/// Merging keeps every corner where it was: a merged index points at the vertex
/// that the part's own index pointed at, and what was merged before stays.
pub proof fn law_merging_keeps_corners(ps: Seq<Part>, p: Part, i: int)
    requires
        0 <= i < p.indices.len(),
        p.indices[i] < p.vertices.len(),
        merged_vertices(ps, p.texture).len() + p.vertices.len() <= u32::MAX,
    ensures
        ({
            let t = p.texture;
            let (was, now) = (merged_indices(ps, t), merged_indices(ps.push(p), t));
            let (old_vertices, vertices) = (merged_vertices(ps, t), merged_vertices(ps.push(p), t));
            let at = now[was.len() + i] as int;
            &&& now.len() == was.len() + p.indices.len()
            &&& now.take(was.len() as int) == was
            &&& vertices.len() == old_vertices.len() + p.vertices.len()
            &&& vertices.take(old_vertices.len() as int) == old_vertices
            &&& at < vertices.len()
            &&& vertices[at] == p.vertices[p.indices[i] as int]
        }),
{
    let t = p.texture;
    let q = ps.push(p);
    assert(q.drop_last() =~= ps);
    assert(q.last() == p);
    let (was, now) = (merged_indices(ps, t), merged_indices(q, t));
    let (a, b) = (merged_vertices(ps, t), merged_vertices(q, t));
    assert(b == a + p.vertices);
    assert(now.take(was.len() as int) =~= was);
    assert(b.take(a.len() as int) =~= a);
    assert(now[was.len() + i] == rebased(a.len() as int, p.indices[i]));
}

/// Batches stand in the order in which their textures are first met.
pub proof fn law_textures_in_order(ps: Seq<Part>, p: Part)
    ensures
        textures_of(Seq::<Part>::empty()).len() == 0,
        textures_of(ps).contains(p.texture) ==> textures_of(ps.push(p)) == textures_of(ps),
        !textures_of(ps).contains(p.texture) ==> textures_of(ps.push(p)) == textures_of(ps).push(
            p.texture,
        ),
        merged_vertices(Seq::<Part>::empty(), p.texture).len() == 0,
        merged_indices(Seq::<Part>::empty(), p.texture).len() == 0,
{
    assert(ps.push(p).drop_last() =~= ps);
}

/// A group bears water if one of its points, the borders to its neighbours
/// included, lies below the sea.
pub proof fn law_group_with_water(map: GameMap, gx: int, gy: int, x: int, y: int)
    requires
        gx <= x <= gx + 10,
        gy <= y <= gy + 10,
        x <= map.size_x,
        y <= map.size_y,
    ensures
        float_bits::lt_spec(map.spec_point(x, y).z, 0) ==> bears_water(map, gx, gy),
{
    assert(map.spec_point(x, y) == map.spec_point(gx + (x - gx), gy + (y - gy)));
}

/// A group without a point below the sea bears none.
pub proof fn law_group_without_water(map: GameMap, gx: int, gy: int)
    requires
        forall|x: int, y: int|
            gx <= x <= gx + 10 && gy <= y <= gy + 10 && x <= map.size_x && y <= map.size_y
                ==> !float_bits::lt_spec((#[trigger] map.spec_point(x, y)).z, 0),
    ensures
        !bears_water(map, gx, gy),
{
}

/// The groups that bear water are listed in their order, by their place.
pub proof fn law_water_groups_in_order(map: GameMap, raws: Seq<Vec<u8>>, n: int)
    requires
        0 < n <= raws.len(),
    ensures
        ({
            let raw = raws[n - 1]@;
            let (gx, gy) = (u16_at(raw, 0), u16_at(raw, 2));
            let (was, now) = (water_groups(map, raws, n - 1), water_groups(map, raws, n));
            &&& raw.len() >= 4 && bears_water(map, gx as int, gy as int) ==> now.len() == was.len()
                + 1 && now.drop_last() == was && now.last().0 == gx && now.last().1 == gy
            &&& raw.len() < 4 || !bears_water(map, gx as int, gy as int) ==> now == was
            &&& water_groups(map, raws, 0).len() == 0
        }),
{
    let (was, now) = (water_groups(map, raws, n - 1), water_groups(map, raws, n));
    if now.len() > was.len() {
        assert(now.drop_last() =~= was);
    }
}

/// Water is clear above the upper level, opaque below the lower one and as the
/// ramp says between; deeper water is never clearer.
pub proof fn law_deep_water_is_opaque(z: u32, deeper: u32, ramp: u8)
    requires
        float_bits::le_spec(deeper, z),
    ensures
        float_bits::lt_spec(z, 0xc1a0_cccd) ==> water_alpha_spec(z, ramp) == 255,
        float_bits::lt_spec(0xbf80_0000, z) ==> water_alpha_spec(z, ramp) == 0,
        float_bits::le_spec(0xc1a0_cccd, z) && float_bits::le_spec(z, 0xbf80_0000)
            ==> water_alpha_spec(z, ramp) == ramp,
        water_alpha_spec(z, ramp) <= water_alpha_spec(deeper, ramp),
{
}

} // verus!
