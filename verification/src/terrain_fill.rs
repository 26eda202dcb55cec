//! Filling the holes of the terrain.
//!
//! Some cells have no triangles of their own: pits below buildings, for example.
//! They are filled with flat quads that take the texture of the nearest cell
//! that has one, join the triangles around them, and stay below the surfaces
//! that lie over them. Where points and lines lie is computed elsewhere and
//! comes in as bit patterns.
use crate::bytes::{get_u16, get_u32, u16_at, u32_at};
use crate::common::{Pos3, CELLFLAG_WATER};
use crate::float_bits;
use crate::grid::lemma_walk;
use crate::map::{cell_index, lemma_cell_index, GameMap};
use crate::map_group::{least, BottomBatch};
use crate::map_trace::CellCorners;
use crate::mesh_plan::{lemma_pick_next, picks};
use vstd::prelude::*;

verus! {

// ── Batches ─────────────────────────────────────────────────────────────
/// The texture number of triangles without a texture: they only hide what is
/// behind them.
pub const NO_TEXTURE: u32 = u32::MAX;

/// How a batch is drawn.
#[derive(Debug, Clone, Copy, PartialEq, Eq, Structural)]
pub enum BatchUse {
    /// Not at all.
    Skip,
    /// Into the depth buffer only.
    DepthOnly,
    /// With this texture.
    Opaque(usize),
}

pub open spec fn batch_use_spec(texture: u32, indices: int, textures: int) -> BatchUse {
    if indices == 0 || textures == 0 {
        BatchUse::Skip
    } else if texture == NO_TEXTURE {
        BatchUse::DepthOnly
    } else if texture < textures {
        BatchUse::Opaque(texture as usize)
    } else {
        BatchUse::Skip
    }
}

/// How a batch is drawn, where there are `textures` textures: not when it is
/// empty or its texture is missing. Even a batch without a texture needs one to
/// be bound.
pub fn batch_use(b: &BottomBatch, textures: usize) -> (u: BatchUse)
    ensures
        u == batch_use_spec(b.texture, b.indices@.len() as int, textures as int),
{
    if b.indices.len() == 0 || textures == 0 {
        return BatchUse::Skip;
    }
    if b.texture == NO_TEXTURE {
        return BatchUse::DepthOnly;
    }
    if (b.texture as u64) < textures as u64 {
        BatchUse::Opaque(b.texture as usize)
    } else {
        BatchUse::Skip
    }
}

// ── Rectangles of cells ─────────────────────────────────────────────────
/// A rectangle of cells or samples, without its ends.
#[derive(Debug, Clone, Copy, PartialEq, Eq, Structural)]
pub struct Window {
    pub x0: usize,
    pub x1: usize,
    pub y0: usize,
    pub y1: usize,
}

/// The part of `a..b` that lies in `0..n`.
pub open spec fn clip_spec(a: int, b: int, n: int) -> (int, int) {
    let lo = if a < 0 {
        0
    } else {
        a
    };
    let hi = least(b, n);
    if lo < hi {
        (lo, hi)
    } else {
        (0, 0)
    }
}

fn clip(a: i32, b: i64, n: usize) -> (r: (usize, usize))
    requires
        n <= i32::MAX,
    ensures
        (r.0 as int, r.1 as int) == clip_spec(a as int, b as int, n as int),
        r.0 <= r.1 <= n,
{
    let lo: i64 = if a < 0 {
        0
    } else {
        a as i64
    };
    let hi: i64 = if b < n as i64 {
        b
    } else {
        n as i64
    };
    if lo < hi {
        (lo as usize, hi as usize)
    } else {
        (0, 0)
    }
}

impl Window {
    pub open spec fn width(&self) -> int {
        self.x1 - self.x0
    }

    pub open spec fn height(&self) -> int {
        self.y1 - self.y0
    }

    /// The rectangle lies within `w` by `h`.
    pub open spec fn within(&self, w: int, h: int) -> bool {
        self.x0 <= self.x1 <= w && self.y0 <= self.y1 <= h
    }

    pub open spec fn has(&self, x: int, y: int) -> bool {
        self.x0 <= x < self.x1 && self.y0 <= y < self.y1
    }

    /// The place of a cell in a table over the rectangle, row after row.
    pub open spec fn place(&self, x: int, y: int) -> int {
        (y - self.y0) * self.width() + (x - self.x0)
    }
}

/// The samples that a triangle may cover, four to a cell in each direction. The
/// bounds count, and are cut off at the edges of the map.
pub fn sample_window(
    x0: i32,
    x1: i32,
    y0: i32,
    y1: i32,
    size_x: usize,
    size_y: usize,
) -> (w: Window)
    requires
        4 * size_x <= i32::MAX,
        4 * size_y <= i32::MAX,
    ensures
        (w.x0 as int, w.x1 as int) == clip_spec(x0 as int, x1 + 1, 4 * size_x),
        (w.y0 as int, w.y1 as int) == clip_spec(y0 as int, y1 + 1, 4 * size_y),
        w.within(4 * size_x, 4 * size_y),
        forall|x: int, y: int| #[trigger]
            w.has(x, y) <==> x0 <= x <= x1 && y0 <= y <= y1 && 0 <= x < 4 * size_x && 0 <= y < 4
                * size_y,
{
    let (a, b) = clip(x0, x1 as i64 + 1, 4 * size_x);
    let (c, d) = clip(y0, y1 as i64 + 1, 4 * size_y);
    Window { x0: a, x1: b, y0: c, y1: d }
}

/// The cells whose centres a triangle may cover, cut off at the edges of the
/// map.
pub fn cell_window(
    x0: i32,
    x1: i32,
    y0: i32,
    y1: i32,
    size_x: usize,
    size_y: usize,
) -> (w: Window)
    requires
        size_x <= i32::MAX,
        size_y <= i32::MAX,
    ensures
        (w.x0 as int, w.x1 as int) == clip_spec(x0 as int, x1 as int, size_x as int),
        (w.y0 as int, w.y1 as int) == clip_spec(y0 as int, y1 as int, size_y as int),
        w.within(size_x as int, size_y as int),
        forall|x: int, y: int| #[trigger]
            w.has(x, y) <==> x0 <= x < x1 && y0 <= y < y1 && x >= 0 && x < size_x && 0 <= y
                && y < size_y,
{
    let (a, b) = clip(x0, x1 as i64, size_x);
    let (c, d) = clip(y0, y1 as i64, size_y);
    Window { x0: a, x1: b, y0: c, y1: d }
}

/// On which side of each edge of a triangle a point lies.
#[derive(Debug, Clone, Copy, PartialEq, Eq, Structural)]
pub struct Edges {
    pub e0: u32,
    pub e1: u32,
    pub e2: u32,
}

/// The point lies in the triangle: on the same side of all edges, or on them.
pub open spec fn inside_spec(e: Edges) -> bool {
    let z = float_bits::ZERO;
    (float_bits::le_spec(z, e.e0) && float_bits::le_spec(z, e.e1) && float_bits::le_spec(z, e.e2))
        || (float_bits::le_spec(e.e0, z) && float_bits::le_spec(e.e1, z) && float_bits::le_spec(
        e.e2,
        z,
    ))
}

pub fn inside(e: Edges) -> (b: bool)
    ensures
        b == inside_spec(e),
{
    let z = float_bits::ZERO;
    (float_bits::le(z, e.e0) && float_bits::le(z, e.e1) && float_bits::le(z, e.e2)) || (
    float_bits::le(e.e0, z) && float_bits::le(e.e1, z) && float_bits::le(e.e2, z))
}

// ── Coverage ────────────────────────────────────────────────────────────
/// Which parts of the cells are covered by triangles: four by four samples to
/// a cell.
#[derive(Debug)]
pub struct Coverage {
    pub size_x: usize,
    pub size_y: usize,
    pub samples: Vec<bool>,
}

/// How many of the sixteen samples of a cell must be covered.
pub const COVERED_SAMPLES: u32 = 14;

proof fn lemma_place(x: int, y: int, w: int, h: int)
    requires
        0 <= x < w,
        0 <= y < h,
    ensures
        0 <= y * w + x < w * h,
        (y + 1) * w <= w * h,
        (y * w + x) % w == x,
        (y * w + x) / w == y,
{
    lemma_walk(y * w + x, w, x, y);
    lemma_cell_index(x, y, w, h);
}

/// The samples of a rectangle that lie in a triangle are covered now, and all
/// others as before.
pub open spec fn marked(pre: Coverage, post: Coverage, w: Window, edges: Seq<Edges>) -> bool {
    forall|gx: int, gy: int|
        #![trigger post.sample(gx, gy)]
        0 <= gx < 4 * pre.size_x && 0 <= gy < 4 * pre.size_y ==> post.sample(gx, gy) == (
        pre.sample(gx, gy) || (w.has(gx, gy) && inside_spec(edges[w.place(gx, gy)])))
}

impl Coverage {
    pub open spec fn wf(&self) -> bool {
        &&& 4 * self.size_x <= i32::MAX
        &&& 4 * self.size_y <= i32::MAX
        &&& self.samples@.len() == (4 * self.size_x) * (4 * self.size_y)
    }

    pub open spec fn sample(&self, gx: int, gy: int) -> bool {
        self.samples@[gy * (4 * self.size_x) + gx]
    }

    /// Nothing is covered yet.
    pub fn new(size_x: usize, size_y: usize) -> (c: Coverage)
        requires
            4 * size_x <= i32::MAX,
            4 * size_y <= i32::MAX,
            (4 * size_x) * (4 * size_y) <= usize::MAX,
        ensures
            c.wf(),
            c.size_x == size_x,
            c.size_y == size_y,
            forall|i: int| 0 <= i < c.samples@.len() ==> !(#[trigger] c.samples@[i]),
    {
        let n = (4 * size_x) * (4 * size_y);
        let mut samples: Vec<bool> = Vec::new();
        let mut i: usize = 0;
        while i < n
            invariant
                i <= n,
                samples@.len() == i,
                forall|k: int| 0 <= k < i ==> !(#[trigger] samples@[k]),
            decreases n - i,
        {
            samples.push(false);
            i = i + 1;
        }
        Coverage { size_x, size_y, samples }
    }

    /// Mark the samples of a rectangle that a triangle covers; the edges are
    /// given for each of them, row after row.
    pub fn mark(&mut self, w: Window, edges: &Vec<Edges>)
        requires
            old(self).wf(),
            w.within(4 * old(self).size_x, 4 * old(self).size_y),
            edges@.len() == w.width() * w.height(),
        ensures
            final(self).wf(),
            final(self).size_x == old(self).size_x,
            final(self).size_y == old(self).size_y,
            marked(*old(self), *final(self), w, edges@),
    {
        let ghost pre = *self;
        let sw = 4 * self.size_x;
        let len = edges.len();
        let mut y: usize = w.y0;
        let mut k: usize = 0;
        assert(0 * w.width() == 0) by (nonlinear_arith);
        while y < w.y1
            invariant
                pre.wf(),
                self.wf(),
                self.size_x == pre.size_x,
                self.size_y == pre.size_y,
                sw == 4 * self.size_x,
                w.within(4 * pre.size_x, 4 * pre.size_y),
                edges@.len() == w.width() * w.height(),
                len == edges@.len(),
                w.y0 <= y <= w.y1,
                k == (y - w.y0) * w.width(),
                forall|gx: int, gy: int|
                    #![trigger self.sample(gx, gy)]
                    0 <= gx < 4 * pre.size_x && 0 <= gy < 4 * pre.size_y ==> self.sample(gx, gy)
                        == (pre.sample(gx, gy) || (w.has(gx, gy) && gy < y && inside_spec(
                        edges@[w.place(gx, gy)],
                    ))),
            decreases w.y1 - y,
        {
            let mut x: usize = w.x0;
            while x < w.x1
                invariant
                    pre.wf(),
                    self.wf(),
                    self.size_x == pre.size_x,
                    self.size_y == pre.size_y,
                    sw == 4 * self.size_x,
                    w.within(4 * pre.size_x, 4 * pre.size_y),
                    edges@.len() == w.width() * w.height(),
                    len == edges@.len(),
                    w.y0 <= y < w.y1,
                    w.x0 <= x <= w.x1,
                    k == (y - w.y0) * w.width() + (x - w.x0),
                    forall|gx: int, gy: int|
                        #![trigger self.sample(gx, gy)]
                        0 <= gx < 4 * pre.size_x && 0 <= gy < 4 * pre.size_y ==> self.sample(
                            gx,
                            gy,
                        ) == (pre.sample(gx, gy) || (w.has(gx, gy) && (gy < y || (gy == y && gx
                            < x)) && inside_spec(edges@[w.place(gx, gy)]))),
                decreases w.x1 - x,
            {
                let ghost mid = *self;
                proof {
                    lemma_place(x - w.x0, y - w.y0, w.width(), w.height());
                    lemma_place(x as int, y as int, sw as int, 4 * pre.size_y);
                }
                if inside(edges[k]) {
                    let at = cell_index(x, y, sw, self.samples.len());
                    self.samples.set(at, true);
                }
                proof {
                    assert forall|gx: int, gy: int|
                        #![trigger self.sample(gx, gy)]
                        0 <= gx < 4 * pre.size_x && 0 <= gy < 4 * pre.size_y implies self.sample(
                        gx,
                        gy,
                    ) == (pre.sample(gx, gy) || (w.has(gx, gy) && (gy < y || (gy == y && gx < x
                        + 1)) && inside_spec(edges@[w.place(gx, gy)]))) by {
                        lemma_place(gx, gy, sw as int, 4 * pre.size_y);
                        assert(mid.sample(gx, gy) == (pre.sample(gx, gy) || (w.has(gx, gy) && (gy
                            < y || (gy == y && gx < x)) && inside_spec(edges@[w.place(gx, gy)]))));
                    }
                }
                x = x + 1;
                k = k + 1;
            }
            assert((y - w.y0) * w.width() + w.width() == (y + 1 - w.y0) * w.width())
                by (nonlinear_arith);
            y = y + 1;
        }
    }

    /// How many of the first `n` samples of a cell are covered.
    pub open spec fn covered_samples(&self, x: int, y: int, n: int) -> int
        decreases n,
    {
        if n <= 0 {
            0
        } else {
            self.covered_samples(x, y, n - 1) + if self.sample(
                4 * x + (n - 1) % 4,
                4 * y + (n - 1) / 4,
            ) {
                1int
            } else {
                0
            }
        }
    }

    pub open spec fn is_covered(&self, x: int, y: int) -> bool {
        self.covered_samples(x, y, 16) >= COVERED_SAMPLES
    }

    /// Is the cell covered, all but a rest?
    pub fn covered(&self, x: usize, y: usize) -> (b: bool)
        requires
            self.wf(),
            x < self.size_x,
            y < self.size_y,
        ensures
            b == self.is_covered(x as int, y as int),
    {
        let sw = 4 * self.size_x;
        let mut count: u32 = 0;
        let mut n: usize = 0;
        while n < 16
            invariant
                self.wf(),
                x < self.size_x,
                y < self.size_y,
                sw == 4 * self.size_x,
                n <= 16,
                count <= n,
                count == self.covered_samples(x as int, y as int, n as int),
            decreases 16 - n,
        {
            let gx = 4 * x + n % 4;
            let gy = 4 * y + n / 4;
            proof {
                lemma_place(gx as int, gy as int, sw as int, 4 * self.size_y);
            }
            if self.samples[cell_index(gx, gy, sw, self.samples.len())] {
                count = count + 1;
            }
            n = n + 1;
        }
        count >= COVERED_SAMPLES
    }
}

proof fn lemma_marking_adds(
    pre: Coverage,
    post: Coverage,
    w: Window,
    edges: Seq<Edges>,
    x: int,
    y: int,
    n: int,
)
    requires
        marked(pre, post, w, edges),
        0 <= x < pre.size_x,
        0 <= y < pre.size_y,
        0 <= n <= 16,
    ensures
        pre.covered_samples(x, y, n) <= post.covered_samples(x, y, n),
    decreases n,
{
    if n > 0 {
        lemma_marking_adds(pre, post, w, edges, x, y, n - 1);
        let (gx, gy) = (4 * x + (n - 1) % 4, 4 * y + (n - 1) / 4);
        assert(post.sample(gx, gy) == (pre.sample(gx, gy) || (w.has(gx, gy) && inside_spec(
            edges[w.place(gx, gy)],
        ))));
    }
}

/// A triangle covers more, never less.
pub proof fn law_marking_adds(pre: Coverage, post: Coverage, w: Window, edges: Seq<Edges>, x: int, y: int)
    requires
        marked(pre, post, w, edges),
        0 <= x < pre.size_x,
        0 <= y < pre.size_y,
    ensures
        pre.is_covered(x, y) ==> post.is_covered(x, y),
{
    lemma_marking_adds(pre, post, w, edges, x, y, 16);
}

// ── Tiles ───────────────────────────────────────────────────────────────
/// The part of a texture that is drawn in a cell.
#[derive(Debug, Clone, Copy, PartialEq, Eq, Structural)]
pub struct Tile {
    pub texture: u32,
    pub u0: u32,
    pub v0: u32,
    pub u1: u32,
    pub v1: u32,
}

/// The part that holds two parts of the same texture.
pub open spec fn joined(a: Tile, b: Tile) -> Tile {
    Tile {
        texture: a.texture,
        u0: float_bits::min_spec(a.u0, b.u0),
        v0: float_bits::min_spec(a.v0, b.v0),
        u1: float_bits::max_spec(a.u1, b.u1),
        v1: float_bits::max_spec(a.v1, b.v1),
    }
}

/// The tile of a cell after another triangle of it: the first texture stays,
/// and its part grows.
pub open spec fn with_triangle(slot: Option<Tile>, t: Tile) -> Option<Tile> {
    match slot {
        Some(s) => if s.texture == t.texture {
            Some(joined(s, t))
        } else {
            Some(s)
        },
        None => Some(t),
    }
}

/// Record the part of a texture that a triangle shows in the cell of its
/// centre, if that is on the map.
pub fn record_tile(
    tiles: &mut Vec<Option<Tile>>,
    size_x: usize,
    size_y: usize,
    x: i32,
    y: i32,
    t: Tile,
)
    requires
        old(tiles)@.len() == size_x * size_y,
    ensures
        final(tiles)@ == if 0 <= x < size_x && 0 <= y < size_y {
            old(tiles)@.update(
                y * size_x + x,
                with_triangle(old(tiles)@[y * size_x + x], t),
            )
        } else {
            old(tiles)@
        },
        final(tiles)@.len() == old(tiles)@.len(),
        forall|cx: int, cy: int| #[trigger]
            tile_at(final(tiles)@, size_x as int, size_y as int, cx, cy) == {
                let was = tile_at(old(tiles)@, size_x as int, size_y as int, cx, cy);
                if cx == x && cy == y && cx < size_x && cy < size_y && 0 <= cx && 0 <= cy {
                    with_triangle(was, t)
                } else {
                    was
                }
            },
{
    if x < 0 || y < 0 || x as usize >= size_x || y as usize >= size_y {
        return;
    }
    proof {
        lemma_cell_index(x as int, y as int, size_x as int, size_y as int);
    }
    let ghost tiles0 = tiles@;
    let at = cell_index(x as usize, y as usize, size_x, tiles.len());
    let new = match tiles[at] {
        Some(s) => if s.texture == t.texture {
            Some(
                Tile {
                    texture: s.texture,
                    u0: float_bits::min(s.u0, t.u0),
                    v0: float_bits::min(s.v0, t.v0),
                    u1: float_bits::max(s.u1, t.u1),
                    v1: float_bits::max(s.v1, t.v1),
                },
            )
        } else {
            Some(s)
        },
        None => Some(t),
    };
    tiles.set(at, new);
    proof {
        let (w, h) = (size_x as int, size_y as int);
        assert forall|cx: int, cy: int| #[trigger]
            tile_at(tiles@, w, h, cx, cy) == {
                let was = tile_at(tiles0, w, h, cx, cy);
                if cx == x && cy == y && cx < size_x && cy < size_y && 0 <= cx && 0 <= cy {
                    with_triangle(was, t)
                } else {
                    was
                }
            } by {
            if 0 <= cx < w && 0 <= cy < h {
                lemma_cell_index(cx, cy, w, h);
                lemma_walk(cy * size_x + cx, w, cx, cy);
                lemma_walk(y * size_x + x, w, x as int, y as int);
            }
        }
    }
}

/// The tile of a cell; none off the map.
pub open spec fn tile_at(tiles: Seq<Option<Tile>>, w: int, h: int, x: int, y: int) -> Option<Tile> {
    if 0 <= x < w && 0 <= y < h {
        tiles[y * w + x]
    } else {
        None
    }
}

/// How far rings around a cell are searched.
pub const FILL_RINGS: i32 = 10;

/// The ring around `(x, y)` that a cell lies on.
pub open spec fn ring_of(x: int, y: int, nx: int, ny: int) -> int {
    let dx = if nx < x {
        x - nx
    } else {
        nx - x
    };
    let dy = if ny < y {
        y - ny
    } else {
        ny - y
    };
    if dx < dy {
        dy
    } else {
        dx
    }
}

/// The search comes to one cell before another: ring after ring, and in a ring
/// row after row.
pub open spec fn sooner(x: int, y: int, ax: int, ay: int, bx: int, by: int) -> bool {
    let (ra, rb) = (ring_of(x, y, ax, ay), ring_of(x, y, bx, by));
    ra < rb || (ra == rb && (ay < by || (ay == by && ax < bx)))
}

/// The search for a tile around `(x, y)` ends at `(nx, ny)`: it has a tile, and
/// no cell that comes sooner has one.
pub open spec fn first_tile_at(
    tiles: Seq<Option<Tile>>,
    w: int,
    h: int,
    x: int,
    y: int,
    nx: int,
    ny: int,
) -> bool {
    &&& 1 <= ring_of(x, y, nx, ny) <= FILL_RINGS
    &&& tile_at(tiles, w, h, nx, ny) is Some
    &&& forall|mx: int, my: int|
        1 <= ring_of(x, y, mx, my) && sooner(x, y, mx, my, nx, ny) ==> #[trigger] tile_at(
            tiles,
            w,
            h,
            mx,
            my,
        ) is None
}

/// No cell in reach of the search has a tile.
pub open spec fn no_tile_near(tiles: Seq<Option<Tile>>, w: int, h: int, x: int, y: int) -> bool {
    forall|mx: int, my: int|
        1 <= ring_of(x, y, mx, my) <= FILL_RINGS ==> #[trigger] tile_at(tiles, w, h, mx, my)
            is None
}

/// The tile that the search finds.
pub open spec fn is_nearest_tile(
    tiles: Seq<Option<Tile>>,
    w: int,
    h: int,
    x: int,
    y: int,
    t: Option<Tile>,
) -> bool {
    match t {
        Some(_) => exists|nx: int, ny: int| #[trigger]
            first_tile_at(tiles, w, h, x, y, nx, ny) && t == tile_at(tiles, w, h, nx, ny),
        None => no_tile_near(tiles, w, h, x, y),
    }
}

/// The tile of the nearest other cell that has one, up to ten cells away.
pub fn nearest_tile(
    tiles: &Vec<Option<Tile>>,
    size_x: usize,
    size_y: usize,
    x: usize,
    y: usize,
) -> (t: Option<Tile>)
    requires
        size_x <= i32::MAX,
        size_y <= i32::MAX,
        tiles@.len() == size_x * size_y,
        x < size_x,
        y < size_y,
    ensures
        is_nearest_tile(tiles@, size_x as int, size_y as int, x as int, y as int, t),
{
    let cx = x as i64;
    let cy = y as i64;
    let mut r: i64 = 1;
    while r <= FILL_RINGS as i64
        invariant
            size_x <= i32::MAX,
            size_y <= i32::MAX,
            tiles@.len() == size_x * size_y,
            x < size_x,
            y < size_y,
            cx == x,
            cy == y,
            1 <= r <= FILL_RINGS + 1,
            forall|mx: int, my: int|
                1 <= ring_of(x as int, y as int, mx, my) < r ==> #[trigger] tile_at(
                    tiles@,
                    size_x as int,
                    size_y as int,
                    mx,
                    my,
                ) is None,
        decreases FILL_RINGS + 1 - r,
    {
        let mut ny: i64 = cy - r;
        while ny <= cy + r
            invariant
                size_x <= i32::MAX,
                size_y <= i32::MAX,
                tiles@.len() == size_x * size_y,
                x < size_x,
                y < size_y,
                cx == x,
                cy == y,
                1 <= r <= FILL_RINGS,
                cy - r <= ny <= cy + r + 1,
                forall|mx: int, my: int|
                    1 <= ring_of(x as int, y as int, mx, my) < r ==> #[trigger] tile_at(
                        tiles@,
                        size_x as int,
                        size_y as int,
                        mx,
                        my,
                    ) is None,
                forall|mx: int, my: int|
                    ring_of(x as int, y as int, mx, my) == r && my < ny ==> #[trigger] tile_at(
                        tiles@,
                        size_x as int,
                        size_y as int,
                        mx,
                        my,
                    ) is None,
            decreases cy + r + 1 - ny,
        {
            let mut nx: i64 = cx - r;
            while nx <= cx + r
                invariant
                    size_x <= i32::MAX,
                    size_y <= i32::MAX,
                    tiles@.len() == size_x * size_y,
                    x < size_x,
                    y < size_y,
                    cx == x,
                    cy == y,
                    1 <= r <= FILL_RINGS,
                    cy - r <= ny <= cy + r,
                    cx - r <= nx <= cx + r + 1,
                    forall|mx: int, my: int|
                        1 <= ring_of(x as int, y as int, mx, my) < r ==> #[trigger] tile_at(
                            tiles@,
                            size_x as int,
                            size_y as int,
                            mx,
                            my,
                        ) is None,
                    forall|mx: int, my: int|
                        ring_of(x as int, y as int, mx, my) == r && (my < ny || (my == ny && mx
                            < nx)) ==> #[trigger] tile_at(
                            tiles@,
                            size_x as int,
                            size_y as int,
                            mx,
                            my,
                        ) is None,
                decreases cx + r + 1 - nx,
            {
                let on_ring = ny == cy - r || ny == cy + r || nx == cx - r || nx == cx + r;
                if on_ring && nx >= 0 && ny >= 0 && nx < size_x as i64 && ny < size_y as i64 {
                    proof {
                        lemma_cell_index(nx as int, ny as int, size_x as int, size_y as int);
                    }
                    let found = tiles[cell_index(nx as usize, ny as usize, size_x, tiles.len())];
                    if found.is_some() {
                        assert(first_tile_at(
                            tiles@,
                            size_x as int,
                            size_y as int,
                            x as int,
                            y as int,
                            nx as int,
                            ny as int,
                        ));
                        return found;
                    }
                }
                nx = nx + 1;
            }
            ny = ny + 1;
        }
        r = r + 1;
    }
    None
}

/// The tile that the search finds is the only one that it can find.
pub proof fn law_nearest_tile_unique(
    tiles: Seq<Option<Tile>>,
    w: int,
    h: int,
    x: int,
    y: int,
    s: Option<Tile>,
    t: Option<Tile>,
)
    requires
        is_nearest_tile(tiles, w, h, x, y, s),
        is_nearest_tile(tiles, w, h, x, y, t),
    ensures
        s == t,
{
    if s is Some && t is Some {
        let (ax, ay) = choose|nx: int, ny: int| #[trigger]
            first_tile_at(tiles, w, h, x, y, nx, ny) && s == tile_at(tiles, w, h, nx, ny);
        let (bx, by) = choose|nx: int, ny: int| #[trigger]
            first_tile_at(tiles, w, h, x, y, nx, ny) && t == tile_at(tiles, w, h, nx, ny);
        if sooner(x, y, ax, ay, bx, by) {
            assert(tile_at(tiles, w, h, ax, ay) is None);
        } else if sooner(x, y, bx, by, ax, ay) {
            assert(tile_at(tiles, w, h, bx, by) is None);
        }
    } else if s is Some {
        let (ax, ay) = choose|nx: int, ny: int| #[trigger]
            first_tile_at(tiles, w, h, x, y, nx, ny) && s == tile_at(tiles, w, h, nx, ny);
        assert(tile_at(tiles, w, h, ax, ay) is None);
    } else if t is Some {
        let (bx, by) = choose|nx: int, ny: int| #[trigger]
            first_tile_at(tiles, w, h, x, y, nx, ny) && t == tile_at(tiles, w, h, nx, ny);
        assert(tile_at(tiles, w, h, bx, by) is None);
    }
}

// ── Heights ─────────────────────────────────────────────────────────────
/// A vertex that some triangle uses: its point and its height.
#[derive(Debug, Clone, Copy, PartialEq, Eq, Structural)]
pub struct UsedVertex {
    pub x: u16,
    pub y: u16,
    pub z: u32,
}

/// The greatest height at a point among the first `n` vertices.
pub open spec fn top_z(vs: Seq<UsedVertex>, x: int, y: int, n: int) -> Option<u32>
    decreases n,
{
    if n <= 0 {
        None
    } else {
        let before = top_z(vs, x, y, n - 1);
        let v = vs[n - 1];
        if v.x == x && v.y == y {
            match before {
                Some(m) => Some(float_bits::max_spec(m, v.z)),
                None => Some(v.z),
            }
        } else {
            before
        }
    }
}

/// The table holds the greatest height at every point of the map.
pub open spec fn is_top_table(
    t: Seq<Option<u32>>,
    vs: Seq<UsedVertex>,
    w: int,
    h: int,
    n: int,
) -> bool {
    &&& t.len() == w * h
    &&& forall|x: int, y: int|
        0 <= x < w && 0 <= y < h ==> #[trigger] t[y * w + x] == top_z(vs, x, y, n)
}

/// The greatest height of the triangles at each point of the map, row after
/// row; none where no triangle has a corner.
pub fn top_heights(vs: &Vec<UsedVertex>, size_x: usize, size_y: usize) -> (t: Vec<Option<u32>>)
    requires
        size_x <= i32::MAX,
        size_y <= i32::MAX,
        (size_x + 1) * (size_y + 1) <= usize::MAX,
    ensures
        is_top_table(t@, vs@, size_x + 1, size_y + 1, vs@.len() as int),
{
    let w = size_x + 1;
    let h = size_y + 1;
    let len = w * h;
    let mut t: Vec<Option<u32>> = Vec::new();
    let mut i: usize = 0;
    while i < len
        invariant
            i <= len,
            t@.len() == i,
            forall|k: int| 0 <= k < i ==> (#[trigger] t@[k]) is None,
        decreases len - i,
    {
        t.push(None);
        i = i + 1;
    }
    proof {
        assert forall|x: int, y: int| 0 <= x < w && 0 <= y < h implies #[trigger] t@[y * w + x]
            == top_z(vs@, x, y, 0) by {
            lemma_place(x, y, w as int, h as int);
        }
    }
    let mut n: usize = 0;
    while n < vs.len()
        invariant
            w == size_x + 1,
            h == size_y + 1,
            n <= vs@.len(),
            is_top_table(t@, vs@, w as int, h as int, n as int),
        decreases vs.len() - n,
    {
        let v = vs[n];
        let x = v.x as usize;
        let y = v.y as usize;
        let ghost before = t@;
        if x < w && y < h {
            proof {
                lemma_place(x as int, y as int, w as int, h as int);
            }
            let at = cell_index(x, y, w, t.len());
            let new = match t[at] {
                Some(m) => Some(float_bits::max(m, v.z)),
                None => Some(v.z),
            };
            t.set(at, new);
        }
        proof {
            assert forall|px: int, py: int| 0 <= px < w && 0 <= py < h implies #[trigger] t@[py * w
                + px] == top_z(vs@, px, py, n + 1) by {
                lemma_place(px, py, w as int, h as int);
                assert(before[py * w + px] == top_z(vs@, px, py, n as int));
            }
        }
        n = n + 1;
    }
    t
}

// ── Surfaces over the terrain ───────────────────────────────────────────
/// A triangle of a surface, by its vertex numbers.
#[derive(Debug, Clone, Copy, PartialEq, Eq, Structural)]
pub struct SurfaceTri {
    pub a: u16,
    pub b: u16,
    pub c: u16,
}

/// A surface that lies over the terrain.
#[derive(Debug)]
pub struct Surface {
    /// How far the surface is moved.
    pub disp_x: u32,
    pub disp_y: u32,
    pub triangles: Vec<SurfaceTri>,
}

/// The header of a surface has this many bytes.
pub const SURFACE_HEADER: usize = 32;

/// Where the vertex numbers of a surface start.
pub open spec fn surface_indices_at(raw: Seq<u8>, vert_size: int) -> int {
    SURFACE_HEADER + u32_at(raw, 12) * vert_size
}

/// The data holds the header, the vertices and the vertex numbers that it says.
pub open spec fn is_surface(raw: Seq<u8>, vert_size: int) -> bool {
    raw.len() >= SURFACE_HEADER && surface_indices_at(raw, vert_size) + u32_at(raw, 16)
        <= raw.len()
}

pub open spec fn surface_index(raw: Seq<u8>, vert_size: int, k: int) -> u16 {
    u16_at(raw, surface_indices_at(raw, vert_size) + 2 * k)
}

/// A triangle has three corners that differ and exist.
pub open spec fn is_triangle(t: SurfaceTri, vertices: int) -> bool {
    t.a != t.b && t.b != t.c && t.a != t.c && t.a < vertices && t.b < vertices && t.c < vertices
}

/// The triangles of the first `n` places of a strip: three numbers in a row
/// make one, unless it is none.
pub open spec fn strip_triangles(raw: Seq<u8>, vert_size: int, n: int) -> Seq<SurfaceTri>
    decreases n,
{
    if n <= 0 {
        Seq::empty()
    } else {
        let before = strip_triangles(raw, vert_size, n - 1);
        let t = SurfaceTri {
            a: surface_index(raw, vert_size, n - 1),
            b: surface_index(raw, vert_size, n),
            c: surface_index(raw, vert_size, n + 1),
        };
        if is_triangle(t, u32_at(raw, 12) as int) {
            before.push(t)
        } else {
            before
        }
    }
}

/// Read a surface; `None` where the data is too short for what it says.
pub fn parse_surface(raw: &[u8], vert_size: u32) -> (r: Option<Surface>)
    ensures
        match r {
            Some(s) => is_surface(raw@, vert_size as int) && s.disp_x == u32_at(raw@, 24)
                && s.disp_y == u32_at(raw@, 28) && s.triangles@ == strip_triangles(
                raw@,
                vert_size as int,
                u32_at(raw@, 16) as int / 2 - 2,
            ),
            None => !is_surface(raw@, vert_size as int),
        },
{
    let len = raw.len();
    if len < SURFACE_HEADER {
        return None;
    }
    let vertices: u32 = get_u32(raw, 12);
    let index_bytes: u32 = get_u32(raw, 16);
    assert(vertices * vert_size <= 0xffff_ffff * 0xffff_ffff) by (nonlinear_arith)
        requires
            vertices <= 0xffff_ffff,
            vert_size <= 0xffff_ffff,
    ;
    let end: u128 = 32 + (vertices as u128) * (vert_size as u128);
    if end + index_bytes as u128 > len as u128 {
        return None;
    }
    let start = end as usize;
    let count: u32 = index_bytes / 2;
    let mut triangles: Vec<SurfaceTri> = Vec::new();
    let mut k: u32 = 0;
    while k < count && count - k > 2
        invariant
            len == raw@.len(),
            is_surface(raw@, vert_size as int),
            start == surface_indices_at(raw@, vert_size as int),
            vertices == u32_at(raw@, 12),
            index_bytes == u32_at(raw@, 16),
            count == index_bytes / 2,
            start + index_bytes <= len,
            k <= count,
            k + 2 <= count || k == 0,
            triangles@ == strip_triangles(raw@, vert_size as int, k as int),
        decreases count - k,
    {
        let at = start + 2 * k as usize;
        let t = SurfaceTri {
            a: get_u16(raw, at),
            b: get_u16(raw, at + 2),
            c: get_u16(raw, at + 4),
        };
        if t.a != t.b && t.b != t.c && t.a != t.c && (t.a as u32) < vertices && (t.b as u32)
            < vertices && (t.c as u32) < vertices {
            triangles.push(t);
        }
        k = k + 1;
    }
    Some(Surface { disp_x: get_u32(raw, 24), disp_y: get_u32(raw, 28), triangles })
}

/// The position of a vertex of a surface, before the surface is moved.
pub fn surface_vertex(raw: &[u8], vert_size: u32, v: u16) -> (p: Pos3)
    requires
        is_surface(raw@, vert_size as int),
        v < u32_at(raw@, 12),
        vert_size >= 12,
    ensures
        ({
            let at = SURFACE_HEADER + v * vert_size;
            p == (Pos3 {
                x: u32_at(raw@, at),
                y: u32_at(raw@, at + 4),
                z: u32_at(raw@, at + 8),
            })
        }),
{
    let len = raw.len();
    proof {
        let n = u32_at(raw@, 12);
        assert(v * vert_size + vert_size <= n * vert_size) by (nonlinear_arith)
            requires
                v + 1 <= n,
                0 <= vert_size,
        ;
        assert(0 <= v * vert_size) by (nonlinear_arith)
            requires
                0 <= v,
                0 <= vert_size,
        ;
    }
    let at = SURFACE_HEADER + (v as usize) * (vert_size as usize);
    Pos3 { x: get_u32(raw, at), y: get_u32(raw, at + 4), z: get_u32(raw, at + 8) }
}

/// The lowest surface over a cell after another one at height `z`.
pub open spec fn lowered(floor: Option<u32>, z: u32) -> Option<u32> {
    match floor {
        Some(m) => Some(float_bits::min_spec(m, z)),
        None => Some(z),
    }
}

/// The cells of a rectangle that lie in a triangle have it over them now.
pub open spec fn lowered_under(
    pre: Seq<Option<u32>>,
    post: Seq<Option<u32>>,
    size_x: int,
    size_y: int,
    w: Window,
    edges: Seq<Edges>,
    z: u32,
) -> bool {
    &&& post.len() == pre.len()
    &&& forall|x: int, y: int|
        0 <= x < size_x && 0 <= y < size_y ==> #[trigger] post[y * size_x + x] == if w.has(x, y)
            && inside_spec(edges[w.place(x, y)]) {
            lowered(pre[y * size_x + x], z)
        } else {
            pre[y * size_x + x]
        }
}

/// Put a triangle of a surface, with its least height, over the cells whose
/// centres lie in it.
pub fn lower_floor(
    floor: &mut Vec<Option<u32>>,
    size_x: usize,
    size_y: usize,
    w: Window,
    edges: &Vec<Edges>,
    z: u32,
)
    requires
        old(floor)@.len() == size_x * size_y,
        w.within(size_x as int, size_y as int),
        edges@.len() == w.width() * w.height(),
    ensures
        lowered_under(
            old(floor)@,
            final(floor)@,
            size_x as int,
            size_y as int,
            w,
            edges@,
            z,
        ),
{
    let ghost pre = floor@;
    let len = edges.len();
    let mut y: usize = w.y0;
    let mut k: usize = 0;
    assert(0 * w.width() == 0) by (nonlinear_arith);
    while y < w.y1
        invariant
            pre.len() == size_x * size_y,
            floor@.len() == pre.len(),
            w.within(size_x as int, size_y as int),
            edges@.len() == w.width() * w.height(),
            len == edges@.len(),
            w.y0 <= y <= w.y1,
            k == (y - w.y0) * w.width(),
            forall|cx: int, cy: int|
                0 <= cx < size_x && 0 <= cy < size_y ==> #[trigger] floor@[cy * size_x + cx]
                    == if w.has(cx, cy) && cy < y && inside_spec(edges@[w.place(cx, cy)]) {
                    lowered(pre[cy * size_x + cx], z)
                } else {
                    pre[cy * size_x + cx]
                },
        decreases w.y1 - y,
    {
        let mut x: usize = w.x0;
        while x < w.x1
            invariant
                pre.len() == size_x * size_y,
                floor@.len() == pre.len(),
                w.within(size_x as int, size_y as int),
                edges@.len() == w.width() * w.height(),
                len == edges@.len(),
                w.y0 <= y < w.y1,
                w.x0 <= x <= w.x1,
                k == (y - w.y0) * w.width() + (x - w.x0),
                forall|cx: int, cy: int|
                    0 <= cx < size_x && 0 <= cy < size_y ==> #[trigger] floor@[cy * size_x + cx]
                        == if w.has(cx, cy) && (cy < y || (cy == y && cx < x)) && inside_spec(
                        edges@[w.place(cx, cy)],
                    ) {
                        lowered(pre[cy * size_x + cx], z)
                    } else {
                        pre[cy * size_x + cx]
                    },
            decreases w.x1 - x,
        {
            let ghost mid = floor@;
            proof {
                lemma_place(x - w.x0, y - w.y0, w.width(), w.height());
                lemma_place(x as int, y as int, size_x as int, size_y as int);
            }
            if inside(edges[k]) {
                let at = cell_index(x, y, size_x, floor.len());
                let new = match floor[at] {
                    Some(m) => Some(float_bits::min(m, z)),
                    None => Some(z),
                };
                floor.set(at, new);
            }
            proof {
                assert forall|cx: int, cy: int|
                    0 <= cx < size_x && 0 <= cy < size_y implies #[trigger] floor@[cy * size_x
                    + cx] == if w.has(cx, cy) && (cy < y || (cy == y && cx < x + 1))
                    && inside_spec(edges@[w.place(cx, cy)]) {
                    lowered(pre[cy * size_x + cx], z)
                } else {
                    pre[cy * size_x + cx]
                } by {
                    lemma_place(cx, cy, size_x as int, size_y as int);
                    assert(mid[cy * size_x + cx] == if w.has(cx, cy) && (cy < y || (cy == y && cx
                        < x)) && inside_spec(edges@[w.place(cx, cy)]) {
                        lowered(pre[cy * size_x + cx], z)
                    } else {
                        pre[cy * size_x + cx]
                    });
                }
            }
            x = x + 1;
            k = k + 1;
        }
        assert((y - w.y0) * w.width() + w.width() == (y + 1 - w.y0) * w.width())
            by (nonlinear_arith);
        y = y + 1;
    }
}

// ── The filling ─────────────────────────────────────────────────────────
/// How a hole is filled.
#[derive(Debug, Clone, Copy, PartialEq, Eq, Structural)]
pub enum FillKind {
    /// With the dark floor of a shaft, deep below the points of the cell.
    Pit,
    /// With the tile of a cell near by.
    Tiled(Tile),
    /// With the dark tone for want of a tile.
    Plain,
}

/// A filled cell: how, and the heights of its corners.
#[derive(Debug, Clone, Copy, PartialEq, Eq, Structural)]
pub struct Filler {
    pub x: usize,
    pub y: usize,
    pub kind: FillKind,
    pub corners: CellCorners,
}

/// What is known of the cells and points of a map, row after row.
#[derive(Debug)]
pub struct FillInput {
    /// The cell is covered by triangles.
    pub covered: Vec<bool>,
    /// The cell belongs to the shaft of a base.
    pub pits: Vec<bool>,
    pub tiles: Vec<Option<Tile>>,
    /// A little below the lowest surface over a cell.
    pub caps: Vec<Option<u32>>,
    /// The greatest height of the triangles at each point.
    pub tops: Vec<Option<u32>>,
}

impl FillInput {
    pub open spec fn wf(&self, map: GameMap) -> bool {
        &&& self.covered@.len() == map.size_x * map.size_y
        &&& self.pits@.len() == map.size_x * map.size_y
        &&& self.tiles@.len() == map.size_x * map.size_y
        &&& self.caps@.len() == map.size_x * map.size_y
        &&& self.tops@.len() == (map.size_x + 1) * (map.size_y + 1)
    }
}

/// The height of a corner of a filled cell: that of the triangles there, or
/// else that of the point, but not above the cap.
pub open spec fn corner_height_spec(top: Option<u32>, cap: Option<u32>, z: u32) -> u32 {
    match top {
        Some(t) => t,
        None => match cap {
            Some(c) => float_bits::min_spec(z, c),
            None => z,
        },
    }
}

pub fn corner_height(top: Option<u32>, cap: Option<u32>, z: u32) -> (h: u32)
    ensures
        h == corner_height_spec(top, cap, z),
{
    match top {
        Some(t) => t,
        None => match cap {
            Some(c) => float_bits::min(z, c),
            None => z,
        },
    }
}

/// A filled cell joins the triangles around it, and where there are none it
/// stays below the surface over it.
pub proof fn law_filling_joins_and_hides(top: Option<u32>, cap: Option<u32>, z: u32)
    ensures
        top is Some ==> corner_height_spec(top, cap, z) == top->0,
        top is None && cap is Some && !float_bits::is_nan_spec(cap->0) ==> float_bits::le_spec(
            corner_height_spec(top, cap, z),
            cap->0,
        ),
{
}

/// The height of the corner of a cell with a cap.
pub open spec fn fill_height(map: GameMap, i: FillInput, cap: Option<u32>, x: int, y: int) -> u32 {
    corner_height_spec(i.tops@[y * (map.size_x + 1) + x], cap, map.spec_point(x, y).z)
}

pub open spec fn fill_corners(map: GameMap, i: FillInput, x: int, y: int) -> CellCorners {
    let cap = i.caps@[y * map.size_x + x];
    CellCorners {
        z00: fill_height(map, i, cap, x, y),
        z10: fill_height(map, i, cap, x + 1, y),
        z01: fill_height(map, i, cap, x, y + 1),
        z11: fill_height(map, i, cap, x + 1, y + 1),
    }
}

pub open spec fn point_corners(map: GameMap, x: int, y: int) -> CellCorners {
    CellCorners {
        z00: map.spec_point(x, y).z,
        z10: map.spec_point(x + 1, y).z,
        z01: map.spec_point(x, y + 1).z,
        z11: map.spec_point(x + 1, y + 1).z,
    }
}

/// A cell to be filled: not covered, and no water.
pub open spec fn is_hole(map: GameMap, i: FillInput, x: int, y: int) -> bool {
    !i.covered@[y * map.size_x + x] && map.spec_unit(x, y).flags & CELLFLAG_WATER == 0
}

/// How a hole is filled.
pub open spec fn fills(map: GameMap, i: FillInput, x: int, y: int, f: Filler) -> bool {
    &&& f.x == x
    &&& f.y == y
    &&& if i.pits@[y * map.size_x + x] {
        f.kind == FillKind::Pit && f.corners == point_corners(map, x, y)
    } else {
        &&& f.corners == fill_corners(map, i, x, y)
        &&& match f.kind {
            FillKind::Pit => false,
            FillKind::Tiled(t) => is_nearest_tile(
                i.tiles@,
                map.size_x as int,
                map.size_y as int,
                x,
                y,
                Some(t),
            ),
            FillKind::Plain => is_nearest_tile(
                i.tiles@,
                map.size_x as int,
                map.size_y as int,
                x,
                y,
                None,
            ),
        }
    }
}

fn fill_height_at(
    map: &GameMap,
    i: &FillInput,
    cap: Option<u32>,
    x: usize,
    y: usize,
) -> (h: u32)
    requires
        map.wf(),
        i.wf(*map),
        x <= map.size_x,
        y <= map.size_y,
    ensures
        h == fill_height(*map, *i, cap, x as int, y as int),
{
    proof {
        lemma_cell_index(x as int, y as int, map.size_x + 1, map.size_y + 1);
    }
    let top = i.tops[cell_index(x, y, map.size_x + 1, i.tops.len())];
    corner_height(top, cap, map.point(x, y).z)
}

/// How a cell is filled, if it is a hole.
pub fn fill_cell(map: &GameMap, i: &FillInput, x: usize, y: usize) -> (r: Option<Filler>)
    requires
        map.wf(),
        i.wf(*map),
        x < map.size_x,
        y < map.size_y,
    ensures
        match r {
            Some(f) => is_hole(*map, *i, x as int, y as int) && fills(
                *map,
                *i,
                x as int,
                y as int,
                f,
            ),
            None => !is_hole(*map, *i, x as int, y as int),
        },
{
    proof {
        lemma_cell_index(x as int, y as int, map.size_x as int, map.size_y as int);
    }
    let at = cell_index(x, y, map.size_x, i.covered.len());
    if i.covered[at] || map.unit(x, y).flags & CELLFLAG_WATER != 0 {
        return None;
    }
    if i.pits[at] {
        let corners = CellCorners {
            z00: map.point(x, y).z,
            z10: map.point(x + 1, y).z,
            z01: map.point(x, y + 1).z,
            z11: map.point(x + 1, y + 1).z,
        };
        return Some(Filler { x, y, kind: FillKind::Pit, corners });
    }
    let kind = match nearest_tile(&i.tiles, map.size_x, map.size_y, x, y) {
        Some(t) => FillKind::Tiled(t),
        None => FillKind::Plain,
    };
    let cap = i.caps[at];
    let corners = CellCorners {
        z00: fill_height_at(map, i, cap, x, y),
        z10: fill_height_at(map, i, cap, x + 1, y),
        z01: fill_height_at(map, i, cap, x, y + 1),
        z11: fill_height_at(map, i, cap, x + 1, y + 1),
    };
    Some(Filler { x, y, kind, corners })
}

/// The numbers, in the table of cells, of the holes among the first `n` cells.
pub open spec fn holes(map: GameMap, i: FillInput, n: int) -> Seq<int>
    decreases n,
{
    if n <= 0 {
        Seq::empty()
    } else {
        let before = holes(map, i, n - 1);
        let (x, y) = ((n - 1) % (map.size_x as int), (n - 1) / (map.size_x as int));
        if is_hole(map, i, x, y) {
            before.push(n - 1)
        } else {
            before
        }
    }
}

/// Fill all holes, row after row.
pub fn fill_holes(map: &GameMap, i: &FillInput) -> (fs: Vec<Filler>)
    requires
        map.wf(),
        i.wf(*map),
    ensures
        ({
            let hs = holes(*map, *i, map.size_x * map.size_y);
            &&& fs@.len() == hs.len()
            &&& forall|k: int|
                0 <= k < fs@.len() ==> fills(
                    *map,
                    *i,
                    hs[k] % (map.size_x as int),
                    hs[k] / (map.size_x as int),
                    #[trigger] fs@[k],
                )
        }),
        is_filling(*map, *i, fs@),
{
    let mut fs: Vec<Filler> = Vec::new();
    let ghost mut n: int = 0;
    let mut y: usize = 0;
    assert(0 * map.size_x == 0) by (nonlinear_arith);
    while y < map.size_y
        invariant
            map.wf(),
            i.wf(*map),
            y <= map.size_y,
            n == y * map.size_x,
            fs@.len() == holes(*map, *i, n).len(),
            forall|k: int|
                0 <= k < fs@.len() ==> fills(
                    *map,
                    *i,
                    holes(*map, *i, n)[k] % (map.size_x as int),
                    holes(*map, *i, n)[k] / (map.size_x as int),
                    #[trigger] fs@[k],
                ),
        decreases map.size_y - y,
    {
        let mut x: usize = 0;
        while x < map.size_x
            invariant
                map.wf(),
                i.wf(*map),
                y < map.size_y,
                x <= map.size_x,
                n == y * map.size_x + x,
                fs@.len() == holes(*map, *i, n).len(),
                forall|k: int|
                    0 <= k < fs@.len() ==> fills(
                        *map,
                        *i,
                        holes(*map, *i, n)[k] % (map.size_x as int),
                        holes(*map, *i, n)[k] / (map.size_x as int),
                        #[trigger] fs@[k],
                    ),
            decreases map.size_x - x,
        {
            proof {
                lemma_place(x as int, y as int, map.size_x as int, map.size_y as int);
            }
            let ghost before = holes(*map, *i, n);
            let ghost old_fs = fs@;
            match fill_cell(map, i, x, y) {
                Some(f) => {
                    fs.push(f);
                },
                None => {},
            }
            proof {
                n = n + 1;
                let now = holes(*map, *i, n);
                assert(forall|k: int| 0 <= k < before.len() ==> now[k] == before[k]);
                assert(forall|k: int| 0 <= k < old_fs.len() ==> fs@[k] == old_fs[k]);
            }
            x = x + 1;
        }
        assert(y * map.size_x + map.size_x == (y + 1) * map.size_x) by (nonlinear_arith);
        y = y + 1;
    }
    proof {
        assert(map.size_y * map.size_x == map.size_x * map.size_y) by (nonlinear_arith);
        lemma_filling(*map, *i, fs@);
    }
    fs
}

/// The two triangles of a quad whose first corner has the number `base`.
pub fn quad_indices(base: u32) -> (q: [u32; 6])
    requires
        base <= u32::MAX - 3,
    ensures
        q@ == seq![
            base,
            (base + 1) as u32,
            (base + 2) as u32,
            (base + 2) as u32,
            (base + 1) as u32,
            (base + 3) as u32,
        ],
{
    let q = [base, base + 1, base + 2, base + 2, base + 1, base + 3];
    assert(q@ =~= seq![
        base,
        (base + 1) as u32,
        (base + 2) as u32,
        (base + 2) as u32,
        (base + 1) as u32,
        (base + 3) as u32,
    ]);
    q
}

/// The fillings that are drawn together: those with a texture, or those
/// without.
#[derive(Debug)]
pub struct FillSet {
    pub texture: Option<u32>,
    /// Their numbers among all fillings.
    pub fillers: Vec<usize>,
}

pub open spec fn fill_texture(f: Filler) -> Option<u32> {
    match f.kind {
        FillKind::Tiled(t) => Some(t.texture),
        _ => None,
    }
}

/// The numbers, among the first `n`, of the fillings with a texture.
pub open spec fn fillers_with(fs: Seq<Filler>, texture: Option<u32>, n: int) -> Seq<usize>
    decreases n,
{
    if n <= 0 {
        Seq::empty()
    } else if fill_texture(fs[n - 1]) == texture {
        fillers_with(fs, texture, n - 1).push((n - 1) as usize)
    } else {
        fillers_with(fs, texture, n - 1)
    }
}

/// The sets hold the first `n` fillings: one set for each texture, and each
/// set all fillings with its texture.
pub open spec fn are_fill_sets(sets: Seq<FillSet>, fs: Seq<Filler>, n: int) -> bool {
    &&& forall|a: int, b: int|
        0 <= a < b < sets.len() ==> (#[trigger] sets[a]).texture != (#[trigger] sets[b]).texture
    &&& forall|a: int|
        0 <= a < sets.len() ==> (#[trigger] sets[a]).fillers@ == fillers_with(
            fs,
            sets[a].texture,
            n,
        ) && sets[a].fillers@.len() > 0
    &&& forall|k: int|
        0 <= k < n ==> exists|a: int|
            0 <= a < sets.len() && (#[trigger] sets[a]).texture == fill_texture(
                #[trigger] fs[k],
            )
}

fn set_position(sets: &Vec<FillSet>, texture: Option<u32>) -> (r: Option<usize>)
    ensures
        match r {
            Some(k) => k < sets@.len() && sets@[k as int].texture == texture,
            None => forall|k: int|
                0 <= k < sets@.len() ==> (#[trigger] sets@[k]).texture != texture,
        },
{
    let mut k: usize = 0;
    while k < sets.len()
        invariant
            k <= sets@.len(),
            forall|j: int| 0 <= j < k ==> (#[trigger] sets@[j]).texture != texture,
        decreases sets.len() - k,
    {
        if sets[k].texture == texture {
            return Some(k);
        }
        k = k + 1;
    }
    None
}

proof fn lemma_no_fillers(fs: Seq<Filler>, texture: Option<u32>, n: int)
    requires
        forall|k: int| 0 <= k < n ==> fill_texture(#[trigger] fs[k]) != texture,
    ensures
        fillers_with(fs, texture, n).len() == 0,
    decreases n,
{
    if n > 0 {
        lemma_no_fillers(fs, texture, n - 1);
    }
}

/// Sort the fillings by texture.
pub fn fill_sets(fs: &Vec<Filler>) -> (sets: Vec<FillSet>)
    ensures
        are_fill_sets(sets@, fs@, fs@.len() as int),
{
    let mut sets: Vec<FillSet> = Vec::new();
    let mut n: usize = 0;
    while n < fs.len()
        invariant
            n <= fs@.len(),
            are_fill_sets(sets@, fs@, n as int),
        decreases fs.len() - n,
    {
        let texture = match fs[n].kind {
            FillKind::Tiled(t) => Some(t.texture),
            FillKind::Pit => None,
            FillKind::Plain => None,
        };
        let ghost old_sets = sets@;
        match set_position(&sets, texture) {
            Some(a) => {
                sets[a].fillers.push(n);
                proof {
                    assert forall|k: int| 0 <= k < n + 1 implies exists|b: int|
                        0 <= b < sets@.len() && (#[trigger] sets@[b]).texture == fill_texture(
                            #[trigger] fs@[k],
                        ) by {
                        if k < n {
                            let b = choose|b: int|
                                0 <= b < old_sets.len() && (#[trigger] old_sets[b]).texture
                                    == fill_texture(fs@[k]);
                            assert(sets@[b].texture == fill_texture(fs@[k]));
                        } else {
                            assert(sets@[a as int].texture == fill_texture(fs@[k]));
                        }
                    }
                    assert forall|b: int| 0 <= b < sets@.len() implies (
                    #[trigger] sets@[b]).fillers@ == fillers_with(
                        fs@,
                        sets@[b].texture,
                        n + 1,
                    ) && sets@[b].fillers@.len() > 0 by {
                        assert(old_sets[b].fillers@ == fillers_with(
                            fs@,
                            old_sets[b].texture,
                            n as int,
                        ));
                    }
                    assert forall|b: int, c: int| 0 <= b < c < sets@.len() implies (
                    #[trigger] sets@[b]).texture != (#[trigger] sets@[c]).texture by {
                        assert(old_sets[b].texture != old_sets[c].texture);
                    }
                }
            },
            None => {
                proof {
                    assert forall|k: int| 0 <= k < n implies fill_texture(#[trigger] fs@[k])
                        != texture by {
                        let b = choose|b: int|
                            0 <= b < old_sets.len() && (#[trigger] old_sets[b]).texture
                                == fill_texture(fs@[k]);
                        assert(old_sets[b].texture != texture);
                    }
                    lemma_no_fillers(fs@, texture, n as int);
                }
                let mut fillers: Vec<usize> = Vec::new();
                fillers.push(n);
                assert(fillers@ =~= fillers_with(fs@, texture, n + 1));
                sets.push(FillSet { texture, fillers });
                proof {
                    assert forall|k: int| 0 <= k < n + 1 implies exists|b: int|
                        0 <= b < sets@.len() && (#[trigger] sets@[b]).texture == fill_texture(
                            #[trigger] fs@[k],
                        ) by {
                        if k < n {
                            let b = choose|b: int|
                                0 <= b < old_sets.len() && (#[trigger] old_sets[b]).texture
                                    == fill_texture(fs@[k]);
                            assert(sets@[b].texture == fill_texture(fs@[k]));
                        } else {
                            assert(sets@[old_sets.len() as int].texture == fill_texture(fs@[k]));
                        }
                    }
                    assert forall|b: int| 0 <= b < sets@.len() implies (
                    #[trigger] sets@[b]).fillers@ == fillers_with(
                        fs@,
                        sets@[b].texture,
                        n + 1,
                    ) && sets@[b].fillers@.len() > 0 by {
                        if b < old_sets.len() {
                            assert(sets@[b] == old_sets[b]);
                        }
                    }
                    assert forall|b: int, c: int| 0 <= b < c < sets@.len() implies (
                    #[trigger] sets@[b]).texture != (#[trigger] sets@[c]).texture by {
                        assert(sets@[b] == old_sets[b]);
                        if c < old_sets.len() {
                            assert(sets@[c] == old_sets[c]);
                        }
                    }
                }
            },
        }
        n = n + 1;
    }
    sets
}

/// The texture that a set of fillings is drawn with; `None` for the dark tone.
pub fn fill_atlas(texture: Option<u32>, textures: usize) -> (t: Option<usize>)
    ensures
        t == match texture {
            Some(x) => if x < textures {
                Some(x as usize)
            } else {
                None
            },
            None => None,
        },
{
    match texture {
        Some(x) => if (x as u64) < textures as u64 {
            Some(x as usize)
        } else {
            None
        },
        None => None,
    }
}

// ── Laws ────────────────────────────────────────────────────────────────
/// A batch with triangles is drawn with its texture if that texture is there;
/// one that names none only hides.
pub proof fn law_batches_drawn(texture: u32, indices: int, textures: int)
    requires
        0 <= indices,
        0 <= textures < u32::MAX,
    ensures
        ({
            let u = batch_use_spec(texture, indices, textures);
            &&& u is Opaque <==> indices > 0 && texture < textures
            &&& u is Opaque ==> u->Opaque_0 == texture
            &&& u == BatchUse::DepthOnly <==> indices > 0 && textures > 0 && texture == u32::MAX
        }),
{
}

/// A clipped range holds the numbers of the range that lie on the map, and no
/// others.
pub proof fn law_clip_is_overlap(a: int, b: int, n: int, x: int)
    requires
        0 <= n,
    ensures
        clip_spec(a, b, n).0 <= x < clip_spec(a, b, n).1 <==> a <= x < b && 0 <= x < n,
        0 <= clip_spec(a, b, n).0 <= clip_spec(a, b, n).1 <= n,
{
}

/// The values of a window stand row after row from its first corner on.
pub proof fn law_window_row_after_row(w: Window, x: int, y: int)
    requires
        w.has(x, y),
    ensures
        w.place(w.x0 as int, w.y0 as int) == 0,
        0 <= w.place(x, y) < (w.x1 - w.x0) * (w.y1 - w.y0),
        w.has(x + 1, y) ==> w.place(x + 1, y) == w.place(x, y) + 1,
        !w.has(x + 1, y) && w.has(w.x0 as int, y + 1) ==> w.place(w.x0 as int, y + 1) == w.place(
            x,
            y,
        ) + 1,
{
    let (dx, dy, c, r) = (x - w.x0, y - w.y0, w.x1 - w.x0, w.y1 - w.y0);
    assert(0 <= dy * c + dx < c * r) by (nonlinear_arith)
        requires
            0 <= dx < c,
            0 <= dy < r,
    ;
    assert(c * r == r * c) by (nonlinear_arith);
    assert((dy + 1) * c == dy * c + c) by (nonlinear_arith);
}

/// A point lies inside if it is on one side of all three edges or on the edges
/// themselves, whichever way round they run; it lies outside if two edges have
/// it on different sides.
pub proof fn law_inside(e: Edges)
    ensures
        inside_spec(e) == inside_spec((Edges { e0: e.e1, e1: e.e2, e2: e.e0 })),
        inside_spec(e) == inside_spec((Edges { e0: e.e1, e1: e.e0, e2: e.e2 })),
        float_bits::lt_spec(0, e.e0) && float_bits::lt_spec(e.e1, 0) ==> !inside_spec(e),
        float_bits::is_nan_spec(e.e0) ==> !inside_spec(e),
        float_bits::le_spec(0, e.e0) && float_bits::le_spec(0, e.e1) && float_bits::le_spec(0, e.e2)
            ==> inside_spec(e),
        float_bits::le_spec(e.e0, 0) && float_bits::le_spec(e.e1, 0) && float_bits::le_spec(e.e2, 0)
            ==> inside_spec(e),
{
}

impl Coverage {
    /// Sample `i` of a cell's sixteen, four to a row.
    pub open spec fn cell_sample(&self, x: int, y: int, i: int) -> bool {
        self.sample(4 * x + i % 4, 4 * y + i / 4)
    }

    proof fn lemma_samples_missed(&self, x: int, y: int, n: int, a: int, b: int, c: int)
        requires
            0 <= a < b < c < 16,
            0 <= n <= 16,
        ensures
            !self.cell_sample(x, y, a) && !self.cell_sample(x, y, b) && !self.cell_sample(x, y, c)
                ==> self.covered_samples(x, y, n) <= n - (if a < n {
                1int
            } else {
                0
            }) - (if b < n {
                1int
            } else {
                0
            }) - (if c < n {
                1int
            } else {
                0
            }),
            (forall|i: int|
                0 <= i < 16 && i != a && i != b ==> #[trigger] self.cell_sample(x, y, i))
                ==> self.covered_samples(x, y, n) >= n - (if a < n {
                1int
            } else {
                0
            }) - (if b < n {
                1int
            } else {
                0
            }),
        decreases n,
    {
        if n > 0 {
            self.lemma_samples_missed(x, y, n - 1, a, b, c);
            assert(self.cell_sample(x, y, n - 1) == self.sample(
                4 * x + (n - 1) % 4,
                4 * y + (n - 1) / 4,
            ));
        }
    }

    /// A cell is covered if it misses two of its samples, and not if it misses
    /// three.
    pub proof fn law_two_samples_may_miss(&self, x: int, y: int, a: int, b: int, c: int)
        requires
            0 <= a < b < c < 16,
        ensures
            (forall|i: int|
                0 <= i < 16 && i != a && i != b ==> #[trigger] self.cell_sample(x, y, i))
                ==> self.is_covered(x, y),
            !self.cell_sample(x, y, a) && !self.cell_sample(x, y, b) && !self.cell_sample(x, y, c)
                ==> !self.is_covered(x, y),
    {
        self.lemma_samples_missed(x, y, 16, a, b, c);
    }
}

/// Marking covers the samples of the window that lie inside, and takes no
/// sample away.
pub proof fn law_marked_samples(
    pre: Coverage,
    post: Coverage,
    w: Window,
    edges: Seq<Edges>,
    gx: int,
    gy: int,
)
    requires
        marked(pre, post, w, edges),
        0 <= gx < 4 * pre.size_x,
        0 <= gy < 4 * pre.size_y,
    ensures
        pre.sample(gx, gy) ==> post.sample(gx, gy),
        !(w.x0 <= gx < w.x1 && w.y0 <= gy < w.y1) ==> post.sample(gx, gy) == pre.sample(gx, gy),
        w.x0 <= gx < w.x1 && w.y0 <= gy < w.y1 && !pre.sample(gx, gy) ==> post.sample(gx, gy)
            == inside_spec(edges[(gy - w.y0) * (w.x1 - w.x0) + (gx - w.x0)]),
{
    assert(post.sample(gx, gy) == (pre.sample(gx, gy) || (w.has(gx, gy) && inside_spec(
        edges[w.place(gx, gy)],
    ))));
}

/// A cell's tile reaches over all its triangles of the texture that came first;
/// triangles of another texture do not touch it.
pub proof fn law_tile_reaches_over(slot: Option<Tile>, t: Tile)
    requires
        !float_bits::is_nan_spec(t.u0) && !float_bits::is_nan_spec(t.v0)
            && !float_bits::is_nan_spec(t.u1) && !float_bits::is_nan_spec(t.v1),
        slot is Some ==> !float_bits::is_nan_spec(slot->0.u0) && !float_bits::is_nan_spec(
            slot->0.v0,
        ) && !float_bits::is_nan_spec(slot->0.u1) && !float_bits::is_nan_spec(slot->0.v1),
    ensures
        slot is None ==> with_triangle(slot, t) == Some(t),
        slot is Some && slot->0.texture != t.texture ==> with_triangle(slot, t) == slot,
        slot is Some && slot->0.texture == t.texture ==> {
            let (s, r) = (slot->0, with_triangle(slot, t)->0);
            &&& with_triangle(slot, t) is Some
            &&& r.texture == t.texture
            &&& float_bits::le_spec(r.u0, s.u0) && float_bits::le_spec(r.u0, t.u0)
            &&& float_bits::le_spec(r.v0, s.v0) && float_bits::le_spec(r.v0, t.v0)
            &&& float_bits::le_spec(s.u1, r.u1) && float_bits::le_spec(t.u1, r.u1)
            &&& float_bits::le_spec(s.v1, r.v1) && float_bits::le_spec(t.v1, r.v1)
            &&& r.u0 == s.u0 || r.u0 == t.u0
            &&& r.v0 == s.v0 || r.v0 == t.v0
            &&& r.u1 == s.u1 || r.u1 == t.u1
            &&& r.v1 == s.v1 || r.v1 == t.v1
        },
{
}

/// Cell `(nx, ny)` is at most `r` cells off `(x, y)` either way.
pub open spec fn at_most(x: int, y: int, nx: int, ny: int, r: int) -> bool {
    -r <= nx - x <= r && -r <= ny - y <= r
}

/// The tile found for a cell is that of a cell with a tile, at most ten cells
/// off either way, and no other such cell is nearer; of equally near ones it is
/// the first row by row. None is found only where there is none.
pub proof fn law_nearest_tile(
    tiles: Seq<Option<Tile>>,
    w: int,
    h: int,
    x: int,
    y: int,
    t: Option<Tile>,
    mx: int,
    my: int,
)
    requires
        is_nearest_tile(tiles, w, h, x, y, t),
        0 <= mx < w,
        0 <= my < h,
        mx != x || my != y,
        -10 <= mx - x <= 10,
        -10 <= my - y <= 10,
        tiles[my * w + mx] is Some,
    ensures
        t is Some,
        exists|nx: int, ny: int|
            {
                &&& 0 <= nx < w && 0 <= ny < h
                &&& nx != x || ny != y
                &&& #[trigger] tiles[ny * w + nx] == t
                &&& forall|r: int| #[trigger]
                    at_most(x, y, mx, my, r) ==> at_most(x, y, nx, ny, r)
                &&& ring_of(x, y, nx, ny) == ring_of(x, y, mx, my) ==> ny < my || (ny == my && nx
                    <= mx)
            },
{
    assert(tile_at(tiles, w, h, mx, my) is Some);
    assert(1 <= ring_of(x, y, mx, my) <= FILL_RINGS);
    if t is Some {
        let (nx, ny) = choose|nx: int, ny: int| #[trigger]
            first_tile_at(tiles, w, h, x, y, nx, ny) && t == tile_at(tiles, w, h, nx, ny);
        assert(!sooner(x, y, mx, my, nx, ny));
        assert(tiles[ny * w + nx] == t);
    }
}

/// The height kept for a point is that of one of its vertices, and none of them
/// lies above it; a point without vertices has none.
pub proof fn law_top_is_highest(vs: Seq<UsedVertex>, x: int, y: int, n: int, i: int)
    requires
        0 <= n <= vs.len(),
        0 <= i < n ==> vs[i].x == x && vs[i].y == y && !float_bits::is_nan_spec(vs[i].z),
    ensures
        top_z(vs, x, y, n) is Some <==> exists|k: int|
            0 <= k < n && (#[trigger] vs[k]).x == x && vs[k].y == y,
        top_z(vs, x, y, n) is Some ==> exists|k: int|
            0 <= k < n && (#[trigger] vs[k]).x == x && vs[k].y == y && vs[k].z == top_z(
                vs,
                x,
                y,
                n,
            )->0,
        0 <= i < n ==> float_bits::le_spec(vs[i].z, top_z(vs, x, y, n)->0),
    decreases n,
{
    if n > 0 {
        law_top_is_highest(vs, x, y, n - 1, if i < n - 1 {
            i
        } else {
            -1
        });
        let before = top_z(vs, x, y, n - 1);
        let v = vs[n - 1];
        if before is Some {
            let k = choose|k: int|
                0 <= k < n - 1 && (#[trigger] vs[k]).x == x && vs[k].y == y && vs[k].z == before->0;
            assert(vs[k].z == before->0);
            float_bits::law_lesser_and_greater(before->0, v.z);
        }
        if v.x == x && v.y == y {
            assert(vs[n - 1].z == v.z);
        }
        if exists|k: int| 0 <= k < n && (#[trigger] vs[k]).x == x && vs[k].y == y {
            let k = choose|k: int| 0 <= k < n && (#[trigger] vs[k]).x == x && vs[k].y == y;
            if k < n - 1 {
                assert(before is Some);
            }
        }
    }
}

/// The three indices of a strip from place `k` on.
pub open spec fn strip_at(raw: Seq<u8>, vert_size: int, k: int) -> SurfaceTri {
    let at = 32 + u32_at(raw, 12) * vert_size + 2 * k;
    SurfaceTri { a: u16_at(raw, at), b: u16_at(raw, at + 2), c: u16_at(raw, at + 4) }
}

/// A strip's triangles are every three indices that follow each other, in their
/// order, but for those that repeat an index or name a vertex that is not there.
pub proof fn law_strip(raw: Seq<u8>, vert_size: int, n: int) -> (ks: Seq<int>)
    requires
        0 <= n,
    ensures
        ks.len() == strip_triangles(raw, vert_size, n).len(),
        forall|i: int, j: int| 0 <= i < j < ks.len() ==> #[trigger] ks[i] < #[trigger] ks[j],
        forall|i: int|
            0 <= i < ks.len() ==> {
                let t = strip_at(raw, vert_size, #[trigger] ks[i]);
                &&& 0 <= ks[i] < n
                &&& strip_triangles(raw, vert_size, n)[i] == t
                &&& t.a != t.b && t.b != t.c && t.a != t.c
                &&& t.a < u32_at(raw, 12) && t.b < u32_at(raw, 12) && t.c < u32_at(raw, 12)
            },
        forall|k: int|
            0 <= k < n ==> {
                let t = #[trigger] strip_at(raw, vert_size, k);
                ks.contains(k) || t.a == t.b || t.b == t.c || t.a == t.c || t.a >= u32_at(raw, 12)
                    || t.b >= u32_at(raw, 12) || t.c >= u32_at(raw, 12)
            },
    decreases n,
{
    if n == 0 {
        Seq::empty()
    } else {
        let ks = law_strip(raw, vert_size, n - 1);
        let t = SurfaceTri {
            a: surface_index(raw, vert_size, n - 1),
            b: surface_index(raw, vert_size, n),
            c: surface_index(raw, vert_size, n + 1),
        };
        assert(t == strip_at(raw, vert_size, n - 1));
        if is_triangle(t, u32_at(raw, 12) as int) {
            let r = ks.push(n - 1);
            assert forall|k: int| 0 <= k < n implies {
                let t = #[trigger] strip_at(raw, vert_size, k);
                r.contains(k) || t.a == t.b || t.b == t.c || t.a == t.c || t.a >= u32_at(raw, 12)
                    || t.b >= u32_at(raw, 12) || t.c >= u32_at(raw, 12)
            } by {
                if k == n - 1 {
                    assert(r[ks.len() as int] == k);
                } else if ks.contains(k) {
                    let i = choose|i: int| 0 <= i < ks.len() && ks[i] == k;
                    assert(r[i] == k);
                }
            }
            r
        } else {
            ks
        }
    }
}

/// A surface is whole if its header, its vertices and its indices fit.
pub proof fn law_whole_surface(raw: Seq<u8>, vert_size: int)
    requires
        raw.len() >= 32,
    ensures
        is_surface(raw, vert_size) <==> 32 + u32_at(raw, 12) * vert_size + u32_at(raw, 16)
            <= raw.len(),
{
}

/// A cell under a surface keeps the lowest of the surfaces over it; cells beside
/// it keep what they had.
pub proof fn law_floor_is_lowest(
    pre: Seq<Option<u32>>,
    post: Seq<Option<u32>>,
    size_x: int,
    size_y: int,
    w: Window,
    edges: Seq<Edges>,
    z: u32,
    x: int,
    y: int,
)
    requires
        lowered_under(pre, post, size_x, size_y, w, edges, z),
        0 <= x < size_x,
        0 <= y < size_y,
        !float_bits::is_nan_spec(z),
        pre[y * size_x + x] is Some ==> !float_bits::is_nan_spec(pre[y * size_x + x]->0),
    ensures
        ({
            let (a, b) = (pre[y * size_x + x], post[y * size_x + x]);
            let under = w.x0 <= x < w.x1 && w.y0 <= y < w.y1 && inside_spec(
                edges[(y - w.y0) * (w.x1 - w.x0) + (x - w.x0)],
            );
            &&& !under ==> b == a
            &&& under ==> b is Some && float_bits::le_spec(b->0, z)
            &&& under && a is Some ==> float_bits::le_spec(b->0, a->0) && (b == a || b == Some(z))
            &&& under && a is None ==> b == Some(z)
        }),
{
    assert(post[y * size_x + x] == if w.has(x, y) && inside_spec(edges[w.place(x, y)]) {
        lowered(pre[y * size_x + x], z)
    } else {
        pre[y * size_x + x]
    });
}

/// A corner that no triangle touches lies at the map's height, or lower where
/// a surface lies over it.
pub proof fn law_free_corner(cap: Option<u32>, z: u32)
    ensures
        corner_height_spec(None, None, z) == z,
        cap is Some && float_bits::le_spec(z, cap->0) ==> corner_height_spec(None, cap, z) == z,
        cap is Some && float_bits::lt_spec(cap->0, z) ==> corner_height_spec(None, cap, z)
            == cap->0,
{
}

/// Filled cells beside each other meet: they have the heights on their common
/// edge in common, wherever both lie under the same surface or neither does.
pub proof fn law_filling_has_no_gaps(map: GameMap, i: FillInput, x: int, y: int)
    ensures
        i.caps@[y * map.size_x + x] == i.caps@[y * map.size_x + (x + 1)] ==> fill_corners(
            map,
            i,
            x,
            y,
        ).z10 == fill_corners(map, i, x + 1, y).z00 && fill_corners(map, i, x, y).z11
            == fill_corners(map, i, x + 1, y).z01,
        i.caps@[y * map.size_x + x] == i.caps@[(y + 1) * map.size_x + x] ==> fill_corners(
            map,
            i,
            x,
            y,
        ).z01 == fill_corners(map, i, x, y + 1).z00 && fill_corners(map, i, x, y).z11
            == fill_corners(map, i, x, y + 1).z10,
        i.tops@[y * (map.size_x + 1) + x] is Some ==> fill_corners(map, i, x, y).z00
            == i.tops@[y * (map.size_x + 1) + x]->0,
        point_corners(map, x, y).z00 == map.spec_point(x, y).z,
        point_corners(map, x, y).z10 == point_corners(map, x + 1, y).z00,
        point_corners(map, x, y).z01 == point_corners(map, x, y + 1).z00,
        point_corners(map, x, y).z11 == point_corners(map, x + 1, y + 1).z00,
{
}

/// A filler stands in its cell. Over a pit it follows the points; elsewhere it
/// has the nearest tile, or none where none is near.
pub proof fn law_filler(map: GameMap, i: FillInput, x: int, y: int, f: Filler)
    requires
        fills(map, i, x, y, f),
    ensures
        f.x == x && f.y == y,
        f.kind == FillKind::Pit <==> i.pits@[y * map.size_x + x],
        f.kind == FillKind::Pit ==> f.corners == point_corners(map, x, y),
        f.kind != FillKind::Pit ==> f.corners == fill_corners(map, i, x, y),
        f.kind is Tiled ==> is_nearest_tile(
            i.tiles@,
            map.size_x as int,
            map.size_y as int,
            x,
            y,
            Some(f.kind->Tiled_0),
        ),
        f.kind == FillKind::Plain ==> is_nearest_tile(
            i.tiles@,
            map.size_x as int,
            map.size_y as int,
            x,
            y,
            None,
        ),
{
}

/// The holes are the cells that are not covered and not under water, each once,
/// row after row.
pub proof fn law_holes(map: GameMap, i: FillInput, n: int, x: int, y: int)
    requires
        0 <= n,
        0 <= x < map.size_x,
        0 <= y,
        y * map.size_x + x < n,
    ensures
        holes(map, i, n).contains(y * map.size_x + x) <==> !i.covered@[y * map.size_x + x]
            && map.spec_unit(x, y).flags & 2 == 0,
        forall|a: int, b: int|
            0 <= a < b < holes(map, i, n).len() ==> #[trigger] holes(map, i, n)[a] < #[trigger] holes(
                map,
                i,
                n,
            )[b],
        forall|a: int| 0 <= a < holes(map, i, n).len() ==> 0 <= #[trigger] holes(map, i, n)[a] < n,
{
    lemma_walk(y * map.size_x + x, map.size_x as int, x, y);
    assert(y * map.size_x >= 0) by (nonlinear_arith)
        requires
            y >= 0,
            map.size_x >= 0,
    ;
    lemma_holes(map, i, n);
    let k = y * map.size_x + x;
    assert(hole_number(map, i, k) == is_hole(map, i, x, y));
}

spec fn hole_number(map: GameMap, i: FillInput, k: int) -> bool {
    is_hole(map, i, k % (map.size_x as int), k / (map.size_x as int))
}

proof fn lemma_holes(map: GameMap, i: FillInput, n: int)
    requires
        0 <= n,
    ensures
        forall|k: int|
            0 <= k < n ==> (holes(map, i, n).contains(k) <==> #[trigger] hole_number(map, i, k)),
        forall|a: int, b: int|
            0 <= a < b < holes(map, i, n).len() ==> #[trigger] holes(map, i, n)[a] < #[trigger] holes(
                map,
                i,
                n,
            )[b],
        forall|a: int| 0 <= a < holes(map, i, n).len() ==> 0 <= #[trigger] holes(map, i, n)[a] < n,
    decreases n,
{
    if n > 0 {
        lemma_holes(map, i, n - 1);
        let was = holes(map, i, n - 1);
        let now = holes(map, i, n);
        assert(hole_number(map, i, n - 1) ==> now == was.push(n - 1));
        assert(!hole_number(map, i, n - 1) ==> now == was);
        assert forall|k: int| 0 <= k < n implies (now.contains(k) <==> #[trigger] hole_number(
            map,
            i,
            k,
        )) by {
            if k == n - 1 {
                if hole_number(map, i, k) {
                    assert(now[was.len() as int] == k);
                } else if now.contains(k) {
                    let a = choose|a: int| 0 <= a < was.len() && was[a] == k;
                    assert(was[a] < n - 1);
                }
            } else {
                if was.contains(k) {
                    let a = choose|a: int| 0 <= a < was.len() && was[a] == k;
                    assert(now[a] == k);
                }
                if now.contains(k) {
                    let a = choose|a: int| 0 <= a < now.len() && now[a] == k;
                    assert(a < was.len());
                    assert(was[a] == k);
                }
            }
        }
    }
}

/// Fillers without a tile of their own go without a texture, others with that
/// of their tile; a set holds all fillers with its texture, in their order.
pub proof fn law_fill_set(fs: Seq<Filler>, texture: Option<u32>, n: int)
    requires
        0 <= n <= fs.len() < usize::MAX,
    ensures
        picks(
            fillers_with(fs, texture, n),
            n,
            |i: int|
                if fs[i].kind is Tiled {
                    texture == Some(fs[i].kind->Tiled_0.texture)
                } else {
                    texture is None
                },
        ),
    decreases n,
{
    let ok = |i: int|
        if fs[i].kind is Tiled {
            texture == Some(fs[i].kind->Tiled_0.texture)
        } else {
            texture is None
        };
    if n > 0 {
        law_fill_set(fs, texture, n - 1);
        lemma_pick_next(fillers_with(fs, texture, n - 1), n - 1, ok);
        assert(ok(n - 1) == (fill_texture(fs[n - 1]) == texture));
    }
}

/// Every filler is in a set, and no two sets have the same texture.
pub proof fn law_every_filler_in_a_set(sets: Seq<FillSet>, fs: Seq<Filler>, k: int)
    requires
        are_fill_sets(sets, fs, fs.len() as int),
        0 <= k < fs.len() < usize::MAX,
    ensures
        exists|a: int|
            0 <= a < sets.len() && (#[trigger] sets[a]).fillers@.contains(k as usize),
        forall|a: int, b: int|
            0 <= a < b < sets.len() ==> (#[trigger] sets[a]).texture != (#[trigger] sets[b]).texture,
        forall|a: int| 0 <= a < sets.len() ==> (#[trigger] sets[a]).fillers@.len() > 0,
{
    let n = fs.len() as int;
    let texture = fill_texture(fs[k]);
    assert(exists|a: int|
        0 <= a < sets.len() && (#[trigger] sets[a]).texture == fill_texture(#[trigger] fs[k]));
    let a = choose|a: int| 0 <= a < sets.len() && (#[trigger] sets[a]).texture == texture;
    law_fill_set(fs, texture, n);
    let ok = |i: int|
        if fs[i].kind is Tiled {
            texture == Some(fs[i].kind->Tiled_0.texture)
        } else {
            texture is None
        };
    assert(ok(k));
    assert(sets[a].fillers@ == fillers_with(fs, texture, n));
    assert(sets[a].fillers@.contains(k as usize));
}

/// Every hole of the map has a filler in it, and every filler stands in a hole
/// of its own.
pub open spec fn is_filling(map: GameMap, i: FillInput, fs: Seq<Filler>) -> bool {
    &&& forall|x: int, y: int|
        0 <= x < map.size_x && 0 <= y < map.size_y && #[trigger] is_hole(map, i, x, y) ==> exists|
            k: int,
        |
            0 <= k < fs.len() && fills(map, i, x, y, #[trigger] fs[k])
    &&& forall|k: int|
        0 <= k < fs.len() ==> {
            let f = #[trigger] fs[k];
            &&& f.x < map.size_x && f.y < map.size_y
            &&& is_hole(map, i, f.x as int, f.y as int)
            &&& fills(map, i, f.x as int, f.y as int, f)
        }
    &&& forall|j: int, k: int|
        0 <= j < k < fs.len() ==> (#[trigger] fs[j]).y < (#[trigger] fs[k]).y || (fs[j].y == fs[k].y
            && fs[j].x < fs[k].x)
}

proof fn lemma_filling(map: GameMap, i: FillInput, fs: Seq<Filler>)
    requires
        map.wf(),
        ({
            let hs = holes(map, i, map.size_x * map.size_y);
            &&& fs.len() == hs.len()
            &&& forall|k: int|
                0 <= k < fs.len() ==> fills(
                    map,
                    i,
                    hs[k] % (map.size_x as int),
                    hs[k] / (map.size_x as int),
                    #[trigger] fs[k],
                )
        }),
    ensures
        is_filling(map, i, fs),
{
    let w = map.size_x as int;
    let n = map.size_x * map.size_y;
    let hs = holes(map, i, n);
    assert(n >= 0) by (nonlinear_arith)
        requires
            n == map.size_x * map.size_y,
            map.size_x >= 0,
            map.size_y >= 0,
    ;
    lemma_holes(map, i, n);
    assert forall|k: int| 0 <= k < fs.len() implies {
        let f = #[trigger] fs[k];
        &&& f.x < map.size_x && f.y < map.size_y
        &&& f.x == hs[k] % w && f.y == hs[k] / w
        &&& is_hole(map, i, f.x as int, f.y as int)
        &&& fills(map, i, f.x as int, f.y as int, f)
    } by {
        let h = hs[k];
        assert(0 <= h < n);
        assert(w > 0) by (nonlinear_arith)
            requires
                0 < n,
                n == w * map.size_y,
                map.size_y >= 0,
        ;
        vstd::arithmetic::div_mod::lemma_mod_bound(h, w);
        vstd::arithmetic::div_mod::lemma_fundamental_div_mod(h, w);
        assert(h / w < map.size_y) by (nonlinear_arith)
            requires
                h == w * (h / w) + h % w,
                0 <= h % w,
                h < w * map.size_y,
                w > 0,
        ;
        assert(hs.contains(h));
        assert(hole_number(map, i, h));
        assert(fills(map, i, h % w, h / w, fs[k]));
    }
    assert forall|x: int, y: int|
        0 <= x < map.size_x && 0 <= y < map.size_y && #[trigger] is_hole(
            map,
            i,
            x,
            y,
        ) implies exists|k: int| 0 <= k < fs.len() && fills(map, i, x, y, #[trigger] fs[k]) by {
        let h = y * map.size_x + x;
        lemma_walk(h, w, x, y);
        lemma_cell_index(x, y, w, map.size_y as int);
        assert(hole_number(map, i, h));
        assert(hs.contains(h));
        let k = choose|k: int| 0 <= k < hs.len() && hs[k] == h;
        assert(fills(map, i, x, y, fs[k]));
    }
    assert forall|j: int, k: int| 0 <= j < k < fs.len() implies (#[trigger] fs[j]).y < (
    #[trigger] fs[k]).y || (fs[j].y == fs[k].y && fs[j].x < fs[k].x) by {
        let (a, b) = (hs[j], hs[k]);
        assert(a < b);
        assert(0 <= b < n);
        assert(w > 0) by (nonlinear_arith)
            requires
                0 < n,
                n == w * map.size_y,
                map.size_y >= 0,
        ;
        vstd::arithmetic::div_mod::lemma_fundamental_div_mod(a, w);
        vstd::arithmetic::div_mod::lemma_fundamental_div_mod(b, w);
        vstd::arithmetic::div_mod::lemma_div_is_ordered(a, b, w);
    }
}

} // verus!
